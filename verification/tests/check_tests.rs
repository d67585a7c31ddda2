use cache_check::array::decode_index_block;
use cache_check::check::check;
use cache_check::check::check_hints;
use cache_check::check::check_mappings;
use cache_check::check::engine_config;
use cache_check::check::worker_thread_count;
use cache_check::check::CacheCheckOptions;
use cache_check::check::CheckHintVisitor;
use cache_check::check::CheckMappingVisitor;
use cache_check::check::MAX_CONCURRENT_IO;
use cache_check::errors::CheckError;
use cache_check::hint::decode_hint;
use cache_check::mapping::decode_mapping;
use cache_check::mapping::Mapping;
use cache_check::mapping::MAPPING_FLAG_DIRTY;
use cache_check::mapping::MAPPING_FLAG_VALID;
use cache_check::superblock::decode_superblock;
use cache_check::superblock::SUPERBLOCK_MAGIC;

fn mapping_leaf(entries: &[(u64, u32)]) -> Vec<u8> {
    let mut b = Vec::new();
    b.extend_from_slice(&(entries.len() as u32).to_le_bytes());
    for &(oblock, flags) in entries {
        b.extend_from_slice(&oblock.to_le_bytes());
        b.extend_from_slice(&flags.to_le_bytes());
    }
    b
}

fn hint_leaf(width: usize, nr: u32) -> Vec<u8> {
    let mut b = Vec::new();
    b.extend_from_slice(&nr.to_le_bytes());
    b.resize(4 + width * nr as usize, 0xabu8);
    b
}

fn superblock_bytes(version: u32, policy_hint_size: u32, mapping_root: u64, hint_root: u64) -> Vec<u8> {
    let mut b = Vec::new();
    b.extend_from_slice(&SUPERBLOCK_MAGIC.to_le_bytes());
    b.extend_from_slice(&version.to_le_bytes());
    b.extend_from_slice(&policy_hint_size.to_le_bytes());
    b.extend_from_slice(&mapping_root.to_le_bytes());
    b.extend_from_slice(&hint_root.to_le_bytes());
    b
}

fn opts() -> CacheCheckOptions {
    CacheCheckOptions {
        dev: String::from("meta.bin"),
        async_io: false,
        sb_only: false,
        skip_mappings: false,
        skip_hints: false,
        skip_discards: false,
    }
}

const VALID: u32 = MAPPING_FLAG_VALID;
const DIRTY: u32 = MAPPING_FLAG_DIRTY;

#[test]
fn mapping_codec_exact_fields() {
    let leaf = mapping_leaf(&[(0x0102030405060708, 0x0a0b0c0d)]);
    let m = decode_mapping(&leaf, 4).unwrap();
    assert_eq!(m.oblock, 0x0102030405060708);
    assert_eq!(m.flags, 0x0a0b0c0d);
}

#[test]
fn mapping_codec_short_block_fails() {
    let bytes = [0u8; 11];
    assert_eq!(decode_mapping(&bytes, 0), Err(CheckError::Decode));
    let bytes = [0u8; 16];
    assert_eq!(decode_mapping(&bytes, 5), Err(CheckError::Decode));
}

#[test]
fn superblock_codec_exact_fields() {
    let b = superblock_bytes(2, 4, 17, 33);
    let sb = decode_superblock(&b).unwrap();
    assert_eq!(sb.version, 2);
    assert_eq!(sb.policy_hint_size, 4);
    assert_eq!(sb.mapping_root, 17);
    assert_eq!(sb.hint_root, 33);
}

#[test]
fn superblock_short_fails() {
    let b = superblock_bytes(1, 4, 1, 0);
    assert_eq!(decode_superblock(&b[..31]), Err(CheckError::Superblock));
}

#[test]
fn superblock_bad_magic_fails() {
    let mut b = superblock_bytes(1, 4, 1, 0);
    b[0] ^= 0xff;
    assert_eq!(decode_superblock(&b), Err(CheckError::Superblock));
}

#[test]
fn superblock_version_zero_fails() {
    let b = superblock_bytes(0, 4, 1, 0);
    assert_eq!(decode_superblock(&b), Err(CheckError::Superblock));
}

#[test]
fn index_block_resolves_leaf_addresses() {
    let mut b = Vec::new();
    b.extend_from_slice(&2u32.to_le_bytes());
    b.extend_from_slice(&7u64.to_le_bytes());
    b.extend_from_slice(&9u64.to_le_bytes());
    assert_eq!(decode_index_block(&b), Ok(vec![7, 9]));
}

#[test]
fn index_block_truncated_fails() {
    let mut b = Vec::new();
    b.extend_from_slice(&3u32.to_le_bytes());
    b.extend_from_slice(&7u64.to_le_bytes());
    assert_eq!(decode_index_block(&b), Err(CheckError::Decode));
}

#[test]
fn hint_codec_takes_exact_payload() {
    let block = [1u8, 2, 3, 4, 5, 6];
    let h = decode_hint(&block, 1, 4).unwrap();
    assert_eq!(h.data, vec![2, 3, 4, 5]);
    assert_eq!(decode_hint(&block, 3, 4), Err(CheckError::Decode));
}

#[test]
fn mapping_visitor_records_and_finds_oblocks() {
    let mut v = CheckMappingVisitor::new(1);
    assert!(!v.seen_oblock(5));
    v.record_oblock(5);
    assert!(v.seen_oblock(5));
    assert!(!v.seen_oblock(6));
}

#[test]
fn mapping_visitor_flags_depend_on_version() {
    let m = Mapping { oblock: 1, flags: VALID | DIRTY };
    let v1 = CheckMappingVisitor::new(1);
    assert!(!v1.has_unknown_flags(&m));
    let v2 = CheckMappingVisitor::new(2);
    assert!(v2.has_unknown_flags(&m));
}

#[test]
fn mapping_visitor_visit_detects_duplicate() {
    let mut v = CheckMappingVisitor::new(1);
    assert_eq!(v.visit(0, Mapping { oblock: 5, flags: VALID | DIRTY }), Ok(()));
    assert_eq!(
        v.visit(1, Mapping { oblock: 5, flags: VALID }),
        Err(CheckError::DuplicateOriginBlock)
    );
}

#[test]
fn hint_visitor_accepts_all_hints() {
    let v = CheckHintVisitor::new(4);
    let h = decode_hint(&[9u8, 9, 9, 9], 0, 4).unwrap();
    assert_eq!(v.visit(0, h), Ok(()));
}

#[test]
fn distinct_valid_mappings_pass() {
    let leaves = vec![
        mapping_leaf(&[(1, VALID), (2, VALID | DIRTY)]),
        mapping_leaf(&[(3, VALID), (0, 0)]),
    ];
    assert_eq!(check_mappings(1, &leaves), Ok(()));
}

#[test]
fn duplicate_across_leaves_fails() {
    let leaves = vec![
        mapping_leaf(&[(1, VALID), (7, VALID)]),
        mapping_leaf(&[(7, VALID)]),
    ];
    assert_eq!(check_mappings(1, &leaves), Err(CheckError::DuplicateOriginBlock));
}

#[test]
fn duplicate_caught_wherever_the_pair_stands() {
    // The same duplicated origin block is caught with the same error however
    // the entries are arranged over the array.
    let arrangements: Vec<Vec<Vec<u8>>> = vec![
        vec![mapping_leaf(&[(7, VALID), (1, VALID), (7, VALID)])],
        vec![mapping_leaf(&[(1, VALID), (7, VALID), (7, VALID)])],
        vec![mapping_leaf(&[(7, VALID)]), mapping_leaf(&[(1, VALID)]), mapping_leaf(&[(7, VALID)])],
        vec![mapping_leaf(&[(7, VALID), (7, VALID), (1, VALID)])],
    ];
    for leaves in &arrangements {
        assert_eq!(check_mappings(1, leaves), Err(CheckError::DuplicateOriginBlock));
    }
}

#[test]
fn invalid_slots_carry_arbitrary_garbage() {
    // Slots without VALID are skipped: repeated origin blocks and garbage
    // flag bits there change nothing.
    let leaves = vec![mapping_leaf(&[
        (5, VALID),
        (5, 0xfffffffe),
        (5, DIRTY),
        (6, VALID),
    ])];
    assert_eq!(check_mappings(1, &leaves), Ok(()));
}

#[test]
fn dirty_flag_allowed_only_under_version_one() {
    let leaves = vec![mapping_leaf(&[(5, VALID | DIRTY)])];
    assert_eq!(check_mappings(1, &leaves), Ok(()));
    assert_eq!(check_mappings(2, &leaves), Err(CheckError::UnknownFlags));
    assert_eq!(check_mappings(3, &leaves), Err(CheckError::UnknownFlags));
}

#[test]
fn truncated_mapping_leaf_fails_decode() {
    let mut leaf = mapping_leaf(&[(1, VALID), (2, VALID)]);
    leaf.truncate(leaf.len() - 1);
    assert_eq!(check_mappings(1, &vec![leaf]), Err(CheckError::Decode));
}

#[test]
fn short_mapping_leaf_header_fails_decode() {
    assert_eq!(check_mappings(1, &vec![vec![0u8; 3]]), Err(CheckError::Decode));
}

#[test]
fn empty_array_passes() {
    assert_eq!(check_mappings(1, &Vec::new()), Ok(()));
    assert_eq!(check_mappings(1, &vec![mapping_leaf(&[])]), Ok(()));
}

#[test]
fn hint_leaves_must_hold_declared_entries() {
    assert_eq!(check_hints(4, &vec![hint_leaf(4, 3)]), Ok(()));
    let mut bad = hint_leaf(4, 3);
    bad.truncate(9);
    assert_eq!(check_hints(4, &vec![bad]), Err(CheckError::Decode));
}

#[test]
fn whole_check_reports_duplicate_origin_block() {
    let sb = superblock_bytes(1, 4, 1, 0);
    let leaves = vec![mapping_leaf(&[(5, VALID | DIRTY), (5, VALID)])];
    let r = check(&opts(), &sb, &leaves, &Vec::new());
    assert_eq!(r, Err(CheckError::DuplicateOriginBlock));
}

#[test]
fn whole_check_reports_unknown_flags_under_version_two() {
    let sb = superblock_bytes(2, 4, 1, 0);
    let leaves = vec![mapping_leaf(&[(5, VALID | DIRTY)])];
    let r = check(&opts(), &sb, &leaves, &Vec::new());
    assert_eq!(r, Err(CheckError::UnknownFlags));
}

#[test]
fn whole_check_passes_valid_image() {
    let sb = superblock_bytes(1, 4, 1, 2);
    let mleaves = vec![mapping_leaf(&[(5, VALID | DIRTY), (6, VALID)])];
    let hleaves = vec![hint_leaf(4, 2)];
    assert_eq!(check(&opts(), &sb, &mleaves, &hleaves), Ok(()));
}

#[test]
fn sb_only_stops_after_superblock() {
    // With sb_only set the array leaves are never walked: garbage there
    // cannot fail the check.
    let sb = superblock_bytes(1, 4, 1, 2);
    let garbage = vec![vec![0u8; 2]];
    let mut o = opts();
    o.sb_only = true;
    assert_eq!(check(&o, &sb, &garbage, &garbage), Ok(()));
    // A bad superblock still fails first.
    assert_eq!(
        check(&o, &vec![0u8; 32], &garbage, &garbage),
        Err(CheckError::Superblock)
    );
}

#[test]
fn hint_root_zero_skips_hint_phase() {
    let sb = superblock_bytes(1, 4, 1, 0);
    let mleaves = vec![mapping_leaf(&[(5, VALID)])];
    let bad_hints = vec![vec![0u8; 1]];
    let o = opts();
    assert!(!o.skip_hints);
    assert_eq!(check(&o, &sb, &mleaves, &bad_hints), Ok(()));
}

#[test]
fn skip_flags_disable_phases() {
    let sb = superblock_bytes(1, 4, 1, 2);
    let bad = vec![vec![0u8; 1]];
    let mut o = opts();
    o.skip_mappings = true;
    o.skip_hints = true;
    assert_eq!(check(&o, &sb, &bad, &bad), Ok(()));
}

#[test]
fn check_is_idempotent() {
    let sb = superblock_bytes(1, 4, 1, 0);
    let good = vec![mapping_leaf(&[(1, VALID), (2, VALID)])];
    let first = check(&opts(), &sb, &good, &Vec::new());
    let second = check(&opts(), &sb, &good, &Vec::new());
    assert_eq!(first, Ok(()));
    assert_eq!(first, second);
    let corrupt = vec![mapping_leaf(&[(1, VALID), (1, VALID)])];
    let first = check(&opts(), &sb, &corrupt, &Vec::new());
    let second = check(&opts(), &sb, &corrupt, &Vec::new());
    assert_eq!(first, Err(CheckError::DuplicateOriginBlock));
    assert_eq!(first, second);
}

#[test]
fn engine_sizing_matches_backend() {
    let a = engine_config(true);
    assert!(a.async_io);
    assert_eq!(a.concurrency, MAX_CONCURRENT_IO);
    let s = engine_config(false);
    assert!(!s.async_io);
    assert!(s.concurrency >= 8);
}

#[test]
fn worker_threads_floor_at_eight() {
    assert_eq!(worker_thread_count(1), 8);
    assert_eq!(worker_thread_count(4), 8);
    assert_eq!(worker_thread_count(6), 12);
}

#[test]
fn errors_describe_themselves() {
    assert_eq!(CheckError::DuplicateOriginBlock.describe(), "origin block already mapped");
    assert_eq!(CheckError::UnknownFlags.describe(), "unknown flags in mapping");
    assert!(!CheckError::Io.describe().is_empty());
}
