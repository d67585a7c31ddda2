//! The properties the checker guarantees, stated over whole arrays and
//! proved from the walk's definition: what passes, what is always caught,
//! what can never influence the result.

use vstd::prelude::*;
use crate::array::spec_leaf_mappings;
use crate::array::spec_leaf_wf;
use crate::check::CacheCheckOptions;
use crate::check::spec_check;
use crate::check::spec_check_mappings;
use crate::check::spec_visit_mapping;
use crate::check::spec_visit_mappings;
use crate::check::spec_walk_mapping_leaves;
use crate::errors::CheckError;
use crate::mapping::MAPPING_FLAG_DIRTY;
use crate::mapping::MAPPING_FLAG_VALID;
use crate::mapping::MAPPING_WIDTH;
use crate::mapping::Mapping;
use crate::mapping::spec_allowed_flags;
use crate::mapping::spec_flags_allowed;
use crate::superblock::spec_superblock_of;
use crate::superblock::spec_superblock_wf;

verus! {

/// Whether every leaf is well formed for entries of the given width.
pub open spec fn spec_all_leaves_wf(leaves: Seq<Seq<u8>>, width: int) -> bool {
    forall|i: int| 0 <= i < leaves.len() ==> spec_leaf_wf(leaves[i], width)
}

/// All mapping entries the leaves hold, concatenated in leaf order.
pub open spec fn spec_array_mappings(leaves: Seq<Seq<u8>>) -> Seq<Mapping>
    decreases leaves.len(),
{
    if leaves.len() == 0 {
        Seq::empty()
    } else {
        spec_leaf_mappings(leaves[0]) + spec_array_mappings(leaves.drop_first())
    }
}

/// Whether every valid entry's flags are drawn from `allowed`.
pub open spec fn spec_flags_all_allowed(entries: Seq<Mapping>, allowed: u32) -> bool {
    forall|i: int|
        0 <= i < entries.len() && entries[i].spec_is_valid() ==> spec_flags_allowed(
            entries[i],
            allowed,
        )
}

/// Whether no two valid entries claim the same origin block.
pub open spec fn spec_valid_oblocks_distinct(entries: Seq<Mapping>) -> bool {
    forall|i: int, j: int|
        0 <= i < j < entries.len() && entries[i].spec_is_valid() && entries[j].spec_is_valid()
            ==> entries[i].oblock != entries[j].oblock
}

/// Whether no valid entry's origin block is already in `seen`.
pub open spec fn spec_no_seen_collision(entries: Seq<Mapping>, seen: Set<u64>) -> bool {
    forall|i: int|
        0 <= i < entries.len() && entries[i].spec_is_valid() ==> !seen.contains(entries[i].oblock)
}

/// Visiting a concatenation is visiting the first run, then the second from
/// where the first left off.
proof fn lemma_visit_append(s1: Seq<Mapping>, s2: Seq<Mapping>, allowed: u32, seen: Set<u64>)
    ensures
        spec_visit_mappings(s1 + s2, allowed, seen) == match spec_visit_mappings(
            s1,
            allowed,
            seen,
        ) {
            Ok(s) => spec_visit_mappings(s2, allowed, s),
            Err(e) => Err(e),
        },
    decreases s1.len(),
{
    if s1.len() == 0 {
        assert(s1 + s2 =~= s2);
    } else {
        assert((s1 + s2)[0] == s1[0]);
        assert((s1 + s2).drop_first() =~= s1.drop_first() + s2);
        match spec_visit_mapping(s1[0], allowed, seen) {
            Ok(s) => {
                lemma_visit_append(s1.drop_first(), s2, allowed, s);
            },
            Err(e) => {},
        }
    }
}

/// Over well-formed leaves, the leaf-by-leaf walk equals one visit of the
/// concatenated entries.
proof fn lemma_walk_flattens(leaves: Seq<Seq<u8>>, allowed: u32, seen: Set<u64>)
    requires
        spec_all_leaves_wf(leaves, MAPPING_WIDTH as int),
    ensures
        spec_walk_mapping_leaves(leaves, allowed, seen) == spec_visit_mappings(
            spec_array_mappings(leaves),
            allowed,
            seen,
        ),
    decreases leaves.len(),
{
    if leaves.len() == 0 {
    } else {
        assert(spec_leaf_wf(leaves[0], MAPPING_WIDTH as int));
        let rest = leaves.drop_first();
        assert forall|k: int| 0 <= k < rest.len() implies spec_leaf_wf(
            rest[k],
            MAPPING_WIDTH as int,
        ) by {
            assert(rest[k] == leaves[k + 1]);
        }
        lemma_visit_append(
            spec_leaf_mappings(leaves[0]),
            spec_array_mappings(rest),
            allowed,
            seen,
        );
        match spec_visit_mappings(spec_leaf_mappings(leaves[0]), allowed, seen) {
            Ok(s) => {
                lemma_walk_flattens(rest, allowed, s);
            },
            Err(e) => {},
        }
    }
}

/// Entries with distinct valid origin blocks, flags all allowed, and no
/// collision with the seen set are visited without failure.
proof fn lemma_visit_all_pass(entries: Seq<Mapping>, allowed: u32, seen: Set<u64>)
    requires
        spec_flags_all_allowed(entries, allowed),
        spec_valid_oblocks_distinct(entries),
        spec_no_seen_collision(entries, seen),
    ensures
        spec_visit_mappings(entries, allowed, seen) is Ok,
    decreases entries.len(),
{
    if entries.len() == 0 {
    } else {
        let m = entries[0];
        let rest = entries.drop_first();
        assert(forall|i: int| 0 <= i < rest.len() ==> rest[i] == entries[i + 1]);
        if !m.spec_is_valid() {
            lemma_visit_all_pass(rest, allowed, seen);
        } else {
            let seen2 = seen.insert(m.oblock);
            assert forall|i: int|
                0 <= i < rest.len() && rest[i].spec_is_valid() implies !seen2.contains(
                rest[i].oblock,
            ) by {
                assert(rest[i] == entries[i + 1]);
            }
            lemma_visit_all_pass(rest, allowed, seen2);
        }
    }
}

/// With flags all allowed, a repeated valid origin block — within the
/// entries or against the seen set — always ends the visit with
/// `DuplicateOriginBlock`.
proof fn lemma_visit_duplicate(entries: Seq<Mapping>, allowed: u32, seen: Set<u64>)
    requires
        spec_flags_all_allowed(entries, allowed),
        !spec_valid_oblocks_distinct(entries) || !spec_no_seen_collision(entries, seen),
    ensures
        spec_visit_mappings(entries, allowed, seen) == Err::<Set<u64>, CheckError>(
            CheckError::DuplicateOriginBlock,
        ),
    decreases entries.len(),
{
    assert(entries.len() > 0);
    let m = entries[0];
    let rest = entries.drop_first();
    assert(forall|i: int| 0 <= i < rest.len() ==> rest[i] == entries[i + 1]);
    if m.spec_is_valid() && seen.contains(m.oblock) {
        // the visit of entry 0 already fails
    } else {
        let seen2 = if m.spec_is_valid() {
            seen.insert(m.oblock)
        } else {
            seen
        };
        if !spec_valid_oblocks_distinct(entries) {
            let (i, j) = choose|i: int, j: int|
                0 <= i < j < entries.len() && entries[i].spec_is_valid()
                    && entries[j].spec_is_valid() && entries[i].oblock == entries[j].oblock;
            if i == 0 {
                assert(rest[j - 1] == entries[j]);
                assert(!spec_no_seen_collision(rest, seen2));
            } else {
                assert(rest[i - 1] == entries[i] && rest[j - 1] == entries[j]);
                assert(!spec_valid_oblocks_distinct(rest));
            }
        } else {
            let i = choose|i: int|
                0 <= i < entries.len() && entries[i].spec_is_valid() && seen.contains(
                    entries[i].oblock,
                );
            assert(i != 0);
            assert(rest[i - 1] == entries[i]);
            assert(!spec_no_seen_collision(rest, seen2));
        }
        lemma_visit_duplicate(rest, allowed, seen2);
    }
}

/// A repeated valid origin block survives any rearrangement of the entries:
/// the witness pair transfers through the multiset.
proof fn lemma_duplicate_transfers(e1: Seq<Mapping>, e2: Seq<Mapping>)
    requires
        e1.to_multiset() == e2.to_multiset(),
        !spec_valid_oblocks_distinct(e1),
    ensures
        !spec_valid_oblocks_distinct(e2),
{
    broadcast use vstd::seq_lib::group_to_multiset_ensures;

    let (i, j) = choose|i: int, j: int|
        0 <= i < j < e1.len() && e1[i].spec_is_valid() && e1[j].spec_is_valid() && e1[i].oblock
            == e1[j].oblock;
    if e1[i] != e1[j] {
        assert(e1.contains(e1[i]));
        assert(e1.contains(e1[j]));
        assert(e2.to_multiset().count(e1[i]) > 0);
        assert(e2.to_multiset().count(e1[j]) > 0);
        let k = choose|k: int| 0 <= k < e2.len() && e2[k] == e1[i];
        let l = choose|l: int| 0 <= l < e2.len() && e2[l] == e1[j];
        assert(k != l);
        if k < l {
            assert(e2[k].spec_is_valid() && e2[l].spec_is_valid() && e2[k].oblock == e2[l].oblock);
        } else {
            assert(e2[l].spec_is_valid() && e2[k].spec_is_valid() && e2[l].oblock == e2[k].oblock);
        }
    } else {
        // One mapping value occurs twice: it still does after removing one
        // occurrence from each side, so the other side holds two positions.
        let v = e1[i];
        let r1 = e1.remove(i);
        assert(r1.to_multiset() =~= e1.to_multiset().remove(v));
        assert(r1[j - 1] == e1[j]);
        assert(r1.contains(v));
        assert(e2.to_multiset().count(v) > 0);
        let k = choose|k: int| 0 <= k < e2.len() && e2[k] == v;
        let r2 = e2.remove(k);
        assert(r2.to_multiset() =~= e2.to_multiset().remove(v));
        assert(r2.to_multiset().count(v) == r1.to_multiset().count(v));
        assert(r2.contains(v));
        let k2 = choose|k2: int| 0 <= k2 < r2.len() && r2[k2] == v;
        let l: int = if k2 < k {
            k2
        } else {
            k2 + 1
        };
        assert(e2[l] == v);
        assert(l != k);
        if k < l {
            assert(e2[k].spec_is_valid() && e2[l].spec_is_valid() && e2[k].oblock == e2[l].oblock);
        } else {
            assert(e2[l].spec_is_valid() && e2[k].spec_is_valid() && e2[l].oblock == e2[k].oblock);
        }
    }
}

/// For a mapping array whose leaves are all well formed, whose valid
/// mappings carry pairwise-distinct origin blocks, and whose valid mappings'
/// flags are all drawn from the version's allowed set, the mapping check
/// succeeds.
pub proof fn lemma_mapping_check_passes(version: u32, leaves: Seq<Seq<u8>>)
    requires
        spec_all_leaves_wf(leaves, MAPPING_WIDTH as int),
        spec_flags_all_allowed(spec_array_mappings(leaves), spec_allowed_flags(version)),
        spec_valid_oblocks_distinct(spec_array_mappings(leaves)),
    ensures
        spec_check_mappings(version, leaves) == Ok::<(), CheckError>(()),
{
    lemma_visit_all_pass(
        spec_array_mappings(leaves),
        spec_allowed_flags(version),
        Set::<u64>::empty(),
    );
    lemma_walk_flattens(leaves, spec_allowed_flags(version), Set::<u64>::empty());
}

/// Two valid mappings claiming the same origin block are always caught:
/// whatever entries stand around them and wherever in the array the two
/// stand, the mapping check fails with `DuplicateOriginBlock` (provided no
/// entry fails the flag check first).
pub proof fn lemma_duplicate_always_caught(version: u32, leaves: Seq<Seq<u8>>, i: int, j: int)
    requires
        spec_all_leaves_wf(leaves, MAPPING_WIDTH as int),
        spec_flags_all_allowed(spec_array_mappings(leaves), spec_allowed_flags(version)),
        0 <= i < j < spec_array_mappings(leaves).len(),
        spec_array_mappings(leaves)[i].spec_is_valid(),
        spec_array_mappings(leaves)[j].spec_is_valid(),
        spec_array_mappings(leaves)[i].oblock == spec_array_mappings(leaves)[j].oblock,
    ensures
        spec_check_mappings(version, leaves) == Err::<(), CheckError>(
            CheckError::DuplicateOriginBlock,
        ),
{
    assert(!spec_valid_oblocks_distinct(spec_array_mappings(leaves)));
    lemma_visit_duplicate(
        spec_array_mappings(leaves),
        spec_allowed_flags(version),
        Set::<u64>::empty(),
    );
    lemma_walk_flattens(leaves, spec_allowed_flags(version), Set::<u64>::empty());
}

/// The mapping check's verdict does not depend on the order the entries are
/// visited in: two arrays holding the same mapping entries, however they are
/// arranged over and within their leaves, get the same result. (Flags must
/// all be allowed, so that the verdict turns on duplicates alone; a flag
/// failure is reached at one entry and so does depend on order.)
pub proof fn lemma_mapping_check_order_independent(
    version: u32,
    leaves1: Seq<Seq<u8>>,
    leaves2: Seq<Seq<u8>>,
)
    requires
        spec_all_leaves_wf(leaves1, MAPPING_WIDTH as int),
        spec_all_leaves_wf(leaves2, MAPPING_WIDTH as int),
        spec_flags_all_allowed(spec_array_mappings(leaves1), spec_allowed_flags(version)),
        spec_array_mappings(leaves1).to_multiset() == spec_array_mappings(leaves2).to_multiset(),
    ensures
        spec_check_mappings(version, leaves1) == spec_check_mappings(version, leaves2),
{
    broadcast use vstd::seq_lib::group_to_multiset_ensures;

    let a1 = spec_array_mappings(leaves1);
    let a2 = spec_array_mappings(leaves2);
    let allowed = spec_allowed_flags(version);
    assert forall|k: int| 0 <= k < a2.len() && a2[k].spec_is_valid() implies spec_flags_allowed(
        a2[k],
        allowed,
    ) by {
        assert(a2.contains(a2[k]));
        assert(a1.to_multiset().count(a2[k]) > 0);
        assert(a1.contains(a2[k]));
        let m = choose|m: int| 0 <= m < a1.len() && a1[m] == a2[k];
        assert(spec_flags_allowed(a1[m], allowed));
    }
    lemma_walk_flattens(leaves1, allowed, Set::<u64>::empty());
    lemma_walk_flattens(leaves2, allowed, Set::<u64>::empty());
    if spec_valid_oblocks_distinct(a1) {
        if !spec_valid_oblocks_distinct(a2) {
            lemma_duplicate_transfers(a2, a1);
        }
        lemma_visit_all_pass(a1, allowed, Set::<u64>::empty());
        lemma_visit_all_pass(a2, allowed, Set::<u64>::empty());
    } else {
        lemma_duplicate_transfers(a1, a2);
        lemma_visit_duplicate(a1, allowed, Set::<u64>::empty());
        lemma_visit_duplicate(a2, allowed, Set::<u64>::empty());
    }
}

/// Entries whose `VALID` bit is unset never influence the visit: two entry
/// runs that differ only in such slots — whatever garbage those slots hold
/// in their origin blocks or other flag bits — give the same result.
pub proof fn lemma_invalid_entries_ignored(
    e1: Seq<Mapping>,
    e2: Seq<Mapping>,
    allowed: u32,
    seen: Set<u64>,
)
    requires
        e1.len() == e2.len(),
        forall|i: int|
            0 <= i < e1.len() ==> e1[i] == e2[i] || (!e1[i].spec_is_valid()
                && !e2[i].spec_is_valid()),
    ensures
        spec_visit_mappings(e1, allowed, seen) == spec_visit_mappings(e2, allowed, seen),
    decreases e1.len(),
{
    if e1.len() == 0 {
    } else {
        let r1 = e1.drop_first();
        let r2 = e2.drop_first();
        assert(forall|i: int| 0 <= i < r1.len() ==> r1[i] == e1[i + 1] && r2[i] == e2[i + 1]);
        assert(e1[0] == e2[0] || (!e1[0].spec_is_valid() && !e2[0].spec_is_valid()));
        match spec_visit_mapping(e1[0], allowed, seen) {
            Ok(s) => {
                lemma_invalid_entries_ignored(r1, r2, allowed, s);
            },
            Err(e) => {},
        }
    }
}

/// A mapping flagged `VALID | DIRTY` passes the flag check under metadata
/// version 1 and fails it under version 2 or later, where dirtiness is
/// tracked elsewhere and `DIRTY` is no longer an allowed bit.
pub proof fn lemma_dirty_flag_version_dependent(m: Mapping, version: u32)
    requires
        m.flags == MAPPING_FLAG_VALID | MAPPING_FLAG_DIRTY,
    ensures
        m.spec_is_valid(),
        version == 1 ==> spec_flags_allowed(m, spec_allowed_flags(version)),
        version != 1 ==> !spec_flags_allowed(m, spec_allowed_flags(version)),
{
    let f = m.flags;
    assert(1u32 | 2u32 == 3u32) by (bit_vector);
    assert(f == 3u32 ==> f & 1u32 != 0) by (bit_vector);
    assert(f == 3u32 ==> f & !3u32 == 0) by (bit_vector);
    assert(f == 3u32 ==> f & !1u32 != 0) by (bit_vector);
}

/// With `sb_only` set, a well-formed superblock is the whole check: the
/// result is success, and the array leaves are never consulted.
pub proof fn lemma_sb_only_stops_early(
    opts: CacheCheckOptions,
    sb_bytes: Seq<u8>,
    ml1: Seq<Seq<u8>>,
    hl1: Seq<Seq<u8>>,
    ml2: Seq<Seq<u8>>,
    hl2: Seq<Seq<u8>>,
)
    requires
        opts.sb_only,
    ensures
        spec_superblock_wf(sb_bytes) ==> spec_check(opts, sb_bytes, ml1, hl1) == Ok::<
            (),
            CheckError,
        >(()),
        spec_check(opts, sb_bytes, ml1, hl1) == spec_check(opts, sb_bytes, ml2, hl2),
{
}

/// With `hint_root == 0` the hint phase is skipped even when `skip_hints`
/// is unset: the hint leaves never influence the result.
pub proof fn lemma_hint_root_zero_skips_hints(
    opts: CacheCheckOptions,
    sb_bytes: Seq<u8>,
    ml: Seq<Seq<u8>>,
    hl1: Seq<Seq<u8>>,
    hl2: Seq<Seq<u8>>,
)
    requires
        spec_superblock_wf(sb_bytes),
        spec_superblock_of(sb_bytes).hint_root == 0,
    ensures
        spec_check(opts, sb_bytes, ml, hl1) == spec_check(opts, sb_bytes, ml, hl2),
{
}

/// The check is a pure function of the options and the on-disk image: two
/// runs over the same unmodified blocks return the same result — the same
/// success, or the same error kind.
pub proof fn lemma_check_idempotent(
    opts: CacheCheckOptions,
    sb_bytes: Seq<u8>,
    ml: Seq<Seq<u8>>,
    hl: Seq<Seq<u8>>,
    r1: Result<(), CheckError>,
    r2: Result<(), CheckError>,
)
    requires
        r1 == spec_check(opts, sb_bytes, ml, hl),
        r2 == spec_check(opts, sb_bytes, ml, hl),
    ensures
        r1 == r2,
{
}

} // verus!
