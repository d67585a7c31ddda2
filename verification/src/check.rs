//! The check itself: per-entry visitors that enforce the domain invariants,
//! the walk over each array's leaf blocks, and the orchestrator that runs the
//! phases in order and stops at the first failure.
//!
//! The library works on blocks the caller has already read: resolving roots
//! to leaves and reading them off the device belong to the block-store
//! backends outside it.

use vstd::prelude::*;
use vstd::arithmetic::mul::lemma_mul_inequality;
use vstd::arithmetic::mul::lemma_mul_upper_bound;
use vstd::bytes::u32_from_le_bytes;
use crate::array::BLOCK_HEADER_WIDTH;
use crate::array::spec_leaf_mappings;
use crate::array::spec_leaf_nr_entries;
use crate::array::spec_leaf_wf;
use crate::errors::CheckError;
use crate::hint::Hint;
use crate::hint::decode_hint;
use crate::mapping::MAPPING_FLAG_DIRTY;
use crate::mapping::MAPPING_FLAG_VALID;
use crate::mapping::MAPPING_WIDTH;
use crate::mapping::Mapping;
use crate::mapping::decode_mapping;
use crate::mapping::spec_allowed_flags;
use crate::mapping::spec_flags_allowed;
use crate::superblock::Superblock;
use crate::superblock::decode_superblock;
use crate::superblock::spec_superblock_of;
use crate::superblock::spec_superblock_wf;
use vstd::slice::slice_subrange;

verus! {

/// Upper bound on in-flight reads for the asynchronous block-store backend.
pub const MAX_CONCURRENT_IO: usize = 1024;

// ------------------------------------------------------------------
// Mapping visitor
// ------------------------------------------------------------------

/// What one visit of a mapping decides: skip empty slots, reject an origin
/// block seen before, reject flags outside the allowed set, otherwise record
/// the origin block.
pub open spec fn spec_visit_mapping(m: Mapping, allowed: u32, seen: Set<u64>) -> Result<
    Set<u64>,
    CheckError,
> {
    if !m.spec_is_valid() {
        Ok(seen)
    } else if seen.contains(m.oblock) {
        Err(CheckError::DuplicateOriginBlock)
    } else if !spec_flags_allowed(m, allowed) {
        Err(CheckError::UnknownFlags)
    } else {
        Ok(seen.insert(m.oblock))
    }
}

/// Visiting a run of mapping entries in order, threading the seen set
/// through and stopping at the first failure.
pub open spec fn spec_visit_mappings(
    entries: Seq<Mapping>,
    allowed: u32,
    seen: Set<u64>,
) -> Result<Set<u64>, CheckError>
    decreases entries.len(),
{
    if entries.len() == 0 {
        Ok(seen)
    } else {
        match spec_visit_mapping(entries[0], allowed, seen) {
            Ok(s) => spec_visit_mappings(entries.drop_first(), allowed, s),
            Err(e) => Err(e),
        }
    }
}

/// Checks every valid mapping that streams past: origin blocks must be
/// pairwise distinct across the whole traversal, and flags must be drawn
/// from the set the metadata version allows.
pub struct CheckMappingVisitor {
    allowed_flags: u32,
    seen_oblocks: Vec<u64>,
}

impl CheckMappingVisitor {
    /// The set of origin blocks recorded so far in this traversal.
    pub closed spec fn seen(self) -> Set<u64> {
        Set::new(|b: u64| self.seen_oblocks@.contains(b))
    }

    /// The flag bits this traversal accepts.
    pub closed spec fn allowed(self) -> u32 {
        self.allowed_flags
    }

    /// Builds a fresh visitor for one traversal; the metadata version fixes
    /// the allowed flag set.
    pub fn new(metadata_version: u32) -> (r: CheckMappingVisitor)
        ensures
            r.allowed() == spec_allowed_flags(metadata_version),
            r.seen() == Set::<u64>::empty(),
    {
        let mut flags: u32 = MAPPING_FLAG_VALID;
        if metadata_version == 1 {
            flags = flags | MAPPING_FLAG_DIRTY;
        }
        let r = CheckMappingVisitor { allowed_flags: flags, seen_oblocks: Vec::new() };
        proof {
            assert(r.seen() =~= Set::<u64>::empty());
        }
        r
    }

    /// Whether origin block `b` has already been recorded.
    pub fn seen_oblock(&self, b: u64) -> (r: bool)
        ensures
            r == self.seen().contains(b),
    {
        let mut i: usize = 0;
        while i < self.seen_oblocks.len()
            invariant
                i <= self.seen_oblocks@.len(),
                forall|j: int| 0 <= j < i ==> self.seen_oblocks@[j] != b,
            decreases self.seen_oblocks@.len() - i,
        {
            if self.seen_oblocks[i] == b {
                return true;
            }
            i = i + 1;
        }
        false
    }

    /// Records origin block `b` as seen.
    pub fn record_oblock(&mut self, b: u64)
        ensures
            final(self).allowed() == old(self).allowed(),
            final(self).seen() == old(self).seen().insert(b),
    {
        self.seen_oblocks.push(b);
        proof {
            let s_old = old(self).seen_oblocks@;
            let s_new = self.seen_oblocks@;
            assert forall|x: u64| #[trigger] self.seen().contains(x) <==> old(self).seen().insert(
                b,
            ).contains(x) by {
                if x == b {
                    assert(s_new[s_new.len() - 1] == b);
                } else {
                    if s_old.contains(x) {
                        let j = choose|j: int| 0 <= j < s_old.len() && s_old[j] == x;
                        assert(s_new[j] == x);
                    }
                    if s_new.contains(x) {
                        let j = choose|j: int| 0 <= j < s_new.len() && s_new[j] == x;
                        assert(j < s_old.len());
                        assert(s_old[j] == x);
                    }
                }
            }
            assert(self.seen() =~= old(self).seen().insert(b));
        }
    }

    /// Whether the mapping carries flag bits outside the allowed set.
    pub fn has_unknown_flags(&self, m: &Mapping) -> (r: bool)
        ensures
            r == !spec_flags_allowed(*m, self.allowed()),
    {
        (m.flags & !self.allowed_flags) != 0
    }

    /// Checks one decoded mapping entry. `_index` is the entry's global slot
    /// index; the current invariants do not depend on it.
    pub fn visit(&mut self, _index: u64, m: Mapping) -> (r: Result<(), CheckError>)
        ensures
            final(self).allowed() == old(self).allowed(),
            match spec_visit_mapping(m, old(self).allowed(), old(self).seen()) {
                Ok(s) => r == Ok::<(), CheckError>(()) && final(self).seen() == s,
                Err(e) => r == Err::<(), CheckError>(e),
            },
    {
        if !m.is_valid() {
            return Ok(());
        }
        if self.seen_oblock(m.oblock) {
            return Err(CheckError::DuplicateOriginBlock);
        }
        self.record_oblock(m.oblock);
        if self.has_unknown_flags(&m) {
            return Err(CheckError::UnknownFlags);
        }
        Ok(())
    }
}

// ------------------------------------------------------------------
// Hint visitor
// ------------------------------------------------------------------

/// Checks one decoded hint entry. Successful decode is the only requirement
/// today; content checks are a named gap, reserved for the future.
pub struct CheckHintVisitor {
    width: u32,
}

impl CheckHintVisitor {
    /// The hint width this traversal was configured with.
    pub closed spec fn width(self) -> u32 {
        self.width
    }

    /// Builds a fresh visitor for one traversal over hints of `width` bytes;
    /// the width must match the superblock's configured policy-hint size.
    pub fn new(width: u32) -> (r: CheckHintVisitor)
        ensures
            r.width() == width,
    {
        CheckHintVisitor { width }
    }

    /// Accepts every hint that decoded.
    pub fn visit(&self, _index: u64, _hint: Hint) -> (r: Result<(), CheckError>)
        ensures
            r == Ok::<(), CheckError>(()),
    {
        Ok(())
    }
}

// ------------------------------------------------------------------
// The walk over mapping leaves
// ------------------------------------------------------------------

/// Walking mapping leaves in order: a malformed leaf fails with a decode
/// error; otherwise its entries are visited in index order, threading the
/// seen set on.
pub open spec fn spec_walk_mapping_leaves(
    leaves: Seq<Seq<u8>>,
    allowed: u32,
    seen: Set<u64>,
) -> Result<Set<u64>, CheckError>
    decreases leaves.len(),
{
    if leaves.len() == 0 {
        Ok(seen)
    } else if !spec_leaf_wf(leaves[0], MAPPING_WIDTH as int) {
        Err(CheckError::Decode)
    } else {
        match spec_visit_mappings(spec_leaf_mappings(leaves[0]), allowed, seen) {
            Ok(s) => spec_walk_mapping_leaves(leaves.drop_first(), allowed, s),
            Err(e) => Err(e),
        }
    }
}

/// What checking the mapping array of the given leaves returns under the
/// given metadata version.
pub open spec fn spec_check_mappings(version: u32, leaves: Seq<Seq<u8>>) -> Result<
    (),
    CheckError,
> {
    match spec_walk_mapping_leaves(leaves, spec_allowed_flags(version), Set::<u64>::empty()) {
        Ok(s) => Ok(()),
        Err(e) => Err(e),
    }
}

/// Saturating add, for the bookkeeping of global entry indices.
fn saturating_add_u64(a: u64, b: u64) -> (r: u64)
    ensures
        a + b <= u64::MAX ==> r == a + b,
        a + b > u64::MAX ==> r == u64::MAX,
{
    if b <= u64::MAX - a {
        a + b
    } else {
        u64::MAX
    }
}

/// Decodes one mapping leaf and visits its entries in index order, starting
/// at global entry index `base`. On success returns the next leaf's base
/// index.
fn visit_mapping_leaf(leaf: &Vec<u8>, base: u64, visitor: &mut CheckMappingVisitor) -> (r: Result<
    u64,
    CheckError,
>)
    ensures
        final(visitor).allowed() == old(visitor).allowed(),
        !spec_leaf_wf(leaf@, MAPPING_WIDTH as int) ==> r == Err::<u64, CheckError>(
            CheckError::Decode,
        ),
        spec_leaf_wf(leaf@, MAPPING_WIDTH as int) ==> match spec_visit_mappings(
            spec_leaf_mappings(leaf@),
            old(visitor).allowed(),
            old(visitor).seen(),
        ) {
            Ok(s) => r is Ok && final(visitor).seen() == s,
            Err(e) => r == Err::<u64, CheckError>(e),
        },
{
    if leaf.len() < BLOCK_HEADER_WIDTH {
        return Err(CheckError::Decode);
    }
    let nr = u32_from_le_bytes(slice_subrange(leaf.as_slice(), 0, BLOCK_HEADER_WIDTH));
    proof {
        lemma_mul_upper_bound(nr as int, u32::MAX as int, MAPPING_WIDTH as int, MAPPING_WIDTH as int);
    }
    let need: u64 = (BLOCK_HEADER_WIDTH as u64) + (nr as u64) * (MAPPING_WIDTH as u64);
    let blen: usize = leaf.len();
    if need > (blen as u64) {
        return Err(CheckError::Decode);
    }
    let ghost entries = spec_leaf_mappings(leaf@);
    let nr_us: usize = nr as usize;
    let mut i: usize = 0;
    let mut off: usize = BLOCK_HEADER_WIDTH;
    proof {
        assert(entries.skip(0) =~= entries);
    }
    while i < nr_us
        invariant
            i <= nr_us,
            nr_us == spec_leaf_nr_entries(leaf@),
            blen == leaf@.len(),
            off == BLOCK_HEADER_WIDTH + i * MAPPING_WIDTH,
            spec_leaf_wf(leaf@, MAPPING_WIDTH as int),
            entries == spec_leaf_mappings(leaf@),
            entries.len() == nr_us,
            visitor.allowed() == old(visitor).allowed(),
            spec_visit_mappings(entries, old(visitor).allowed(), old(visitor).seen())
                == spec_visit_mappings(
                entries.skip(i as int),
                old(visitor).allowed(),
                visitor.seen(),
            ),
        decreases nr_us - i,
    {
        proof {
            assert((i + 1) * (MAPPING_WIDTH as int) <= spec_leaf_nr_entries(leaf@) * (
            MAPPING_WIDTH as int));
            assert(off + MAPPING_WIDTH <= leaf@.len());
        }
        let m = match decode_mapping(leaf.as_slice(), off) {
            Ok(m) => m,
            Err(_) => {
                proof {
                    assert(false);
                }
                return Err(CheckError::Decode);
            },
        };
        proof {
            assert(leaf@.subrange(off as int, off + MAPPING_WIDTH) =~= crate::array::spec_leaf_entry_bytes(
                leaf@,
                i as int,
                MAPPING_WIDTH as int,
            ));
            assert(m == entries[i as int]);
            assert(entries.skip(i as int)[0] == entries[i as int]);
            assert(entries.skip(i as int).drop_first() =~= entries.skip(i as int + 1));
        }
        let idx = saturating_add_u64(base, i as u64);
        let ghost seen_pre = visitor.seen();
        match visitor.visit(idx, m) {
            Ok(()) => {},
            Err(e) => {
                proof {
                    assert(spec_visit_mapping(m, old(visitor).allowed(), seen_pre) == Err::<
                        Set<u64>,
                        CheckError,
                    >(e));
                    assert(spec_visit_mappings(
                        entries.skip(i as int),
                        old(visitor).allowed(),
                        seen_pre,
                    ) == Err::<Set<u64>, CheckError>(e));
                }
                return Err(e);
            },
        }
        i = i + 1;
        off = off + MAPPING_WIDTH;
    }
    proof {
        assert(entries.skip(nr_us as int) =~= Seq::<Mapping>::empty());
    }
    Ok(saturating_add_u64(base, nr as u64))
}

/// Constructs a fresh mapping visitor for the given metadata version and
/// walks every mapping leaf in order, visiting every entry exactly once.
/// Returns success exactly when no leaf is malformed, no valid mapping
/// repeats an origin block, and every valid mapping's flags are drawn from
/// the version's allowed set; otherwise the first failure.
pub fn check_mappings(version: u32, leaves: &Vec<Vec<u8>>) -> (r: Result<(), CheckError>)
    ensures
        r == spec_check_mappings(version, leaves.deep_view()),
{
    let ghost lv = leaves.deep_view();
    let mut visitor = CheckMappingVisitor::new(version);
    let mut base: u64 = 0;
    let mut li: usize = 0;
    proof {
        assert(lv.skip(0) =~= lv);
    }
    while li < leaves.len()
        invariant
            li <= leaves@.len(),
            lv == leaves.deep_view(),
            lv.len() == leaves@.len(),
            visitor.allowed() == spec_allowed_flags(version),
            spec_walk_mapping_leaves(lv, spec_allowed_flags(version), Set::<u64>::empty())
                == spec_walk_mapping_leaves(
                lv.skip(li as int),
                spec_allowed_flags(version),
                visitor.seen(),
            ),
        decreases leaves@.len() - li,
    {
        proof {
            assert(lv[li as int] == leaves@[li as int]@);
            assert(lv.skip(li as int)[0] == lv[li as int]);
            assert(lv.skip(li as int).drop_first() =~= lv.skip(li as int + 1));
        }
        let leaf = &leaves[li];
        match visit_mapping_leaf(leaf, base, &mut visitor) {
            Ok(nb) => {
                base = nb;
            },
            Err(e) => {
                return Err(e);
            },
        }
        li = li + 1;
    }
    proof {
        assert(lv.skip(li as int) =~= Seq::<Seq<u8>>::empty());
    }
    Ok(())
}

// ------------------------------------------------------------------
// The walk over hint leaves
// ------------------------------------------------------------------

/// What checking the hint array of the given leaves returns for hints of
/// the given width: hints carry no invariants yet, so only decoding can
/// fail.
pub open spec fn spec_check_hints(leaves: Seq<Seq<u8>>, width: int) -> Result<(), CheckError> {
    if forall|i: int| 0 <= i < leaves.len() ==> spec_leaf_wf(leaves[i], width) {
        Ok(())
    } else {
        Err(CheckError::Decode)
    }
}

/// Decodes one hint leaf and visits its entries in index order, starting at
/// global entry index `base`. On success returns the next leaf's base index.
fn visit_hint_leaf(leaf: &Vec<u8>, width: u32, base: u64, visitor: &CheckHintVisitor) -> (r:
    Result<u64, CheckError>)
    ensures
        spec_leaf_wf(leaf@, width as int) ==> r is Ok,
        !spec_leaf_wf(leaf@, width as int) ==> r == Err::<u64, CheckError>(CheckError::Decode),
{
    if leaf.len() < BLOCK_HEADER_WIDTH {
        return Err(CheckError::Decode);
    }
    let nr = u32_from_le_bytes(slice_subrange(leaf.as_slice(), 0, BLOCK_HEADER_WIDTH));
    proof {
        lemma_mul_upper_bound(nr as int, u32::MAX as int, width as int, u32::MAX as int);
    }
    let need: u64 = (BLOCK_HEADER_WIDTH as u64) + (nr as u64) * (width as u64);
    let blen: usize = leaf.len();
    if need > (blen as u64) {
        return Err(CheckError::Decode);
    }
    let nr_us: usize = nr as usize;
    let width_us: usize = width as usize;
    let mut i: usize = 0;
    let mut off: usize = BLOCK_HEADER_WIDTH;
    while i < nr_us
        invariant
            i <= nr_us,
            nr_us == spec_leaf_nr_entries(leaf@),
            blen == leaf@.len(),
            width_us == width,
            off == BLOCK_HEADER_WIDTH + i * width,
            spec_leaf_wf(leaf@, width as int),
        decreases nr_us - i,
    {
        proof {
            assert((i + 1) * (width as int) == i * (width as int) + (width as int))
                by (nonlinear_arith);
            lemma_mul_inequality(i + 1, nr_us as int, width as int);
            assert(off + width <= leaf@.len());
        }
        let h = match decode_hint(leaf.as_slice(), off, width_us) {
            Ok(h) => h,
            Err(_) => {
                proof {
                    assert(false);
                }
                return Err(CheckError::Decode);
            },
        };
        let idx = saturating_add_u64(base, i as u64);
        match visitor.visit(idx, h) {
            Ok(()) => {},
            Err(_) => {
                proof {
                    assert(false);
                }
                return Err(CheckError::Decode);
            },
        }
        i = i + 1;
        off = off + width_us;
    }
    Ok(saturating_add_u64(base, nr as u64))
}

/// Constructs a fresh hint visitor for the given width and walks every hint
/// leaf in order. Returns success exactly when every leaf is well formed;
/// otherwise the first decode failure.
pub fn check_hints(width: u32, leaves: &Vec<Vec<u8>>) -> (r: Result<(), CheckError>)
    ensures
        r == spec_check_hints(leaves.deep_view(), width as int),
{
    let ghost lv = leaves.deep_view();
    let visitor = CheckHintVisitor::new(width);
    let mut base: u64 = 0;
    let mut li: usize = 0;
    while li < leaves.len()
        invariant
            li <= leaves@.len(),
            lv == leaves.deep_view(),
            lv.len() == leaves@.len(),
            forall|k: int| 0 <= k < li ==> spec_leaf_wf(lv[k], width as int),
        decreases leaves@.len() - li,
    {
        proof {
            assert(lv[li as int] == leaves@[li as int]@);
        }
        let leaf = &leaves[li];
        match visit_hint_leaf(leaf, width, base, &visitor) {
            Ok(nb) => {
                base = nb;
            },
            Err(e) => {
                return Err(e);
            },
        }
        li = li + 1;
    }
    Ok(())
}

// ------------------------------------------------------------------
// Orchestrator
// ------------------------------------------------------------------

/// What the caller asks of a check run.
pub struct CacheCheckOptions {
    /// Path of the metadata device; consumed by the block-store backends,
    /// not by the checks themselves.
    pub dev: String,
    /// Select the asynchronous block-store backend over the thread-pool one.
    pub async_io: bool,
    /// Stop, successfully, right after the superblock has been read and
    /// validated.
    pub sb_only: bool,
    /// Skip the mapping-array phase.
    pub skip_mappings: bool,
    /// Skip the hint-array phase.
    pub skip_hints: bool,
    /// Skip the discard-bitmap phase. That phase performs no validation yet
    /// either way: a named gap, not a behavior.
    pub skip_discards: bool,
}

/// What a whole check run returns: the superblock gate first, then the
/// phases in order, each skipped or run as the options and the superblock
/// say, stopping at the first failure.
pub open spec fn spec_check(
    opts: CacheCheckOptions,
    sb_bytes: Seq<u8>,
    mapping_leaves: Seq<Seq<u8>>,
    hint_leaves: Seq<Seq<u8>>,
) -> Result<(), CheckError> {
    if !spec_superblock_wf(sb_bytes) {
        Err(CheckError::Superblock)
    } else {
        let sb = spec_superblock_of(sb_bytes);
        if opts.sb_only {
            Ok(())
        } else {
            let mapping_result = if opts.skip_mappings {
                Ok(())
            } else {
                spec_check_mappings(sb.version, mapping_leaves)
            };
            match mapping_result {
                Err(e) => Err(e),
                Ok(()) => {
                    if !opts.skip_hints && sb.hint_root != 0 {
                        spec_check_hints(hint_leaves, sb.policy_hint_size as int)
                    } else {
                        Ok(())
                    }
                },
            }
        }
    }
}

/// Runs the whole check on blocks the caller has read off the device: the
/// superblock block, then the leaves of the mapping array and of the hint
/// array, each in leaf order. Success means every phase that ran passed;
/// otherwise the first fatal failure is the result.
pub fn check(
    opts: &CacheCheckOptions,
    sb_block: &Vec<u8>,
    mapping_leaves: &Vec<Vec<u8>>,
    hint_leaves: &Vec<Vec<u8>>,
) -> (r: Result<(), CheckError>)
    ensures
        r == spec_check(*opts, sb_block@, mapping_leaves.deep_view(), hint_leaves.deep_view()),
{
    let sb: Superblock = match decode_superblock(sb_block.as_slice()) {
        Ok(sb) => sb,
        Err(e) => {
            return Err(e);
        },
    };
    if opts.sb_only {
        return Ok(());
    }
    if !opts.skip_mappings {
        match check_mappings(sb.version, mapping_leaves) {
            Ok(()) => {},
            Err(e) => {
                return Err(e);
            },
        }
    }
    if !opts.skip_hints && sb.hint_root != 0 {
        match check_hints(sb.policy_hint_size, hint_leaves) {
            Ok(()) => {},
            Err(e) => {
                return Err(e);
            },
        }
    }
    Ok(())
}

// ------------------------------------------------------------------
// Block-store sizing
// ------------------------------------------------------------------

/// How the block store should be built for a run: which backend, and its
/// concurrency bound.
#[derive(Clone, Copy, Debug, PartialEq, Eq, Structural)]
pub struct IoEngineConfig {
    /// Use the asynchronous backend rather than the thread-pool one.
    pub async_io: bool,
    /// In-flight reads for the asynchronous backend; worker threads for the
    /// thread-pool one.
    pub concurrency: usize,
}

/// Relies on num_cpus::get: the number of logical CPUs available to the
/// process, documented to always be at least 1.
#[verifier::external_body]
fn host_parallelism() -> (r: usize)
    ensures
        r >= 1,
{
    num_cpus::get()
}

/// Worker threads for the thread-pool backend given the host's parallelism:
/// twice the CPUs, but never fewer than 8.
pub open spec fn spec_worker_thread_count(n_cpus: usize) -> int {
    let doubled: int = if 2 * (n_cpus as int) <= usize::MAX as int {
        2 * (n_cpus as int)
    } else {
        usize::MAX as int
    };
    if doubled < 8 {
        8
    } else {
        doubled
    }
}

/// Computes the thread-pool size for the given host parallelism.
pub fn worker_thread_count(n_cpus: usize) -> (r: usize)
    ensures
        r == spec_worker_thread_count(n_cpus),
        r >= 8,
{
    let doubled: usize = if n_cpus <= usize::MAX / 2 {
        n_cpus * 2
    } else {
        usize::MAX
    };
    if doubled < 8 {
        8
    } else {
        doubled
    }
}

/// Picks the block-store backend and its concurrency bound: the asynchronous
/// backend runs up to `MAX_CONCURRENT_IO` reads in flight; the thread-pool
/// backend gets at least 8 workers, and at least twice the host's CPUs.
pub fn engine_config(async_io: bool) -> (r: IoEngineConfig)
    ensures
        r.async_io == async_io,
        async_io ==> r.concurrency == MAX_CONCURRENT_IO,
        !async_io ==> r.concurrency >= 8,
{
    if async_io {
        IoEngineConfig { async_io: true, concurrency: MAX_CONCURRENT_IO }
    } else {
        let n = host_parallelism();
        IoEngineConfig { async_io: false, concurrency: worker_thread_count(n) }
    }
}

} // verus!
