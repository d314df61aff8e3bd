//! The staging and commit engine.
//!
//! A download batch works inside an isolated cache partition: every
//! target's destination is remapped to a numbered slot in the partition,
//! the whole batch is handed to the external retrieval service, and each
//! reported outcome is then either committed to its real destination or
//! discarded. The engine here is the decision core: it plans the slots,
//! resolves reported cache paths back to destinations, tracks which slots
//! were committed, and names the leftovers that must be swept before the
//! partition is removed. Paths are plain strings joined POSIX-style; a
//! destination starting with `/` is taken as absolute.

use crate::hexnum::hex16;
use crate::hexnum::hex16_seq;
use crate::hexnum::lemma_hex16_injective;
use crate::hexnum::lemma_hex_seq_len;
use crate::strutil::str_eq;
use crate::target::Target;
use vstd::prelude::*;

verus! {

/// `dir`, a separator, `name`.
pub open spec fn path_concat(dir: Seq<char>, name: Seq<char>) -> Seq<char> {
    dir + seq!['/'] + name
}

/// A destination resolved against the base directory: kept as is when
/// absolute, joined onto the base otherwise.
pub open spec fn resolved_dest(base: Seq<char>, dest: Seq<char>) -> Seq<char> {
    if dest.len() > 0 && dest[0] == '/' {
        dest
    } else {
        path_concat(base, dest)
    }
}

/// Join a directory and an entry name.
pub fn path_join(dir: &str, name: &str) -> (r: String)
    ensures
        r@ == path_concat(dir@, name@),
{
    let mut out = String::from_str(dir);
    out.append("/");
    out.append(name);
    proof {
        reveal_strlit("/");
        assert("/"@ =~= seq!['/']);
        assert(out@ =~= path_concat(dir@, name@));
    }
    out
}

/// Resolve a destination against the base directory.
pub fn resolve_dest(base: &str, dest: &str) -> (r: String)
    ensures
        r@ == resolved_dest(base@, dest@),
{
    if dest.unicode_len() > 0 && dest.get_char(0) == '/' {
        String::from_str(dest)
    } else {
        path_join(base, dest)
    }
}

/// Relies on `rand::random`: draws a fresh 64-bit value from the
/// thread-local generator. Nothing is promised of the value.
#[verifier::external_body]
fn random_u64() -> u64 {
    rand::random::<u64>()
}

/// A fresh partition token: sixteen hexadecimal digits drawn from a
/// 64-bit random value.
pub fn fresh_partition_token() -> (r: String)
    ensures
        exists|n: u64| r@ == hex16_seq(n),
        r@.len() == 16,
{
    let n = random_u64();
    let r = hex16(n);
    proof {
        assert(r@ == hex16_seq(n));
    }
    r
}

/// Tokens of distinct numbers name distinct paths under one directory.
/// In particular two batches with distinct random values get distinct
/// partition directories, and two slots of one batch distinct cache
/// paths.
pub proof fn lemma_token_paths_distinct(dir: Seq<char>, a: u64, b: u64)
    requires
        a != b,
    ensures
        path_concat(dir, hex16_seq(a)) != path_concat(dir, hex16_seq(b)),
{
    lemma_hex_seq_len(a as nat, 16);
    lemma_hex_seq_len(b as nat, 16);
    if path_concat(dir, hex16_seq(a)) == path_concat(dir, hex16_seq(b)) {
        assert(hex16_seq(a) =~= hex16_seq(b)) by {
            assert forall|i: int| 0 <= i < 16 implies hex16_seq(a)[i] == hex16_seq(b)[i] by {
                assert(path_concat(dir, hex16_seq(a))[dir.len() + 1 + i] == hex16_seq(a)[i]);
                assert(path_concat(dir, hex16_seq(b))[dir.len() + 1 + i] == hex16_seq(b)[i]);
            }
        }
        lemma_hex16_injective(a, b);
    }
}

/// The mathematical content of one staging slot.
pub struct SlotView {
    pub cache: Seq<char>,
    pub dest: Seq<char>,
    pub committed: bool,
}

struct Slot {
    cache: String,
    dest: String,
    committed: bool,
}

impl View for Slot {
    type V = SlotView;

    closed spec fn view(&self) -> SlotView {
        SlotView { cache: self.cache@, dest: self.dest@, committed: self.committed }
    }
}

/// The mathematical content of a [`StagingBatch`].
pub struct BatchView {
    pub base: Seq<char>,
    pub slots: Seq<SlotView>,
}

/// One batch's staging state: the cache-to-destination mapping and the
/// commit marks.
pub struct StagingBatch {
    base: String,
    slots: Vec<Slot>,
}

impl View for StagingBatch {
    type V = BatchView;

    closed spec fn view(&self) -> BatchView {
        BatchView { base: self.base@, slots: self.slots@.map_values(|s: Slot| s@) }
    }
}

/// A failure that the engine itself reports for one item or for the
/// cleanup phase.
#[derive(Debug, Clone, Copy, PartialEq, Eq, Structural)]
pub enum EngineError {
    /// The retrieval service reported an item as failed.
    DownloadFailed,
    /// The service reported a cache path the engine never issued.
    UnknownTargetLocation,
    /// The file could not be placed at its destination.
    CommitFailed,
    /// A leftover cache file could not be deleted.
    LeftoverNotDeleted,
    /// The partition directory could not be removed.
    PartitionNotRemoved,
}

/// The cache paths of the slots not committed, in slot order.
pub open spec fn leftover_spec(slots: Seq<SlotView>) -> Seq<Seq<char>>
    decreases slots.len(),
{
    if slots.len() == 0 {
        Seq::empty()
    } else {
        let rest = leftover_spec(slots.drop_last());
        if !slots.last().committed {
            rest.push(slots.last().cache)
        } else {
            rest
        }
    }
}

/// What the sweep list holds: exactly the cache paths of the slots that
/// were never committed. Together with the commit contract this says
/// that every slot the batch created is either committed to its
/// destination or named for deletion before the partition is removed.
pub proof fn lemma_leftovers_exact(slots: Seq<SlotView>)
    ensures
        forall|c: Seq<char>|
            #[trigger] leftover_spec(slots).contains(c) <==> (exists|i: int|
                0 <= i < slots.len() && !(#[trigger] slots[i]).committed && slots[i].cache == c),
    decreases slots.len(),
{
    if slots.len() > 0 {
        lemma_leftovers_exact(slots.drop_last());
        let last = slots.last();
        assert forall|c: Seq<char>| #[trigger] leftover_spec(slots).contains(c) implies (exists|
            i: int,
        |
            0 <= i < slots.len() && !(#[trigger] slots[i]).committed && slots[i].cache == c) by {
            if !last.committed && c == last.cache {
                assert(!(slots[slots.len() - 1]).committed && slots[slots.len() - 1].cache == c);
            } else {
                let prefix = leftover_spec(slots.drop_last());
                if prefix.contains(c) {
                    let i = choose|i: int|
                        0 <= i < slots.drop_last().len() && !(#[trigger] slots.drop_last()[i]).committed
                            && slots.drop_last()[i].cache == c;
                    assert(slots[i] == slots.drop_last()[i]);
                    assert(!(slots[i]).committed && slots[i].cache == c);
                } else {
                    let j = choose|j: int| 0 <= j < leftover_spec(slots).len() && leftover_spec(slots)[j] == c;
                    if !last.committed {
                        assert(leftover_spec(slots) == prefix.push(last.cache));
                        if j < prefix.len() {
                            assert(prefix.contains(c));
                        }
                    }
                }
            }
        }
        assert forall|c: Seq<char>|
            (exists|i: int|
                0 <= i < slots.len() && !(#[trigger] slots[i]).committed && slots[i].cache
                    == c) implies #[trigger] leftover_spec(slots).contains(c) by {
            let i = choose|i: int|
                0 <= i < slots.len() && !(#[trigger] slots[i]).committed && slots[i].cache == c;
            if i < slots.len() - 1 {
                assert(slots.drop_last()[i] == slots[i]);
                assert(!(slots.drop_last()[i]).committed && slots.drop_last()[i].cache == c);
                assert(leftover_spec(slots.drop_last()).contains(c));
                let j = choose|j: int|
                    0 <= j < leftover_spec(slots.drop_last()).len() && leftover_spec(
                        slots.drop_last(),
                    )[j] == c;
                if !last.committed {
                    assert(leftover_spec(slots)[j] == c);
                } else {
                    assert(leftover_spec(slots)[j] == c);
                }
            } else {
                assert(!last.committed && last.cache == c);
                let n = leftover_spec(slots.drop_last()).len() as int;
                assert(leftover_spec(slots)[n] == c);
            }
        }
    }
}

impl StagingBatch {
    /// Plan a batch: slot `i` of the partition stands for target `i`,
    /// its cache path is the partition directory joined with the slot's
    /// ordinal as sixteen hexadecimal digits, and its destination is the
    /// target's declared one. No slot is committed yet.
    pub fn new(partition_dir: &str, base: String, targets: &Vec<Target>) -> (r: StagingBatch)
        ensures
            r@.base == base@,
            r@.slots.len() == targets@.len(),
            forall|i: int|
                0 <= i < targets@.len() ==> {
                    &&& (#[trigger] r@.slots[i]).cache == path_concat(
                        partition_dir@,
                        hex16_seq(i as u64),
                    )
                    &&& r@.slots[i].dest == targets@[i]@.file
                    &&& !r@.slots[i].committed
                },
    {
        let mut slots: Vec<Slot> = Vec::new();
        let mut k: usize = 0;
        while k < targets.len()
            invariant
                k <= targets@.len(),
                slots@.len() == k,
                forall|i: int|
                    0 <= i < k ==> {
                        &&& (#[trigger] slots@[i]@).cache == path_concat(
                            partition_dir@,
                            hex16_seq(i as u64),
                        )
                        &&& slots@[i]@.dest == targets@[i]@.file
                        &&& !slots@[i]@.committed
                    },
            decreases targets@.len() - k,
        {
            let token = hex16(k as u64);
            let cache = path_join(partition_dir, token.as_str());
            let dest = targets[k].file().clone();
            proof {
                assert(dest@ == targets@[k as int]@.file);
            }
            slots.push(Slot { cache, dest, committed: false });
            k = k + 1;
        }
        let r = StagingBatch { base, slots };
        proof {
            assert(r@.slots.len() == targets@.len());
            assert forall|i: int| 0 <= i < targets@.len() implies {
                &&& (#[trigger] r@.slots[i]).cache == path_concat(
                    partition_dir@,
                    hex16_seq(i as u64),
                )
                &&& r@.slots[i].dest == targets@[i]@.file
                &&& !r@.slots[i].committed
            } by {
                assert(r@.slots[i] == slots@[i]@);
            }
        }
        r
    }

    /// How many slots the batch holds: one per input target.
    pub fn slot_count(&self) -> (r: usize)
        ensures
            r == self@.slots.len(),
    {
        self.slots.len()
    }

    /// The cache path of slot `i`: where the retrieval service is told
    /// to put target `i`.
    pub fn cache_path(&self, i: usize) -> (r: &String)
        requires
            i < self@.slots.len(),
        ensures
            r@ == self@.slots[i as int].cache,
    {
        proof {
            assert(self@.slots[i as int] == self.slots@[i as int]@);
        }
        &self.slots[i].cache
    }

    /// The declared destination of slot `i`, unresolved.
    pub fn dest_path(&self, i: usize) -> (r: &String)
        requires
            i < self@.slots.len(),
        ensures
            r@ == self@.slots[i as int].dest,
    {
        proof {
            assert(self@.slots[i as int] == self.slots@[i as int]@);
        }
        &self.slots[i].dest
    }

    /// Resolve a cache path the retrieval service reported for a
    /// successful item: find the slot it names and the destination,
    /// already joined onto the base directory, that the file must be
    /// placed at. A path the engine never issued, or one whose slot was
    /// already committed, is refused.
    pub fn resolve_success(&self, reported: &str) -> (r: Result<(usize, String), EngineError>)
        ensures
            r matches Ok((i, d)) ==> {
                &&& i < self@.slots.len()
                &&& !self@.slots[i as int].committed
                &&& self@.slots[i as int].cache == reported@
                &&& d@ == resolved_dest(self@.base, self@.slots[i as int].dest)
            },
            r is Ok <==> (exists|i: int|
                0 <= i < self@.slots.len() && !(#[trigger] self@.slots[i]).committed
                    && self@.slots[i].cache == reported@),
            r matches Err(e) ==> e == EngineError::UnknownTargetLocation,
    {
        let mut k: usize = 0;
        while k < self.slots.len()
            invariant
                k <= self@.slots.len(),
                self@.slots.len() == self.slots@.len(),
                forall|i: int|
                    0 <= i < k ==> !(!(#[trigger] self@.slots[i]).committed && self@.slots[i].cache
                        == reported@),
            decreases self@.slots.len() - k,
        {
            proof {
                assert(self@.slots[k as int] == self.slots@[k as int]@);
            }
            if !self.slots[k].committed && str_eq(self.slots[k].cache.as_str(), reported) {
                let d = resolve_dest(self.base.as_str(), self.slots[k].dest.as_str());
                return Ok((k, d));
            }
            k = k + 1;
        }
        Err(EngineError::UnknownTargetLocation)
    }

    /// Record that slot `i`'s file now stands at its destination and the
    /// cache copy is gone. Nothing else changes.
    pub fn mark_committed(&mut self, i: usize)
        requires
            i < old(self)@.slots.len(),
        ensures
            final (self)@.base == old(self)@.base,
            final (self)@.slots.len() == old(self)@.slots.len(),
            final (self)@.slots[i as int].cache == old(self)@.slots[i as int].cache,
            final (self)@.slots[i as int].dest == old(self)@.slots[i as int].dest,
            final (self)@.slots[i as int].committed,
            forall|j: int|
                0 <= j < old(self)@.slots.len() && j != i ==> final (self)@.slots[j] == old(
                    self,
                )@.slots[j],
    {
        let slot = &mut self.slots[i];
        slot.committed = true;
        proof {
            assert forall|j: int| 0 <= j < old(self)@.slots.len() && j != i implies final (
            self)@.slots[j] == old(self)@.slots[j] by {
                assert(final (self)@.slots[j] == self.slots@[j]@);
                assert(old(self)@.slots[j] == old(self).slots@[j]@);
            }
            assert(final (self)@.slots[i as int] == self.slots@[i as int]@);
        }
    }

    /// The cache paths that still need sweeping, in slot order: exactly
    /// the uncommitted slots' paths.
    pub fn leftover_paths(&self) -> (r: Vec<String>)
        ensures
            r@.map_values(|p: String| p@) == leftover_spec(self@.slots),
    {
        let mut out: Vec<String> = Vec::new();
        let mut k: usize = 0;
        proof {
            assert(self@.slots.subrange(0, 0) =~= Seq::<SlotView>::empty());
            assert(out@.map_values(|p: String| p@) =~= leftover_spec(self@.slots.subrange(0, 0)));
        }
        while k < self.slots.len()
            invariant
                k <= self@.slots.len(),
                self@.slots.len() == self.slots@.len(),
                out@.map_values(|p: String| p@) == leftover_spec(self@.slots.subrange(0, k as int)),
            decreases self@.slots.len() - k,
        {
            proof {
                assert(self@.slots[k as int] == self.slots@[k as int]@);
            }
            let ghost pre = self@.slots.subrange(0, k as int);
            let ghost now = self@.slots.subrange(0, k + 1);
            proof {
                assert(now.drop_last() =~= pre);
                assert(now.last() == self@.slots[k as int]);
            }
            if !self.slots[k].committed {
                let c = self.slots[k].cache.clone();
                out.push(c);
                proof {
                    assert(out@.map_values(|p: String| p@) =~= leftover_spec(now));
                }
            } else {
                proof {
                    assert(leftover_spec(now) == leftover_spec(pre));
                }
            }
            k = k + 1;
        }
        proof {
            assert(self@.slots.subrange(0, self@.slots.len() as int) =~= self@.slots);
        }
        out
    }
}

/// One result per input target, in input order, then one failure entry
/// per cleanup error. The batch result's length is the number of input
/// targets plus the number of cleanup-phase failures.
pub fn assemble_results(
    item_results: Vec<Result<String, EngineError>>,
    cleanup_failures: Vec<EngineError>,
) -> (r: Vec<Result<String, EngineError>>)
    ensures
        r@.len() == item_results@.len() + cleanup_failures@.len(),
        forall|i: int| 0 <= i < item_results@.len() ==> r@[i] == item_results@[i],
        forall|j: int|
            0 <= j < cleanup_failures@.len() ==> r@[item_results@.len() + j] == Err::<
                String,
                EngineError,
            >(cleanup_failures@[j]),
{
    let mut r = item_results;
    let ghost items = r@;
    let mut k: usize = 0;
    while k < cleanup_failures.len()
        invariant
            k <= cleanup_failures@.len(),
            r@.len() == items.len() + k,
            forall|i: int| 0 <= i < items.len() ==> r@[i] == items[i],
            forall|j: int|
                0 <= j < k ==> r@[items.len() + j] == Err::<String, EngineError>(
                    cleanup_failures@[j],
                ),
        decreases cleanup_failures@.len() - k,
    {
        r.push(Err(cleanup_failures[k]));
        k = k + 1;
    }
    r
}

} // verus!
