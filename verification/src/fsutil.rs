//! Disk usage with correctness baked in: actual block usage (not apparent
//! size), symlinks and other non-regular files count as zero, and each
//! hardlinked inode is counted once.
//!
//! The walk itself (no symlink following, cooperative cancellation) is done by
//! the shell; it hands each entry's metadata here.

use vstd::prelude::*;
use std::collections::HashSet;

verus! {

broadcast use vstd::std_specs::hash::group_hash_axioms;

/// Block size assumed for `st_blocks` (POSIX defines it in 512-byte units).
pub const BLOCK_UNIT: u64 = 512;

/// What the usage of one filesystem entry depends on, from `symlink_metadata`.
#[derive(Debug, Clone, Copy)]
pub struct EntryMeta {
    pub is_file: bool,
    pub nlink: u64,
    pub dev: u64,
    pub ino: u64,
    pub blocks: u64,
}

/// An inode's identity, `(dev, ino)`, as one number.
pub open spec fn inode_key(dev: u64, ino: u64) -> u128 {
    (dev * 0x1_0000_0000_0000_0000 + ino) as u128
}

pub fn inode_key_of(dev: u64, ino: u64) -> (k: u128)
    ensures
        k == inode_key(dev, ino),
{
    (dev as u128) * 0x1_0000_0000_0000_0000u128 + ino as u128
}

/// Distinct `(dev, ino)` pairs have distinct keys.
pub proof fn law_inode_key_injective(d1: u64, i1: u64, d2: u64, i2: u64)
    requires
        inode_key(d1, i1) == inode_key(d2, i2),
    ensures
        d1 == d2,
        i1 == i2,
{
}

/// Whether an entry is a hardlinked regular file, tracked by inode.
pub open spec fn is_hardlinked(m: EntryMeta) -> bool {
    m.is_file && m.nlink > 1
}

/// The usage of one entry given the inodes already counted, and the counted
/// inodes afterwards.
pub open spec fn entry_usage(m: EntryMeta, seen: Set<u128>) -> (nat, Set<u128>) {
    if !m.is_file {
        (0, seen)
    } else if m.nlink > 1 {
        if seen.contains(inode_key(m.dev, m.ino)) {
            (0, seen)
        } else {
            ((m.blocks * BLOCK_UNIT) as nat, seen.insert(inode_key(m.dev, m.ino)))
        }
    } else {
        ((m.blocks * BLOCK_UNIT) as nat, seen)
    }
}

/// On-disk usage of one entry: real block usage; symlinks and other
/// non-regular files count as zero; a hardlinked inode only the first time it
/// is met (`seen`, shared across a walk, records it).
pub fn entry_disk_usage(meta: &EntryMeta, seen: &mut HashSet<u128>) -> (n: u64)
    requires
        meta.blocks * BLOCK_UNIT <= u64::MAX,
    ensures
        n == entry_usage(*meta, old(seen)@).0,
        final(seen)@ == entry_usage(*meta, old(seen)@).1,
{
    if !meta.is_file {
        return 0;
    }
    if meta.nlink > 1 && !seen.insert(inode_key_of(meta.dev, meta.ino)) {
        return 0;
    }
    meta.blocks * BLOCK_UNIT
}

/// Total usage of a walk's entries, in order, and the inodes it counted.
pub open spec fn walk_usage(metas: Seq<EntryMeta>) -> (nat, Set<u128>)
    decreases metas.len(),
{
    if metas.len() == 0 {
        (0, Set::empty())
    } else {
        let prev = walk_usage(metas.drop_last());
        let step = entry_usage(metas.last(), prev.1);
        (prev.0 + step.0, step.1)
    }
}

/// The counted inodes are exactly the hardlinked files met so far.
pub proof fn lemma_walk_seen(metas: Seq<EntryMeta>, k: u128)
    ensures
        walk_usage(metas).1.contains(k) <==> exists|j: int|
            0 <= j < metas.len() && is_hardlinked(#[trigger] metas[j]) && inode_key(
                metas[j].dev,
                metas[j].ino,
            ) == k,
    decreases metas.len(),
{
    if metas.len() > 0 {
        let init = metas.drop_last();
        lemma_walk_seen(init, k);
        if walk_usage(init).1.contains(k) {
            let j = choose|j: int|
                0 <= j < init.len() && is_hardlinked(#[trigger] init[j]) && inode_key(
                    init[j].dev,
                    init[j].ino,
                ) == k;
            assert(metas[j] == init[j]);
        }
        assert forall|j: int|
            0 <= j < metas.len() && is_hardlinked(#[trigger] metas[j]) && inode_key(
                metas[j].dev,
                metas[j].ino,
            ) == k implies walk_usage(metas).1.contains(k) by {
            if j < init.len() {
                assert(init[j] == metas[j]);
            }
        }
    }
}

/// A hardlinked inode is counted once: a later entry for an inode already met
/// in the walk adds nothing.
pub proof fn law_hardlink_counted_once(metas: Seq<EntryMeta>, m: EntryMeta, j: int)
    requires
        0 <= j < metas.len(),
        is_hardlinked(metas[j]),
        is_hardlinked(m),
        inode_key(metas[j].dev, metas[j].ino) == inode_key(m.dev, m.ino),
    ensures
        walk_usage(metas.push(m)).0 == walk_usage(metas).0,
{
    lemma_walk_seen(metas, inode_key(m.dev, m.ino));
    assert(metas.push(m).drop_last() == metas);
}

/// Symlinks, directories and other non-regular entries add nothing.
pub proof fn law_non_files_count_zero(metas: Seq<EntryMeta>, m: EntryMeta)
    requires
        !m.is_file,
    ensures
        walk_usage(metas.push(m)).0 == walk_usage(metas).0,
{
    assert(metas.push(m).drop_last() == metas);
}

/// The disk usage of a walk's entries (the tree's usage when the walk covers
/// it; a partial sum when it was cancelled).
pub fn dir_usage(metas: &Vec<EntryMeta>) -> (n: u64)
    requires
        forall|j: int| 0 <= j < metas@.len() ==> (#[trigger] metas@[j]).blocks * BLOCK_UNIT <= u64::MAX,
        walk_usage(metas@).0 <= u64::MAX,
    ensures
        n == walk_usage(metas@).0,
{
    let mut seen: HashSet<u128> = HashSet::new();
    let mut total: u64 = 0;
    let mut i: usize = 0;
    while i < metas.len()
        invariant
            i <= metas.len(),
            forall|j: int| 0 <= j < metas@.len() ==> (#[trigger] metas@[j]).blocks * BLOCK_UNIT <= u64::MAX,
            walk_usage(metas@).0 <= u64::MAX,
            total == walk_usage(metas@.take(i as int)).0,
            seen@ == walk_usage(metas@.take(i as int)).1,
        decreases metas.len() - i,
    {
        proof {
            assert(metas@.take(i + 1).drop_last() == metas@.take(i as int));
            assert(metas@.take(i + 1).last() == metas@[i as int]);
            lemma_walk_prefix(metas@, i + 1);
        }
        let add = entry_disk_usage(&metas[i], &mut seen);
        total = total + add;
        i = i + 1;
    }
    assert(metas@.take(metas@.len() as int) == metas@);
    total
}

proof fn lemma_walk_prefix(metas: Seq<EntryMeta>, k: int)
    requires
        0 <= k <= metas.len(),
    ensures
        walk_usage(metas.take(k)).0 <= walk_usage(metas).0,
    decreases metas.len() - k,
{
    if k < metas.len() {
        lemma_walk_prefix(metas, k + 1);
        assert(metas.take(k + 1).drop_last() == metas.take(k));
    } else {
        assert(metas.take(k) == metas);
    }
}

/// The disk usage of a walk's entries, or `None` when an entry's block count
/// or the total does not fit in a `u64`.
pub fn try_dir_usage(metas: &Vec<EntryMeta>) -> (r: Option<u64>)
    ensures
        r matches Some(n) ==> n == walk_usage(metas@).0,
        r is None ==> (walk_usage(metas@).0 > u64::MAX || exists|j: int|
            0 <= j < metas@.len() && (#[trigger] metas@[j]).blocks * BLOCK_UNIT > u64::MAX),
{
    let mut seen: HashSet<u128> = HashSet::new();
    let mut total: u64 = 0;
    let mut i: usize = 0;
    while i < metas.len()
        invariant
            i <= metas.len(),
            total == walk_usage(metas@.take(i as int)).0,
            seen@ == walk_usage(metas@.take(i as int)).1,
        decreases metas.len() - i,
    {
        proof {
            assert(metas@.take(i + 1).drop_last() == metas@.take(i as int));
            assert(metas@.take(i + 1).last() == metas@[i as int]);
        }
        if metas[i].blocks > u64::MAX / BLOCK_UNIT {
            return None;
        }
        let add = entry_disk_usage(&metas[i], &mut seen);
        if add > u64::MAX - total {
            proof {
                lemma_walk_prefix(metas@, i + 1);
            }
            return None;
        }
        total = total + add;
        i = i + 1;
    }
    assert(metas@.take(metas@.len() as int) == metas@);
    Some(total)
}

} // verus!
