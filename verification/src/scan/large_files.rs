//! Large & Old Files: which files of the home walk are reported, and in what
//! order.
//!
//! Matches are moved to the Trash (recoverable) rather than deleted outright:
//! these are user files, not regenerable junk.

use vstd::prelude::*;
use crate::path::{file_name_of, path_file_name};
use crate::types::{item_views, DeleteMode, Safety, ScanItem, ScanItemView};

verus! {

/// Seconds in a day.
pub const SECONDS_PER_DAY: u64 = 86400;

/// `st_blocks` counts 512-byte units.
pub const BLOCK_UNIT: u64 = 512;

/// The newest modification time an old file may have: `days` before `now`,
/// never before the epoch.
pub open spec fn cutoff_of(now: u64, older_than_days: Option<u64>) -> Option<u64> {
    match older_than_days {
        Some(d) => Some(
            if now >= d * SECONDS_PER_DAY {
                (now - d * SECONDS_PER_DAY) as u64
            } else {
                0
            },
        ),
        None => None,
    }
}

/// The age cutoff for `older_than_days`, as seconds since the epoch.
pub fn age_cutoff(now: u64, older_than_days: Option<u64>) -> (r: Option<u64>)
    requires
        older_than_days matches Some(d) ==> d * SECONDS_PER_DAY <= u64::MAX,
    ensures
        r == cutoff_of(now, older_than_days),
{
    match older_than_days {
        Some(d) => Some(now.saturating_sub(d * SECONDS_PER_DAY)),
        None => None,
    }
}

/// A modification time as the OS reports it (`i64`), read as unsigned: a
/// time before the epoch counts as far in the future.
pub open spec fn mtime_unsigned(mtime: i64) -> int {
    if mtime >= 0 {
        mtime as int
    } else {
        mtime + 0x1_0000_0000_0000_0000
    }
}

/// The row for a large file: labelled by its file name (its whole path when
/// it has none), risky, moved to the Trash, never pre-selected.
pub open spec fn large_file_row(path: Seq<char>, size: u64) -> ScanItemView {
    ScanItemView {
        category: "Large File"@,
        label: match path_file_name(path) {
            Some(n) => n,
            None => path,
        },
        path,
        size,
        safety: Safety::Risky,
        delete_mode: DeleteMode::Trash,
        selected: false,
        note: None,
    }
}

/// Whether a regular file of `blocks` blocks, last modified at `mtime`, is
/// reported: at least `min_bytes` on disk and, with a cutoff, not modified
/// after it.
pub open spec fn is_reported(blocks: u64, mtime: i64, min_bytes: u64, cutoff: Option<u64>) -> bool {
    &&& blocks * BLOCK_UNIT >= min_bytes
    &&& match cutoff {
        Some(c) => mtime_unsigned(mtime) <= c,
        None => true,
    }
}

/// The row for a regular file found by the walk, or `None` when it is too
/// small or too recently modified.
pub fn large_file_item(path: String, blocks: u64, mtime: i64, min_bytes: u64, cutoff: Option<u64>) -> (r:
    Option<ScanItem>)
    requires
        blocks * BLOCK_UNIT <= u64::MAX,
    ensures
        r is Some <==> is_reported(blocks, mtime, min_bytes, cutoff),
        r matches Some(item) ==> item@ == large_file_row(path@, (blocks * BLOCK_UNIT) as u64),
{
    let size = blocks * BLOCK_UNIT;
    if size < min_bytes {
        return None;
    }
    match cutoff {
        Some(c) => {
            let m: i128 = mtime as i128;
            let unsigned: i128 = if m >= 0 {
                m
            } else {
                m + 0x1_0000_0000_0000_0000i128
            };
            if unsigned > c as i128 {
                return None;
            }
        },
        None => {},
    }
    let label = match file_name_of(path.as_str()) {
        Some(n) => n,
        None => path.clone(),
    };
    Some(
        ScanItem {
            category: "Large File".to_owned(),
            label,
            path,
            size,
            safety: Safety::Risky,
            delete_mode: DeleteMode::Trash,
            selected: false,
            note: None,
        },
    )
}

/// `out` is `inp` sorted by size, biggest first, equal sizes keeping their
/// order (a stable sort), as `perm` maps each output position to its input.
pub open spec fn is_biggest_first_of(out: Seq<ScanItemView>, inp: Seq<ScanItemView>, perm: Seq<int>) -> bool {
    &&& out.len() == inp.len()
    &&& perm.len() == inp.len()
    &&& forall|k: int| 0 <= k < out.len() ==> 0 <= #[trigger] perm[k] < inp.len() && out[k] == inp[perm[k]]
    &&& forall|k: int, l: int| 0 <= k < l < out.len() ==> #[trigger] perm[k] != #[trigger] perm[l]
    &&& forall|k: int, l: int| 0 <= k < l < out.len() ==> (#[trigger] out[k]).size >= (#[trigger] out[l]).size
    &&& forall|k: int, l: int|
        0 <= k < l < out.len() && (#[trigger] out[k]).size == (#[trigger] out[l]).size ==> perm[k] < perm[l]
}

pub open spec fn biggest_first(out: Seq<ScanItemView>, inp: Seq<ScanItemView>) -> bool {
    exists|perm: Seq<int>| is_biggest_first_of(out, inp, perm)
}

/// Sort the rows biggest first; rows of equal size keep their order.
pub fn sort_biggest_first(items: Vec<ScanItem>) -> (r: Vec<ScanItem>)
    ensures
        biggest_first(item_views(r@), item_views(items@)),
{
    let ghost inp = item_views(items@);
    let mut rest = items;
    let mut out: Vec<ScanItem> = Vec::new();
    let ghost mut perm: Seq<int> = seq![];
    let ghost mut i: int = 0;
    while rest.len() > 0
        invariant
            0 <= i <= inp.len(),
            item_views(rest@) == inp.skip(i),
            out@.len() == i,
            perm.len() == i,
            forall|k: int| 0 <= k < i ==> 0 <= #[trigger] perm[k] < i && out@[k]@ == inp[perm[k]],
            forall|k: int, l: int| 0 <= k < l < i ==> #[trigger] perm[k] != #[trigger] perm[l],
            forall|k: int, l: int| 0 <= k < l < i ==> (#[trigger] out@[k]).size >= (#[trigger] out@[l]).size,
            forall|k: int, l: int|
                0 <= k < l < i && (#[trigger] out@[k]).size == (#[trigger] out@[l]).size ==> perm[k] < perm[l],
        decreases rest.len(),
    {
        let ghost before = rest@;
        assert(item_views(before).len() == before.len());
        assert(i < inp.len());
        assert(item_views(before)[0] == before[0]@);
        let item = rest.remove(0);
        proof {
            assert(rest@ == before.remove(0));
            assert forall|k: int| 0 <= k < rest@.len() implies #[trigger] item_views(rest@)[k] == inp.skip(
                i + 1,
            )[k] by {
                assert(rest@[k] == before[k + 1]);
                assert(item_views(before)[k + 1] == inp.skip(i)[k + 1]);
            }
            assert(item_views(rest@) =~= inp.skip(i + 1));
            assert(item@ == inp[i]);
        }
        let mut p = out.len();
        while p > 0 && out[p - 1].size < item.size
            invariant
                p <= out@.len() == i,
                forall|q: int| p <= q < i ==> (#[trigger] out@[q]).size < item.size,
            decreases p,
        {
            p = p - 1;
        }
        let ghost old_out = out@;
        let ghost old_perm = perm;
        out.insert(p, item);
        proof {
            perm = old_perm.insert(p as int, i);
            assert forall|k: int| 0 <= k < i + 1 implies 0 <= #[trigger] perm[k] < i + 1 && out@[k]@
                == inp[perm[k]] by {
                if k < p {
                    assert(perm[k] == old_perm[k] && out@[k] == old_out[k]);
                } else if k > p {
                    assert(perm[k] == old_perm[k - 1] && out@[k] == old_out[k - 1]);
                }
            }
            assert forall|k: int, l: int| 0 <= k < l < i + 1 implies #[trigger] perm[k] != #[trigger] perm[l] by {
                if k < p && l > p {
                    assert(perm[k] == old_perm[k] && perm[l] == old_perm[l - 1]);
                } else if k > p {
                    assert(perm[k] == old_perm[k - 1] && perm[l] == old_perm[l - 1]);
                } else if l < p {
                    assert(perm[k] == old_perm[k] && perm[l] == old_perm[l]);
                } else if k == p {
                    assert(perm[l] == old_perm[l - 1]);
                } else {
                    assert(perm[k] == old_perm[k]);
                }
            }
            assert forall|k: int, l: int| 0 <= k < l < i + 1 implies (#[trigger] out@[k]).size >= (
            #[trigger] out@[l]).size by {
                if k < p && l > p {
                    assert(out@[k] == old_out[k] && out@[l] == old_out[l - 1]);
                } else if k > p {
                    assert(out@[k] == old_out[k - 1] && out@[l] == old_out[l - 1]);
                } else if l < p {
                    assert(out@[k] == old_out[k] && out@[l] == old_out[l]);
                } else if k == p {
                    assert(out@[l] == old_out[l - 1]);
                } else {
                    assert(out@[k] == old_out[k]);
                    assert(old_out[p - 1].size >= out@[p as int].size);
                }
            }
            assert forall|k: int, l: int|
                0 <= k < l < i + 1 && (#[trigger] out@[k]).size == (#[trigger] out@[l]).size implies perm[k]
                < perm[l] by {
                if k < p && l > p {
                    assert(out@[k] == old_out[k] && out@[l] == old_out[l - 1]);
                    assert(perm[k] == old_perm[k] && perm[l] == old_perm[l - 1]);
                } else if k > p {
                    assert(out@[k] == old_out[k - 1] && out@[l] == old_out[l - 1]);
                    assert(perm[k] == old_perm[k - 1] && perm[l] == old_perm[l - 1]);
                } else if l < p {
                    assert(out@[k] == old_out[k] && out@[l] == old_out[l]);
                    assert(perm[k] == old_perm[k] && perm[l] == old_perm[l]);
                } else if k == p {
                    assert(out@[l] == old_out[l - 1]);
                } else {
                    assert(perm[k] == old_perm[k]);
                }
            }
            i = i + 1;
        }
    }
    proof {
        let ov = item_views(out@);
        assert(is_biggest_first_of(ov, inp, perm)) by {
            assert forall|k: int| 0 <= k < ov.len() implies 0 <= #[trigger] perm[k] < inp.len() && ov[k]
                == inp[perm[k]] by {}
            assert forall|k: int, l: int| 0 <= k < l < ov.len() implies (#[trigger] ov[k]).size >= (
            #[trigger] ov[l]).size by {
                assert(ov[k] == out@[k]@ && ov[l] == out@[l]@);
            }
            assert forall|k: int, l: int|
                0 <= k < l < ov.len() && (#[trigger] ov[k]).size == (#[trigger] ov[l]).size implies perm[k]
                < perm[l] by {
                assert(ov[k] == out@[k]@ && ov[l] == out@[l]@);
            }
        }
    }
    out
}

} // verus!
