//! System Monitor: which mounts are shown, and how much of each is used.
//!
//! The live sampling itself (CPU, memory, swap, the mount list) is done by the
//! frontend shell through `sysinfo`.

use vstd::prelude::*;
use crate::path::{path_starts_with, starts_with_path};

verus! {

/// One mounted filesystem as reported by the OS.
#[derive(Debug, Clone)]
pub struct DiskInfo {
    pub mount: String,
    pub total: u64,
    pub available: u64,
}

/// Used space: total less available, never below zero.
pub open spec fn used_of(total: u64, available: u64) -> u64 {
    if total >= available {
        (total - available) as u64
    } else {
        0
    }
}

impl DiskInfo {
    pub fn used(&self) -> (u: u64)
        ensures
            u == used_of(self.total, self.available),
    {
        self.total.saturating_sub(self.available)
    }

    /// A copy with every field equal.
    pub fn clone_disk(&self) -> (r: DiskInfo)
        ensures
            r.mount@ == self.mount@,
            r.total == self.total,
            r.available == self.available,
    {
        DiskInfo { mount: self.mount.clone(), total: self.total, available: self.available }
    }
}

/// Whether a mount is shown: a real, sizeable filesystem, not one mounted
/// under `/snap` (the squashfs loop mounts of snap packages). The prefix is
/// matched by path components, as `Path::starts_with` does.
pub open spec fn is_shown_mount(mount: Seq<char>, total: u64) -> bool {
    total > 0 && !path_starts_with(mount, "/snap"@)
}

pub fn disk_shown(disk: &DiskInfo) -> (b: bool)
    ensures
        b == is_shown_mount(disk.mount@, disk.total),
{
    disk.total > 0 && !starts_with_path(disk.mount.as_str(), "/snap")
}

pub open spec fn disk_view(d: DiskInfo) -> (Seq<char>, u64, u64) {
    (d.mount@, d.total, d.available)
}

/// The shown mounts of `disks`, in order.
pub open spec fn shown_disks(disks: Seq<(Seq<char>, u64, u64)>) -> Seq<(Seq<char>, u64, u64)>
    decreases disks.len(),
{
    if disks.len() == 0 {
        seq![]
    } else {
        let prev = shown_disks(disks.drop_last());
        let d = disks.last();
        if is_shown_mount(d.0, d.1) {
            prev.push(d)
        } else {
            prev
        }
    }
}

/// Keep the mounts worth showing, in the order the OS listed them.
pub fn select_disks(disks: &Vec<DiskInfo>) -> (r: Vec<DiskInfo>)
    ensures
        r@.map_values(|d: DiskInfo| disk_view(d)) == shown_disks(
            disks@.map_values(|d: DiskInfo| disk_view(d)),
        ),
{
    let ghost all = disks@.map_values(|d: DiskInfo| disk_view(d));
    let mut r: Vec<DiskInfo> = Vec::new();
    let mut i: usize = 0;
    while i < disks.len()
        invariant
            i <= disks.len(),
            all == disks@.map_values(|d: DiskInfo| disk_view(d)),
            r@.map_values(|d: DiskInfo| disk_view(d)) == shown_disks(all.take(i as int)),
        decreases disks.len() - i,
    {
        proof {
            assert(all.take(i + 1).drop_last() == all.take(i as int));
            assert(all.take(i + 1).last() == disk_view(disks@[i as int]));
        }
        if disk_shown(&disks[i]) {
            let ghost old_r = r@;
            r.push(disks[i].clone_disk());
            assert(r@.map_values(|d: DiskInfo| disk_view(d)) =~= old_r.map_values(
                |d: DiskInfo| disk_view(d),
            ).push(disk_view(disks@[i as int])));
        }
        i = i + 1;
    }
    assert(all.take(disks@.len() as int) == all);
    r
}

/// No mount of zero size and none under `/snap` is ever shown.
pub proof fn law_shown_disks_are_real(disks: Seq<(Seq<char>, u64, u64)>, k: int)
    requires
        0 <= k < shown_disks(disks).len(),
    ensures
        shown_disks(disks)[k].1 > 0,
        !path_starts_with(shown_disks(disks)[k].0, "/snap"@),
    decreases disks.len(),
{
    if disks.len() > 0 {
        let prev = shown_disks(disks.drop_last());
        if k < prev.len() {
            law_shown_disks_are_real(disks.drop_last(), k);
        }
    }
}

} // verus!
