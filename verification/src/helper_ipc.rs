//! The contract between the frontends and the privileged helper.
//!
//! A request names one operation of a **closed** set; the helper never takes a
//! caller-supplied path for a root deletion.

use vstd::prelude::*;
use crate::text::{chars_of, eq_chars, slice_chars, starts_with, starts_with_chars};
use crate::types::priv_scheme;

verus! {

/// What an [`HelperOp::EstimateOnly`] should measure.
#[derive(Debug, Clone, Copy, PartialEq, Eq, Structural)]
pub enum PrivilegedTarget {
    AptCache,
    OrphanPackages,
    OldKernels,
    Journal,
    SnapRevisions,
    FlatpakUnused,
}

/// A privileged operation the helper is allowed to perform. This is the
/// entire universe of things that can run as root.
#[derive(Debug, Clone, PartialEq, Eq, Structural)]
pub enum HelperOp {
    /// `apt-get clean` — empty the downloaded-package cache.
    AptClean,
    /// `apt-get autoremove --purge` — remove orphaned dependencies.
    AptAutoremove,
    /// Remove old kernels, keeping the running kernel and the newest `keep`.
    PruneOldKernels { keep: u32 },
    /// `journalctl --vacuum-size=<MB>` — shrink the systemd journal.
    VacuumJournal { max_mb: u64 },
    /// Drop old/disabled snap revisions.
    PruneSnapRevisions,
    /// `flatpak uninstall --unused` (system installation).
    FlatpakRemoveUnused,
    /// A read-only probe estimating reclaimable space.
    EstimateOnly { what: PrivilegedTarget },
}

/// The marker with its `priv://` scheme removed, if it has one.
pub open spec fn marker_key(marker: Seq<char>) -> Seq<char> {
    if starts_with(marker, priv_scheme()) {
        marker.skip(priv_scheme().len() as int)
    } else {
        marker
    }
}

/// The operation a marker key names.
pub open spec fn op_for_key(key: Seq<char>) -> Option<HelperOp> {
    if key == "apt_clean"@ {
        Some(HelperOp::AptClean)
    } else if key == "apt_autoremove"@ {
        Some(HelperOp::AptAutoremove)
    } else if key == "prune_old_kernels"@ {
        Some(HelperOp::PruneOldKernels { keep: 1 })
    } else if key == "vacuum_journal"@ {
        Some(HelperOp::VacuumJournal { max_mb: 500 })
    } else if key == "prune_snap_revisions"@ {
        Some(HelperOp::PruneSnapRevisions)
    } else if key == "flatpak_remove_unused"@ {
        Some(HelperOp::FlatpakRemoveUnused)
    } else {
        None
    }
}

impl HelperOp {
    /// Map a `priv://<marker>` path (produced by the package scanner) to the
    /// privileged op that performs it. Returns `None` for unknown markers.
    pub fn from_marker(marker: &str) -> (r: Option<HelperOp>)
        ensures
            r == op_for_key(marker_key(marker@)),
    {
        let m = chars_of(marker);
        let scheme = vec!['p', 'r', 'i', 'v', ':', '/', '/'];
        assert(scheme@ =~= priv_scheme());
        let key = if starts_with_chars(&m, &scheme) {
            slice_chars(&m, scheme.len(), m.len())
        } else {
            slice_chars(&m, 0, m.len())
        };
        assert(key@ == marker_key(marker@)) by {
            assert(m@.subrange(0, m@.len() as int) =~= m@);
        }
        if eq_chars(&key, &chars_of("apt_clean")) {
            Some(HelperOp::AptClean)
        } else if eq_chars(&key, &chars_of("apt_autoremove")) {
            Some(HelperOp::AptAutoremove)
        } else if eq_chars(&key, &chars_of("prune_old_kernels")) {
            Some(HelperOp::PruneOldKernels { keep: 1 })
        } else if eq_chars(&key, &chars_of("vacuum_journal")) {
            Some(HelperOp::VacuumJournal { max_mb: 500 })
        } else if eq_chars(&key, &chars_of("prune_snap_revisions")) {
            Some(HelperOp::PruneSnapRevisions)
        } else if eq_chars(&key, &chars_of("flatpak_remove_unused")) {
            Some(HelperOp::FlatpakRemoveUnused)
        } else {
            None
        }
    }
}

/// `priv://<key>` and the bare `<key>` name the same operation (for keys that
/// do not themselves begin with the scheme, since only one is stripped).
pub proof fn law_marker_scheme_optional(key: Seq<char>)
    requires
        !starts_with(key, priv_scheme()),
    ensures
        op_for_key(marker_key(priv_scheme() + key)) == op_for_key(key),
        op_for_key(marker_key(key)) == op_for_key(key),
{
    let m = priv_scheme() + key;
    assert(m.take(priv_scheme().len() as int) =~= priv_scheme());
    assert(m.skip(priv_scheme().len() as int) =~= key);
}

/// No marker can request an estimate or name kernels/sizes of its own: the
/// parameters of the two parameterised operations are fixed.
pub proof fn law_marker_ops_fixed(marker: Seq<char>)
    ensures
        op_for_key(marker_key(marker)) matches Some(op) ==> match op {
            HelperOp::EstimateOnly { .. } => false,
            HelperOp::PruneOldKernels { keep } => keep == 1,
            HelperOp::VacuumJournal { max_mb } => max_mb == 500,
            _ => true,
        },
{
}

/// The marker key naming each operation a marker can request.
pub open spec fn op_key(op: HelperOp) -> Option<Seq<char>> {
    match op {
        HelperOp::AptClean => Some("apt_clean"@),
        HelperOp::AptAutoremove => Some("apt_autoremove"@),
        HelperOp::PruneOldKernels { keep } => if keep == 1 {
            Some("prune_old_kernels"@)
        } else {
            None
        },
        HelperOp::VacuumJournal { max_mb } => if max_mb == 500 {
            Some("vacuum_journal"@)
        } else {
            None
        },
        HelperOp::PruneSnapRevisions => Some("prune_snap_revisions"@),
        HelperOp::FlatpakRemoveUnused => Some("flatpak_remove_unused"@),
        HelperOp::EstimateOnly { .. } => None,
    }
}

/// Each marker key requests the operation it names, and only that one: a key
/// maps to an operation whose name is that key, each named operation is
/// reached from its key, and two keys never request the same operation.
pub proof fn law_marker_keys_name_their_ops(a: Seq<char>, b: Seq<char>, op: HelperOp)
    ensures
        op_for_key(a) matches Some(o) ==> op_key(o) == Some(a),
        op_key(op) matches Some(k) ==> op_for_key(k) == Some(op),
        op_for_key(a) is Some && op_for_key(a) == op_for_key(b) ==> a == b,
{
    reveal_strlit("apt_clean");
    reveal_strlit("apt_autoremove");
    reveal_strlit("prune_old_kernels");
    reveal_strlit("vacuum_journal");
    reveal_strlit("prune_snap_revisions");
    reveal_strlit("flatpak_remove_unused");
    lemma_keys_distinct();
}

proof fn lemma_keys_distinct()
    ensures
        "apt_clean"@ != "apt_autoremove"@,
        "apt_clean"@ != "prune_old_kernels"@,
        "apt_clean"@ != "vacuum_journal"@,
        "apt_clean"@ != "prune_snap_revisions"@,
        "apt_clean"@ != "flatpak_remove_unused"@,
        "apt_autoremove"@ != "prune_old_kernels"@,
        "apt_autoremove"@ != "vacuum_journal"@,
        "apt_autoremove"@ != "prune_snap_revisions"@,
        "apt_autoremove"@ != "flatpak_remove_unused"@,
        "prune_old_kernels"@ != "vacuum_journal"@,
        "prune_old_kernels"@ != "prune_snap_revisions"@,
        "prune_old_kernels"@ != "flatpak_remove_unused"@,
        "vacuum_journal"@ != "prune_snap_revisions"@,
        "vacuum_journal"@ != "flatpak_remove_unused"@,
        "prune_snap_revisions"@ != "flatpak_remove_unused"@,
{
    reveal_strlit("apt_clean");
    reveal_strlit("apt_autoremove");
    reveal_strlit("prune_old_kernels");
    reveal_strlit("vacuum_journal");
    reveal_strlit("prune_snap_revisions");
    reveal_strlit("flatpak_remove_unused");
    assert("apt_clean"@[4] != "apt_autoremove"@[4]);
    assert("apt_clean"@[0] != "prune_old_kernels"@[0]);
    assert("apt_clean"@[0] != "vacuum_journal"@[0]);
    assert("apt_clean"@[0] != "prune_snap_revisions"@[0]);
    assert("apt_clean"@[0] != "flatpak_remove_unused"@[0]);
    assert("apt_autoremove"@[0] != "prune_old_kernels"@[0]);
    assert("apt_autoremove"@[0] != "vacuum_journal"@[0]);
    assert("apt_autoremove"@[0] != "prune_snap_revisions"@[0]);
    assert("apt_autoremove"@[0] != "flatpak_remove_unused"@[0]);
    assert("prune_old_kernels"@[0] != "vacuum_journal"@[0]);
    assert("prune_old_kernels"@[6] != "prune_snap_revisions"@[6]);
    assert("prune_old_kernels"@[0] != "flatpak_remove_unused"@[0]);
    assert("vacuum_journal"@[0] != "prune_snap_revisions"@[0]);
    assert("vacuum_journal"@[0] != "flatpak_remove_unused"@[0]);
    assert("prune_snap_revisions"@[0] != "flatpak_remove_unused"@[0]);
}

/// A request to the helper.
#[derive(Debug, Clone)]
pub struct HelperRequest {
    /// Protocol version so the helper can reject mismatched callers.
    pub version: u32,
    pub op: HelperOp,
    /// If true, do not actually change anything — just report what would happen.
    pub dry_run: bool,
}

impl HelperRequest {
    pub const PROTOCOL_VERSION: u32 = 1;

    pub fn new(op: HelperOp) -> (r: HelperRequest)
        ensures
            r.version == Self::PROTOCOL_VERSION,
            r.op == op,
            !r.dry_run,
    {
        HelperRequest { version: Self::PROTOCOL_VERSION, op, dry_run: false }
    }

    pub fn dry(op: HelperOp) -> (r: HelperRequest)
        ensures
            r.version == Self::PROTOCOL_VERSION,
            r.op == op,
            r.dry_run,
    {
        HelperRequest { version: Self::PROTOCOL_VERSION, op, dry_run: true }
    }
}

/// The helper's reply.
#[derive(Debug, Clone)]
pub struct HelperResponse {
    pub ok: bool,
    /// Bytes freed (or estimated to be freed for a dry run / estimate).
    pub freed_bytes: u64,
    /// Human-readable detail or error message.
    pub message: String,
}

impl HelperResponse {
    pub fn ok(freed_bytes: u64, message: &str) -> (r: HelperResponse)
        ensures
            r.ok,
            r.freed_bytes == freed_bytes,
            r.message@ == message@,
    {
        HelperResponse { ok: true, freed_bytes, message: message.to_owned() }
    }

    pub fn err(message: &str) -> (r: HelperResponse)
        ensures
            !r.ok,
            r.freed_bytes == 0,
            r.message@ == message@,
    {
        HelperResponse { ok: false, freed_bytes: 0, message: message.to_owned() }
    }
}

} // verus!
