//! The order in which installed kernel packages are considered, oldest first:
//! by Debian version (as `dpkg --compare-versions` decides), then by name.

use vstd::prelude::*;
use std::cmp::Ordering;
use crate::helper::KernelPackage;
use crate::order::{lex_le, lex_le_chars};
use crate::text::{chars_of, eq_chars};

verus! {

/// The order of two packages given what dpkg answered for `a.version lt
/// b.version` and for `a.version gt b.version`: by version when dpkg orders
/// them, else by name as `String` orders.
pub open spec fn kernel_order(
    version_lt: bool,
    version_gt: bool,
    a_name: Seq<char>,
    b_name: Seq<char>,
) -> Ordering {
    if version_lt {
        Ordering::Less
    } else if version_gt {
        Ordering::Greater
    } else if a_name == b_name {
        Ordering::Equal
    } else if lex_le(a_name, b_name) {
        Ordering::Less
    } else {
        Ordering::Greater
    }
}

/// Compare two kernel packages, oldest first. `version_lt` and `version_gt`
/// are whether `dpkg --compare-versions <a.version> lt|gt <b.version>`
/// succeeded.
pub fn compare_kernel_packages(
    a: &KernelPackage,
    b: &KernelPackage,
    version_lt: bool,
    version_gt: bool,
) -> (o: Ordering)
    ensures
        o == kernel_order(version_lt, version_gt, a.name@, b.name@),
{
    if version_lt {
        Ordering::Less
    } else if version_gt {
        Ordering::Greater
    } else {
        let an = chars_of(a.name.as_str());
        let bn = chars_of(b.name.as_str());
        if eq_chars(&an, &bn) {
            Ordering::Equal
        } else if lex_le_chars(&an, &bn) {
            Ordering::Less
        } else {
            Ordering::Greater
        }
    }
}

} // verus!
