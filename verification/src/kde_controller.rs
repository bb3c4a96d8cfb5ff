//! The KDE window's controller state: the rows of the last scan, whether a
//! job runs, and the texts QML binds to; how scans, cleanups and row toggles
//! change them.

use vstd::prelude::*;
use crate::frontend::{clean_status, clean_status_of, items_found_status, select_all, selection_summary};
use crate::gnome_app::lemma_sizes_sum_same_sizes;
use crate::text::decimal_digits;
use crate::types::{
    clone_items, decimal_size_text, item_views, law_selected_within_total, selected_sum, sizes_sum,
    total_size, selected_size, CleanReport, ScanItem,
};

verus! {

/// What the gauge shows: the size selected and found; its fill is their ratio.
pub struct GaugeReading {
    pub selected: u64,
    pub total: u64,
}

pub struct ControllerRust {
    pub busy: bool,
    pub summary: String,
    pub status: String,
    pub has_selection: bool,
    /// The rows of the last scan.
    pub last: Vec<ScanItem>,
}

impl ControllerRust {
    /// The sizes of the rows add up within a `u64`.
    pub open spec fn wf(&self) -> bool {
        sizes_sum(self.last@) <= u64::MAX
    }

    /// The controller as the window opens.
    pub fn new() -> (c: ControllerRust)
        ensures
            c.wf(),
            !c.busy,
            c.summary@ == "Press Scan"@,
            c.status@ == Seq::<char>::empty(),
            !c.has_selection,
            c.last@.len() == 0,
    {
        ControllerRust {
            busy: false,
            summary: "Press Scan".to_owned(),
            status: String::new(),
            has_selection: false,
            last: Vec::new(),
        }
    }

    /// Start a scan, unless one is running: returns whether it started.
    pub fn scan(&mut self) -> (started: bool)
        ensures
            started == !old(self).busy,
            final(self).busy,
            final(self).last@ == old(self).last@,
            final(self).has_selection == old(self).has_selection,
            started ==> final(self).summary@ == "Scanning…"@ && final(self).status@ == "Scanning…"@,
            !started ==> final(self).summary@ == old(self).summary@ && final(self).status@ == old(
                self,
            ).status@,
    {
        if self.busy {
            return false;
        }
        self.busy = true;
        self.summary = "Scanning…".to_owned();
        self.status = "Scanning…".to_owned();
        true
    }

    /// A scan finished with `items`: show them and what is selected.
    pub fn scan_done(&mut self, items: Vec<ScanItem>) -> (g: GaugeReading)
        requires
            sizes_sum(items@) <= u64::MAX,
        ensures
            final(self).wf(),
            !final(self).busy,
            final(self).last@ == items@,
            g.selected == selected_sum(items@),
            g.total == sizes_sum(items@),
            final(self).summary@ == decimal_size_text(g.selected) + " selected"@,
            final(self).status@ == decimal_digits(items@.len() as nat) + " items found"@,
            final(self).has_selection == (g.selected > 0),
    {
        proof {
            law_selected_within_total(items@);
        }
        let total = total_size(items.as_slice());
        let selected = selected_size(items.as_slice());
        let found = items.len();
        self.last = items;
        self.busy = false;
        self.summary = selection_summary(selected);
        self.status = items_found_status(found);
        self.has_selection = selected > 0;
        GaugeReading { selected, total }
    }

    /// Start cleaning the selected rows, unless a job runs: the rows to clean.
    pub fn clean_safe(&mut self) -> (r: Option<Vec<ScanItem>>)
        ensures
            final(self).busy,
            final(self).last@ == old(self).last@,
            final(self).summary@ == old(self).summary@,
            final(self).has_selection == old(self).has_selection,
            old(self).busy ==> r is None && final(self).status@ == old(self).status@,
            !old(self).busy ==> (r matches Some(items) && item_views(items@) == item_views(
                old(self).last@,
            )) && final(self).status@ == "Cleaning…"@,
    {
        if self.busy {
            return None;
        }
        self.busy = true;
        self.status = "Cleaning…".to_owned();
        Some(clone_items(&self.last))
    }

    /// A cleanup finished: report it, and clear the selection.
    pub fn clean_done(&mut self, report: &CleanReport, extra: &str)
        requires
            old(self).wf(),
        ensures
            final(self).wf(),
            !final(self).busy,
            final(self).status@ == clean_status_of(report.freed_bytes, extra@, report.failures@.len()),
            final(self).summary@ == "0 B selected"@,
            !final(self).has_selection,
            final(self).last@.len() == old(self).last@.len(),
            forall|k: int|
                0 <= k < old(self).last@.len() ==> #[trigger] final(self).last@[k] == (ScanItem {
                    selected: false,
                    ..old(self).last@[k]
                }),
    {
        let ghost before = self.last@;
        self.status = clean_status(report, extra);
        select_all(&mut self.last, false);
        proof {
            lemma_sizes_sum_same_sizes(self.last@, before);
        }
        self.busy = false;
        self.summary = "0 B selected".to_owned();
        self.has_selection = false;
    }

    /// Check or uncheck one row by the index QML passes; `None` (and no
    /// change) when the index names no row.
    pub fn set_selected(&mut self, index: i32, selected: bool) -> (g: Option<GaugeReading>)
        requires
            old(self).wf(),
        ensures
            final(self).wf(),
            final(self).busy == old(self).busy,
            final(self).status@ == old(self).status@,
            !(0 <= index < old(self).last@.len()) ==> g is None && final(self).last@ == old(self).last@
                && final(self).summary@ == old(self).summary@ && final(self).has_selection == old(
                self,
            ).has_selection,
            0 <= index < old(self).last@.len() ==> {
                &&& final(self).last@ == old(self).last@.update(
                    index as int,
                    ScanItem { selected, ..old(self).last@[index as int] },
                )
                &&& g matches Some(r) && r.selected == selected_sum(final(self).last@) && r.total
                    == sizes_sum(final(self).last@)
                &&& final(self).summary@ == decimal_size_text(selected_sum(final(self).last@) as u64)
                    + " selected"@
                &&& final(self).has_selection == (selected_sum(final(self).last@) > 0)
            },
    {
        let ghost before = self.last@;
        if !crate::frontend::set_selected(&mut self.last, index, selected) {
            return None;
        }
        proof {
            lemma_sizes_sum_same_sizes(self.last@, before);
            law_selected_within_total(self.last@);
        }
        let total = total_size(self.last.as_slice());
        let sel = selected_size(self.last.as_slice());
        self.summary = selection_summary(sel);
        self.has_selection = sel > 0;
        Some(GaugeReading { selected: sel, total })
    }
}

} // verus!
