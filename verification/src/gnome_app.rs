//! The GNOME window's model: which view is shown, whether work is running,
//! the scan result the rows show, and the status line; how each message and
//! each finished job changes it, and what the window must then do.

use vstd::prelude::*;
use crate::frontend::{
    clean_dialog_body, clean_dialog_lines, clean_status, clean_status_of, count_selected,
    heading_of, scan_status, select_all, string_views, view_heading, any_item,
};
use crate::text::{chars_of, concat, string_of};
use crate::types::{
    clone_items, decimal_size_text, format_decimal_size, item_views, law_selected_within_total,
    selected_sum, sizes_sum, CleanReport, Module, ScanItem, ScanResult,
};

verus! {

/// Which view the content area is showing (Smart Scan or a module).
#[derive(Debug, Clone, Copy, PartialEq, Eq, Structural)]
pub enum Screen {
    SmartScan,
    Module(Module),
}

pub open spec fn view_module(v: Screen) -> Option<Module> {
    match v {
        Screen::SmartScan => None,
        Screen::Module(m) => Some(m),
    }
}

/// A user action in the window.
pub enum Msg {
    Select(Screen),
    Scan,
    /// The row at this index was checked or unchecked.
    RowToggled(usize, bool),
    SelectAll(bool),
    ConfirmClean,
    Clean,
    Cancel,
    Tick,
}

/// A background job finished.
pub enum CmdOut {
    ScanDone(ScanResult),
    /// The cleanup's report, and what the helper said.
    CleanDone(CleanReport, String),
}

/// What the window does after an update.
pub enum Effect {
    Nothing,
    /// Feed a `Scan` message back.
    SendScan,
    /// Show the gauge busy and scan this view on a worker, with a fresh
    /// cancellation token.
    StartScan(Screen),
    /// Redraw the gauge from the selection.
    RefreshGauge,
    /// Rebuild the rows from the result, then redraw the gauge.
    RebuildRows,
    /// Trip the running job's cancellation token.
    CancelWork,
    /// Ask for confirmation with these lines; on "Clean", send `Clean`.
    ConfirmClean(Vec<String>),
    /// Clean these rows on a worker, with a fresh cancellation token.
    StartClean(Vec<ScanItem>),
    /// Sample the system monitor and show it.
    SampleMonitor,
}

pub struct App {
    pub view: Screen,
    pub busy: bool,
    pub title: String,
    pub subtitle: String,
    /// The backing scan result (source of truth for selection and cleaning).
    pub result: ScanResult,
    pub status: String,
}

/// Sizes that agree row for row sum the same.
pub proof fn lemma_sizes_sum_same_sizes(a: Seq<ScanItem>, b: Seq<ScanItem>)
    requires
        a.len() == b.len(),
        forall|k: int| 0 <= k < a.len() ==> (#[trigger] a[k]).size == b[k].size,
    ensures
        sizes_sum(a) == sizes_sum(b),
    decreases a.len(),
{
    if a.len() > 0 {
        lemma_sizes_sum_same_sizes(a.drop_last(), b.drop_last());
    }
}

/// A positive selected size means something is selected.
proof fn lemma_selected_sum_counts(items: Seq<ScanItem>)
    ensures
        selected_sum(items) > 0 ==> count_selected(items, any_item()) > 0,
    decreases items.len(),
{
    if items.len() > 0 {
        lemma_selected_sum_counts(items.drop_last());
    }
}

impl App {
    /// The sizes of the shown rows add up within a `u64`.
    pub open spec fn wf(&self) -> bool {
        sizes_sum(self.result.items@) <= u64::MAX
    }

    /// The window as it opens: Smart Scan, idle, nothing found yet.
    pub fn new() -> (a: App)
        ensures
            a.wf(),
            a.view == Screen::SmartScan,
            !a.busy,
            a.title@ == "Smart Scan"@,
            a.subtitle@ == "Reclaim space with one click"@,
            a.result.items@.len() == 0,
            a.status@ == Seq::<char>::empty(),
    {
        App {
            view: Screen::SmartScan,
            busy: false,
            title: "Smart Scan".to_owned(),
            subtitle: "Reclaim space with one click".to_owned(),
            result: ScanResult { items: Vec::new() },
            status: String::new(),
        }
    }

    /// Handle a user action.
    pub fn update(&mut self, msg: Msg) -> (e: Effect)
        requires
            old(self).wf(),
        ensures
            final(self).wf(),
            match msg {
                Msg::Select(v) => {
                    &&& final(self).view == v
                    &&& (final(self).title@, final(self).subtitle@) == heading_of(view_module(v))
                    &&& final(self).busy == old(self).busy
                    &&& final(self).result == old(self).result
                    &&& final(self).status@ == old(self).status@
                    &&& e == (if v != Screen::Module(Module::SystemMonitor) {
                        Effect::SendScan
                    } else {
                        Effect::Nothing
                    })
                },
                Msg::Scan => {
                    &&& final(self).view == old(self).view
                    &&& final(self).title@ == old(self).title@
                    &&& final(self).subtitle@ == old(self).subtitle@
                    &&& final(self).result == old(self).result
                    &&& if old(self).busy {
                        &&& final(self).busy
                        &&& final(self).status@ == old(self).status@
                        &&& e == Effect::Nothing
                    } else {
                        &&& final(self).busy
                        &&& final(self).status@ == "Scanning…"@
                        &&& e == Effect::StartScan(old(self).view)
                    }
                },
                Msg::RowToggled(i, v) => {
                    &&& final(self).view == old(self).view
                    &&& final(self).busy == old(self).busy
                    &&& final(self).title@ == old(self).title@
                    &&& final(self).subtitle@ == old(self).subtitle@
                    &&& final(self).status@ == old(self).status@
                    &&& final(self).result.items@ == (if i < old(self).result.items@.len() {
                        old(self).result.items@.update(
                            i as int,
                            ScanItem { selected: v, ..old(self).result.items@[i as int] },
                        )
                    } else {
                        old(self).result.items@
                    })
                    &&& e == Effect::RefreshGauge
                },
                Msg::SelectAll(v) => {
                    &&& final(self).view == old(self).view
                    &&& final(self).busy == old(self).busy
                    &&& final(self).title@ == old(self).title@
                    &&& final(self).subtitle@ == old(self).subtitle@
                    &&& final(self).status@ == old(self).status@
                    &&& final(self).result.items@.len() == old(self).result.items@.len()
                    &&& forall|k: int|
                        0 <= k < old(self).result.items@.len() ==> #[trigger] final(self).result.items@[k]
                            == (ScanItem {
                            selected: v,
                            ..old(self).result.items@[k]
                        })
                    &&& e == Effect::RebuildRows
                },
                Msg::ConfirmClean => {
                    &&& final(self).view == old(self).view
                    &&& final(self).busy == old(self).busy
                    &&& final(self).title@ == old(self).title@
                    &&& final(self).subtitle@ == old(self).subtitle@
                    &&& final(self).status@ == old(self).status@
                    &&& final(self).result == old(self).result
                    &&& if old(self).busy || selected_sum(old(self).result.items@) == 0 {
                        e == Effect::Nothing
                    } else {
                        e matches Effect::ConfirmClean(lines) && string_views(lines@)
                            == clean_dialog_body(old(self).result.items@)
                    }
                },
                Msg::Clean => {
                    &&& final(self).view == old(self).view
                    &&& final(self).title@ == old(self).title@
                    &&& final(self).subtitle@ == old(self).subtitle@
                    &&& final(self).result == old(self).result
                    &&& final(self).busy
                    &&& if old(self).busy {
                        &&& final(self).status@ == old(self).status@
                        &&& e == Effect::Nothing
                    } else {
                        &&& final(self).status@ == "Cleaning…"@
                        &&& e matches Effect::StartClean(items) && item_views(items@) == item_views(
                            old(self).result.items@,
                        )
                    }
                },
                Msg::Cancel => {
                    &&& final(self).view == old(self).view
                    &&& final(self).busy == old(self).busy
                    &&& final(self).title@ == old(self).title@
                    &&& final(self).subtitle@ == old(self).subtitle@
                    &&& final(self).result == old(self).result
                    &&& final(self).status@ == "Cancelling…"@
                    &&& e == Effect::CancelWork
                },
                Msg::Tick => {
                    &&& final(self).view == old(self).view
                    &&& final(self).busy == old(self).busy
                    &&& final(self).title@ == old(self).title@
                    &&& final(self).subtitle@ == old(self).subtitle@
                    &&& final(self).result == old(self).result
                    &&& final(self).status@ == old(self).status@
                    &&& e == (if old(self).view == Screen::Module(Module::SystemMonitor) {
                        Effect::SampleMonitor
                    } else {
                        Effect::Nothing
                    })
                },
            },
    {
        match msg {
            Msg::Select(v) => {
                self.view = v;
                let m = match v {
                    Screen::SmartScan => None,
                    Screen::Module(m) => Some(m),
                };
                let (t, s) = view_heading(m);
                self.title = t.to_owned();
                self.subtitle = s.to_owned();
                match v {
                    Screen::Module(Module::SystemMonitor) => Effect::Nothing,
                    _ => Effect::SendScan,
                }
            },
            Msg::Scan => {
                if self.busy {
                    return Effect::Nothing;
                }
                self.busy = true;
                self.status = "Scanning…".to_owned();
                Effect::StartScan(self.view)
            },
            Msg::RowToggled(i, v) => {
                if i < self.result.items.len() {
                    let ghost before = self.result.items@;
                    let mut item = self.result.items.remove(i);
                    item.selected = v;
                    self.result.items.insert(i, item);
                    proof {
                        let after = self.result.items@;
                        assert(after =~= before.update(i as int, item));
                        lemma_sizes_sum_same_sizes(after, before);
                    }
                }
                Effect::RefreshGauge
            },
            Msg::SelectAll(v) => {
                let ghost before = self.result.items@;
                select_all(&mut self.result.items, v);
                proof {
                    lemma_sizes_sum_same_sizes(self.result.items@, before);
                }
                Effect::RebuildRows
            },
            Msg::ConfirmClean => {
                if self.busy {
                    return Effect::Nothing;
                }
                proof {
                    law_selected_within_total(self.result.items@);
                    lemma_selected_sum_counts(self.result.items@);
                }
                if self.result.selected_size() == 0 {
                    return Effect::Nothing;
                }
                match clean_dialog_lines(&self.result.items) {
                    Some(lines) => Effect::ConfirmClean(lines),
                    None => Effect::Nothing,
                }
            },
            Msg::Clean => {
                if self.busy {
                    return Effect::Nothing;
                }
                self.busy = true;
                self.status = "Cleaning…".to_owned();
                Effect::StartClean(clone_items(&self.result.items))
            },
            Msg::Cancel => {
                self.status = "Cancelling…".to_owned();
                Effect::CancelWork
            },
            Msg::Tick => {
                match self.view {
                    Screen::Module(Module::SystemMonitor) => Effect::SampleMonitor,
                    _ => Effect::Nothing,
                }
            },
        }
    }

    /// Handle a finished job. A new scan result must add up within a `u64`.
    pub fn update_cmd(&mut self, out: CmdOut) -> (e: Effect)
        requires
            old(self).wf(),
            out matches CmdOut::ScanDone(res) ==> sizes_sum(res.items@) <= u64::MAX,
        ensures
            final(self).wf(),
            !final(self).busy,
            final(self).view == old(self).view,
            final(self).title@ == old(self).title@,
            final(self).subtitle@ == old(self).subtitle@,
            match out {
                CmdOut::ScanDone(res) => {
                    &&& final(self).result == res
                    &&& final(self).status@ == decimal_size_text(sizes_sum(res.items@) as u64)
                        + " found"@
                    &&& e == Effect::RebuildRows
                },
                CmdOut::CleanDone(report, extra) => {
                    &&& final(self).result == old(self).result
                    &&& final(self).status@ == clean_status_of(
                        report.freed_bytes,
                        extra@,
                        report.failures@.len(),
                    )
                    &&& e == Effect::SendScan
                },
            },
    {
        match out {
            CmdOut::ScanDone(res) => {
                self.busy = false;
                self.result = res;
                self.status = scan_status(self.result.total_size());
                Effect::RebuildRows
            },
            CmdOut::CleanDone(report, extra) => {
                self.busy = false;
                self.status = clean_status(&report, extra.as_str());
                Effect::SendScan
            },
        }
    }

    /// The Scan button's label.
    pub fn scan_label(&self) -> (s: &'static str)
        ensures
            s@ == (if self.busy { "Scanning…"@ } else { "Scan"@ }),
    {
        if self.busy {
            "Scanning…"
        } else {
            "Scan"
        }
    }

    /// The Clean button's label: the size selected.
    pub fn clean_label(&self) -> (s: String)
        requires
            self.wf(),
        ensures
            s@ == "Clean "@ + decimal_size_text(selected_sum(self.result.items@) as u64),
    {
        proof {
            law_selected_within_total(self.result.items@);
        }
        let v = concat(
            &chars_of("Clean "),
            &chars_of(format_decimal_size(self.result.selected_size()).as_str()),
        );
        string_of(v.as_slice())
    }

    /// Whether Clean can be pressed: idle, and something of size selected.
    pub fn clean_enabled(&self) -> (b: bool)
        requires
            self.wf(),
        ensures
            b == (!self.busy && selected_sum(self.result.items@) > 0),
    {
        proof {
            law_selected_within_total(self.result.items@);
        }
        !self.busy && self.result.selected_size() > 0
    }

    /// The gauge: the size selected and found (its fill is their ratio), and
    /// the size selected in words.
    pub fn gauge(&self) -> (r: (u64, u64, String))
        requires
            self.wf(),
        ensures
            r.0 == selected_sum(self.result.items@),
            r.1 == sizes_sum(self.result.items@),
            r.2@ == decimal_size_text(r.0),
    {
        proof {
            law_selected_within_total(self.result.items@);
        }
        let selected = self.result.selected_size();
        (selected, self.result.total_size(), format_decimal_size(selected))
    }
}

} // verus!
