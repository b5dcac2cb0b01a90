//! Display and alert selections over the diff between two snapshots.
use vstd::prelude::*;
use crate::diff::{DiffEntry, DiffKind, EntryModel, diff, diff_spec, entries_view, opt_view};
use crate::filter::{StorageFilter, PatternModel, filter_matches};
use crate::store::{PairModel, pairs_view, keys_unique};

verus! {

/// What one step of a session reports about storage.
pub struct DiffReport {
    pub display: Vec<DiffEntry>,
    pub alerts: Vec<DiffEntry>,
}

/// Entries shown: all of them when the display filter is empty, else those whose key it selects.
pub open spec fn display_subset(d: Seq<EntryModel>, display: Seq<PatternModel>) -> Seq<EntryModel> {
    if display.len() == 0 {
        d
    } else {
        d.filter(|e: EntryModel| filter_matches(display, e.key))
    }
}

/// Whether an entry raises an alert: its key was added or modified and the alert filter
/// selects it.
pub open spec fn alerts_on(alert: Seq<PatternModel>, e: EntryModel) -> bool {
    (e.kind == DiffKind::Added || e.kind == DiffKind::Modified) && filter_matches(alert, e.key)
}

/// Entries that raise an alert, in diff order.
pub open spec fn alert_subset(d: Seq<EntryModel>, alert: Seq<PatternModel>) -> Seq<EntryModel> {
    d.filter(|e: EntryModel| alerts_on(alert, e))
}

proof fn lemma_filter_prefix_step<A>(s: Seq<A>, p: spec_fn(A) -> bool, j: int)
    requires
        0 <= j < s.len(),
    ensures
        s.subrange(0, j + 1).filter(p) == if p(s[j]) {
            s.subrange(0, j).filter(p).push(s[j])
        } else {
            s.subrange(0, j).filter(p)
        },
{
    reveal(Seq::filter);
    assert(s.subrange(0, j + 1).drop_last() =~= s.subrange(0, j));
}

fn clone_opt(o: &Option<String>) -> (r: Option<String>)
    ensures
        opt_view(r) == opt_view(*o),
{
    match o {
        Some(s) => Some(s.clone()),
        None => None,
    }
}

/// A copy of a diff entry.
pub fn clone_entry(e: &DiffEntry) -> (r: DiffEntry)
    ensures
        r@ == e@,
{
    DiffEntry { key: e.key.clone(), old: clone_opt(&e.old), new: clone_opt(&e.new), kind: e.kind }
}

/// Diffs two snapshots and selects the entries to display and those to alert on.
pub fn compose_report(
    base: &Vec<(String, String)>,
    updated: &Vec<(String, String)>,
    display: &StorageFilter,
    alert: &StorageFilter,
) -> (r: DiffReport)
    requires
        keys_unique(pairs_view(base@)),
        keys_unique(pairs_view(updated@)),
    ensures
        entries_view(r.display@) == display_subset(
            diff_spec(pairs_view(base@), pairs_view(updated@)),
            display@,
        ),
        entries_view(r.alerts@) == alert_subset(
            diff_spec(pairs_view(base@), pairs_view(updated@)),
            alert@,
        ),
{
    let d = diff(base, updated);
    let ghost dv = entries_view(d@);
    let show_all = display.len() == 0;
    let mut shown: Vec<DiffEntry> = Vec::new();
    let mut alerts: Vec<DiffEntry> = Vec::new();
    let mut i: usize = 0;
    while i < d.len()
        invariant
            dv == entries_view(d@),
            show_all == (display@.len() == 0),
            i <= d.len(),
            show_all ==> entries_view(shown@) == dv.subrange(0, i as int),
            !show_all ==> entries_view(shown@) == dv.subrange(0, i as int).filter(|e: EntryModel| filter_matches(display@, e.key)),
            entries_view(alerts@) == dv.subrange(0, i as int).filter(|e: EntryModel| alerts_on(alert@, e)),
        decreases d.len() - i,
    {
        proof {
            lemma_filter_prefix_step(dv, |e: EntryModel| filter_matches(display@, e.key), i as int);
            lemma_filter_prefix_step(dv, |e: EntryModel| alerts_on(alert@, e), i as int);
        }
        let e = &d[i];
        let ghost ev = dv[i as int];
        assert(e@ == ev);
        let ghost prev_shown = entries_view(shown@);
        let ghost prev_alerts = entries_view(alerts@);
        let hit = display.matches(e.key.as_str());
        if show_all || hit {
            shown.push(clone_entry(e));
            assert(entries_view(shown@) =~= prev_shown.push(ev));
        }
        let changed = match e.kind {
            DiffKind::Added => true,
            DiffKind::Modified => true,
            _ => false,
        };
        let raised = changed && alert.matches(e.key.as_str());
        assert(raised == alerts_on(alert@, ev));
        if raised {
            alerts.push(clone_entry(e));
            assert(entries_view(alerts@) =~= prev_alerts.push(ev));
        }
        i = i + 1;
        assert(dv.subrange(0, i as int) =~= dv.subrange(0, i - 1).push(ev));
    }
    assert(dv.subrange(0, d.len() as int) =~= dv);
    DiffReport { display: shown, alerts }
}

} // verus!
