//! Differences between two storage snapshots.
use vstd::prelude::*;
use crate::store::{
    PairModel, pairs_view, keys_unique, has_key, lookup, find_key, lemma_key_index_unique,
};

verus! {

/// How a key changed between two snapshots.
#[derive(Clone, Copy, Debug, PartialEq, Eq, Structural)]
pub enum DiffKind {
    Added,
    Removed,
    Modified,
    Unchanged,
}

/// One key's change between two snapshots.
#[derive(Debug, PartialEq, Eq)]
pub struct DiffEntry {
    pub key: String,
    pub old: Option<String>,
    pub new: Option<String>,
    pub kind: DiffKind,
}

/// A diff entry as seen by the specification.
pub ghost struct EntryModel {
    pub key: Seq<char>,
    pub old: Option<Seq<char>>,
    pub new: Option<Seq<char>>,
    pub kind: DiffKind,
}

/// The character view of an optional string.
pub open spec fn opt_view(o: Option<String>) -> Option<Seq<char>> {
    match o {
        Some(s) => Some(s@),
        None => None,
    }
}

impl View for DiffEntry {
    type V = EntryModel;

    open spec fn view(&self) -> EntryModel {
        EntryModel { key: self.key@, old: opt_view(self.old), new: opt_view(self.new), kind: self.kind }
    }
}

/// The view of a sequence of diff entries.
pub open spec fn entries_view(v: Seq<DiffEntry>) -> Seq<EntryModel> {
    v.map_values(|e: DiffEntry| e@)
}

/// The entry for a key of the base snapshot: removed, unchanged or modified.
pub open spec fn base_entry(b: PairModel, updated: Seq<PairModel>) -> EntryModel {
    match lookup(updated, b.0) {
        None => EntryModel { key: b.0, old: Some(b.1), new: None, kind: DiffKind::Removed },
        Some(v) => EntryModel {
            key: b.0,
            old: Some(b.1),
            new: Some(v),
            kind: if v == b.1 { DiffKind::Unchanged } else { DiffKind::Modified },
        },
    }
}

/// The entry for a key that only the updated snapshot has.
pub open spec fn added_entry(u: PairModel) -> EntryModel {
    EntryModel { key: u.0, old: None, new: Some(u.1), kind: DiffKind::Added }
}

/// The pairs of `updated` whose keys `base` lacks, in `updated`'s order.
pub open spec fn only_updated(base: Seq<PairModel>, updated: Seq<PairModel>) -> Seq<PairModel> {
    updated.filter(|u: PairModel| !has_key(base, u.0))
}

/// The diff: one entry per base key in base order, then one per new key in updated order.
pub open spec fn diff_spec(base: Seq<PairModel>, updated: Seq<PairModel>) -> Seq<EntryModel> {
    base.map_values(|b: PairModel| base_entry(b, updated)) + only_updated(base, updated).map_values(
        |u: PairModel| added_entry(u),
    )
}

proof fn lemma_only_updated_step(base: Seq<PairModel>, updated: Seq<PairModel>, j: int)
    requires
        0 <= j < updated.len(),
    ensures
        only_updated(base, updated.subrange(0, j + 1)) == if !has_key(base, updated[j].0) {
            only_updated(base, updated.subrange(0, j)).push(updated[j])
        } else {
            only_updated(base, updated.subrange(0, j))
        },
{
    reveal(Seq::filter);
    assert(updated.subrange(0, j + 1).drop_last() =~= updated.subrange(0, j));
}

proof fn lemma_only_updated_excludes(base: Seq<PairModel>, updated: Seq<PairModel>, i: int)
    requires
        0 <= i < only_updated(base, updated).len(),
    ensures
        !has_key(base, only_updated(base, updated)[i].0),
{
    updated.lemma_filter_pred(|u: PairModel| !has_key(base, u.0), i);
}

/// Diffing a snapshot against itself yields one `Unchanged` entry per pair, in the
/// snapshot's own order, and nothing else.
pub proof fn lemma_diff_self(s: Seq<PairModel>)
    requires
        keys_unique(s),
    ensures
        diff_spec(s, s).len() == s.len(),
        forall|i: int|
            0 <= i < s.len() ==> #[trigger] diff_spec(s, s)[i] == (EntryModel {
                key: s[i].0,
                old: Some(s[i].1),
                new: Some(s[i].1),
                kind: DiffKind::Unchanged,
            }),
{
    let rest = only_updated(s, s);
    if rest.len() > 0 {
        lemma_only_updated_excludes(s, s, 0);
        s.lemma_filter_contains_rev(|u: PairModel| !has_key(s, u.0), rest[0]);
    }
    assert forall|i: int| 0 <= i < s.len() implies #[trigger] diff_spec(s, s)[i] == (EntryModel {
        key: s[i].0,
        old: Some(s[i].1),
        new: Some(s[i].1),
        kind: DiffKind::Unchanged,
    }) by {
        lemma_key_index_unique(s, s[i].0, i);
    }
}

/// A key that both snapshots hold with different values has exactly one entry in the diff,
/// and that entry is `Modified` from the base value to the updated value.
pub proof fn lemma_diff_modified(
    base: Seq<PairModel>,
    updated: Seq<PairModel>,
    k: Seq<char>,
    vb: Seq<char>,
    vu: Seq<char>,
)
    requires
        keys_unique(base),
        keys_unique(updated),
        lookup(base, k) == Some(vb),
        lookup(updated, k) == Some(vu),
        vb != vu,
    ensures
        exists|i: int|
            0 <= i < diff_spec(base, updated).len() && #[trigger] diff_spec(base, updated)[i]
                == (EntryModel { key: k, old: Some(vb), new: Some(vu), kind: DiffKind::Modified }),
        forall|i: int, j: int|
            0 <= i < diff_spec(base, updated).len() && 0 <= j < diff_spec(base, updated).len()
                && #[trigger] diff_spec(base, updated)[i].key == k
                && #[trigger] diff_spec(base, updated)[j].key == k ==> i == j,
{
    let d = diff_spec(base, updated);
    let n = base.len();
    let rest = only_updated(base, updated);
    assert(has_key(base, k));
    let ib = choose|i: int| 0 <= i < base.len() && base[i].0 == k;
    lemma_key_index_unique(base, k, ib);
    assert(d[ib] == (EntryModel { key: k, old: Some(vb), new: Some(vu), kind: DiffKind::Modified }));
    assert forall|i: int, j: int|
        0 <= i < d.len() && 0 <= j < d.len() && #[trigger] d[i].key == k && #[trigger] d[j].key
            == k implies i == j by {
        if i >= n {
            lemma_only_updated_excludes(base, updated, i - n);
            assert(d[i].key == rest[i - n].0);
        }
        if j >= n {
            lemma_only_updated_excludes(base, updated, j - n);
            assert(d[j].key == rest[j - n].0);
        }
        if i != j {
            assert(base[i].0 == k && base[j].0 == k);
        }
    }
}

/// Computes the diff from `base` to `updated`. Each key is looked up by a linear scan of the
/// other snapshot, so the time is proportional to the product of the two sizes.
pub fn diff(base: &Vec<(String, String)>, updated: &Vec<(String, String)>) -> (r: Vec<DiffEntry>)
    requires
        keys_unique(pairs_view(base@)),
        keys_unique(pairs_view(updated@)),
    ensures
        entries_view(r@) == diff_spec(pairs_view(base@), pairs_view(updated@)),
{
    let ghost b = pairs_view(base@);
    let ghost u = pairs_view(updated@);
    let mut out: Vec<DiffEntry> = Vec::new();
    let mut i: usize = 0;
    while i < base.len()
        invariant
            b == pairs_view(base@),
            u == pairs_view(updated@),
            keys_unique(u),
            i <= base.len(),
            entries_view(out@) == b.subrange(0, i as int).map_values(
                |x: PairModel| base_entry(x, u),
            ),
        decreases base.len() - i,
    {
        let key = &base[i].0;
        let val = &base[i].1;
        let e = match find_key(updated, key) {
            None => DiffEntry { key: key.clone(), old: Some(val.clone()), new: None, kind: DiffKind::Removed },
            Some(j) => {
                proof {
                    lemma_key_index_unique(u, key@, j as int);
                }
                let nv = &updated[j].1;
                let kind = if *nv == *val {
                    DiffKind::Unchanged
                } else {
                    DiffKind::Modified
                };
                DiffEntry { key: key.clone(), old: Some(val.clone()), new: Some(nv.clone()), kind }
            },
        };
        assert(e@ == base_entry(b[i as int], u));
        let ghost prev = entries_view(out@);
        out.push(e);
        assert(entries_view(out@) =~= prev.push(base_entry(b[i as int], u)));
        assert(b.subrange(0, i + 1).map_values(|x: PairModel| base_entry(x, u)) =~= b.subrange(
            0,
            i as int,
        ).map_values(|x: PairModel| base_entry(x, u)).push(base_entry(b[i as int], u)));
        i = i + 1;
        assert(entries_view(out@) =~= b.subrange(0, i as int).map_values(
            |x: PairModel| base_entry(x, u),
        ));
    }
    assert(b.subrange(0, base.len() as int) =~= b);
    let ghost head = entries_view(out@);
    let mut j: usize = 0;
    while j < updated.len()
        invariant
            b == pairs_view(base@),
            u == pairs_view(updated@),
            j <= updated.len(),
            head == b.map_values(|x: PairModel| base_entry(x, u)),
            entries_view(out@) == head + only_updated(b, u.subrange(0, j as int)).map_values(
                |x: PairModel| added_entry(x),
            ),
        decreases updated.len() - j,
    {
        proof {
            lemma_only_updated_step(b, u, j as int);
        }
        let key = &updated[j].0;
        let ghost prev = entries_view(out@);
        let ghost f = |x: PairModel| added_entry(x);
        let ghost before = only_updated(b, u.subrange(0, j as int));
        match find_key(base, key) {
            None => {
                let e = DiffEntry {
                    key: key.clone(),
                    old: None,
                    new: Some(updated[j].1.clone()),
                    kind: DiffKind::Added,
                };
                out.push(e);
                assert(entries_view(out@) =~= prev.push(added_entry(u[j as int])));
                assert(before.push(u[j as int]).map_values(f) =~= before.map_values(f).push(
                    added_entry(u[j as int]),
                ));
            },
            Some(_) => {
                assert(entries_view(out@) =~= prev);
            },
        }
        j = j + 1;
        assert(entries_view(out@) =~= head + only_updated(b, u.subrange(0, j as int)).map_values(
            |x: PairModel| added_entry(x),
        ));
    }
    assert(u.subrange(0, updated.len() as int) =~= u);
    out
}

} // verus!
