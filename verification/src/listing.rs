//! A directory listing: the entries of one directory at one point in time,
//! with ill-named entries dropped and the rest in display order. Building a
//! listing reports how many entries were dropped, so omission stays
//! observable.

use vstd::prelude::*;
use vstd::seq_lib::group_to_multiset_ensures;
use vstd::relations::sorted_by;

use crate::entries::{DirEntryInfo, EntryModel, entry_le, entry_le_exec};
use crate::entries::{lemma_entry_le_total, lemma_entry_le_trans};
use crate::paths::{name_wf, name_is_wf};

verus! {

/// The models of a sequence of entries.
pub open spec fn models_of(s: Seq<DirEntryInfo>) -> Seq<EntryModel> {
    s.map_values(|e: DirEntryInfo| e@)
}

/// The display order, as a relation for `sorted_by`.
pub open spec fn entry_order() -> spec_fn(EntryModel, EntryModel) -> bool {
    |a: EntryModel, b: EntryModel| entry_le(a, b)
}

/// The entries of `s` whose names are well-formed, in their original order.
pub open spec fn well_named(s: Seq<EntryModel>) -> Seq<EntryModel>
    decreases s.len(),
{
    if s.len() == 0 {
        Seq::empty()
    } else if name_wf(s.last().name) {
        well_named(s.drop_last()).push(s.last())
    } else {
        well_named(s.drop_last())
    }
}

/// `well_named` keeps at most as many entries as it is given, and every
/// entry it keeps has a well-formed name.
pub proof fn lemma_well_named_props(s: Seq<EntryModel>)
    ensures
        well_named(s).len() <= s.len(),
        forall|i: int|
            0 <= i < well_named(s).len() ==> name_wf(#[trigger] well_named(s)[i].name),
    decreases s.len(),
{
    if s.len() > 0 {
        lemma_well_named_props(s.drop_last());
    }
}

/// An ordered snapshot of one directory's children.
#[derive(Debug)]
pub struct Listing {
    entries: Vec<DirEntryInfo>,
}

impl View for Listing {
    type V = Seq<EntryModel>;

    closed spec fn view(&self) -> Seq<EntryModel> {
        models_of(self.entries@)
    }
}

impl Listing {
    /// Every name is well-formed and the entries are in display order.
    pub open spec fn wf(&self) -> bool {
        &&& forall|i: int| 0 <= i < self@.len() ==> name_wf(#[trigger] self@[i].name)
        &&& sorted_by(self@, entry_order())
    }

    /// Builds the listing for one directory from its raw entries: entries
    /// with ill-formed names (empty, or holding a separator) are dropped,
    /// the rest are sorted into display order. Returns the listing and the
    /// number of dropped entries.
    pub fn from_entries(raw: Vec<DirEntryInfo>) -> (res: (Listing, usize))
        ensures
            res.0.wf(),
            res.0@ == sort_spec(well_named(models_of(raw@))),
            res.0@.to_multiset() == well_named(models_of(raw@)).to_multiset(),
            res.0@.len() + res.1 == raw@.len(),
    {
        let ghost raw0 = models_of(raw@);
        let (kept, omitted) = filter_well_named(raw);
        let ghost kept0 = models_of(kept@);
        let sorted = sort_entries(kept);
        proof {
            lemma_well_named_props(raw0);
            assert forall|i: int| 0 <= i < models_of(sorted@).len() implies name_wf(
                #[trigger] models_of(sorted@)[i].name,
            ) by {
                let m = models_of(sorted@)[i];
                assert(kept0.contains(m));
                let j = choose|j: int| 0 <= j < kept0.len() && kept0[j] == m;
                assert(name_wf(well_named(raw0)[j].name));
            }
        }
        (Listing { entries: sorted }, omitted)
    }

    /// The number of entries.
    pub fn len(&self) -> (n: usize)
        ensures
            n == self@.len(),
    {
        self.entries.len()
    }

    /// The entry at position `i`.
    pub fn get(&self, i: usize) -> (e: &DirEntryInfo)
        requires
            i < self@.len(),
        ensures
            e@ == self@[i as int],
    {
        &self.entries[i]
    }

    /// All entries, in display order.
    pub fn entries(&self) -> (v: &Vec<DirEntryInfo>)
        ensures
            models_of(v@) == self@,
    {
        &self.entries
    }
}

/// Keeps the entries whose names are well-formed, in order, and counts the
/// dropped ones.
#[verifier::loop_isolation(false)]
fn filter_well_named(raw: Vec<DirEntryInfo>) -> (res: (Vec<DirEntryInfo>, usize))
    ensures
        models_of(res.0@) == well_named(models_of(raw@)),
        res.0@.len() + res.1 == raw@.len(),
{
    let n = raw.len();
    let mut kept: Vec<DirEntryInfo> = Vec::new();
    proof {
        assert(models_of(raw@.subrange(0, 0)) =~= Seq::<EntryModel>::empty());
        assert(well_named(models_of(raw@.subrange(0, 0))) =~= Seq::<EntryModel>::empty());
        assert(models_of(kept@) =~= Seq::<EntryModel>::empty());
    }
    let mut i: usize = 0;
    while i < n
        invariant
            0 <= i <= n,
            kept@.len() <= i,
            models_of(kept@) == well_named(models_of(raw@.subrange(0, i as int))),
        decreases n - i,
    {
        let keep = name_is_wf(raw[i].name.as_str());
        let ghost prefix = models_of(raw@.subrange(0, i as int));
        let ghost prefix1 = models_of(raw@.subrange(0, i + 1));
        proof {
            assert(prefix1.drop_last() =~= prefix);
            assert(prefix1.last() == raw@[i as int]@);
        }
        if keep {
            let ghost kept0 = models_of(kept@);
            let e = DirEntryInfo::new(raw[i].name.clone(), raw[i].is_dir);
            kept.push(e);
            proof {
                assert(models_of(kept@) =~= kept0.push(raw@[i as int]@));
            }
        }
        i += 1;
    }
    proof {
        assert(raw@.subrange(0, n as int) =~= raw@);
    }
    let omitted = n - kept.len();
    (kept, omitted)
}

/// `e` inserted into `s` behind every entry that is `entry_le` to it: the
/// position a stable insertion gives it.
pub open spec fn insert_sorted(s: Seq<EntryModel>, e: EntryModel) -> Seq<EntryModel>
    decreases s.len(),
{
    if s.len() > 0 && entry_le(s[0], e) {
        seq![s[0]] + insert_sorted(s.drop_first(), e)
    } else {
        seq![e] + s
    }
}

/// The display order of `s`: each entry in turn inserted behind its
/// `entry_le` predecessors, so entries the order does not tell apart keep
/// their original relative order — the sort is stable and deterministic.
pub open spec fn sort_spec(s: Seq<EntryModel>) -> Seq<EntryModel>
    decreases s.len(),
{
    if s.len() == 0 {
        Seq::empty()
    } else {
        insert_sorted(sort_spec(s.drop_last()), s.last())
    }
}

/// `insert_sorted` puts `e` exactly at the first position whose entry is
/// not `entry_le` to `e`.
proof fn lemma_insert_sorted_at(s: Seq<EntryModel>, e: EntryModel, pos: int)
    requires
        0 <= pos <= s.len(),
        forall|k: int| 0 <= k < pos ==> entry_le(#[trigger] s[k], e),
        pos < s.len() ==> !entry_le(s[pos], e),
    ensures
        insert_sorted(s, e) == s.insert(pos, e),
    decreases s.len(),
{
    s.insert_ensures(pos, e);
    if pos == 0 {
        assert(insert_sorted(s, e) =~= s.insert(0, e));
    } else {
        assert(entry_le(s[0], e));
        let rest = s.drop_first();
        assert(forall|k: int| 0 <= k < pos - 1 ==> #[trigger] rest[k] == s[k + 1]);
        lemma_insert_sorted_at(rest, e, pos - 1);
        rest.insert_ensures(pos - 1, e);
        assert(seq![s[0]] + rest.insert(pos - 1, e) =~= s.insert(pos, e));
    }
}

/// Sorts entries into display order by stable insertion: the result is
/// exactly `sort_spec` of the input.
#[verifier::loop_isolation(false)]
fn sort_entries(v: Vec<DirEntryInfo>) -> (r: Vec<DirEntryInfo>)
    ensures
        models_of(r@) == sort_spec(models_of(v@)),
        sorted_by(models_of(r@), entry_order()),
        models_of(r@).to_multiset() == models_of(v@).to_multiset(),
        r@.len() == v@.len(),
        forall|i: int| 0 <= i < r@.len() ==> models_of(v@).contains(#[trigger] models_of(r@)[i]),
{
    broadcast use group_to_multiset_ensures;
    broadcast use vstd::multiset::group_multiset_axioms;

    let n = v.len();
    let mut out: Vec<DirEntryInfo> = Vec::new();
    proof {
        assert(models_of(out@) =~= Seq::<EntryModel>::empty());
        assert(models_of(v@.subrange(0, 0)) =~= Seq::<EntryModel>::empty());
        assert(models_of(out@) =~= sort_spec(models_of(v@.subrange(0, 0))));
    }
    let mut i: usize = 0;
    while i < n
        invariant
            0 <= i <= n,
            out@.len() == i,
            models_of(out@) == sort_spec(models_of(v@.subrange(0, i as int))),
            sorted_by(models_of(out@), entry_order()),
            models_of(out@).to_multiset() == models_of(v@.subrange(0, i as int)).to_multiset(),
        decreases n - i,
    {
        let ghost out0 = models_of(out@);
        let ghost prefix = models_of(v@.subrange(0, i as int));
        let ghost prefix1 = models_of(v@.subrange(0, i + 1));
        let e = DirEntryInfo::new(v[i].name.clone(), v[i].is_dir);
        proof {
            assert(e@ == v@[i as int]@);
            assert(prefix1.drop_last() =~= prefix);
            assert(prefix1.last() == v@[i as int]@);
            assert(prefix1 =~= prefix.push(e@));
        }
        let pos = insertion_point(&out, &e);
        proof {
            lemma_sorted_insert(out0, pos as int, e@);
            lemma_insert_sorted_at(out0, e@, pos as int);
        }
        out.insert(pos, e);
        proof {
            assert(models_of(out@) =~= out0.insert(pos as int, e@));
            assert(sort_spec(prefix1) == insert_sorted(sort_spec(prefix), e@));
            assert(models_of(out@).to_multiset() == out0.to_multiset().insert(e@));
            assert(prefix1.to_multiset() == prefix.to_multiset().insert(e@));
        }
        i += 1;
    }
    proof {
        assert(v@.subrange(0, n as int) =~= v@);
        assert forall|i: int| 0 <= i < out@.len() implies models_of(v@).contains(
            #[trigger] models_of(out@)[i],
        ) by {
            assert(models_of(out@).to_multiset().contains(models_of(out@)[i]));
            assert(models_of(v@).to_multiset().count(models_of(out@)[i]) > 0);
        }
    }
    out
}

/// The position where `e` belongs in the sorted `out`: everything before it
/// is `entry_le` to `e`, and `e` is `entry_le` to everything from it on.
#[verifier::loop_isolation(false)]
fn insertion_point(out: &Vec<DirEntryInfo>, e: &DirEntryInfo) -> (pos: usize)
    requires
        sorted_by(models_of(out@), entry_order()),
    ensures
        0 <= pos <= out@.len(),
        forall|k: int| 0 <= k < pos ==> entry_le(#[trigger] models_of(out@)[k], e@),
        forall|k: int| pos <= k < out@.len() ==> entry_le(e@, #[trigger] models_of(out@)[k]),
        pos < out@.len() ==> !entry_le(models_of(out@)[pos as int], e@),
{
    let n = out.len();
    let mut pos: usize = 0;
    while pos < n
        invariant
            0 <= pos <= n,
            forall|k: int| 0 <= k < pos ==> entry_le(#[trigger] models_of(out@)[k], e@),
        decreases n - pos,
    {
        if !entry_le_exec(&out[pos], e) {
            proof {
                lemma_entry_le_total(models_of(out@)[pos as int], e@);
                assert forall|k: int| pos <= k < out@.len() implies entry_le(
                    e@,
                    #[trigger] models_of(out@)[k],
                ) by {
                    if k > pos {
                        assert(entry_order()(models_of(out@)[pos as int], models_of(out@)[k]));
                        lemma_entry_le_trans(e@, models_of(out@)[pos as int], models_of(out@)[k]);
                    }
                }
            }
            return pos;
        }
        pos += 1;
    }
    pos
}

/// Inserting `e` at a position bounded by `entry_le` on both sides keeps a
/// sorted sequence sorted.
proof fn lemma_sorted_insert(s: Seq<EntryModel>, pos: int, e: EntryModel)
    requires
        sorted_by(s, entry_order()),
        0 <= pos <= s.len(),
        forall|k: int| 0 <= k < pos ==> entry_le(#[trigger] s[k], e),
        forall|k: int| pos <= k < s.len() ==> entry_le(e, #[trigger] s[k]),
    ensures
        sorted_by(s.insert(pos, e), entry_order()),
{
    let t = s.insert(pos, e);
    s.insert_ensures(pos, e);
    assert forall|i: int, j: int| 0 <= i < j < t.len() implies #[trigger] entry_order()(
        t[i],
        t[j],
    ) by {
        if i < pos && j < pos {
            assert(entry_order()(s[i], s[j]));
        } else if i < pos && j == pos {
            assert(t[i] == s[i]);
        } else if i < pos && j > pos {
            assert(entry_order()(s[i], s[j - 1]));
            assert(t[i] == s[i] && t[j] == s[j - 1]);
        } else if i == pos && j > pos {
            assert(t[j] == s[j - 1]);
        } else if i > pos && j > pos {
            assert(entry_order()(s[i - 1], s[j - 1]));
            assert(t[i] == s[i - 1] && t[j] == s[j - 1]);
        }
    }
}

} // verus!
