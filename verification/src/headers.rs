//! Folded header sets.
//!
//! A [`HeaderSet`] maps an ASCII lower-cased header name to the ordered
//! sequence of raw values seen for that name. Entries are kept strictly
//! ascending in the lexicographic byte order of their names, so that walking
//! the set yields the canonical line order directly.

use vstd::prelude::*;
use vstd::string::StringSliceAdditionalSpecFns;
use vstd::string::StrSliceExecFns;

use crate::canon::{
    clone_bytes, lemma_lex_irreflexive, lemma_lex_transitive, lemma_lex_trichotomy, lex_less,
    lex_lt, lower, lower_bytes,
};

verus! {

/// Spec-level model of one folded header: a lower-cased name and the ordered
/// values seen for it.
pub type EntryModel = (Seq<u8>, Seq<Seq<u8>>);

/// One folded header: a lower-cased name with the ordered raw values seen
/// under that name.
pub struct HeaderEntry {
    pub name: Vec<u8>,
    pub values: Vec<Vec<u8>>,
}

impl View for HeaderEntry {
    type V = EntryModel;

    open spec fn view(&self) -> EntryModel {
        (self.name@, self.values.deep_view())
    }
}

/// Entry names are strictly ascending in lexicographic byte order.
pub open spec fn sorted_names(s: Seq<EntryModel>) -> bool {
    forall|i: int, j: int| 0 <= i < j < s.len() ==> lex_lt(#[trigger] s[i].0, #[trigger] s[j].0)
}

/// Every entry name is already ASCII lower-cased.
pub open spec fn lowered_names(s: Seq<EntryModel>) -> bool {
    forall|i: int| 0 <= i < s.len() ==> #[trigger] s[i].0 == lower_bytes(s[i].0)
}

/// Some entry carries the name `k`.
pub open spec fn has_name(s: Seq<EntryModel>, k: Seq<u8>) -> bool {
    exists|i: int| 0 <= i < s.len() && #[trigger] s[i].0 == k
}

/// The values recorded under the name `k`; empty when `k` is absent.
pub open spec fn values_of(s: Seq<EntryModel>, k: Seq<u8>) -> Seq<Seq<u8>>
    decreases s.len(),
{
    if s.len() == 0 {
        Seq::empty()
    } else if s[0].0 == k {
        s[0].1
    } else {
        values_of(s.skip(1), k)
    }
}

/// Folding one raw pair into the model: the value is appended to the entry
/// whose name is `k` if one exists, else a fresh singleton entry is inserted
/// at the sorted position of `k`. The caller passes `k` already lower-cased.
pub open spec fn spec_add(s: Seq<EntryModel>, k: Seq<u8>, v: Seq<u8>) -> Seq<EntryModel>
    decreases s.len(),
{
    if s.len() == 0 {
        seq![(k, seq![v])]
    } else if lex_lt(s[0].0, k) {
        seq![s[0]] + spec_add(s.skip(1), k, v)
    } else if s[0].0 == k {
        seq![(k, s[0].1.push(v))] + s.skip(1)
    } else {
        seq![(k, seq![v])] + s
    }
}

/// Positional characterization of `spec_add`: at the first index `i` whose
/// name does not sort below `k`, the fold either appends to an entry already
/// named `k` or inserts a fresh entry.
pub proof fn lemma_spec_add_positional(s: Seq<EntryModel>, k: Seq<u8>, v: Seq<u8>, i: int)
    requires
        0 <= i <= s.len(),
        forall|m: int| 0 <= m < i ==> lex_lt(#[trigger] s[m].0, k),
        i < s.len() ==> !lex_lt(s[i].0, k),
    ensures
        i < s.len() && s[i].0 == k ==> spec_add(s, k, v) == s.update(i, (k, s[i].1.push(v))),
        !(i < s.len() && s[i].0 == k) ==> spec_add(s, k, v) == s.insert(i, (k, seq![v])),
    decreases i,
{
    if i == 0 {
        if s.len() == 0 {
            assert(spec_add(s, k, v) =~= s.insert(0, (k, seq![v])));
        } else if s[0].0 == k {
            lemma_lex_irreflexive(k);
            assert(spec_add(s, k, v) =~= s.update(0, (k, s[0].1.push(v))));
        } else {
            assert(spec_add(s, k, v) =~= s.insert(0, (k, seq![v])));
        }
    } else {
        let t = s.skip(1);
        assert(lex_lt(s[0].0, k));
        assert forall|m: int| 0 <= m < i - 1 implies lex_lt(#[trigger] t[m].0, k) by {
            assert(t[m] == s[m + 1]);
        }
        if i - 1 < t.len() {
            assert(t[i - 1] == s[i]);
        }
        lemma_spec_add_positional(t, k, v, i - 1);
        if i < s.len() && s[i].0 == k {
            assert(spec_add(s, k, v) == seq![s[0]] + spec_add(t, k, v));
            assert(seq![s[0]] + t.update(i - 1, (k, s[i].1.push(v))) =~= s.update(
                i,
                (k, s[i].1.push(v)),
            ));
        } else {
            assert(spec_add(s, k, v) == seq![s[0]] + spec_add(t, k, v));
            assert(seq![s[0]] + t.insert(i - 1, (k, seq![v])) =~= s.insert(i, (k, seq![v])));
        }
    }
}

/// Every name in the fold's result is either `k` or a name of the input, and
/// `k` is present in the result.
pub proof fn lemma_spec_add_names(s: Seq<EntryModel>, k: Seq<u8>, v: Seq<u8>)
    ensures
        forall|m: int|
            0 <= m < spec_add(s, k, v).len() ==> #[trigger] spec_add(s, k, v)[m].0 == k
                || has_name(s, spec_add(s, k, v)[m].0),
        has_name(spec_add(s, k, v), k),
    decreases s.len(),
{
    let r = spec_add(s, k, v);
    if s.len() == 0 {
        assert(r[0].0 == k);
    } else if lex_lt(s[0].0, k) {
        let t = s.skip(1);
        lemma_spec_add_names(t, k, v);
        let rt = spec_add(t, k, v);
        assert forall|m: int| 0 <= m < r.len() implies #[trigger] r[m].0 == k || has_name(
            s,
            r[m].0,
        ) by {
            if m == 0 {
                assert(s[0].0 == r[0].0);
                assert(has_name(s, s[0].0));
            } else {
                assert(r[m] == rt[m - 1]);
                if rt[m - 1].0 != k {
                    let w = choose|w: int| 0 <= w < t.len() && #[trigger] t[w].0 == rt[m - 1].0;
                    assert(s[w + 1].0 == rt[m - 1].0);
                }
            }
        }
        let w = choose|w: int| 0 <= w < rt.len() && #[trigger] rt[w].0 == k;
        assert(r[w + 1].0 == k);
    } else if s[0].0 == k {
        assert(r[0].0 == k);
        assert forall|m: int| 0 <= m < r.len() implies #[trigger] r[m].0 == k || has_name(
            s,
            r[m].0,
        ) by {
            if m > 0 {
                assert(r[m] == s.skip(1)[m - 1]);
                assert(s.skip(1)[m - 1] == s[m]);
                assert(has_name(s, s[m].0));
            }
        }
    } else {
        assert(r[0].0 == k);
        assert forall|m: int| 0 <= m < r.len() implies #[trigger] r[m].0 == k || has_name(
            s,
            r[m].0,
        ) by {
            if m > 0 {
                assert(r[m] == s[m - 1]);
                assert(has_name(s, s[m - 1].0));
            }
        }
    }
}

/// Folding preserves the strict ascending order of names.
pub proof fn lemma_spec_add_sorted(s: Seq<EntryModel>, k: Seq<u8>, v: Seq<u8>)
    requires
        sorted_names(s),
    ensures
        sorted_names(spec_add(s, k, v)),
    decreases s.len(),
{
    let r = spec_add(s, k, v);
    if s.len() == 0 {
    } else if lex_lt(s[0].0, k) {
        let t = s.skip(1);
        assert forall|i: int, j: int| 0 <= i < j < t.len() implies lex_lt(
            #[trigger] t[i].0,
            #[trigger] t[j].0,
        ) by {
            assert(t[i] == s[i + 1]);
            assert(t[j] == s[j + 1]);
        }
        lemma_spec_add_sorted(t, k, v);
        lemma_spec_add_names(t, k, v);
        let rt = spec_add(t, k, v);
        assert forall|i: int, j: int| 0 <= i < j < r.len() implies lex_lt(
            #[trigger] r[i].0,
            #[trigger] r[j].0,
        ) by {
            if i == 0 {
                assert(r[j] == rt[j - 1]);
                if rt[j - 1].0 == k {
                    assert(lex_lt(s[0].0, k));
                } else {
                    let w = choose|w: int| 0 <= w < t.len() && #[trigger] t[w].0 == rt[j - 1].0;
                    assert(t[w] == s[w + 1]);
                    assert(lex_lt(s[0].0, s[w + 1].0));
                }
            } else {
                assert(r[i] == rt[i - 1]);
                assert(r[j] == rt[j - 1]);
            }
        }
    } else if s[0].0 == k {
        assert forall|i: int, j: int| 0 <= i < j < r.len() implies lex_lt(
            #[trigger] r[i].0,
            #[trigger] r[j].0,
        ) by {
            if i == 0 {
                assert(r[j] == s.skip(1)[j - 1]);
                assert(s.skip(1)[j - 1] == s[j]);
                assert(r[0].0 == s[0].0);
            } else {
                assert(r[i] == s[i]);
                assert(r[j] == s[j]);
            }
        }
    } else {
        lemma_lex_trichotomy(s[0].0, k);
        assert(lex_lt(k, s[0].0));
        assert forall|i: int, j: int| 0 <= i < j < r.len() implies lex_lt(
            #[trigger] r[i].0,
            #[trigger] r[j].0,
        ) by {
            if i == 0 {
                assert(r[j] == s[j - 1]);
                if j - 1 > 0 {
                    assert(lex_lt(s[0].0, s[j - 1].0));
                    lemma_lex_transitive(k, s[0].0, s[j - 1].0);
                }
            } else {
                assert(r[i] == s[i - 1]);
                assert(r[j] == s[j - 1]);
            }
        }
    }
}

/// Folding keeps names lower-cased, given the folded name is lower-cased.
pub proof fn lemma_spec_add_lowered(s: Seq<EntryModel>, k: Seq<u8>, v: Seq<u8>)
    requires
        lowered_names(s),
        k == lower_bytes(k),
    ensures
        lowered_names(spec_add(s, k, v)),
    decreases s.len(),
{
    let r = spec_add(s, k, v);
    if s.len() == 0 {
    } else if lex_lt(s[0].0, k) {
        let t = s.skip(1);
        assert forall|i: int| 0 <= i < t.len() implies #[trigger] t[i].0 == lower_bytes(t[i].0) by {
            assert(t[i] == s[i + 1]);
        }
        lemma_spec_add_lowered(t, k, v);
        let rt = spec_add(t, k, v);
        assert forall|i: int| 0 <= i < r.len() implies #[trigger] r[i].0 == lower_bytes(r[i].0) by {
            if i > 0 {
                assert(r[i] == rt[i - 1]);
            }
        }
    } else if s[0].0 == k {
        assert forall|i: int| 0 <= i < r.len() implies #[trigger] r[i].0 == lower_bytes(r[i].0) by {
            if i > 0 {
                assert(r[i] == s.skip(1)[i - 1]);
                assert(s.skip(1)[i - 1] == s[i]);
            }
        }
    } else {
        assert forall|i: int| 0 <= i < r.len() implies #[trigger] r[i].0 == lower_bytes(r[i].0) by {
            if i > 0 {
                assert(r[i] == s[i - 1]);
            }
        }
    }
}

/// Folding a pair under name `k` appends its value to what `k` already held.
pub proof fn lemma_spec_add_values_same(s: Seq<EntryModel>, k: Seq<u8>, v: Seq<u8>)
    requires
        sorted_names(s),
    ensures
        values_of(spec_add(s, k, v), k) == values_of(s, k).push(v),
    decreases s.len(),
{
    let r = spec_add(s, k, v);
    if s.len() == 0 {
        assert(values_of(r, k) =~= Seq::<Seq<u8>>::empty().push(v));
    } else if lex_lt(s[0].0, k) {
        lemma_lex_irreflexive(s[0].0);
        assert(s[0].0 != k);
        assert forall|i: int, j: int| 0 <= i < j < s.skip(1).len() implies lex_lt(
            #[trigger] s.skip(1)[i].0,
            #[trigger] s.skip(1)[j].0,
        ) by {
            assert(s.skip(1)[i] == s[i + 1]);
            assert(s.skip(1)[j] == s[j + 1]);
        }
        lemma_spec_add_values_same(s.skip(1), k, v);
        assert(r[0] == s[0]);
        assert(r.skip(1) =~= spec_add(s.skip(1), k, v));
        assert(values_of(r, k) == values_of(r.skip(1), k));
    } else if s[0].0 == k {
        assert(values_of(r, k) == s[0].1.push(v));
    } else {
        assert(values_of(r, k) == seq![v]);
        assert(r.skip(1) =~= s);
        assert(values_of(s, k).push(v) =~= seq![v]) by {
            assert(values_of(s, k) =~= Seq::<Seq<u8>>::empty()) by {
                lemma_values_absent(s, k);
            }
        }
    }
}

/// A name below every entry name is absent, so it holds no values.
proof fn lemma_values_absent(s: Seq<EntryModel>, k: Seq<u8>)
    requires
        s.len() > 0,
        !lex_lt(s[0].0, k),
        s[0].0 != k,
        sorted_names(s),
    ensures
        values_of(s, k) == Seq::<Seq<u8>>::empty(),
    decreases s.len(),
{
    if s.len() > 1 {
        let t = s.skip(1);
        assert forall|i: int, j: int| 0 <= i < j < t.len() implies lex_lt(
            #[trigger] t[i].0,
            #[trigger] t[j].0,
        ) by {
            assert(t[i] == s[i + 1]);
            assert(t[j] == s[j + 1]);
        }
        assert(t[0] == s[1]);
        assert(lex_lt(s[0].0, s[1].0));
        lemma_lex_trichotomy(s[0].0, k);
        assert(lex_lt(k, s[0].0));
        lemma_lex_transitive(k, s[0].0, t[0].0);
        lemma_lex_irreflexive(t[0].0);
        assert(t[0].0 != k);
        assert(!lex_lt(t[0].0, k)) by {
            if lex_lt(t[0].0, k) {
                lemma_lex_transitive(t[0].0, k, s[0].0);
                lemma_lex_transitive(s[0].0, t[0].0, s[0].0);
                lemma_lex_irreflexive(s[0].0);
            }
        }
        lemma_values_absent(t, k);
    } else {
        assert(values_of(s.skip(1), k) =~= Seq::<Seq<u8>>::empty());
    }
}

/// Folding a pair under name `k` leaves every other name's values unchanged.
pub proof fn lemma_spec_add_values_other(s: Seq<EntryModel>, k: Seq<u8>, v: Seq<u8>, k2: Seq<u8>)
    requires
        k2 != k,
    ensures
        values_of(spec_add(s, k, v), k2) == values_of(s, k2),
    decreases s.len(),
{
    let r = spec_add(s, k, v);
    if s.len() == 0 {
        assert(r[0].0 == k);
        assert(values_of(r, k2) == values_of(r.skip(1), k2));
        assert(r.skip(1) =~= Seq::<EntryModel>::empty());
    } else if lex_lt(s[0].0, k) {
        lemma_spec_add_values_other(s.skip(1), k, v, k2);
        assert(r[0] == s[0]);
        assert(r.skip(1) =~= spec_add(s.skip(1), k, v));
        if s[0].0 == k2 {
        } else {
            assert(values_of(r, k2) == values_of(r.skip(1), k2));
        }
    } else if s[0].0 == k {
        assert(r.skip(1) =~= s.skip(1));
        assert(values_of(r, k2) == values_of(r.skip(1), k2));
        assert(values_of(s, k2) == values_of(s.skip(1), k2));
    } else {
        assert(r[0].0 == k);
        assert(r.skip(1) =~= s);
        assert(values_of(r, k2) == values_of(s, k2));
    }
}

/// An ordered set of folded headers, keyed by lower-cased name, kept in
/// strictly ascending byte order of the names.
pub struct HeaderSet {
    pub entries: Vec<HeaderEntry>,
}

impl View for HeaderSet {
    type V = Seq<EntryModel>;

    open spec fn view(&self) -> Seq<EntryModel> {
        self.entries@.map_values(|e: HeaderEntry| e@)
    }
}

impl HeaderSet {
    /// Well-formedness: names strictly ascending and stored lower-cased.
    pub open spec fn wf(&self) -> bool {
        sorted_names(self@) && lowered_names(self@)
    }

    /// The empty header set.
    pub fn new() -> (r: HeaderSet)
        ensures
            r.wf(),
            r@ == Seq::<EntryModel>::empty(),
    {
        let r = HeaderSet { entries: Vec::new() };
        proof {
            assert(r@ =~= Seq::<EntryModel>::empty());
        }
        r
    }

    /// How many distinct (folded) names the set holds.
    pub fn len(&self) -> (n: usize)
        ensures
            n == self@.len(),
    {
        self.entries.len()
    }

    /// Records one raw header occurrence: the name is ASCII lower-cased and
    /// the value appended to that name's value sequence, a fresh entry being
    /// created at the sorted position on first occurrence.
    pub fn add_bytes(&mut self, name: &Vec<u8>, value: Vec<u8>)
        requires
            old(self).wf(),
        ensures
            final(self).wf(),
            final(self)@ == spec_add(old(self)@, lower_bytes(name@), value@),
    {
        let lname = lower(name);
        let ghost k = lname@;
        let ghost s0 = self@;
        let ghost s0ent = self.entries@;
        let ghost vv = value@;
        proof {
            assert(value.deep_view() =~= vv);
        }
        let ghost vdeep = value.deep_view();
        let mut i: usize = 0;
        while i < self.entries.len() && lex_less(&self.entries[i].name, &lname)
            invariant
                i <= self.entries.len(),
                self@ == s0,
                self.wf(),
                k == lower_bytes(name@),
                lname@ == k,
                forall|m: int| 0 <= m < i ==> lex_lt(#[trigger] s0[m].0, k),
            decreases self.entries.len() - i,
        {
            proof {
                assert(self@[i as int] == self.entries@[i as int]@);
            }
            i = i + 1;
        }
        proof {
            assert(i < s0.len() ==> !lex_lt(s0[i as int].0, k)) by {
                if i < s0.len() {
                    assert(self@[i as int] == self.entries@[i as int]@);
                }
            }
            lemma_spec_add_positional(s0, k, value@, i as int);
        }
        let same = if i < self.entries.len() {
            bytes_eq(&self.entries[i].name, &lname)
        } else {
            false
        };
        if same {
            let ghost eold = self.entries@[i as int];
            let mut e = self.entries.remove(i);
            let ghost vsold = e.values.deep_view();
            e.values.push(value);
            proof {
                assert(e.values.deep_view() =~= vsold.push(vv));
                assert(e@ == (k, s0[i as int].1.push(vv))) by {
                    assert(s0[i as int] == s0ent[i as int]@);
                    assert(eold@.1 == vsold);
                }
            }
            let ghost enew = e@;
            self.entries.insert(i, e);
            proof {
                let mid = s0ent.remove(i as int);
                s0ent.remove_ensures(i as int);
                mid.insert_ensures(i as int, self.entries@[i as int]);
                let tgt = s0.update(i as int, (k, s0[i as int].1.push(vv)));
                assert forall|m: int| 0 <= m < self@.len() implies self@[m] == tgt[m] by {
                    assert(self@[m] == self.entries@[m]@);
                    if m < i as int {
                        assert(self.entries@[m] == mid[m]);
                        assert(mid[m] == s0ent[m]);
                        assert(s0[m] == s0ent[m]@);
                    } else if m == i as int {
                        assert(self.entries@[m]@ == enew);
                    } else {
                        assert(self.entries@[m] == mid[m - 1]);
                        assert(mid[m - 1] == s0ent[m]);
                        assert(s0[m] == s0ent[m]@);
                    }
                }
                assert(self@ =~= tgt);
            }
        } else {
            let e = HeaderEntry { name: lname, values: vec![value] };
            proof {
                assert(e.values.deep_view() =~= seq![vv]);
                assert(e@ == (k, seq![vv]));
            }
            let ghost enew = e@;
            self.entries.insert(i, e);
            proof {
                s0ent.insert_ensures(i as int, self.entries@[i as int]);
                let tgt = s0.insert(i as int, (k, seq![vv]));
                s0.insert_ensures(i as int, (k, seq![vv]));
                assert forall|m: int| 0 <= m < self@.len() implies self@[m] == tgt[m] by {
                    assert(self@[m] == self.entries@[m]@);
                    if m < i as int {
                        assert(self.entries@[m] == s0ent[m]);
                        assert(s0[m] == s0ent[m]@);
                        assert(tgt[m] == s0[m]);
                    } else if m == i as int {
                        assert(self.entries@[m]@ == enew);
                    } else {
                        assert(self.entries@[m] == s0ent[m - 1]);
                        assert(s0[m - 1] == s0ent[m - 1]@);
                        assert(tgt[m] == s0[m - 1]);
                    }
                }
                assert(self@ =~= tgt);
            }
        }
        proof {
            lemma_spec_add_sorted(s0, k, value@);
            crate::canon::lemma_lower_idempotent(name@);
            lemma_spec_add_lowered(s0, k, value@);
        }
    }

    /// Records one raw header occurrence given as text.
    pub fn add(&mut self, name: &str, value: &str)
        requires
            old(self).wf(),
        ensures
            final(self).wf(),
            final(self)@ == spec_add(old(self)@, lower_bytes(name.spec_bytes()), value.spec_bytes()),
    {
        let n = name.as_bytes_vec();
        let v = value.as_bytes_vec();
        self.add_bytes(&n, v);
    }

    /// Builds a header set by folding a raw `(name, value)` list in order.
    pub fn fold(raw: &Vec<(Vec<u8>, Vec<u8>)>) -> (r: HeaderSet)
        ensures
            r.wf(),
            r@ == spec_fold(raw_model(raw@)),
    {
        let ghost rm = raw_model(raw@);
        let mut r = HeaderSet::new();
        let mut i: usize = 0;
        proof {
            assert(rm.take(0) =~= Seq::<(Seq<u8>, Seq<u8>)>::empty());
        }
        while i < raw.len()
            invariant
                i <= raw.len(),
                rm == raw_model(raw@),
                rm.len() == raw@.len(),
                r.wf(),
                r@ == spec_fold(rm.take(i as int)),
            decreases raw.len() - i,
        {
            proof {
                assert(rm[i as int] == (raw@[i as int].0@, raw@[i as int].1@));
            }
            let v = clone_bytes(&raw[i].1);
            r.add_bytes(&raw[i].0, v);
            proof {
                assert(rm.take(i + 1 as int).drop_last() =~= rm.take(i as int));
                assert(rm.take(i + 1 as int).last() == rm[i as int]);
            }
            i = i + 1;
        }
        proof {
            assert(rm.take(raw@.len() as int) =~= rm);
        }
        r
    }

}

/// The spec-level image of a raw header list.
pub open spec fn raw_model(raw: Seq<(Vec<u8>, Vec<u8>)>) -> Seq<(Seq<u8>, Seq<u8>)> {
    raw.map_values(|p: (Vec<u8>, Vec<u8>)| (p.0@, p.1@))
}

/// Folding a whole raw list, pair by pair, front to back.
pub open spec fn spec_fold(raw: Seq<(Seq<u8>, Seq<u8>)>) -> Seq<EntryModel>
    decreases raw.len(),
{
    if raw.len() == 0 {
        Seq::empty()
    } else {
        spec_add(spec_fold(raw.drop_last()), lower_bytes(raw.last().0), raw.last().1)
    }
}

/// Compares two byte strings for equality.
pub fn bytes_eq(a: &Vec<u8>, b: &Vec<u8>) -> (r: bool)
    ensures
        r == (a@ == b@),
{
    if a.len() != b.len() {
        proof {
            assert(a@ != b@);
        }
        return false;
    }
    let mut i: usize = 0;
    while i < a.len()
        invariant
            i <= a.len(),
            a@.len() == b@.len(),
            forall|m: int| 0 <= m < i ==> a@[m] == b@[m],
        decreases a.len() - i,
    {
        if a[i] != b[i] {
            return false;
        }
        i = i + 1;
    }
    proof {
        assert(a@ =~= b@);
    }
    true
}

/// Merging under one lower-cased name is case-insensitive in the raw names:
/// folding two raw pairs whose names lower-case to the same `k` leaves `k`
/// holding its previous values followed by both new values, in insertion
/// order, and every other name's values unchanged.
pub proof fn lemma_fold_case_insensitive(
    s: Seq<EntryModel>,
    n1: Seq<u8>,
    v1: Seq<u8>,
    n2: Seq<u8>,
    v2: Seq<u8>,
)
    requires
        sorted_names(s),
        lower_bytes(n1) == lower_bytes(n2),
    ensures
        values_of(
            spec_add(spec_add(s, lower_bytes(n1), v1), lower_bytes(n2), v2),
            lower_bytes(n1),
        ) == values_of(s, lower_bytes(n1)).push(v1).push(v2),
        forall|k2: Seq<u8>|
            k2 != lower_bytes(n1) ==> #[trigger] values_of(
                spec_add(spec_add(s, lower_bytes(n1), v1), lower_bytes(n2), v2),
                k2,
            ) == values_of(s, k2),
{
    let k = lower_bytes(n1);
    lemma_spec_add_values_same(s, k, v1);
    lemma_spec_add_sorted(s, k, v1);
    lemma_spec_add_values_same(spec_add(s, k, v1), k, v2);
    assert forall|k2: Seq<u8>| k2 != k implies #[trigger] values_of(
        spec_add(spec_add(s, k, v1), k, v2),
        k2,
    ) == values_of(s, k2) by {
        lemma_spec_add_values_other(s, k, v1, k2);
        lemma_spec_add_values_other(spec_add(s, k, v1), k, v2, k2);
    }
}

} // verus!
