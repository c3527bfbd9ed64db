//! The signing-string builder.
//!
//! A message view (method, path, optional query, folded header set) is turned
//! into one deterministic, newline-joined canonical string: the pseudo-header
//! line for the request target is merged into the folded headers at the
//! sorted position of its literal name, and every entry is emitted as
//! `name: value` with multiple values joined by comma-and-space.

use vstd::prelude::*;

use crate::algorithm::SignatureAlgorithm;
use crate::canon::{
    append_bytes, clone_byte_seqs, clone_bytes, lemma_lex_irreflexive, lemma_lex_transitive,
    lemma_lex_trichotomy, lex_less, lex_lt, lower, lower_bytes,
};
use crate::headers::{has_name, lowered_names, sorted_names, EntryModel, HeaderEntry, HeaderSet};

verus! {

/// The canonicalization name of the request-target pseudo-header: the ASCII
/// bytes of `(request-target)`.
pub open spec fn pseudo_name() -> Seq<u8> {
    seq![
        40u8,
        114u8,
        101u8,
        113u8,
        117u8,
        101u8,
        115u8,
        116u8,
        45u8,
        116u8,
        97u8,
        114u8,
        103u8,
        101u8,
        116u8,
        41u8,
    ]
}

/// The separator between a line's name and its value: `: `.
pub open spec fn colon_sp() -> Seq<u8> {
    seq![58u8, 32u8]
}

/// The separator between folded values of one name: `, `.
pub open spec fn comma_sp() -> Seq<u8> {
    seq![44u8, 32u8]
}

/// The line separator: one newline.
pub open spec fn nl() -> Seq<u8> {
    seq![10u8]
}

/// The pseudo-header's line value: lowered method, a space, the path, and
/// `?query` when a query is present.
pub open spec fn target_line(m: Seq<u8>, p: Seq<u8>, q: Option<Seq<u8>>) -> Seq<u8> {
    match q {
        Some(qs) => lower_bytes(m) + seq![32u8] + p + seq![63u8] + qs,
        None => lower_bytes(m) + seq![32u8] + p,
    }
}

/// The spec-level image of an entry vector.
pub open spec fn entry_models(s: Seq<HeaderEntry>) -> Seq<EntryModel> {
    s.map_values(|e: HeaderEntry| e@)
}

/// Appending an entry appends its model.
proof fn lemma_entry_models_push(v: Seq<HeaderEntry>, e: HeaderEntry)
    ensures
        entry_models(v.push(e)) == entry_models(v).push(e@),
{
    assert forall|m: int| 0 <= m < v.len() + 1 implies entry_models(v.push(e))[m] == entry_models(
        v,
    ).push(e@)[m] by {
        assert(entry_models(v.push(e))[m] == v.push(e)[m]@);
        if m < v.len() {
            assert(v.push(e)[m] == v[m]);
            assert(entry_models(v)[m] == v[m]@);
        } else {
            assert(v.push(e)[m] == e);
        }
    }
    assert(entry_models(v.push(e)) =~= entry_models(v).push(e@));
}

/// Merging the pseudo-header into the folded entries at the sorted position
/// of its literal name; on the (degenerate) name collision with a real
/// header, the pseudo value comes first.
pub open spec fn spec_merge(s: Seq<EntryModel>, pv: Seq<u8>) -> Seq<EntryModel>
    decreases s.len(),
{
    if s.len() == 0 {
        seq![(pseudo_name(), seq![pv])]
    } else if lex_lt(s[0].0, pseudo_name()) {
        seq![s[0]] + spec_merge(s.skip(1), pv)
    } else if s[0].0 == pseudo_name() {
        seq![(pseudo_name(), seq![pv] + s[0].1)] + s.skip(1)
    } else {
        seq![(pseudo_name(), seq![pv])] + s
    }
}

/// Positional characterization of `spec_merge`: at the first index whose
/// name does not sort below the pseudo-header name, the pseudo entry is
/// either combined with an equally-named entry or inserted on its own.
pub proof fn lemma_spec_merge_positional(s: Seq<EntryModel>, pv: Seq<u8>, i: int)
    requires
        0 <= i <= s.len(),
        forall|m: int| 0 <= m < i ==> lex_lt(#[trigger] s[m].0, pseudo_name()),
        i < s.len() ==> !lex_lt(s[i].0, pseudo_name()),
    ensures
        i < s.len() && s[i].0 == pseudo_name() ==> spec_merge(s, pv) == s.take(i) + seq![
            (pseudo_name(), seq![pv] + s[i].1),
        ] + s.skip(i + 1),
        !(i < s.len() && s[i].0 == pseudo_name()) ==> spec_merge(s, pv) == s.take(i) + seq![
            (pseudo_name(), seq![pv]),
        ] + s.skip(i),
    decreases i,
{
    if i == 0 {
        if s.len() == 0 {
            assert(spec_merge(s, pv) =~= s.take(0) + seq![(pseudo_name(), seq![pv])] + s.skip(0));
        } else if s[0].0 == pseudo_name() {
            lemma_lex_irreflexive(pseudo_name());
            assert(spec_merge(s, pv) =~= s.take(0) + seq![(pseudo_name(), seq![pv] + s[0].1)]
                + s.skip(1));
        } else {
            assert(spec_merge(s, pv) =~= s.take(0) + seq![(pseudo_name(), seq![pv])] + s.skip(0));
        }
    } else {
        let t = s.skip(1);
        assert(lex_lt(s[0].0, pseudo_name()));
        assert forall|m: int| 0 <= m < i - 1 implies lex_lt(#[trigger] t[m].0, pseudo_name()) by {
            assert(t[m] == s[m + 1]);
        }
        if i - 1 < t.len() {
            assert(t[i - 1] == s[i]);
        }
        lemma_spec_merge_positional(t, pv, i - 1);
        if i < s.len() && s[i].0 == pseudo_name() {
            assert(seq![s[0]] + (t.take(i - 1) + seq![(pseudo_name(), seq![pv] + s[i].1)] + t.skip(
                i,
            )) =~= s.take(i) + seq![(pseudo_name(), seq![pv] + s[i].1)] + s.skip(i + 1));
        } else {
            assert(seq![s[0]] + (t.take(i - 1) + seq![(pseudo_name(), seq![pv])] + t.skip(i - 1))
                =~= s.take(i) + seq![(pseudo_name(), seq![pv])] + s.skip(i));
        }
    }
}

/// Every name of the merged entries is the pseudo-header name or a name of
/// the input.
proof fn lemma_spec_merge_names(s: Seq<EntryModel>, pv: Seq<u8>)
    ensures
        forall|m: int|
            0 <= m < spec_merge(s, pv).len() ==> #[trigger] spec_merge(s, pv)[m].0 == pseudo_name()
                || has_name(s, spec_merge(s, pv)[m].0),
    decreases s.len(),
{
    let r = spec_merge(s, pv);
    if s.len() == 0 {
    } else if lex_lt(s[0].0, pseudo_name()) {
        let t = s.skip(1);
        lemma_spec_merge_names(t, pv);
        let rt = spec_merge(t, pv);
        assert forall|m: int| 0 <= m < r.len() implies #[trigger] r[m].0 == pseudo_name()
            || has_name(s, r[m].0) by {
            if m == 0 {
                assert(has_name(s, s[0].0));
            } else {
                assert(r[m] == rt[m - 1]);
                if rt[m - 1].0 != pseudo_name() {
                    let w = choose|w: int| 0 <= w < t.len() && #[trigger] t[w].0 == rt[m - 1].0;
                    assert(s[w + 1].0 == rt[m - 1].0);
                }
            }
        }
    } else if s[0].0 == pseudo_name() {
        assert forall|m: int| 0 <= m < r.len() implies #[trigger] r[m].0 == pseudo_name()
            || has_name(s, r[m].0) by {
            if m > 0 {
                assert(r[m] == s.skip(1)[m - 1]);
                assert(s.skip(1)[m - 1] == s[m]);
                assert(has_name(s, s[m].0));
            }
        }
    } else {
        assert forall|m: int| 0 <= m < r.len() implies #[trigger] r[m].0 == pseudo_name()
            || has_name(s, r[m].0) by {
            if m > 0 {
                assert(r[m] == s[m - 1]);
                assert(has_name(s, s[m - 1].0));
            }
        }
    }
}

/// Merging the pseudo-header preserves the strict ascending order of names.
pub proof fn lemma_spec_merge_sorted(s: Seq<EntryModel>, pv: Seq<u8>)
    requires
        sorted_names(s),
    ensures
        sorted_names(spec_merge(s, pv)),
    decreases s.len(),
{
    let r = spec_merge(s, pv);
    if s.len() == 0 {
    } else if lex_lt(s[0].0, pseudo_name()) {
        let t = s.skip(1);
        assert forall|i: int, j: int| 0 <= i < j < t.len() implies lex_lt(
            #[trigger] t[i].0,
            #[trigger] t[j].0,
        ) by {
            assert(t[i] == s[i + 1]);
            assert(t[j] == s[j + 1]);
        }
        lemma_spec_merge_sorted(t, pv);
        lemma_spec_merge_names(t, pv);
        let rt = spec_merge(t, pv);
        assert forall|i: int, j: int| 0 <= i < j < r.len() implies lex_lt(
            #[trigger] r[i].0,
            #[trigger] r[j].0,
        ) by {
            if i == 0 {
                assert(r[j] == rt[j - 1]);
                if rt[j - 1].0 == pseudo_name() {
                    assert(lex_lt(s[0].0, pseudo_name()));
                } else {
                    let w = choose|w: int| 0 <= w < t.len() && #[trigger] t[w].0 == rt[j - 1].0;
                    assert(t[w] == s[w + 1]);
                    assert(lex_lt(s[0].0, s[w + 1].0));
                }
            } else {
                assert(r[i] == rt[i - 1]);
                assert(r[j] == rt[j - 1]);
            }
        }
    } else if s[0].0 == pseudo_name() {
        assert forall|i: int, j: int| 0 <= i < j < r.len() implies lex_lt(
            #[trigger] r[i].0,
            #[trigger] r[j].0,
        ) by {
            if i == 0 {
                assert(r[j] == s.skip(1)[j - 1]);
                assert(s.skip(1)[j - 1] == s[j]);
            } else {
                assert(r[i] == s[i]);
                assert(r[j] == s[j]);
            }
        }
    } else {
        lemma_lex_trichotomy(s[0].0, pseudo_name());
        assert(lex_lt(pseudo_name(), s[0].0));
        assert forall|i: int, j: int| 0 <= i < j < r.len() implies lex_lt(
            #[trigger] r[i].0,
            #[trigger] r[j].0,
        ) by {
            if i == 0 {
                assert(r[j] == s[j - 1]);
                if j - 1 > 0 {
                    assert(lex_lt(s[0].0, s[j - 1].0));
                    lemma_lex_transitive(pseudo_name(), s[0].0, s[j - 1].0);
                }
            } else {
                assert(r[i] == s[i - 1]);
                assert(r[j] == s[j - 1]);
            }
        }
    }
}

/// The values of one entry joined with comma-and-space, preserving their
/// order of appearance.
pub open spec fn joined_values(vs: Seq<Seq<u8>>) -> Seq<u8>
    decreases vs.len(),
{
    if vs.len() == 0 {
        Seq::empty()
    } else if vs.len() == 1 {
        vs[0]
    } else {
        joined_values(vs.drop_last()) + comma_sp() + vs.last()
    }
}

/// One canonical line: the name, `: `, and the joined values.
pub open spec fn line_of(e: EntryModel) -> Seq<u8> {
    e.0 + colon_sp() + joined_values(e.1)
}

/// The canonical lines joined with a single newline, no trailing newline.
pub open spec fn signing_bytes(s: Seq<EntryModel>) -> Seq<u8>
    decreases s.len(),
{
    if s.len() == 0 {
        Seq::empty()
    } else if s.len() == 1 {
        line_of(s[0])
    } else {
        signing_bytes(s.drop_last()) + nl() + line_of(s.last())
    }
}

/// The entry names in emission order.
pub open spec fn names_of(s: Seq<EntryModel>) -> Seq<Seq<u8>> {
    s.map_values(|e: EntryModel| e.0)
}

/// The literal bytes of the pseudo-header name.
pub fn request_target_bytes() -> (r: Vec<u8>)
    ensures
        r@ == pseudo_name(),
{
    let mut r: Vec<u8> = Vec::new();
    r.push(40);
    r.push(114);
    r.push(101);
    r.push(113);
    r.push(117);
    r.push(101);
    r.push(115);
    r.push(116);
    r.push(45);
    r.push(116);
    r.push(97);
    r.push(114);
    r.push(103);
    r.push(101);
    r.push(116);
    r.push(41);
    proof {
        assert(r@ =~= pseudo_name());
    }
    r
}

/// Computes the pseudo-header's line value.
pub fn target_line_bytes(method: &Vec<u8>, path: &Vec<u8>, query: &Option<Vec<u8>>) -> (r: Vec<u8>)
    ensures
        r@ == target_line(method@, path@, opt_bytes(*query)),
{
    let mut r = lower(method);
    r.push(32);
    append_bytes(&mut r, path);
    match query {
        Some(q) => {
            r.push(63);
            append_bytes(&mut r, q);
            proof {
                assert(r@ =~= lower_bytes(method@) + seq![32u8] + path@ + seq![63u8] + q@);
            }
        },
        None => {
            proof {
                assert(r@ =~= lower_bytes(method@) + seq![32u8] + path@);
            }
        },
    }
    r
}

/// The spec-level image of an optional byte string.
pub open spec fn opt_bytes(q: Option<Vec<u8>>) -> Option<Seq<u8>> {
    match q {
        Some(v) => Some(v@),
        None => None,
    }
}

/// Merges the pseudo-header entry into the folded entries.
fn merge_pseudo(hs: &HeaderSet, pv: Vec<u8>) -> (r: Vec<HeaderEntry>)
    ensures
        entry_models(r@) == spec_merge(hs@, pv@),
{
    let pname = request_target_bytes();
    let ghost s = hs@;
    let ghost pvv = pv@;
    proof {
        assert(pv.deep_view() =~= pvv);
    }
    let mut r: Vec<HeaderEntry> = Vec::new();
    let mut i: usize = 0;
    proof {
        assert(s.len() == hs.entries.len());
        assert(entry_models(r@) =~= s.take(0));
    }
    while i < hs.entries.len() && lex_less(&hs.entries[i].name, &pname)
        invariant
            i <= hs.entries.len(),
            s == hs@,
            s.len() == hs.entries.len(),
            pname@ == pseudo_name(),
            entry_models(r@) == s.take(i as int),
            forall|m: int| 0 <= m < i ==> lex_lt(#[trigger] s[m].0, pseudo_name()),
        decreases hs.entries.len() - i,
    {
        proof {
            assert(s[i as int] == hs.entries@[i as int]@);
        }
        let e = HeaderEntry {
            name: clone_bytes(&hs.entries[i].name),
            values: clone_byte_seqs(&hs.entries[i].values),
        };
        proof {
            assert(e@ == s[i as int]);
        }
        let ghost eg = e;
        let ghost rp = r@;
        r.push(e);
        proof {
            lemma_entry_models_push(rp, eg);
            assert(s.take(i + 1 as int) =~= s.take(i as int).push(s[i as int]));
        }
        i = i + 1;
    }
    proof {
        assert(i < s.len() ==> !lex_lt(s[i as int].0, pseudo_name())) by {
            if i < s.len() {
                assert(s[i as int] == hs.entries@[i as int]@);
            }
        }
        lemma_spec_merge_positional(s, pvv, i as int);
    }
    let same = if i < hs.entries.len() {
        crate::headers::bytes_eq(&hs.entries[i].name, &pname)
    } else {
        false
    };
    let ghost i0 = i as int;
    if same {
        proof {
            assert(s[i0] == hs.entries@[i0]@);
        }
        let mut vals: Vec<Vec<u8>> = Vec::new();
        vals.push(pv);
        let mut rest = clone_byte_seqs(&hs.entries[i].values);
        let ghost restdeep = rest.deep_view();
        vals.append(&mut rest);
        proof {
            assert(vals.deep_view() =~= seq![pvv] + s[i0].1);
        }
        let e = HeaderEntry { name: pname, values: vals };
        proof {
            assert(e@ == (pseudo_name(), seq![pvv] + s[i0].1));
        }
        let ghost eg = e;
        let ghost rp = r@;
        r.push(e);
        proof {
            lemma_entry_models_push(rp, eg);
            assert(entry_models(r@) =~= s.take(i0) + seq![(pseudo_name(), seq![pvv] + s[i0].1)]
                + s.subrange(i0 + 1, i0 + 1));
        }
        i = i + 1;
        while i < hs.entries.len()
            invariant
                0 <= i0,
                i0 + 1 <= i as int <= hs.entries.len(),
                s == hs@,
                s.len() == hs.entries.len(),
                entry_models(r@) == s.take(i0) + seq![(pseudo_name(), seq![pvv] + s[i0].1)]
                    + s.subrange(i0 + 1, i as int),
            decreases hs.entries.len() - i,
        {
            proof {
                assert(s[i as int] == hs.entries@[i as int]@);
            }
            let e2 = HeaderEntry {
                name: clone_bytes(&hs.entries[i].name),
                values: clone_byte_seqs(&hs.entries[i].values),
            };
            proof {
                assert(e2@ == s[i as int]);
            }
            let ghost eg2 = e2;
            let ghost rp2 = r@;
            r.push(e2);
            proof {
                lemma_entry_models_push(rp2, eg2);
                assert(s.subrange(i0 + 1, i + 1 as int) =~= s.subrange(i0 + 1, i as int).push(
                    s[i as int],
                ));
                assert(entry_models(r@) =~= s.take(i0) + seq![(pseudo_name(), seq![pvv] + s[i0].1)]
                    + s.subrange(i0 + 1, i + 1 as int));
            }
            i = i + 1;
        }
        proof {
            assert(s.subrange(i0 + 1, s.len() as int) =~= s.skip(i0 + 1));
            assert(entry_models(r@) == spec_merge(s, pvv));
        }
    } else {
        let e = HeaderEntry { name: pname, values: vec![pv] };
        proof {
            assert(e.values.deep_view() =~= seq![pvv]);
            assert(e@ == (pseudo_name(), seq![pvv]));
        }
        let ghost eg = e;
        let ghost rp = r@;
        r.push(e);
        proof {
            lemma_entry_models_push(rp, eg);
            assert(entry_models(r@) =~= s.take(i0) + seq![(pseudo_name(), seq![pvv])] + s.subrange(
                i0,
                i0,
            ));
        }
        while i < hs.entries.len()
            invariant
                0 <= i0,
                i0 <= i as int <= hs.entries.len(),
                s == hs@,
                s.len() == hs.entries.len(),
                entry_models(r@) == s.take(i0) + seq![(pseudo_name(), seq![pvv])] + s.subrange(
                    i0,
                    i as int,
                ),
            decreases hs.entries.len() - i,
        {
            proof {
                assert(s[i as int] == hs.entries@[i as int]@);
            }
            let e2 = HeaderEntry {
                name: clone_bytes(&hs.entries[i].name),
                values: clone_byte_seqs(&hs.entries[i].values),
            };
            proof {
                assert(e2@ == s[i as int]);
            }
            let ghost eg2 = e2;
            let ghost rp2 = r@;
            r.push(e2);
            proof {
                lemma_entry_models_push(rp2, eg2);
                assert(s.subrange(i0, i + 1 as int) =~= s.subrange(i0, i as int).push(s[i as int]));
                assert(entry_models(r@) =~= s.take(i0) + seq![(pseudo_name(), seq![pvv])]
                    + s.subrange(i0, i + 1 as int));
            }
            i = i + 1;
        }
        proof {
            assert(s.subrange(i0, s.len() as int) =~= s.skip(i0));
            assert(entry_models(r@) == spec_merge(s, pvv));
        }
    }
    r
}

/// Renders the joined value of one entry.
fn render_values(vs: &Vec<Vec<u8>>) -> (r: Vec<u8>)
    ensures
        r@ == joined_values(vs.deep_view()),
{
    let ghost d = vs.deep_view();
    let mut r: Vec<u8> = Vec::new();
    let mut i: usize = 0;
    proof {
        assert(r@ =~= joined_values(d.take(0)));
    }
    while i < vs.len()
        invariant
            i <= vs.len(),
            d == vs.deep_view(),
            d.len() == vs.len(),
            r@ == joined_values(d.take(i as int)),
        decreases vs.len() - i,
    {
        if i > 0 {
            r.push(44);
            r.push(32);
        }
        append_bytes(&mut r, &vs[i]);
        proof {
            assert(vs@[i as int]@ == d[i as int]);
            let t1 = d.take(i + 1 as int);
            assert(t1.drop_last() =~= d.take(i as int));
            assert(t1.last() == d[i as int]);
            if i == 0 {
                assert(joined_values(t1) == t1[0]);
                assert(r@ =~= d[0]);
            } else {
                assert(r@ =~= joined_values(d.take(i as int)) + comma_sp() + d[i as int]);
            }
        }
        i = i + 1;
    }
    proof {
        assert(d.take(d.len() as int) =~= d);
    }
    r
}

/// Renders the canonical signing string of the merged entries.
fn render_signing(entries: &Vec<HeaderEntry>) -> (r: Vec<u8>)
    ensures
        r@ == signing_bytes(entry_models(entries@)),
{
    let ghost s = entry_models(entries@);
    let mut r: Vec<u8> = Vec::new();
    let mut i: usize = 0;
    proof {
        assert(r@ =~= signing_bytes(s.take(0)));
    }
    while i < entries.len()
        invariant
            i <= entries.len(),
            s == entry_models(entries@),
            s.len() == entries.len(),
            r@ == signing_bytes(s.take(i as int)),
        decreases entries.len() - i,
    {
        if i > 0 {
            r.push(10);
        }
        append_bytes(&mut r, &entries[i].name);
        r.push(58);
        r.push(32);
        let v = render_values(&entries[i].values);
        append_bytes(&mut r, &v);
        proof {
            assert(s[i as int] == entries@[i as int]@);
            assert(v@ == joined_values(s[i as int].1));
            let t1 = s.take(i + 1 as int);
            assert(t1.drop_last() =~= s.take(i as int));
            assert(t1.last() == s[i as int]);
            if i == 0 {
                assert(signing_bytes(t1) == line_of(s[0]));
                assert(r@ =~= line_of(s[0]));
            } else {
                assert(r@ =~= signing_bytes(s.take(i as int)) + nl() + line_of(s[i as int]));
            }
        }
        i = i + 1;
    }
    proof {
        assert(s.take(s.len() as int) =~= s);
    }
    r
}

/// Collects the entry names in emission order.
fn collect_names(entries: &Vec<HeaderEntry>) -> (r: Vec<Vec<u8>>)
    ensures
        r.deep_view() == names_of(entry_models(entries@)),
{
    let ghost all = names_of(entry_models(entries@));
    let mut r: Vec<Vec<u8>> = Vec::new();
    let mut i: usize = 0;
    proof {
        assert(r.deep_view() =~= all.take(0));
    }
    while i < entries.len()
        invariant
            i <= entries.len(),
            all == names_of(entry_models(entries@)),
            all.len() == entries.len(),
            r.deep_view() == all.take(i as int),
        decreases entries.len() - i,
    {
        let n = clone_bytes(&entries[i].name);
        proof {
            assert(entry_models(entries@)[i as int] == entries@[i as int]@);
            assert(n.deep_view() =~= n@);
            assert(n@ == all[i as int]);
        }
        r.push(n);
        proof {
            assert(all.take(i + 1 as int) =~= all.take(i as int).push(all[i as int]));
            assert(r.deep_view() =~= all.take(i + 1 as int));
        }
        i = i + 1;
    }
    proof {
        assert(all.take(all.len() as int) =~= all);
    }
    r
}

/// A derived, immutable signing operation: the key id and algorithm it is
/// for, the ordered list of covered header names (pseudo-header included),
/// and the canonical signing string itself.
pub struct SigningString {
    pub key_id: String,
    pub algorithm: SignatureAlgorithm,
    pub headers: Vec<Vec<u8>>,
    pub signing_string: Vec<u8>,
}

/// Builds the canonical signing string for a message: the pseudo-header line
/// is computed from method, path and query, merged into the folded headers
/// at the sorted position of `(request-target)`, and the entries are emitted
/// in canonical order, newline-joined.
pub fn build(
    method: &Vec<u8>,
    path: &Vec<u8>,
    query: &Option<Vec<u8>>,
    headers: &HeaderSet,
    key_id: &str,
    algorithm: SignatureAlgorithm,
) -> (r: SigningString)
    ensures
        r.signing_string@ == signing_bytes(
            spec_merge(headers@, target_line(method@, path@, opt_bytes(*query))),
        ),
        r.headers.deep_view() == names_of(
            spec_merge(headers@, target_line(method@, path@, opt_bytes(*query))),
        ),
        r.key_id@ == key_id@,
        r.algorithm == algorithm,
{
    let tline = target_line_bytes(method, path, query);
    let merged = merge_pseudo(headers, tline);
    let signing_string = render_signing(&merged);
    let names = collect_names(&merged);
    SigningString {
        key_id: key_id.to_owned(),
        algorithm,
        headers: names,
        signing_string,
    }
}

/// Take a prefix of a concatenation that ends inside the left part.
proof fn lemma_take_of_concat(x: Seq<u8>, y: Seq<u8>, n: int)
    requires
        0 <= n <= x.len(),
    ensures
        (x + y).take(n) == x.take(n),
{
    assert((x + y).take(n) =~= x.take(n));
}

/// The rendered string of a non-empty entry list begins with the first
/// entry's line; with a single entry it is exactly that line.
proof fn lemma_signing_prefix(s: Seq<EntryModel>)
    requires
        s.len() > 0,
    ensures
        line_of(s[0]).len() <= signing_bytes(s).len(),
        signing_bytes(s).take(line_of(s[0]).len() as int) == line_of(s[0]),
        s.len() == 1 ==> signing_bytes(s) == line_of(s[0]),
    decreases s.len(),
{
    if s.len() == 1 {
        assert(signing_bytes(s) == line_of(s[0]));
        assert(line_of(s[0]).take(line_of(s[0]).len() as int) =~= line_of(s[0]));
    } else {
        let d = s.drop_last();
        assert(d[0] == s[0]);
        lemma_signing_prefix(d);
        lemma_take_of_concat(signing_bytes(d), nl() + line_of(s.last()), line_of(s[0]).len() as int);
        assert(signing_bytes(s) == signing_bytes(d) + (nl() + line_of(s.last()))) by {
            assert(signing_bytes(d) + nl() + line_of(s.last()) =~= signing_bytes(d) + (nl()
                + line_of(s.last())));
        }
        assert(signing_bytes(s).take(line_of(s[0]).len() as int) == signing_bytes(d).take(
            line_of(s[0]).len() as int,
        ));
    }
}

/// Canonical line order: merged entries are strictly ascending in the byte
/// order of their (lower-cased) names; and when every folded header name
/// sorts above the pseudo-header name — as every name made of lower-case
/// letters and digits does — the pseudo-header entry stands first, followed
/// by the folded entries unchanged.
pub proof fn lemma_canonical_order(s: Seq<EntryModel>, pv: Seq<u8>)
    requires
        sorted_names(s),
    ensures
        sorted_names(spec_merge(s, pv)),
        (forall|m: int| 0 <= m < s.len() ==> lex_lt(pseudo_name(), #[trigger] s[m].0))
            ==> spec_merge(s, pv) == seq![(pseudo_name(), seq![pv])] + s,
{
    lemma_spec_merge_sorted(s, pv);
    if forall|m: int| 0 <= m < s.len() ==> lex_lt(pseudo_name(), #[trigger] s[m].0) {
        if s.len() > 0 {
            lemma_lex_irreflexive(s[0].0);
            assert(!lex_lt(s[0].0, pseudo_name())) by {
                if lex_lt(s[0].0, pseudo_name()) {
                    lemma_lex_transitive(pseudo_name(), s[0].0, pseudo_name());
                    lemma_lex_irreflexive(pseudo_name());
                }
            }
            assert(s[0].0 != pseudo_name()) by {
                lemma_lex_irreflexive(s[0].0);
            }
        }
        lemma_spec_merge_positional(s, pv, 0);
        assert(s.take(0) + seq![(pseudo_name(), seq![pv])] + s.skip(0) =~= seq![
            (pseudo_name(), seq![pv]),
        ] + s);
    }
}

/// The first line of the signing string: when every folded header name sorts
/// above the pseudo-header name, the canonical string begins with
/// `(request-target): `, the lowered method, a space, the path, and `?query`
/// when a query is present; with no folded headers it is exactly that line.
pub proof fn lemma_first_line(s: Seq<EntryModel>, m: Seq<u8>, p: Seq<u8>, q: Option<Seq<u8>>)
    requires
        forall|i: int| 0 <= i < s.len() ==> lex_lt(pseudo_name(), #[trigger] s[i].0),
    ensures
        ({
            let line0 = pseudo_name() + colon_sp() + target_line(m, p, q);
            let ss = signing_bytes(spec_merge(s, target_line(m, p, q)));
            line0.len() <= ss.len() && ss.take(line0.len() as int) == line0 && (s.len() == 0
                ==> ss == line0)
        }),
{
    let pv = target_line(m, p, q);
    let merged = spec_merge(s, pv);
    if s.len() > 0 {
        assert(!lex_lt(s[0].0, pseudo_name())) by {
            if lex_lt(s[0].0, pseudo_name()) {
                lemma_lex_transitive(pseudo_name(), s[0].0, pseudo_name());
                lemma_lex_irreflexive(pseudo_name());
            }
        }
        assert(s[0].0 != pseudo_name()) by {
            lemma_lex_irreflexive(s[0].0);
        }
    }
    lemma_spec_merge_positional(s, pv, 0);
    assert(merged =~= seq![(pseudo_name(), seq![pv])] + s);
    assert(merged[0] == (pseudo_name(), seq![pv]));
    assert(joined_values(seq![pv]) == pv);
    assert(line_of(merged[0]) == pseudo_name() + colon_sp() + pv);
    lemma_signing_prefix(merged);
    assert(merged.len() == 1 ==> s.len() == 0);
    assert(s.len() == 0 ==> merged.len() == 1);
}

/// The emitted header-name list is the canonical line names themselves: one
/// name per line of the signing string, in the same order, each held in its
/// lower-cased form (the pseudo-header name is its own lower-casing).
pub proof fn lemma_headers_list(s: Seq<EntryModel>, pv: Seq<u8>)
    requires
        lowered_names(s),
    ensures
        names_of(spec_merge(s, pv)).len() == spec_merge(s, pv).len(),
        forall|i: int|
            0 <= i < spec_merge(s, pv).len() ==> #[trigger] names_of(spec_merge(s, pv))[i]
                == spec_merge(s, pv)[i].0,
        forall|i: int|
            0 <= i < spec_merge(s, pv).len() ==> #[trigger] names_of(spec_merge(s, pv))[i]
                == lower_bytes(names_of(spec_merge(s, pv))[i]),
{
    let r = spec_merge(s, pv);
    lemma_spec_merge_names(s, pv);
    assert(lower_bytes(pseudo_name()) =~= pseudo_name()) by {
        assert forall|m: int| 0 <= m < pseudo_name().len() implies lower_bytes(pseudo_name())[m]
            == pseudo_name()[m] by {
            assert(lower_bytes(pseudo_name())[m] == crate::canon::lower_byte(pseudo_name()[m]));
        }
    }
    assert forall|i: int| 0 <= i < r.len() implies #[trigger] names_of(r)[i] == lower_bytes(
        names_of(r)[i],
    ) by {
        assert(names_of(r)[i] == r[i].0);
        if r[i].0 != pseudo_name() {
            let w = choose|w: int| 0 <= w < s.len() && #[trigger] s[w].0 == r[i].0;
        }
    }
}

} // verus!
