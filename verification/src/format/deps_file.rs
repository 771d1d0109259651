//! The per-module dependency sidecar: its record type, its JSON form,
//! and the aggregation step that builds a module's record from the
//! records of its direct dependencies.
//!
//! The sidecar JSON shape is `{"name":..,"version":..,"deps":[..]}`,
//! nested recursively.  Writing and parsing are both defined here, and
//! parsing a written record is proved to give the record back.

use vstd::prelude::*;
use crate::format::json::{
    json_escaped, sp_jstr, lemma_jstr_round_trip, push_json_escaped, parse_json_string_body,
};
use crate::text::{has_prefix, lemma_has_prefix_concat, lemma_skip_of_concat, lemma_skip_skip};

verus! {

broadcast use vstd::std_specs::vec::group_vec_axioms;

/// One module and, recursively, the modules whose compiled outputs it
/// directly links.  Duplicate names may recur in different branches and
/// are kept as they are.
#[derive(Debug)]
pub struct EsstraDepsData {
    pub name: String,
    pub version: String,
    pub deps: Vec<EsstraDepsData>,
}

/// The mathematical content of a dependency record.
#[verifier::ext_equal]
pub struct DepsView {
    pub name: Seq<char>,
    pub version: Seq<char>,
    pub deps: Seq<DepsView>,
}

/// The view of one record, recursively.
pub open spec fn deps_view_of(d: EsstraDepsData) -> DepsView
    decreases d, 1int,
{
    DepsView { name: d.name@, version: d.version@, deps: deps_view_seq(d.deps@) }
}

/// The views of a sequence of records, in order.
pub open spec fn deps_view_seq(s: Seq<EsstraDepsData>) -> Seq<DepsView>
    decreases s, 0int,
{
    if s.len() == 0 {
        Seq::empty()
    } else {
        seq![deps_view_of(s[0])] + deps_view_seq(s.drop_first())
    }
}

impl View for EsstraDepsData {
    type V = DepsView;

    open spec fn view(&self) -> DepsView {
        deps_view_of(*self)
    }
}

pub open spec fn lit_obj_open() -> Seq<char> {
    seq!['{', '"', 'n', 'a', 'm', 'e', '"', ':', '"']
}

pub open spec fn lit_version_sep() -> Seq<char> {
    seq![',', '"', 'v', 'e', 'r', 's', 'i', 'o', 'n', '"', ':', '"']
}

pub open spec fn lit_deps_sep() -> Seq<char> {
    seq![',', '"', 'd', 'e', 'p', 's', '"', ':', '[']
}

pub open spec fn lit_obj_close() -> Seq<char> {
    seq![']', '}']
}

/// The canonical JSON text of one dependency record.
pub open spec fn spec_deps_json(d: DepsView) -> Seq<char>
    decreases d, 1int,
{
    lit_obj_open() + (json_escaped(d.name) + (seq!['"'] + (lit_version_sep() + (json_escaped(
        d.version,
    ) + (seq!['"'] + (lit_deps_sep() + (spec_deps_list_json(d.deps) + lit_obj_close())))))))
}

/// The comma-separated JSON texts of a sequence of records.
pub open spec fn spec_deps_list_json(ds: Seq<DepsView>) -> Seq<char>
    decreases ds, 0int,
{
    if ds.len() == 0 {
        Seq::empty()
    } else {
        spec_deps_json(ds[0]) + spec_deps_rest_json(ds.drop_first())
    }
}

/// The remaining records of a list, each preceded by a comma.
pub open spec fn spec_deps_rest_json(ds: Seq<DepsView>) -> Seq<char>
    decreases ds, 1int,
{
    if ds.len() == 0 {
        Seq::empty()
    } else {
        seq![','] + (spec_deps_json(ds[0]) + spec_deps_rest_json(ds.drop_first()))
    }
}

/// Parse one dependency record at the head of `s`; the result carries
/// the number of characters consumed.
#[verifier::opaque]
pub open spec fn sp_deps(s: Seq<char>) -> Option<(DepsView, nat)>
    decreases s.len(), 0int,
{
    if !has_prefix(s, lit_obj_open()) {
        None
    } else {
        let s1 = s.skip(9);
        match sp_jstr(s1) {
            None => None,
            Some(pn) => if pn.1 > s1.len() {
                None
            } else {
                let s2 = s1.skip(pn.1 as int);
                if !has_prefix(s2, lit_version_sep()) {
                    None
                } else {
                    let s3 = s2.skip(12);
                    match sp_jstr(s3) {
                        None => None,
                        Some(pv) => if pv.1 > s3.len() {
                            None
                        } else {
                            let s4 = s3.skip(pv.1 as int);
                            if !has_prefix(s4, lit_deps_sep()) {
                                None
                            } else {
                                let s5 = s4.skip(9);
                                match sp_deps_list(s5) {
                                    None => None,
                                    Some(pl) => if pl.1 > s5.len() {
                                        None
                                    } else {
                                        let s6 = s5.skip(pl.1 as int);
                                        if !has_prefix(s6, lit_obj_close()) {
                                            None
                                        } else {
                                            Some(
                                                (
                                                    DepsView {
                                                        name: pn.0,
                                                        version: pv.0,
                                                        deps: pl.0,
                                                    },
                                                    (9 + pn.1 + 12 + pv.1 + 9 + pl.1 + 2) as nat,
                                                ),
                                            )
                                        }
                                    },
                                }
                            }
                        },
                    }
                }
            },
        }
    }
}

/// Parse a possibly empty record list; the characters consumed stop
/// right before the closing bracket.
#[verifier::opaque]
pub open spec fn sp_deps_list(s: Seq<char>) -> Option<(Seq<DepsView>, nat)>
    decreases s.len(), 1int,
{
    if s.len() > 0 && s[0] == ']' {
        Some((Seq::empty(), 0))
    } else {
        match sp_deps(s) {
            None => None,
            Some(q) => if q.1 == 0 || q.1 > s.len() {
                None
            } else {
                match sp_deps_more(s.skip(q.1 as int)) {
                    None => None,
                    Some(m) => Some((seq![q.0] + m.0, (q.1 + m.1) as nat)),
                }
            },
        }
    }
}

/// Parse zero or more further records, each preceded by a comma.
#[verifier::opaque]
pub open spec fn sp_deps_more(s: Seq<char>) -> Option<(Seq<DepsView>, nat)>
    decreases s.len(), 1int,
{
    if s.len() > 0 && s[0] == ',' {
        match sp_deps(s.skip(1)) {
            None => None,
            Some(q) => if 1 + q.1 > s.len() {
                None
            } else {
                match sp_deps_more(s.skip(1 + q.1 as int)) {
                    None => None,
                    Some(m) => Some((seq![q.0] + m.0, (1 + q.1 + m.1) as nat)),
                }
            },
        }
    } else {
        Some((Seq::empty(), 0))
    }
}

/// A whole sidecar document: one record covering the entire text.
pub open spec fn sp_deps_doc(s: Seq<char>) -> Option<DepsView> {
    match sp_deps(s) {
        Some(q) => if q.1 == s.len() {
            Some(q.0)
        } else {
            None
        },
        None => None,
    }
}


/// One unfolding step of `sp_deps_list` on a text whose head parses as
/// one record.
proof fn lemma_list_step(s: Seq<char>, d0: DepsView, n0: nat, tail_ds: Seq<DepsView>, m: nat)
    requires
        s.len() > 0,
        s[0] != ']',
        sp_deps(s) == Some::<(DepsView, nat)>((d0, n0)),
        0 < n0 <= s.len(),
        sp_deps_more(s.skip(n0 as int)) == Some::<(Seq<DepsView>, nat)>((tail_ds, m)),
    ensures
        sp_deps_list(s) == Some::<(Seq<DepsView>, nat)>((seq![d0] + tail_ds, (n0 + m) as nat)),
{
    reveal(sp_deps);
    reveal(sp_deps_list);
    reveal(sp_deps_more);
}

/// One unfolding step of `sp_deps_more` on a text that continues with a
/// comma and one record.
proof fn lemma_more_step(s: Seq<char>, d0: DepsView, n0: nat, tail_ds: Seq<DepsView>, m: nat)
    requires
        s.len() > 0,
        s[0] == ',',
        sp_deps(s.skip(1)) == Some::<(DepsView, nat)>((d0, n0)),
        1 + n0 <= s.len(),
        sp_deps_more(s.skip(1 + n0 as int)) == Some::<(Seq<DepsView>, nat)>((tail_ds, m)),
    ensures
        sp_deps_more(s) == Some::<(Seq<DepsView>, nat)>(
            (seq![d0] + tail_ds, (1 + n0 + m) as nat),
        ),
{
    reveal(sp_deps);
    reveal(sp_deps_list);
    reveal(sp_deps_more);
}

/// Round trip, one record: the parser applied to the canonical JSON text
/// of any record, followed by anything, recovers exactly that record and
/// consumes exactly its text.
#[verifier::rlimit(100)]
pub proof fn lemma_deps_round_trip_at(d: DepsView, rest: Seq<char>)
    ensures
        sp_deps(spec_deps_json(d) + rest) == Some::<(DepsView, nat)>(
            (d, spec_deps_json(d).len() as nat),
        ),
    decreases d, 1int,
{
    let en = json_escaped(d.name);
    let ev = json_escaped(d.version);
    let lst = spec_deps_list_json(d.deps);
    let j = spec_deps_json(d);
    let s = j + rest;

    let t_rest = lit_obj_close() + rest;
    let t_lst = lst + t_rest;
    let t_dep = lit_deps_sep() + t_lst;
    let t_ev = ev + (seq!['"'] + t_dep);
    let t_ver = lit_version_sep() + t_ev;
    let t_en = en + (seq!['"'] + t_ver);
    assert(s =~= lit_obj_open() + t_en);

    lemma_has_prefix_concat(lit_obj_open(), t_en);
    assert(has_prefix(s, lit_obj_open()));
    lemma_skip_of_concat(lit_obj_open(), t_en);
    assert(s.skip(9) =~= t_en);

    lemma_jstr_round_trip(d.name, t_ver);
    assert(t_en =~= en + seq!['"'] + t_ver);
    assert(sp_jstr(t_en) == Some::<(Seq<char>, nat)>((d.name, (en.len() + 1) as nat)));
    assert(t_en =~= (en + seq!['"']) + t_ver);
    lemma_skip_of_concat(en + seq!['"'], t_ver);
    assert(t_en.skip(en.len() as int + 1) =~= t_ver);

    lemma_has_prefix_concat(lit_version_sep(), t_ev);
    lemma_skip_of_concat(lit_version_sep(), t_ev);
    assert(t_ver.skip(12) =~= t_ev);

    lemma_jstr_round_trip(d.version, t_dep);
    assert(t_ev =~= ev + seq!['"'] + t_dep);
    assert(sp_jstr(t_ev) == Some::<(Seq<char>, nat)>((d.version, (ev.len() + 1) as nat)));
    assert(t_ev =~= (ev + seq!['"']) + t_dep);
    lemma_skip_of_concat(ev + seq!['"'], t_dep);
    assert(t_ev.skip(ev.len() as int + 1) =~= t_dep);

    lemma_has_prefix_concat(lit_deps_sep(), t_lst);
    lemma_skip_of_concat(lit_deps_sep(), t_lst);
    assert(t_dep.skip(9) =~= t_lst);

    assert(t_rest[0] == ']');
    lemma_deps_list_round_trip(d.deps, t_rest);
    assert(sp_deps_list(t_lst) == Some::<(Seq<DepsView>, nat)>((d.deps, lst.len() as nat)));

    lemma_skip_of_concat(lst, t_rest);
    assert(t_lst.skip(lst.len() as int) =~= t_rest);
    lemma_has_prefix_concat(lit_obj_close(), rest);
    assert(has_prefix(t_rest, lit_obj_close()));

    let n1 = (en.len() + 1) as nat;
    let n2 = (ev.len() + 1) as nat;
    let n3 = lst.len() as nat;
    assert(j.len() == 9 + n1 + 12 + n2 + 9 + n3 + 2);
    lemma_skip_skip(s, 9, n1 as int);
    assert(s.skip(9 + n1 as int) =~= t_ver);
    lemma_skip_skip(s, 9 + n1 as int, 12);
    assert(s.skip(21 + n1 as int) =~= t_ev);
    lemma_skip_skip(s, 21 + n1 as int, n2 as int);
    assert(s.skip(21 + n1 as int + n2 as int) =~= t_dep);
    lemma_skip_skip(s, 21 + n1 as int + n2 as int, 9);
    assert(s.skip(30 + n1 as int + n2 as int) =~= t_lst);
    lemma_skip_skip(s, 30 + n1 as int + n2 as int, n3 as int);
    assert(s.skip(30 + n1 as int + n2 as int + n3 as int) =~= t_rest);
    lemma_deps_step(s, d.name, n1, d.version, n2, d.deps, n3);
    assert(DepsView { name: d.name, version: d.version, deps: d.deps } =~= d);
}

/// Round trip, record list: parsing the list text followed by a closing
/// bracket recovers the list and stops at the bracket.
#[verifier::rlimit(100)]
pub proof fn lemma_deps_list_round_trip(ds: Seq<DepsView>, rest: Seq<char>)
    requires
        rest.len() > 0,
        rest[0] == ']',
    ensures
        sp_deps_list(spec_deps_list_json(ds) + rest) == Some::<(Seq<DepsView>, nat)>(
            (ds, spec_deps_list_json(ds).len() as nat),
        ),
    decreases ds, 0int,
{
    let lst = spec_deps_list_json(ds);
    let s = lst + rest;
    if ds.len() == 0 {
        assert(lst =~= Seq::<char>::empty());
        assert(s =~= rest);
        assert(s[0] == ']');
        assert(ds =~= Seq::<DepsView>::empty());
        assert(sp_deps_list(s) == Some::<(Seq<DepsView>, nat)>((Seq::empty(), 0nat))) by {
            reveal(sp_deps);
            reveal(sp_deps_list);
            reveal(sp_deps_more);
        }
    } else {
        let j0 = spec_deps_json(ds[0]);
        let tail = spec_deps_rest_json(ds.drop_first());
        assert(lst == j0 + tail);
        assert(s =~= j0 + (tail + rest));
        lemma_deps_round_trip_at(ds[0], tail + rest);
        assert(sp_deps(s) == Some::<(DepsView, nat)>((ds[0], j0.len() as nat)));
        assert(s[0] == j0[0]);
        assert(j0[0] == '{');
        assert(s[0] != ']');
        assert(j0.len() >= 1);
        lemma_skip_of_concat(j0, tail + rest);
        assert(s.skip(j0.len() as int) =~= tail + rest);
        lemma_deps_more_round_trip(ds.drop_first(), rest);
        assert(sp_deps_more(s.skip(j0.len() as int)) == Some::<(Seq<DepsView>, nat)>(
            (ds.drop_first(), tail.len() as nat),
        ));
        lemma_list_step(s, ds[0], j0.len() as nat, ds.drop_first(), tail.len() as nat);
        assert(seq![ds[0]] + ds.drop_first() =~= ds);
        assert(lst.len() == j0.len() + tail.len());
    }
}

/// Round trip, continuation of a record list.
#[verifier::rlimit(100)]
pub proof fn lemma_deps_more_round_trip(ds: Seq<DepsView>, rest: Seq<char>)
    requires
        rest.len() > 0,
        rest[0] == ']',
    ensures
        sp_deps_more(spec_deps_rest_json(ds) + rest) == Some::<(Seq<DepsView>, nat)>(
            (ds, spec_deps_rest_json(ds).len() as nat),
        ),
    decreases ds, 2int,
{
    let t = spec_deps_rest_json(ds);
    let s = t + rest;
    if ds.len() == 0 {
        assert(t =~= Seq::<char>::empty());
        assert(s =~= rest);
        assert(s[0] == ']' && s[0] != ',');
        assert(ds =~= Seq::<DepsView>::empty());
        assert(sp_deps_more(s) == Some::<(Seq<DepsView>, nat)>((Seq::empty(), 0nat))) by {
            reveal(sp_deps);
            reveal(sp_deps_list);
            reveal(sp_deps_more);
        }
    } else {
        let j0 = spec_deps_json(ds[0]);
        let tail = spec_deps_rest_json(ds.drop_first());
        assert(t == seq![','] + (j0 + tail));
        assert(s[0] == ',');
        assert(s =~= seq![','] + (j0 + (tail + rest)));
        lemma_skip_of_concat(seq![','], j0 + (tail + rest));
        assert(s.skip(1) =~= j0 + (tail + rest));
        lemma_deps_round_trip_at(ds[0], tail + rest);
        assert(sp_deps(s.skip(1)) == Some::<(DepsView, nat)>((ds[0], j0.len() as nat)));
        assert(s.skip(1).skip(j0.len() as int) =~= tail + rest) by {
            lemma_skip_of_concat(j0, tail + rest);
        }
        lemma_skip_skip(s, 1, j0.len() as int);
        assert(s.skip(1 + j0.len() as int) =~= tail + rest);
        lemma_deps_more_round_trip(ds.drop_first(), rest);
        assert(sp_deps_more(s.skip(1 + j0.len() as int)) == Some::<(Seq<DepsView>, nat)>(
            (ds.drop_first(), tail.len() as nat),
        ));
        lemma_more_step(s, ds[0], j0.len() as nat, ds.drop_first(), tail.len() as nat);
        assert(seq![ds[0]] + ds.drop_first() =~= ds);
        assert(t.len() == 1 + j0.len() + tail.len());
    }
}

/// Round trip for a whole sidecar document: parsing the canonical JSON
/// text of any dependency record yields a record equal to it field by
/// field, at every depth.
pub proof fn lemma_deps_doc_round_trip(d: DepsView)
    ensures
        sp_deps_doc(spec_deps_json(d)) == Some(d),
{
    lemma_deps_round_trip_at(d, Seq::empty());
    assert(spec_deps_json(d) + Seq::<char>::empty() =~= spec_deps_json(d));
}


/// The flattened, left-associated shape of the canonical JSON text.
#[verifier::rlimit(100)]
pub proof fn lemma_deps_json_flat(d: DepsView)
    ensures
        spec_deps_json(d) == ((((((((lit_obj_open() + json_escaped(d.name)) + seq!['"'])
            + lit_version_sep()) + json_escaped(d.version)) + seq!['"']) + lit_deps_sep())
            + spec_deps_list_json(d.deps)) + lit_obj_close()),
{
    assert(spec_deps_json(d) =~= ((((((((lit_obj_open() + json_escaped(d.name)) + seq!['"'])
        + lit_version_sep()) + json_escaped(d.version)) + seq!['"']) + lit_deps_sep())
        + spec_deps_list_json(d.deps)) + lit_obj_close()));
}

/// How much text one record occupies: never less than its fixed framing,
/// and never more than the whole input.
pub proof fn lemma_sp_deps_bounds(s: Seq<char>)
    ensures
        match sp_deps(s) {
            Some(q) => 32 <= q.1 <= s.len(),
            None => true,
        },
{
    reveal(sp_deps);
    reveal(sp_deps_list);
    reveal(sp_deps_more);
}

/// Appending one record to a list appends a comma (except before the
/// first record) and its text.
pub proof fn lemma_rest_json_push(ds: Seq<DepsView>, x: DepsView)
    ensures
        spec_deps_rest_json(ds.push(x)) == spec_deps_rest_json(ds) + (seq![','] + spec_deps_json(
            x,
        )),
    decreases ds.len(),
{
    if ds.len() == 0 {
        assert(ds.push(x)[0] == x);
        assert(ds.push(x).drop_first() =~= Seq::<DepsView>::empty());
        assert(spec_deps_rest_json(ds.push(x).drop_first()) == Seq::<char>::empty());
        assert(spec_deps_rest_json(ds.push(x)) =~= spec_deps_rest_json(ds) + (seq![',']
            + spec_deps_json(x)));
    } else {
        assert(ds.push(x)[0] == ds[0]);
        assert(ds.push(x).drop_first() =~= ds.drop_first().push(x));
        lemma_rest_json_push(ds.drop_first(), x);
        crate::text::seq_add_assoc(
            seq![','],
            spec_deps_json(ds[0]),
            spec_deps_rest_json(ds.drop_first()),
        );
        assert(spec_deps_rest_json(ds.push(x)) =~= spec_deps_rest_json(ds) + (seq![',']
            + spec_deps_json(x)));
    }
}

pub proof fn lemma_list_json_push(ds: Seq<DepsView>, x: DepsView)
    ensures
        spec_deps_list_json(ds.push(x)) == if ds.len() == 0 {
            spec_deps_json(x)
        } else {
            spec_deps_list_json(ds) + (seq![','] + spec_deps_json(x))
        },
{
    if ds.len() == 0 {
        assert(ds.push(x)[0] == x);
        assert(ds.push(x).drop_first() =~= Seq::<DepsView>::empty());
        assert(spec_deps_list_json(ds.push(x)) =~= spec_deps_json(x));
    } else {
        assert(ds.push(x)[0] == ds[0]);
        assert(ds.push(x).drop_first() =~= ds.drop_first().push(x));
        lemma_rest_json_push(ds.drop_first(), x);
        crate::text::seq_add_assoc(
            spec_deps_json(ds[0]),
            spec_deps_rest_json(ds.drop_first()),
            seq![','] + spec_deps_json(x),
        );
    }
}

/// Views of a sequence of records, pushed one at a time.
pub proof fn lemma_view_seq_push(s: Seq<EsstraDepsData>, e: EsstraDepsData)
    ensures
        deps_view_seq(s.push(e)) == deps_view_seq(s).push(deps_view_of(e)),
    decreases s.len(),
{
    if s.len() == 0 {
        assert(s.push(e)[0] == e);
        assert(s.push(e).drop_first() =~= Seq::<EsstraDepsData>::empty());
        assert(deps_view_seq(Seq::<EsstraDepsData>::empty()) == Seq::<DepsView>::empty());
        assert(deps_view_seq(s.push(e)) == seq![deps_view_of(e)] + Seq::<DepsView>::empty());
        assert(deps_view_seq(s) == Seq::<DepsView>::empty());
        assert(deps_view_seq(s.push(e)) =~= deps_view_seq(s).push(deps_view_of(e)));
    } else {
        assert(s.push(e)[0] == s[0]);
        assert(s.push(e).drop_first() =~= s.drop_first().push(e));
        lemma_view_seq_push(s.drop_first(), e);
        lemma_view_seq_len(s.drop_first());
        lemma_view_seq_len(s);
        assert(deps_view_seq(s.push(e)) == seq![deps_view_of(s[0])] + deps_view_seq(
            s.drop_first(),
        ).push(deps_view_of(e)));
        assert(deps_view_seq(s) == seq![deps_view_of(s[0])] + deps_view_seq(s.drop_first()));
        assert(deps_view_seq(s.push(e)) =~= deps_view_seq(s).push(deps_view_of(e)));
    }
}

/// Write one dependency record as its canonical sidecar JSON text.
pub fn deps_to_json(d: &EsstraDepsData) -> (r: String)
    ensures
        r@ == spec_deps_json(d@),
    decreases *d, 1int,
{
    broadcast use vstd::std_specs::vec::group_vec_axioms;

    let ghost en = json_escaped(d.name@);
    let ghost ev = json_escaped(d.version@);
    let mut out = String::new();
    out.append("{\"name\":\"");
    push_json_escaped(&mut out, d.name.as_str());
    out.append("\",\"version\":\"");
    push_json_escaped(&mut out, d.version.as_str());
    out.append("\",\"deps\":[");
    proof {
        reveal_strlit("{\"name\":\"");
        reveal_strlit("\",\"version\":\"");
        reveal_strlit("\",\"deps\":[");
        assert("{\"name\":\""@ =~= lit_obj_open());
        assert("\",\"version\":\""@ =~= seq!['"'] + lit_version_sep());
        assert("\",\"deps\":["@ =~= seq!['"'] + lit_deps_sep());
    }
    let ghost pre = out@;
    let mut k: usize = 0;
    let m = d.deps.len();
    proof {
        assert(d.deps@.take(0) =~= Seq::<EsstraDepsData>::empty());
        assert(deps_view_seq(d.deps@.take(0)) == Seq::<DepsView>::empty());
        assert(pre + spec_deps_list_json(deps_view_seq(d.deps@.take(0))) =~= pre);
    }
    while k < m
        invariant
            m == d.deps@.len(),
            k <= m,
            out@ == pre + spec_deps_list_json(deps_view_seq(d.deps@.take(k as int))),
        decreases m - k,
    {
        broadcast use vstd::std_specs::vec::group_vec_axioms;

        if k > 0 {
            out.append(",");
        }
        let child = deps_to_json(&d.deps[k]);
        out.append(child.as_str());
        proof {
            reveal_strlit(",");
            assert(","@ =~= seq![',']);
            let ghost tk = deps_view_seq(d.deps@.take(k as int));
            assert(d.deps@.take(k + 1) =~= d.deps@.take(k as int).push(d.deps@[k as int]));
            lemma_view_seq_push(d.deps@.take(k as int), d.deps@[k as int]);
            lemma_list_json_push(tk, deps_view_of(d.deps@[k as int]));
            assert(tk.len() == d.deps@.take(k as int).len()) by {
                lemma_view_seq_len(d.deps@.take(k as int));
            }
            if k == 0 {
                assert(out@ =~= pre + spec_deps_list_json(
                    deps_view_seq(d.deps@.take(k + 1)),
                ));
            } else {
                crate::text::seq_add_assoc(
                    pre,
                    spec_deps_list_json(tk),
                    seq![','] + spec_deps_json(deps_view_of(d.deps@[k as int])),
                );
                assert(out@ =~= pre + spec_deps_list_json(
                    deps_view_seq(d.deps@.take(k + 1)),
                ));
            }
        }
        k += 1;
    }
    out.append("]}");
    proof {
        reveal_strlit("]}");
        assert("]}"@ =~= lit_obj_close());
        assert(d.deps@.take(m as int) =~= d.deps@);
        lemma_deps_json_flat(d@);
        assert(out@ =~= spec_deps_json(d@));
    }
    out
}

/// Length of a view sequence.
pub proof fn lemma_view_seq_len(s: Seq<EsstraDepsData>)
    ensures
        deps_view_seq(s).len() == s.len(),
    decreases s.len(),
{
    if s.len() > 0 {
        lemma_view_seq_len(s.drop_first());
    }
}


/// One successful unfolding of `sp_deps` on a suffix `t`, given the
/// results of its parts at their absolute offsets inside `t`.
#[verifier::rlimit(100)]
proof fn lemma_deps_step(
    t: Seq<char>,
    nm: Seq<char>,
    n1: nat,
    vr: Seq<char>,
    n2: nat,
    ds: Seq<DepsView>,
    n3: nat,
)
    requires
        9 + n1 + 12 + n2 + 9 + n3 + 2 <= t.len(),
        has_prefix(t, lit_obj_open()),
        sp_jstr(t.skip(9)) == Some::<(Seq<char>, nat)>((nm, n1)),
        has_prefix(t.skip(9 + n1 as int), lit_version_sep()),
        sp_jstr(t.skip(21 + n1 as int)) == Some::<(Seq<char>, nat)>((vr, n2)),
        has_prefix(t.skip(21 + n1 as int + n2 as int), lit_deps_sep()),
        sp_deps_list(t.skip(30 + n1 as int + n2 as int)) == Some::<(Seq<DepsView>, nat)>(
            (ds, n3),
        ),
        has_prefix(t.skip(30 + n1 as int + n2 as int + n3 as int), lit_obj_close()),
    ensures
        sp_deps(t) == Some::<(DepsView, nat)>(
            (DepsView { name: nm, version: vr, deps: ds }, (9 + n1 + 12 + n2 + 9 + n3 + 2) as nat),
        ),
{
    reveal(sp_deps);
    reveal(sp_deps_list);
    reveal(sp_deps_more);
    let s1 = t.skip(9);
    lemma_skip_skip(t, 9, n1 as int);
    let s2 = s1.skip(n1 as int);
    assert(s2 =~= t.skip(9 + n1 as int));
    lemma_skip_skip(t, 9 + n1 as int, 12);
    let s3 = s2.skip(12);
    assert(s3 =~= t.skip(21 + n1 as int));
    lemma_skip_skip(t, 21 + n1 as int, n2 as int);
    let s4 = s3.skip(n2 as int);
    assert(s4 =~= t.skip(21 + n1 as int + n2 as int));
    lemma_skip_skip(t, 21 + n1 as int + n2 as int, 9);
    let s5 = s4.skip(9);
    assert(s5 =~= t.skip(30 + n1 as int + n2 as int));
    lemma_skip_skip(t, 30 + n1 as int + n2 as int, n3 as int);
    let s6 = s5.skip(n3 as int);
    assert(s6 =~= t.skip(30 + n1 as int + n2 as int + n3 as int));
}


/// The ways one record can fail to parse, stage by stage.  Each lemma
/// concludes from the failure of one stage that the whole record fails.
proof fn lemma_deps_none_1(t: Seq<char>)
    requires
        !has_prefix(t, lit_obj_open()),
    ensures
        sp_deps(t) is None,
{
    reveal(sp_deps);
    reveal(sp_deps_list);
    reveal(sp_deps_more);
}

proof fn lemma_deps_none_2(t: Seq<char>)
    requires
        has_prefix(t, lit_obj_open()),
        sp_jstr(t.skip(9)) is None,
    ensures
        sp_deps(t) is None,
{
    reveal(sp_deps);
    reveal(sp_deps_list);
    reveal(sp_deps_more);
}

proof fn lemma_deps_none_3(t: Seq<char>, n1: nat)
    requires
        has_prefix(t, lit_obj_open()),
        sp_jstr(t.skip(9)) matches Some(pn) && pn.1 == n1,
        9 + n1 <= t.len(),
        !has_prefix(t.skip(9 + n1 as int), lit_version_sep()),
    ensures
        sp_deps(t) is None,
{
    reveal(sp_deps);
    reveal(sp_deps_list);
    reveal(sp_deps_more);
    lemma_skip_skip(t, 9, n1 as int);
}

proof fn lemma_deps_none_4(t: Seq<char>, n1: nat)
    requires
        has_prefix(t, lit_obj_open()),
        sp_jstr(t.skip(9)) matches Some(pn) && pn.1 == n1,
        9 + n1 <= t.len(),
        has_prefix(t.skip(9 + n1 as int), lit_version_sep()),
        sp_jstr(t.skip(21 + n1 as int)) is None,
    ensures
        sp_deps(t) is None,
{
    reveal(sp_deps);
    reveal(sp_deps_list);
    reveal(sp_deps_more);
    lemma_skip_skip(t, 9, n1 as int);
    lemma_skip_skip(t, 9 + n1 as int, 12);
}

proof fn lemma_deps_none_5(t: Seq<char>, n1: nat, n2: nat)
    requires
        has_prefix(t, lit_obj_open()),
        sp_jstr(t.skip(9)) matches Some(pn) && pn.1 == n1,
        9 + n1 <= t.len(),
        has_prefix(t.skip(9 + n1 as int), lit_version_sep()),
        sp_jstr(t.skip(21 + n1 as int)) matches Some(pv) && pv.1 == n2,
        21 + n1 + n2 <= t.len(),
        !has_prefix(t.skip(21 + n1 as int + n2 as int), lit_deps_sep()),
    ensures
        sp_deps(t) is None,
{
    reveal(sp_deps);
    reveal(sp_deps_list);
    reveal(sp_deps_more);
    lemma_skip_skip(t, 9, n1 as int);
    lemma_skip_skip(t, 9 + n1 as int, 12);
    lemma_skip_skip(t, 21 + n1 as int, n2 as int);
}

proof fn lemma_deps_none_6(t: Seq<char>, n1: nat, n2: nat)
    requires
        has_prefix(t, lit_obj_open()),
        sp_jstr(t.skip(9)) matches Some(pn) && pn.1 == n1,
        9 + n1 <= t.len(),
        has_prefix(t.skip(9 + n1 as int), lit_version_sep()),
        sp_jstr(t.skip(21 + n1 as int)) matches Some(pv) && pv.1 == n2,
        21 + n1 + n2 <= t.len(),
        has_prefix(t.skip(21 + n1 as int + n2 as int), lit_deps_sep()),
        sp_deps_list(t.skip(30 + n1 as int + n2 as int)) is None,
    ensures
        sp_deps(t) is None,
{
    reveal(sp_deps);
    reveal(sp_deps_list);
    reveal(sp_deps_more);
    lemma_skip_skip(t, 9, n1 as int);
    lemma_skip_skip(t, 9 + n1 as int, 12);
    lemma_skip_skip(t, 21 + n1 as int, n2 as int);
    lemma_skip_skip(t, 21 + n1 as int + n2 as int, 9);
}

proof fn lemma_deps_none_7(t: Seq<char>, n1: nat, n2: nat, n3: nat)
    requires
        has_prefix(t, lit_obj_open()),
        sp_jstr(t.skip(9)) matches Some(pn) && pn.1 == n1,
        9 + n1 <= t.len(),
        has_prefix(t.skip(9 + n1 as int), lit_version_sep()),
        sp_jstr(t.skip(21 + n1 as int)) matches Some(pv) && pv.1 == n2,
        21 + n1 + n2 <= t.len(),
        has_prefix(t.skip(21 + n1 as int + n2 as int), lit_deps_sep()),
        sp_deps_list(t.skip(30 + n1 as int + n2 as int)) matches Some(pl) && pl.1 == n3,
        30 + n1 + n2 + n3 <= t.len(),
        !has_prefix(t.skip(30 + n1 as int + n2 as int + n3 as int), lit_obj_close()),
    ensures
        sp_deps(t) is None,
{
    reveal(sp_deps);
    reveal(sp_deps_list);
    reveal(sp_deps_more);
    lemma_skip_skip(t, 9, n1 as int);
    lemma_skip_skip(t, 9 + n1 as int, 12);
    lemma_skip_skip(t, 21 + n1 as int, n2 as int);
    lemma_skip_skip(t, 21 + n1 as int + n2 as int, 9);
    lemma_skip_skip(t, 30 + n1 as int + n2 as int, n3 as int);
}

/// The ways a record list can fail or succeed at its head.
proof fn lemma_list_none_head(t: Seq<char>)
    requires
        !(t.len() > 0 && t[0] == ']'),
        sp_deps(t) is None,
    ensures
        sp_deps_list(t) is None,
{
    reveal(sp_deps);
    reveal(sp_deps_list);
    reveal(sp_deps_more);
}

proof fn lemma_list_none_more(t: Seq<char>, n0: nat)
    requires
        !(t.len() > 0 && t[0] == ']'),
        sp_deps(t) matches Some(q) && q.1 == n0,
        0 < n0 <= t.len(),
        sp_deps_more(t.skip(n0 as int)) is None,
    ensures
        sp_deps_list(t) is None,
{
    reveal(sp_deps);
    reveal(sp_deps_list);
    reveal(sp_deps_more);
}

proof fn lemma_list_empty(t: Seq<char>)
    requires
        t.len() > 0,
        t[0] == ']',
    ensures
        sp_deps_list(t) == Some::<(Seq<DepsView>, nat)>((Seq::empty(), 0nat)),
{
    reveal(sp_deps);
    reveal(sp_deps_list);
    reveal(sp_deps_more);
}

proof fn lemma_more_none_head(t: Seq<char>)
    requires
        t.len() > 0,
        t[0] == ',',
        sp_deps(t.skip(1)) is None,
    ensures
        sp_deps_more(t) is None,
{
    reveal(sp_deps);
    reveal(sp_deps_list);
    reveal(sp_deps_more);
}

proof fn lemma_more_none_rec(t: Seq<char>, n0: nat)
    requires
        t.len() > 0,
        t[0] == ',',
        sp_deps(t.skip(1)) matches Some(q) && q.1 == n0,
        1 + n0 <= t.len(),
        sp_deps_more(t.skip(1 + n0 as int)) is None,
    ensures
        sp_deps_more(t) is None,
{
    reveal(sp_deps);
    reveal(sp_deps_list);
    reveal(sp_deps_more);
}

proof fn lemma_more_empty(t: Seq<char>)
    requires
        !(t.len() > 0 && t[0] == ','),
    ensures
        sp_deps_more(t) == Some::<(Seq<DepsView>, nat)>((Seq::empty(), 0nat)),
{
    reveal(sp_deps);
    reveal(sp_deps_list);
    reveal(sp_deps_more);
}

/// Parse one dependency record starting at character position `i`.
#[verifier::rlimit(100)]
fn parse_deps_at(s: &str, i: usize) -> (r: Option<(EsstraDepsData, usize)>)
    requires
        i <= s@.len(),
    ensures
        match (r, sp_deps(s@.skip(i as int))) {
            (Some(p), Some(q)) => deps_view_of(p.0) == q.0 && p.1 == i + q.1 && p.1 <= s@.len(),
            (None, None) => true,
            _ => false,
        },
    decreases s@.len() - i, 0int,
{
    let ghost suf = s@.skip(i as int);
    let n = s.unicode_len();
    proof {
        reveal_strlit("{\"name\":\"");
        assert("{\"name\":\""@ =~= lit_obj_open());
    }
    if !crate::text::match_lit(s, i, "{\"name\":\"") {
        proof {
            lemma_deps_none_1(suf);
        }
        return None;
    }
    assert(9 + i <= s@.len());
    proof {
        lemma_skip_skip(s@, i as int, 9);
    }
    let (nm, p1) = match parse_json_string_body(s, i + 9) {
        Some(p) => p,
        None => {
            proof {
                lemma_deps_none_2(suf);
            }
            return None;
        },
    };
    let ghost n1 = (p1 - (i + 9)) as nat;
    proof {
        reveal_strlit(",\"version\":\"");
        assert(",\"version\":\""@ =~= lit_version_sep());
        lemma_skip_skip(s@, i as int, 9 + n1 as int);
        lemma_skip_skip(suf, 9, n1 as int);
    }
    if !crate::text::match_lit(s, p1, ",\"version\":\"") {
        proof {
            lemma_deps_none_3(suf, n1);
        }
        return None;
    }
    assert(p1 + 12 <= s@.len());
    proof {
        lemma_skip_skip(s@, i as int, 21 + n1 as int);
        lemma_skip_skip(suf, 9 + n1 as int, 12);
    }
    let (vr, p2) = match parse_json_string_body(s, p1 + 12) {
        Some(p) => p,
        None => {
            proof {
                lemma_deps_none_4(suf, n1);
            }
            return None;
        },
    };
    let ghost n2 = (p2 - (p1 + 12)) as nat;
    proof {
        reveal_strlit(",\"deps\":[");
        assert(",\"deps\":["@ =~= lit_deps_sep());
        lemma_skip_skip(s@, i as int, 21 + n1 as int + n2 as int);
        lemma_skip_skip(suf, 21 + n1 as int, n2 as int);
    }
    if !crate::text::match_lit(s, p2, ",\"deps\":[") {
        proof {
            lemma_deps_none_5(suf, n1, n2);
        }
        return None;
    }
    assert(p2 + 9 <= s@.len());
    proof {
        lemma_skip_skip(s@, i as int, 30 + n1 as int + n2 as int);
        lemma_skip_skip(suf, 21 + n1 as int + n2 as int, 9);
    }
    let (children, p3) = match parse_deps_list_at(s, p2 + 9) {
        Some(p) => p,
        None => {
            proof {
                lemma_deps_none_6(suf, n1, n2);
            }
            return None;
        },
    };
    let ghost n3 = (p3 - (p2 + 9)) as nat;
    proof {
        reveal_strlit("]}");
        assert("]}"@ =~= lit_obj_close());
        lemma_skip_skip(s@, i as int, 30 + n1 as int + n2 as int + n3 as int);
        lemma_skip_skip(suf, 30 + n1 as int + n2 as int, n3 as int);
    }
    if !crate::text::match_lit(s, p3, "]}") {
        proof {
            lemma_deps_none_7(suf, n1, n2, n3);
        }
        return None;
    }
    assert(p3 + 2 <= s@.len());
    proof {
        lemma_deps_step(suf, nm@, n1, vr@, n2, deps_view_seq(children@), n3);
    }
    Some((EsstraDepsData { name: nm, version: vr, deps: children }, p3 + 2))
}

/// Parse a record list starting at position `i`; stops right before the
/// closing bracket.
fn parse_deps_list_at(s: &str, i: usize) -> (r: Option<(Vec<EsstraDepsData>, usize)>)
    requires
        i <= s@.len(),
    ensures
        match (r, sp_deps_list(s@.skip(i as int))) {
            (Some(p), Some(q)) => deps_view_seq(p.0@) == q.0 && p.1 == i + q.1 && p.1 <= s@.len(),
            (None, None) => true,
            _ => false,
        },
    decreases s@.len() - i, 1int,
{
    let ghost suf = s@.skip(i as int);
    let n = s.unicode_len();
    if i < n && s.get_char(i) == ']' {
        let v: Vec<EsstraDepsData> = Vec::new();
        proof {
            assert(suf.len() > 0 && suf[0] == ']');
            lemma_list_empty(suf);
            assert(v@ =~= Seq::<EsstraDepsData>::empty());
            assert(deps_view_seq(v@) == Seq::<DepsView>::empty());
        }
        return Some((v, i));
    }
    assert(!(suf.len() > 0 && suf[0] == ']'));
    let (d0, j) = match parse_deps_at(s, i) {
        Some(p) => p,
        None => {
            proof {
                lemma_list_none_head(suf);
            }
            return None;
        },
    };
    proof {
        lemma_sp_deps_bounds(suf);
        lemma_skip_skip(s@, i as int, (j - i) as int);
    }
    let (mut v, end) = match parse_deps_more_at(s, j) {
        Some(p) => p,
        None => {
            proof {
                lemma_list_none_more(suf, (j - i) as nat);
            }
            return None;
        },
    };
    let ghost v0 = v@;
    v.insert(0, d0);
    proof {
        assert(v@ =~= seq![d0] + v0);
        assert((seq![d0] + v0)[0] == d0);
        assert((seq![d0] + v0).drop_first() =~= v0);
        assert(deps_view_seq(v@) == seq![deps_view_of(d0)] + deps_view_seq(v0));
        lemma_list_step(suf, deps_view_of(d0), (j - i) as nat, deps_view_seq(v0), (end - j) as nat);
    }
    Some((v, end))
}

/// Parse zero or more further records, each preceded by a comma.
fn parse_deps_more_at(s: &str, i: usize) -> (r: Option<(Vec<EsstraDepsData>, usize)>)
    requires
        i <= s@.len(),
    ensures
        match (r, sp_deps_more(s@.skip(i as int))) {
            (Some(p), Some(q)) => deps_view_seq(p.0@) == q.0 && p.1 == i + q.1 && p.1 <= s@.len(),
            (None, None) => true,
            _ => false,
        },
    decreases s@.len() - i, 2int,
{
    let ghost suf = s@.skip(i as int);
    let n = s.unicode_len();
    if i == n || s.get_char(i) != ',' {
        let v: Vec<EsstraDepsData> = Vec::new();
        proof {
            assert(!(suf.len() > 0 && suf[0] == ','));
            lemma_more_empty(suf);
            assert(v@ =~= Seq::<EsstraDepsData>::empty());
            assert(deps_view_seq(v@) == Seq::<DepsView>::empty());
        }
        return Some((v, i));
    }
    proof {
        assert(suf.len() > 0 && suf[0] == ',');
        lemma_skip_skip(s@, i as int, 1);
    }
    let (d0, j) = match parse_deps_at(s, i + 1) {
        Some(p) => p,
        None => {
            proof {
                lemma_more_none_head(suf);
            }
            return None;
        },
    };
    proof {
        lemma_sp_deps_bounds(s@.skip(i + 1));
        lemma_skip_skip(s@, i as int, (j - i) as int);
    }
    let (mut v, end) = match parse_deps_more_at(s, j) {
        Some(p) => p,
        None => {
            proof {
                lemma_more_none_rec(suf, (j - i - 1) as nat);
            }
            return None;
        },
    };
    let ghost v0 = v@;
    v.insert(0, d0);
    proof {
        assert(v@ =~= seq![d0] + v0);
        assert((seq![d0] + v0)[0] == d0);
        assert((seq![d0] + v0).drop_first() =~= v0);
        assert(deps_view_seq(v@) == seq![deps_view_of(d0)] + deps_view_seq(v0));
        lemma_more_step(
            suf,
            deps_view_of(d0),
            (j - i - 1) as nat,
            deps_view_seq(v0),
            (end - j) as nat,
        );
    }
    Some((v, end))
}

/// Parse a whole sidecar document: one record covering the entire text.
pub fn deps_from_json(s: &str) -> (r: Option<EsstraDepsData>)
    ensures
        match (r, sp_deps_doc(s@)) {
            (Some(d), Some(v)) => d@ == v,
            (None, None) => true,
            _ => false,
        },
{
    proof {
        assert(s@.skip(0) =~= s@);
    }
    match parse_deps_at(s, 0) {
        Some(p) => {
            let n = s.unicode_len();
            if p.1 == n {
                Some(p.0)
            } else {
                None
            }
        },
        None => None,
    }
}


/// The view of each optional subtree.
pub open spec fn opt_view_seq(s: Seq<Option<EsstraDepsData>>) -> Seq<Option<DepsView>> {
    Seq::new(s.len(), |i: int| match s[i] {
        Some(d) => Some(deps_view_of(d)),
        None => None,
    })
}

/// The subtrees that are present, in their given order.
pub open spec fn present_subtrees(s: Seq<Option<DepsView>>) -> Seq<DepsView>
    decreases s.len(),
{
    if s.len() == 0 {
        Seq::empty()
    } else {
        match s[0] {
            Some(d) => seq![d] + present_subtrees(s.drop_first()),
            None => present_subtrees(s.drop_first()),
        }
    }
}

/// Build the record of the module now being compiled from its own name
/// and version and the parsed sidecar of each direct dependency, in
/// declaration order.  A dependency whose sidecar is missing or
/// unreadable arrives as `None` and contributes no subtree; nothing is
/// merged or deduplicated across the others.
pub fn aggregate_deps(name: String, version: String, subtrees: Vec<Option<EsstraDepsData>>) -> (r:
    EsstraDepsData)
    ensures
        r@ == (DepsView {
            name: name@,
            version: version@,
            deps: present_subtrees(opt_view_seq(subtrees@)),
        }),
{
    let ghost orig = subtrees@;
    let n0 = subtrees.len();
    let mut rest = subtrees;
    let mut children: Vec<EsstraDepsData> = Vec::new();
    proof {
        assert(deps_view_seq(children@) == Seq::<DepsView>::empty());
        assert(rest@ =~= orig.skip(0));
        lemma_present_split(opt_view_seq(orig), 0);
    }
    let mut k: usize = 0;
    while rest.len() > 0
        invariant
            n0 == orig.len(),
            k <= n0,
            rest@ =~= orig.skip(k as int),
            present_subtrees(opt_view_seq(orig)) == deps_view_seq(children@) + present_subtrees(
                opt_view_seq(rest@),
            ),
        decreases rest@.len(),
    {
        let h = rest.remove(0);
        proof {
            let ghost prev = orig.skip(k as int);
            assert(rest@ =~= prev.drop_first());
            assert(rest@ =~= orig.skip(k + 1));
            assert(opt_view_seq(prev).drop_first() =~= opt_view_seq(prev.drop_first()));
            assert(opt_view_seq(prev)[0] == (match prev[0] {
                Some(d) => Some(deps_view_of(d)),
                None => None::<DepsView>,
            }));
        }
        match h {
            Some(d) => {
                let ghost c0 = children@;
                children.push(d);
                proof {
                    lemma_view_seq_push(c0, d);
                    assert(deps_view_seq(children@) + present_subtrees(opt_view_seq(rest@))
                        =~= (deps_view_seq(c0).push(deps_view_of(d))) + present_subtrees(
                        opt_view_seq(rest@),
                    ));
                    assert(deps_view_seq(c0) + (seq![deps_view_of(d)] + present_subtrees(
                        opt_view_seq(rest@),
                    )) =~= deps_view_seq(c0).push(deps_view_of(d)) + present_subtrees(
                        opt_view_seq(rest@),
                    ));
                }
            },
            None => {
            },
        }
        k += 1;
    }
    proof {
        assert(rest@.len() == 0);
        assert(opt_view_seq(rest@).len() == 0);
        assert(present_subtrees(opt_view_seq(rest@)) == Seq::<DepsView>::empty());
        assert(deps_view_seq(children@) + Seq::<DepsView>::empty() =~= deps_view_seq(children@));
    }
    EsstraDepsData { name, version, deps: children }
}

proof fn lemma_present_split(s: Seq<Option<DepsView>>, k: int)
    requires
        0 <= k <= s.len(),
    ensures
        k == 0 ==> present_subtrees(s) == Seq::<DepsView>::empty() + present_subtrees(s.skip(0)),
{
    if k == 0 {
        assert(s.skip(0) =~= s);
        assert(Seq::<DepsView>::empty() + present_subtrees(s) =~= present_subtrees(s));
    }
}

/// The module name with every hyphen replaced by an underscore: the
/// normal form used in sidecar file names.
pub open spec fn normalized_module_name(s: Seq<char>) -> Seq<char> {
    Seq::new(s.len(), |i: int| if s[i] == '-' {
        '_'
    } else {
        s[i]
    })
}

/// The sidecar file name for a module: its normalized name followed by
/// the fixed sidecar suffix.
pub fn sidecar_file_name(name: &str) -> (r: String)
    ensures
        r@ == normalized_module_name(name@) + ".esstra-deps.json"@,
{
    let n = name.unicode_len();
    let mut out = String::new();
    let mut i: usize = 0;
    proof {
        assert(out@ =~= normalized_module_name(name@).take(0));
    }
    while i < n
        invariant
            n == name@.len(),
            i <= n,
            out@ == normalized_module_name(name@).take(i as int),
        decreases n - i,
    {
        let c = name.get_char(i);
        if c == '-' {
            out.push('_');
        } else {
            out.push(c);
        }
        proof {
            assert(out@ =~= normalized_module_name(name@).take(i + 1));
        }
        i += 1;
    }
    proof {
        assert(normalized_module_name(name@).take(n as int) =~= normalized_module_name(name@));
    }
    out.append(".esstra-deps.json");
    out
}

/// Number of characters up to and including the last slash (0 when the
/// path has no slash at all).
pub open spec fn dir_prefix_len(s: Seq<char>) -> int
    decreases s.len(),
{
    if s.len() == 0 {
        0
    } else if s[s.len() - 1] == '/' {
        s.len() as int
    } else {
        dir_prefix_len(s.drop_last())
    }
}

/// The sidecar path of a dependency: its sidecar file name placed in the
/// directory of the dependency's compiled artifact.
pub fn sidecar_path_for(artifact_path: &str, dep_name: &str) -> (r: String)
    ensures
        r@ == artifact_path@.take(dir_prefix_len(artifact_path@)) + normalized_module_name(
            dep_name@,
        ) + ".esstra-deps.json"@,
{
    let j = dir_split_pos(artifact_path);
    let dir = artifact_path.substring_char(0, j);
    let file = sidecar_file_name(dep_name);
    let mut out = String::new();
    out.append(dir);
    out.append(file.as_str());
    proof {
        assert(out@ =~= artifact_path@.take(dir_prefix_len(artifact_path@))
            + normalized_module_name(dep_name@) + ".esstra-deps.json"@);
    }
    out
}


/// Character position right after the last slash of a path (0 when the
/// path has none).
pub fn dir_split_pos(p: &str) -> (j: usize)
    ensures
        j <= p@.len(),
        j == dir_prefix_len(p@),
{
    let n = p.unicode_len();
    let mut j: usize = n;
    proof {
        assert(p@.take(n as int) =~= p@);
    }
    while j > 0
        invariant
            n == p@.len(),
            j <= n,
            dir_prefix_len(p@) == dir_prefix_len(p@.take(j as int)),
        decreases j,
    {
        if p.get_char(j - 1) == '/' {
            proof {
                assert(p@.take(j as int)[j - 1] == '/');
                assert(dir_prefix_len(p@.take(j as int)) == j);
            }
            return j;
        }
        proof {
            assert(p@.take(j as int).drop_last() =~= p@.take(j - 1));
        }
        j -= 1;
    }
    proof {
        assert(p@.take(0) =~= Seq::<char>::empty());
    }
    0
}

} // verus!
