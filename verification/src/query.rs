//! Compilation of subscriptions into parameterized SQL. User-supplied
//! text is never interpolated: integers are inlined after numeric
//! sanitization, hex tokens are decoded to blob parameters, and all
//! other text rides as positional parameters.
use vstd::prelude::*;

use crate::hexrange::{hex_range, spec_hex_search, HexSearch, HexSearchModel};
use crate::hexutil::{hex_decode, is_lower_hex, spec_hex_decodable, spec_hex_decode, spec_is_hex,
    spec_is_lower_hex};
use crate::numfmt::{push_i64_dec, push_u64_dec, spec_i64_dec, spec_u64_dec};
use crate::subscription::{ReqFilter, ReqFilterModel, Subscription, TagQuery, TagQueryModel};

verus! {

/// One positional SQL parameter: text, or a binary blob.
pub enum SqlParam {
    Text(String),
    Blob(Vec<u8>),
}

/// Mathematical image of an `SqlParam`.
pub enum SqlParamModel {
    Text(Seq<char>),
    Blob(Seq<u8>),
}

impl View for SqlParam {
    type V = SqlParamModel;

    open spec fn view(&self) -> SqlParamModel {
        match self {
            SqlParam::Text(s) => SqlParamModel::Text(s@),
            SqlParam::Blob(b) => SqlParamModel::Blob(b@),
        }
    }
}

/// The models of a parameter list.
pub open spec fn sql_param_models(ps: Seq<SqlParam>) -> Seq<SqlParamModel> {
    ps.map_values(|p: SqlParam| p@)
}

proof fn lemma_spm_push(s: Seq<SqlParam>, x: SqlParam)
    ensures
        sql_param_models(s.push(x)) == sql_param_models(s).push(x@),
{
    assert(sql_param_models(s.push(x)) =~= sql_param_models(s).push(x@));
}

proof fn lemma_spm_concat(a: Seq<SqlParam>, b: Seq<SqlParam>)
    ensures
        sql_param_models(a + b) == sql_param_models(a) + sql_param_models(b),
{
    assert(sql_param_models(a + b) =~= sql_param_models(a) + sql_param_models(b));
}

/// The models of a list of SQL fragments.
pub open spec fn str_models(cs: Seq<String>) -> Seq<Seq<char>> {
    cs.map_values(|s: String| s@)
}

proof fn lemma_str_models_push(s: Seq<String>, x: String)
    ensures
        str_models(s.push(x)) == str_models(s).push(x@),
{
    assert(str_models(s.push(x)) =~= str_models(s).push(x@));
}

/// Append one parameter, tracking its model.
fn push_param(params: &mut Vec<SqlParam>, p: SqlParam)
    ensures
        sql_param_models(final(params)@) == sql_param_models(old(params)@).push(p@),
{
    let ghost pre = params@;
    let ghost pm = p@;
    params.push(p);
    proof {
        lemma_spm_push(pre, params@.last());
        assert(params@ == pre.push(params@.last()));
    }
}

/// Serialized event row paired with the subscription it answers.
#[derive(Debug)]
pub struct QueryResult {
    /// Subscription identifier.
    pub sub_id: String,
    /// Serialized event, or the end-of-stored-events sentinel.
    pub event: String,
}

/// Mathematical image of a `QueryResult`.
pub struct QueryResultModel {
    pub sub_id: Seq<char>,
    pub event: Seq<char>,
}

impl View for QueryResult {
    type V = QueryResultModel;

    open spec fn view(&self) -> QueryResultModel {
        QueryResultModel { sub_id: self.sub_id@, event: self.event@ }
    }
}

impl Clone for QueryResult {
    fn clone(&self) -> (r: Self)
        ensures
            r@ == self@,
    {
        QueryResult { sub_id: self.sub_id.clone(), event: self.event.clone() }
    }
}

/// A comma-separated list of `count` placeholders.
pub open spec fn spec_repeat_vars(count: nat) -> Seq<char>
    decreases count,
{
    if count == 0 {
        Seq::empty()
    } else if count == 1 {
        "?"@
    } else {
        spec_repeat_vars((count - 1) as nat) + ",?"@
    }
}

/// Produce a list of `count` comma-separated placeholders.
pub fn repeat_vars(count: usize) -> (r: String)
    ensures
        r@ == spec_repeat_vars(count as nat),
{
    let mut s = String::new();
    if count == 0 {
        proof {
            assert(s@ =~= spec_repeat_vars(0));
        }
        return s;
    }
    s.append("?");
    let mut i: usize = 1;
    while i < count
        invariant
            1 <= i <= count,
            s@ == spec_repeat_vars(i as nat),
        decreases count - i,
    {
        s.append(",?");
        i += 1;
    }
    s
}

/// Fragments joined with a separator.
pub open spec fn spec_join(parts: Seq<Seq<char>>, sep: Seq<char>) -> Seq<char>
    decreases parts.len(),
{
    if parts.len() == 0 {
        Seq::empty()
    } else if parts.len() == 1 {
        parts[0]
    } else {
        spec_join(parts.drop_last(), sep) + sep + parts.last()
    }
}

proof fn lemma_join_push(parts: Seq<Seq<char>>, c: Seq<char>, sep: Seq<char>)
    ensures
        parts.len() == 0 ==> spec_join(parts.push(c), sep) == c,
        parts.len() > 0 ==> spec_join(parts.push(c), sep) == spec_join(parts, sep) + sep + c,
{
    assert(parts.push(c).drop_last() =~= parts);
    assert(parts.push(c).last() == c);
}

/// The condition and parameters for one author prefix search: the key
/// or range applies to the author column and the delegator column.
pub open spec fn spec_auth_clause(h: HexSearchModel) -> (Seq<char>, Seq<SqlParamModel>) {
    match h {
        HexSearchModel::Exact(ex) => (
            "author=? OR delegated_by=?"@,
            seq![SqlParamModel::Blob(ex), SqlParamModel::Blob(ex)],
        ),
        HexSearchModel::Range(lo, hi) => (
            "(author>? AND author<?) OR (delegated_by>? AND delegated_by<?)"@,
            seq![
                SqlParamModel::Blob(lo),
                SqlParamModel::Blob(hi),
                SqlParamModel::Blob(lo),
                SqlParamModel::Blob(hi),
            ],
        ),
        HexSearchModel::LowerOnly(lo) => (
            "author>? OR delegated_by>?"@,
            seq![SqlParamModel::Blob(lo), SqlParamModel::Blob(lo)],
        ),
    }
}

/// The condition and parameters for one event-id prefix search.
pub open spec fn spec_id_clause(h: HexSearchModel) -> (Seq<char>, Seq<SqlParamModel>) {
    match h {
        HexSearchModel::Exact(ex) => ("event_hash=?"@, seq![SqlParamModel::Blob(ex)]),
        HexSearchModel::Range(lo, hi) => (
            "(event_hash>? AND event_hash<?)"@,
            seq![SqlParamModel::Blob(lo), SqlParamModel::Blob(hi)],
        ),
        HexSearchModel::LowerOnly(lo) => ("event_hash>?"@, seq![SqlParamModel::Blob(lo)]),
    }
}

fn copy_bytes(v: &Vec<u8>) -> (r: Vec<u8>)
    ensures
        r@ == v@,
{
    let mut r: Vec<u8> = Vec::new();
    let mut i: usize = 0;
    while i < v.len()
        invariant
            i <= v.len(),
            r@ =~= v@.take(i as int),
        decreases v.len() - i,
    {
        r.push(v[i]);
        proof {
            assert(r@ =~= v@.take(i as int + 1));
        }
        i += 1;
    }
    proof {
        assert(r@ =~= v@);
    }
    r
}

fn auth_search_clause(h: HexSearch, params: &mut Vec<SqlParam>) -> (c: String)
    ensures
        c@ == spec_auth_clause(h@).0,
        sql_param_models(final(params)@) == sql_param_models(old(params)@) + spec_auth_clause(
            h@,
        ).1,
{
    let ghost base = sql_param_models(params@);
    let ghost hm = h@;
    match h {
        HexSearch::Exact(ex) => {
            let c = String::from_str("author=? OR delegated_by=?");
            push_param(params, SqlParam::Blob(copy_bytes(&ex)));
            push_param(params, SqlParam::Blob(ex));
            proof {
                assert(sql_param_models(params@) =~= base + spec_auth_clause(hm).1);
            }
            c
        },
        HexSearch::Range(lo, hi) => {
            let c = String::from_str("(author>? AND author<?) OR (delegated_by>? AND delegated_by<?)");
            push_param(params, SqlParam::Blob(copy_bytes(&lo)));
            push_param(params, SqlParam::Blob(copy_bytes(&hi)));
            push_param(params, SqlParam::Blob(lo));
            push_param(params, SqlParam::Blob(hi));
            proof {
                assert(sql_param_models(params@) =~= base + spec_auth_clause(hm).1);
            }
            c
        },
        HexSearch::LowerOnly(lo) => {
            let c = String::from_str("author>? OR delegated_by>?");
            push_param(params, SqlParam::Blob(copy_bytes(&lo)));
            push_param(params, SqlParam::Blob(lo));
            proof {
                assert(sql_param_models(params@) =~= base + spec_auth_clause(hm).1);
            }
            c
        },
    }
}

fn id_search_clause(h: HexSearch, params: &mut Vec<SqlParam>) -> (c: String)
    ensures
        c@ == spec_id_clause(h@).0,
        sql_param_models(final(params)@) == sql_param_models(old(params)@) + spec_id_clause(h@).1,
{
    let ghost base = sql_param_models(params@);
    let ghost hm = h@;
    match h {
        HexSearch::Exact(ex) => {
            let c = String::from_str("event_hash=?");
            push_param(params, SqlParam::Blob(ex));
            proof {
                assert(sql_param_models(params@) =~= base + spec_id_clause(hm).1);
            }
            c
        },
        HexSearch::Range(lo, hi) => {
            let c = String::from_str("(event_hash>? AND event_hash<?)");
            push_param(params, SqlParam::Blob(lo));
            push_param(params, SqlParam::Blob(hi));
            proof {
                assert(sql_param_models(params@) =~= base + spec_id_clause(hm).1);
            }
            c
        },
        HexSearch::LowerOnly(lo) => {
            let c = String::from_str("event_hash>?");
            push_param(params, SqlParam::Blob(lo));
            proof {
                assert(sql_param_models(params@) =~= base + spec_id_clause(hm).1);
            }
            c
        },
    }
}

/// Relies on `char::to_string`: the one-character string of `c`.
#[verifier::external_body]
fn char_to_string(c: char) -> (r: String)
    ensures
        r@ == seq![c],
{
    c.to_string()
}

} // verus!

verus! {

/// The per-prefix author conditions and their parameters, in prefix
/// order; prefixes that do not compile are skipped.
pub open spec fn spec_auth_searches(prefixes: Seq<Seq<char>>) -> (Seq<Seq<char>>, Seq<
    SqlParamModel,
>)
    decreases prefixes.len(),
{
    if prefixes.len() == 0 {
        (Seq::empty(), Seq::empty())
    } else {
        let r = spec_auth_searches(prefixes.drop_last());
        match spec_hex_search(prefixes.last()) {
            None => r,
            Some(h) => (r.0.push(spec_auth_clause(h).0), r.1 + spec_auth_clause(h).1),
        }
    }
}

/// The per-prefix event-id conditions and their parameters.
pub open spec fn spec_id_searches(prefixes: Seq<Seq<char>>) -> (Seq<Seq<char>>, Seq<SqlParamModel>)
    decreases prefixes.len(),
{
    if prefixes.len() == 0 {
        (Seq::empty(), Seq::empty())
    } else {
        let r = spec_id_searches(prefixes.drop_last());
        match spec_hex_search(prefixes.last()) {
            None => r,
            Some(h) => (r.0.push(spec_id_clause(h).0), r.1 + spec_id_clause(h).1),
        }
    }
}

/// The authors component: the per-prefix conditions OR-combined, or a
/// false condition when the author list is empty.
pub open spec fn spec_authors_component(av: Seq<Seq<char>>) -> (Seq<char>, Seq<SqlParamModel>) {
    let r = spec_auth_searches(av);
    (
        if av.len() == 0 {
            "false"@
        } else {
            "("@ + spec_join(r.0, " OR "@) + ")"@
        },
        r.1,
    )
}

/// The ids component, built like the authors component.
pub open spec fn spec_ids_component(iv: Seq<Seq<char>>) -> (Seq<char>, Seq<SqlParamModel>) {
    let r = spec_id_searches(iv);
    (
        if iv.len() == 0 {
            "false"@
        } else {
            "("@ + spec_join(r.0, " OR "@) + ")"@
        },
        r.1,
    )
}

/// The kinds rendered in decimal, in order.
pub open spec fn spec_kind_strs(ks: Seq<int>) -> Seq<Seq<char>>
    decreases ks.len(),
{
    if ks.len() == 0 {
        Seq::empty()
    } else {
        spec_kind_strs(ks.drop_last()).push(spec_u64_dec(ks.last() as nat))
    }
}

/// The kinds component: the sanitized integers inlined.
pub open spec fn spec_kinds_component(ks: Seq<int>) -> Seq<char> {
    "kind IN ("@ + spec_join(spec_kind_strs(ks), ", "@) + ")"@
}

/// Candidate tag values split by stored form: text values and decoded
/// hex blobs, each in candidate order.
pub open spec fn spec_split_values(vals: Seq<Seq<char>>) -> (Seq<Seq<char>>, Seq<Seq<u8>>)
    decreases vals.len(),
{
    if vals.len() == 0 {
        (Seq::empty(), Seq::empty())
    } else {
        let r = spec_split_values(vals.drop_last());
        let v = vals.last();
        if spec_hex_decodable(v) && spec_is_lower_hex(v) {
            (r.0, r.1.push(spec_hex_decode(v)))
        } else {
            (r.0.push(v), r.1)
        }
    }
}

/// Text values as text parameters.
pub open spec fn spec_text_params(vs: Seq<Seq<char>>) -> Seq<SqlParamModel>
    decreases vs.len(),
{
    if vs.len() == 0 {
        Seq::empty()
    } else {
        spec_text_params(vs.drop_last()).push(SqlParamModel::Text(vs.last()))
    }
}

/// Blob values as blob parameters.
pub open spec fn spec_blob_params(bs: Seq<Seq<u8>>) -> Seq<SqlParamModel>
    decreases bs.len(),
{
    if bs.len() == 0 {
        Seq::empty()
    } else {
        spec_blob_params(bs.drop_last()).push(SqlParamModel::Blob(bs.last()))
    }
}

/// The component for one tag condition: a membership subquery against
/// the tag index, with the tag name and every candidate bound as
/// parameters, text and blobs through their own columns.
pub open spec fn spec_tag_component(q: TagQueryModel) -> (Seq<char>, Seq<SqlParamModel>) {
    let sv = spec_split_values(q.values);
    (
        "e.id IN (SELECT e.id FROM event e LEFT JOIN tag t on e.id=t.event_id WHERE hidden!=TRUE and (name=? AND (value IN ("@
            + spec_repeat_vars(sv.0.len()) + ") OR value_hex IN ("@ + spec_repeat_vars(sv.1.len())
            + "))))"@,
        seq![SqlParamModel::Text(seq![q.name])] + spec_text_params(sv.0) + spec_blob_params(sv.1),
    )
}

/// The components of every tag condition, in filter order.
pub open spec fn spec_tag_components(qs: Seq<TagQueryModel>) -> (Seq<Seq<char>>, Seq<
    SqlParamModel,
>)
    decreases qs.len(),
{
    if qs.len() == 0 {
        (Seq::empty(), Seq::empty())
    } else {
        let r = spec_tag_components(qs.drop_last());
        let c = spec_tag_component(qs.last());
        (r.0.push(c.0), r.1 + c.1)
    }
}

/// The AND-combined components of one filter, and their parameters, in
/// the order the compiler emits them.
pub open spec fn spec_filter_parts(f: ReqFilterModel) -> (Seq<Seq<char>>, Seq<SqlParamModel>) {
    let a = match f.authors {
        None => (Seq::<Seq<char>>::empty(), Seq::<SqlParamModel>::empty()),
        Some(av) => {
            let c = spec_authors_component(av);
            (seq![c.0], c.1)
        },
    };
    let k: Seq<Seq<char>> = match f.kinds {
        None => Seq::empty(),
        Some(ks) => seq![spec_kinds_component(ks)],
    };
    let i = match f.ids {
        None => (Seq::<Seq<char>>::empty(), Seq::<SqlParamModel>::empty()),
        Some(iv) => {
            let c = spec_ids_component(iv);
            (seq![c.0], c.1)
        },
    };
    let t = match f.tags {
        None => (Seq::<Seq<char>>::empty(), Seq::<SqlParamModel>::empty()),
        Some(qs) => spec_tag_components(qs),
    };
    let s: Seq<Seq<char>> = match f.since {
        None => Seq::empty(),
        Some(ts) => seq!["created_at > "@ + spec_i64_dec(ts)],
    };
    let u: Seq<Seq<char>> = match f.until {
        None => Seq::empty(),
        Some(tu) => seq!["created_at < "@ + spec_i64_dec(tu)],
    };
    (a.0 + k + i.0 + t.0 + s + u, a.1 + i.1 + t.1)
}

/// The SQL for one filter: hidden rows are always excluded, the
/// components are AND-combined, and a limit orders newest-first while
/// its absence orders oldest-first.
pub open spec fn spec_query_from_filter(f: ReqFilterModel) -> (Seq<char>, Seq<SqlParamModel>) {
    if f.force_no_match {
        ("SELECT e.content, e.created_at FROM event e WHERE 1=0"@, Seq::empty())
    } else {
        let parts = spec_filter_parts(f);
        (
            "SELECT e.content, e.created_at FROM event e"@ + " WHERE hidden!=TRUE"@ + (
            if parts.0.len() == 0 {
                Seq::<char>::empty()
            } else {
                " AND "@ + spec_join(parts.0, " AND "@)
            }) + (match f.limit {
                Some(l) => " ORDER BY e.created_at DESC LIMIT "@ + spec_u64_dec(l as nat),
                None => " ORDER BY e.created_at ASC"@,
            }),
            parts.1,
        )
    }
}

fn authors_section(av: &Vec<String>, params: &mut Vec<SqlParam>) -> (c: String)
    ensures
        c@ == spec_authors_component(av.deep_view()).0,
        sql_param_models(final(params)@) == sql_param_models(old(params)@)
            + spec_authors_component(av.deep_view()).1,
{
    let ghost base = sql_param_models(params@);
    if av.len() == 0 {
        let c = String::from_str("false");
        proof {
            assert(sql_param_models(params@) =~= base + spec_auth_searches(av.deep_view()).1);
        }
        return c;
    }
    let mut acc = String::new();
    let ghost mut cs: Seq<Seq<char>> = Seq::empty();
    let mut any = false;
    let mut i: usize = 0;
    while i < av.len()
        invariant
            i <= av.len(),
            av.deep_view().len() == av@.len(),
            (cs, sql_param_models(params@)) == {
                let r = spec_auth_searches(av.deep_view().take(i as int));
                (r.0, base + r.1)
            },
            acc@ == spec_join(cs, " OR "@),
            any == (cs.len() > 0),
        decreases av.len() - i,
    {
        proof {
            assert(av.deep_view()[i as int] == av@[i as int]@);
            assert(av.deep_view().take(i as int + 1).drop_last() =~= av.deep_view().take(i as int));
            assert(av.deep_view().take(i as int + 1).last() == av.deep_view()[i as int]);
        }
        match hex_range(av[i].as_str()) {
            Some(h) => {
                if any {
                    acc.append(" OR ");
                }
                let ghost cs_pre = cs;
                let ghost acc_pre = acc@;
                let cstr = auth_search_clause(h, params);
                acc.append(cstr.as_str());
                proof {
                    cs = cs.push(cstr@);
                    lemma_join_push(cs_pre, cstr@, " OR "@);
                    assert(acc@ =~= spec_join(cs, " OR "@));
                }
                any = true;
            },
            None => {},
        }
        i += 1;
    }
    proof {
        assert(av.deep_view().take(av@.len() as int) =~= av.deep_view());
    }
    let mut c = String::from_str("(");
    c.append(acc.as_str());
    c.append(")");
    proof {
        assert(c@ =~= spec_authors_component(av.deep_view()).0);
    }
    c
}

fn ids_section(iv: &Vec<String>, params: &mut Vec<SqlParam>) -> (c: String)
    ensures
        c@ == spec_ids_component(iv.deep_view()).0,
        sql_param_models(final(params)@) == sql_param_models(old(params)@) + spec_ids_component(
            iv.deep_view(),
        ).1,
{
    let ghost base = sql_param_models(params@);
    if iv.len() == 0 {
        let c = String::from_str("false");
        proof {
            assert(sql_param_models(params@) =~= base + spec_id_searches(iv.deep_view()).1);
        }
        return c;
    }
    let mut acc = String::new();
    let ghost mut cs: Seq<Seq<char>> = Seq::empty();
    let mut any = false;
    let mut i: usize = 0;
    while i < iv.len()
        invariant
            i <= iv.len(),
            iv.deep_view().len() == iv@.len(),
            (cs, sql_param_models(params@)) == {
                let r = spec_id_searches(iv.deep_view().take(i as int));
                (r.0, base + r.1)
            },
            acc@ == spec_join(cs, " OR "@),
            any == (cs.len() > 0),
        decreases iv.len() - i,
    {
        proof {
            assert(iv.deep_view()[i as int] == iv@[i as int]@);
            assert(iv.deep_view().take(i as int + 1).drop_last() =~= iv.deep_view().take(i as int));
            assert(iv.deep_view().take(i as int + 1).last() == iv.deep_view()[i as int]);
        }
        match hex_range(iv[i].as_str()) {
            Some(h) => {
                if any {
                    acc.append(" OR ");
                }
                let ghost cs_pre = cs;
                let cstr = id_search_clause(h, params);
                acc.append(cstr.as_str());
                proof {
                    cs = cs.push(cstr@);
                    lemma_join_push(cs_pre, cstr@, " OR "@);
                    assert(acc@ =~= spec_join(cs, " OR "@));
                }
                any = true;
            },
            None => {},
        }
        i += 1;
    }
    proof {
        assert(iv.deep_view().take(iv@.len() as int) =~= iv.deep_view());
    }
    let mut c = String::from_str("(");
    c.append(acc.as_str());
    c.append(")");
    proof {
        assert(c@ =~= spec_ids_component(iv.deep_view()).0);
    }
    c
}

proof fn lemma_kind_strs_len(ks: Seq<int>)
    ensures
        spec_kind_strs(ks).len() == ks.len(),
    decreases ks.len(),
{
    if ks.len() > 0 {
        lemma_kind_strs_len(ks.drop_last());
    }
}

fn kinds_section(ks: &Vec<u64>) -> (c: String)
    ensures
        c@ == spec_kinds_component(crate::subscription::kind_models(ks@)),
{
    let ghost km = crate::subscription::kind_models(ks@);
    let mut acc = String::new();
    let mut i: usize = 0;
    while i < ks.len()
        invariant
            i <= ks.len(),
            km == crate::subscription::kind_models(ks@),
            km.len() == ks@.len(),
            acc@ == spec_join(spec_kind_strs(km.take(i as int)), ", "@),
        decreases ks.len() - i,
    {
        proof {
            assert(km[i as int] == ks@[i as int] as int);
            assert(km.take(i as int + 1).drop_last() =~= km.take(i as int));
            assert(km.take(i as int + 1).last() == km[i as int]);
        }
        if i > 0 {
            acc.append(", ");
        }
        let ghost strs_pre = spec_kind_strs(km.take(i as int));
        push_u64_dec(&mut acc, ks[i]);
        proof {
            lemma_join_push(strs_pre, spec_u64_dec(ks@[i as int] as nat), ", "@);
            lemma_kind_strs_len(km.take(i as int));
            assert(strs_pre.len() == i);
            assert(spec_kind_strs(km.take(i as int + 1)) == strs_pre.push(
                spec_u64_dec(km[i as int] as nat),
            ));
            assert(acc@ =~= spec_join(spec_kind_strs(km.take(i as int + 1)), ", "@));
        }
        i += 1;
    }
    proof {
        assert(km.take(km.len() as int) =~= km);
    }
    let mut c = String::from_str("kind IN (");
    c.append(acc.as_str());
    c.append(")");
    proof {
        assert(c@ =~= spec_kinds_component(km));
    }
    c
}

fn tag_component(q: &TagQuery, params: &mut Vec<SqlParam>) -> (c: String)
    ensures
        c@ == spec_tag_component(q@).0,
        sql_param_models(final(params)@) == sql_param_models(old(params)@) + spec_tag_component(
            q@,
        ).1,
{
    let ghost base = sql_param_models(params@);
    let mut strs: Vec<String> = Vec::new();
    let mut blobs: Vec<Vec<u8>> = Vec::new();
    let mut i: usize = 0;
    while i < q.values.len()
        invariant
            i <= q.values.len(),
            q@.values.len() == q.values.len(),
            (strs.deep_view(), blobs.deep_view()) == spec_split_values(q@.values.take(i as int)),
        decreases q.values.len() - i,
    {
        proof {
            assert(q@.values[i as int] == q.values@[i as int]@);
            assert(q@.values.take(i as int + 1).drop_last() =~= q@.values.take(i as int));
            assert(q@.values.take(i as int + 1).last() == q@.values[i as int]);
        }
        let v = &q.values[i];
        let ghost strs_pre = strs.deep_view();
        let ghost blobs_pre = blobs.deep_view();
        if v.unicode_len() % 2 == 0 && is_lower_hex(v.as_str()) {
            proof {
                assert forall|k: int|
                    0 <= k < v@.len() implies crate::hexutil::is_hex_digit(#[trigger] v@[k]) by {
                    assert(crate::hexutil::is_lower_hex_digit(v@[k]));
                }
                assert(spec_hex_decodable(v@));
            }
            match hex_decode(v.as_str()) {
                Some(b) => {
                    blobs.push(b);
                    proof {
                        assert(blobs@.last().deep_view() =~= blobs@.last()@);
                        assert(blobs.deep_view() =~= blobs_pre.push(blobs@.last()@));
                        assert(strs.deep_view() =~= strs_pre);
                    }
                },
                None => {
                    proof {
                        assert(false);
                    }
                },
            }
        } else {
            strs.push(v.clone());
            proof {
                assert(strs.deep_view() =~= strs_pre.push(strs@.last()@));
                assert(blobs.deep_view() =~= blobs_pre);
            }
        }
        i += 1;
    }
    proof {
        assert(q@.values.take(q@.values.len() as int) =~= q@.values);
    }
    let ghost sv = spec_split_values(q@.values);
    let mut c = String::from_str(
        "e.id IN (SELECT e.id FROM event e LEFT JOIN tag t on e.id=t.event_id WHERE hidden!=TRUE and (name=? AND (value IN (",
    );
    let rv_strs = repeat_vars(strs.len());
    c.append(rv_strs.as_str());
    c.append(") OR value_hex IN (");
    let rv_blobs = repeat_vars(blobs.len());
    c.append(rv_blobs.as_str());
    c.append("))))");
    proof {
        assert(strs.deep_view().len() == strs@.len());
        assert(blobs.deep_view().len() == blobs@.len());
        assert(c@ =~= spec_tag_component(q@).0);
    }
    push_param(params, SqlParam::Text(char_to_string(q.name)));
    proof {
        assert(strs.deep_view().take(0) =~= Seq::<Seq<char>>::empty());
        assert(base.push(SqlParamModel::Text(seq![q@.name])) =~= base + seq![
            SqlParamModel::Text(seq![q@.name]),
        ] + spec_text_params(strs.deep_view().take(0)));
    }
    let mut si: usize = 0;
    while si < strs.len()
        invariant
            si <= strs.len(),
            strs.deep_view() == spec_split_values(q@.values).0,
            sql_param_models(params@) == base + seq![SqlParamModel::Text(seq![q@.name])]
                + spec_text_params(strs.deep_view().take(si as int)),
        decreases strs.len() - si,
    {
        proof {
            assert(strs.deep_view()[si as int] == strs@[si as int]@);
            assert(strs.deep_view().take(si as int + 1).drop_last() =~= strs.deep_view().take(
                si as int,
            ));
            assert(strs.deep_view().take(si as int + 1).last() == strs.deep_view()[si as int]);
        }
        push_param(params, SqlParam::Text(strs[si].clone()));
        proof {
            assert(sql_param_models(params@) =~= base + seq![SqlParamModel::Text(seq![q@.name])]
                + spec_text_params(strs.deep_view().take(si as int + 1)));
        }
        si += 1;
    }
    proof {
        assert(strs.deep_view().take(strs@.len() as int) =~= strs.deep_view());
        assert(blobs.deep_view().take(0) =~= Seq::<Seq<u8>>::empty());
        assert(base + seq![SqlParamModel::Text(seq![q@.name])] + spec_text_params(
            strs.deep_view(),
        ) + spec_blob_params(blobs.deep_view().take(0)) =~= base + seq![
            SqlParamModel::Text(seq![q@.name]),
        ] + spec_text_params(strs.deep_view()));
    }
    let mut bi: usize = 0;
    while bi < blobs.len()
        invariant
            bi <= blobs.len(),
            strs.deep_view() == spec_split_values(q@.values).0,
            blobs.deep_view() == spec_split_values(q@.values).1,
            sql_param_models(params@) == base + seq![SqlParamModel::Text(seq![q@.name])]
                + spec_text_params(strs.deep_view()) + spec_blob_params(
                blobs.deep_view().take(bi as int),
            ),
        decreases blobs.len() - bi,
    {
        proof {
            assert(blobs@[bi as int].deep_view() =~= blobs@[bi as int]@);
            assert(blobs.deep_view()[bi as int] == blobs@[bi as int]@);
            assert(blobs.deep_view().take(bi as int + 1).drop_last() =~= blobs.deep_view().take(
                bi as int,
            ));
            assert(blobs.deep_view().take(bi as int + 1).last() == blobs.deep_view()[bi as int]);
        }
        push_param(params, SqlParam::Blob(copy_bytes(&blobs[bi])));
        proof {
            assert(sql_param_models(params@) =~= base + seq![SqlParamModel::Text(seq![q@.name])]
                + spec_text_params(strs.deep_view()) + spec_blob_params(
                blobs.deep_view().take(bi as int + 1),
            ));
        }
        bi += 1;
    }
    proof {
        assert(strs.deep_view().take(strs@.len() as int) =~= strs.deep_view());
        assert(blobs.deep_view().take(blobs@.len() as int) =~= blobs.deep_view());
        assert(sql_param_models(params@) =~= base + spec_tag_component(q@).1);
    }
    c
}

} // verus!

verus! {

fn push_comp(comps: &mut Vec<String>, c: String)
    ensures
        str_models(final(comps)@) == str_models(old(comps)@).push(c@),
{
    let ghost pre = comps@;
    comps.push(c);
    proof {
        lemma_str_models_push(pre, comps@.last());
        assert(comps@ == pre.push(comps@.last()));
    }
}

/// Compile one filter into its SQL subquery and parameter list.
#[verifier::rlimit(100)]
pub fn query_from_filter(f: &ReqFilter) -> (r: (String, Vec<SqlParam>))
    ensures
        r.0@ == spec_query_from_filter(f@).0,
        sql_param_models(r.1@) == spec_query_from_filter(f@).1,
{
    let ghost fm = f@;
    if f.force_no_match {
        let q = String::from_str("SELECT e.content, e.created_at FROM event e WHERE 1=0");
        let params: Vec<SqlParam> = Vec::new();
        proof {
            assert(sql_param_models(params@) =~= Seq::<SqlParamModel>::empty());
        }
        return (q, params);
    }
    let mut comps: Vec<String> = Vec::new();
    let mut params: Vec<SqlParam> = Vec::new();
    let ghost a: (Seq<Seq<char>>, Seq<SqlParamModel>) = match fm.authors {
        None => (Seq::<Seq<char>>::empty(), Seq::<SqlParamModel>::empty()),
        Some(av) => (seq![spec_authors_component(av).0], spec_authors_component(av).1),
    };
    proof {
        assert(str_models(comps@) =~= Seq::<Seq<char>>::empty());
        assert(sql_param_models(params@) =~= Seq::<SqlParamModel>::empty());
    }
    match &f.authors {
        Some(av) => {
            let c = authors_section(av, &mut params);
            push_comp(&mut comps, c);
            proof {
                assert(fm.authors == Some(av.deep_view()));
                assert(str_models(comps@) =~= a.0);
                assert(sql_param_models(params@) =~= a.1);
            }
        },
        None => {
            proof {
                assert(str_models(comps@) =~= a.0);
                assert(sql_param_models(params@) =~= a.1);
            }
        },
    }
    let ghost k: Seq<Seq<char>> = match fm.kinds {
        None => Seq::<Seq<char>>::empty(),
        Some(ks) => seq![spec_kinds_component(ks)],
    };
    match &f.kinds {
        Some(ks) => {
            let c = kinds_section(ks);
            push_comp(&mut comps, c);
            proof {
                assert(fm.kinds == Some(crate::subscription::kind_models(ks@)));
                assert(str_models(comps@) =~= a.0 + k);
            }
        },
        None => {
            proof {
                assert(str_models(comps@) =~= a.0 + k);
            }
        },
    }
    let ghost idc: (Seq<Seq<char>>, Seq<SqlParamModel>) = match fm.ids {
        None => (Seq::<Seq<char>>::empty(), Seq::<SqlParamModel>::empty()),
        Some(iv) => (seq![spec_ids_component(iv).0], spec_ids_component(iv).1),
    };
    match &f.ids {
        Some(iv) => {
            let c = ids_section(iv, &mut params);
            push_comp(&mut comps, c);
            proof {
                assert(fm.ids == Some(iv.deep_view()));
                assert(str_models(comps@) =~= a.0 + k + idc.0);
                assert(sql_param_models(params@) =~= a.1 + idc.1);
            }
        },
        None => {
            proof {
                assert(str_models(comps@) =~= a.0 + k + idc.0);
                assert(sql_param_models(params@) =~= a.1 + idc.1);
            }
        },
    }
    let ghost t: (Seq<Seq<char>>, Seq<SqlParamModel>) = match fm.tags {
        None => (Seq::<Seq<char>>::empty(), Seq::<SqlParamModel>::empty()),
        Some(qs) => spec_tag_components(qs),
    };
    match &f.tags {
        Some(qs) => {
            let ghost tq = crate::subscription::tag_query_models(qs@);
            let ghost comps_base = str_models(comps@);
            let ghost params_base = sql_param_models(params@);
            proof {
                assert(comps_base + spec_tag_components(tq.take(0)).0 =~= comps_base);
                assert(params_base + spec_tag_components(tq.take(0)).1 =~= params_base);
            }
            let mut ti: usize = 0;
            while ti < qs.len()
                invariant
                    ti <= qs.len(),
                    tq == crate::subscription::tag_query_models(qs@),
                    tq.len() == qs@.len(),
                    str_models(comps@) == comps_base + spec_tag_components(tq.take(ti as int)).0,
                    sql_param_models(params@) == params_base + spec_tag_components(
                        tq.take(ti as int),
                    ).1,
                decreases qs.len() - ti,
            {
                proof {
                    assert(tq[ti as int] == qs@[ti as int]@);
                    assert(tq.take(ti as int + 1).drop_last() =~= tq.take(ti as int));
                    assert(tq.take(ti as int + 1).last() == tq[ti as int]);
                }
                let c = tag_component(&qs[ti], &mut params);
                push_comp(&mut comps, c);
                proof {
                    assert(str_models(comps@) =~= comps_base + spec_tag_components(
                        tq.take(ti as int + 1),
                    ).0);
                    assert(sql_param_models(params@) =~= params_base + spec_tag_components(
                        tq.take(ti as int + 1),
                    ).1);
                }
                ti += 1;
            }
            proof {
                assert(tq.take(qs@.len() as int) =~= tq);
                assert(fm.tags == Some(tq));
                assert(str_models(comps@) =~= a.0 + k + idc.0 + t.0);
                assert(sql_param_models(params@) =~= a.1 + idc.1 + t.1);
            }
        },
        None => {
            proof {
                assert(str_models(comps@) =~= a.0 + k + idc.0 + t.0);
                assert(sql_param_models(params@) =~= a.1 + idc.1 + t.1);
            }
        },
    }
    let ghost sc: Seq<Seq<char>> = match fm.since {
        None => Seq::<Seq<char>>::empty(),
        Some(ts) => seq!["created_at > "@ + spec_i64_dec(ts)],
    };
    match f.since {
        Some(ts) => {
            let mut c = String::from_str("created_at > ");
            push_i64_dec(&mut c, ts);
            push_comp(&mut comps, c);
            proof {
                assert(str_models(comps@) =~= a.0 + k + idc.0 + t.0 + sc);
            }
        },
        None => {
            proof {
                assert(str_models(comps@) =~= a.0 + k + idc.0 + t.0 + sc);
            }
        },
    }
    let ghost uc: Seq<Seq<char>> = match fm.until {
        None => Seq::<Seq<char>>::empty(),
        Some(tu) => seq!["created_at < "@ + spec_i64_dec(tu)],
    };
    match f.until {
        Some(tu) => {
            let mut c = String::from_str("created_at < ");
            push_i64_dec(&mut c, tu);
            push_comp(&mut comps, c);
            proof {
                assert(str_models(comps@) =~= a.0 + k + idc.0 + t.0 + sc + uc);
            }
        },
        None => {
            proof {
                assert(str_models(comps@) =~= a.0 + k + idc.0 + t.0 + sc + uc);
            }
        },
    }
    let ghost parts = spec_filter_parts(fm);
    proof {
        assert(str_models(comps@) =~= parts.0);
        assert(sql_param_models(params@) =~= parts.1);
    }
    let ghost cm = str_models(comps@);
    let mut query = String::from_str("SELECT e.content, e.created_at FROM event e");
    query.append(" WHERE hidden!=TRUE");
    let ghost head = query@;
    if comps.len() > 0 {
        query.append(" AND ");
        let ghost head2 = query@;
        proof {
            assert(head2 + spec_join(cm.take(0), " AND "@) =~= head2);
        }
        let mut kx: usize = 0;
        while kx < comps.len()
            invariant
                kx <= comps.len(),
                cm == str_models(comps@),
                cm.len() == comps@.len(),
                query@ == head2 + spec_join(cm.take(kx as int), " AND "@),
            decreases comps.len() - kx,
        {
            proof {
                assert(cm[kx as int] == comps@[kx as int]@);
                assert(cm.take(kx as int + 1).drop_last() =~= cm.take(kx as int));
                assert(cm.take(kx as int + 1).last() == cm[kx as int]);
            }
            if kx > 0 {
                query.append(" AND ");
            }
            let ghost cs_pre = cm.take(kx as int);
            query.append(comps[kx].as_str());
            proof {
                lemma_join_push(cs_pre, cm[kx as int], " AND "@);
                assert(cs_pre.len() == kx);
                assert(cm.take(kx as int + 1) == cs_pre.push(cm[kx as int]));
                assert(query@ =~= head2 + spec_join(cm.take(kx as int + 1), " AND "@));
            }
            kx += 1;
        }
        proof {
            assert(cm.take(comps@.len() as int) =~= cm);
            assert(query@ =~= head + (" AND "@ + spec_join(parts.0, " AND "@)));
        }
    }
    match f.limit {
        Some(l) => {
            query.append(" ORDER BY e.created_at DESC LIMIT ");
            push_u64_dec(&mut query, l);
        },
        None => {
            query.append(" ORDER BY e.created_at ASC");
        },
    }
    proof {
        assert(query@ =~= spec_query_from_filter(fm).0);
    }
    (query, params)
}

/// The wrapped subquery of each filter, and the concatenated parameters.
pub open spec fn spec_sub_selects(fs: Seq<ReqFilterModel>) -> (Seq<Seq<char>>, Seq<SqlParamModel>)
    decreases fs.len(),
{
    if fs.len() == 0 {
        (Seq::empty(), Seq::empty())
    } else {
        let r = spec_sub_selects(fs.drop_last());
        let q = spec_query_from_filter(fs.last());
        (
            r.0.push("SELECT distinct content, created_at FROM ("@ + q.0 + ")"@),
            r.1 + q.1,
        )
    }
}

/// The SQL for a whole subscription: each filter's subquery wrapped in
/// a distinct select, the selects UNION-combined.
pub open spec fn spec_query_from_sub(s: crate::subscription::SubscriptionModel) -> (Seq<char>, Seq<
    SqlParamModel,
>) {
    let r = spec_sub_selects(s.filters);
    (spec_join(r.0, " UNION "@), r.1)
}

/// Compile a subscription into one SQL statement and parameter list.
pub fn query_from_sub(sub: &Subscription) -> (r: (String, Vec<SqlParam>))
    ensures
        r.0@ == spec_query_from_sub(sub@).0,
        sql_param_models(r.1@) == spec_query_from_sub(sub@).1,
{
    let ghost fms = crate::subscription::filter_models(sub.filters@);
    let mut query = String::new();
    let mut params: Vec<SqlParam> = Vec::new();
    let ghost mut cs: Seq<Seq<char>> = Seq::empty();
    proof {
        assert(sql_param_models(params@) =~= Seq::<SqlParamModel>::empty());
        assert(spec_sub_selects(fms.take(0)).0 =~= Seq::<Seq<char>>::empty());
        assert(spec_sub_selects(fms.take(0)).1 =~= Seq::<SqlParamModel>::empty());
    }
    let mut i: usize = 0;
    while i < sub.filters.len()
        invariant
            i <= sub.filters.len(),
            fms == crate::subscription::filter_models(sub.filters@),
            fms.len() == sub.filters@.len(),
            cs == spec_sub_selects(fms.take(i as int)).0,
            sql_param_models(params@) == spec_sub_selects(fms.take(i as int)).1,
            query@ == spec_join(cs, " UNION "@),
            cs.len() == i,
        decreases sub.filters.len() - i,
    {
        proof {
            assert(fms[i as int] == sub.filters@[i as int]@);
            assert(fms.take(i as int + 1).drop_last() =~= fms.take(i as int));
            assert(fms.take(i as int + 1).last() == fms[i as int]);
        }
        let (fq, mut fp) = query_from_filter(&sub.filters[i]);
        let mut sel = String::from_str("SELECT distinct content, created_at FROM (");
        sel.append(fq.as_str());
        sel.append(")");
        if i > 0 {
            query.append(" UNION ");
        }
        let ghost cs_pre = cs;
        let ghost params_pre = sql_param_models(params@);
        let ghost fp_m = sql_param_models(fp@);
        query.append(sel.as_str());
        params.append(&mut fp);
        proof {
            cs = cs.push(sel@);
            lemma_join_push(cs_pre, sel@, " UNION "@);
            assert(query@ =~= spec_join(cs, " UNION "@));
            lemma_spm_concat(params@.take(params_pre.len() as int), params@.skip(
                params_pre.len() as int,
            ));
            assert(sql_param_models(params@) =~= params_pre + fp_m);
            assert(sel@ =~= "SELECT distinct content, created_at FROM ("@ + spec_query_from_filter(
                fms[i as int],
            ).0 + ")"@);
            assert(cs =~= spec_sub_selects(fms.take(i as int + 1)).0);
            assert(sql_param_models(params@) =~= spec_sub_selects(fms.take(i as int + 1)).1);
        }
        i += 1;
    }
    proof {
        assert(fms.take(sub.filters@.len() as int) =~= fms);
        assert(sub@.filters == fms);
    }
    (query, params)
}

} // verus!
