use relay_core::{
    query_from_filter, query_from_sub, repeat_vars, ReqFilter, SqlParam, Subscription, TagQuery,
};

fn empty_filter() -> ReqFilter {
    ReqFilter {
        ids: None,
        kinds: None,
        since: None,
        until: None,
        authors: None,
        limit: None,
        tags: None,
        force_no_match: false,
    }
}

fn text_param(p: &SqlParam) -> Option<&str> {
    match p {
        SqlParam::Text(s) => Some(s.as_str()),
        SqlParam::Blob(_) => None,
    }
}

fn blob_param(p: &SqlParam) -> Option<&[u8]> {
    match p {
        SqlParam::Blob(b) => Some(b.as_slice()),
        SqlParam::Text(_) => None,
    }
}

#[test]
fn repeat_vars_counts() {
    assert_eq!(repeat_vars(0), "");
    assert_eq!(repeat_vars(1), "?");
    assert_eq!(repeat_vars(3), "?,?,?");
}

#[test]
fn force_no_match_short_circuits() {
    let mut f = empty_filter();
    f.force_no_match = true;
    let (q, p) = query_from_filter(&f);
    assert_eq!(q, "SELECT e.content, e.created_at FROM event e WHERE 1=0");
    assert_eq!(p.len(), 0);
}

#[test]
fn empty_filter_matches_all_oldest_first() {
    let (q, p) = query_from_filter(&empty_filter());
    assert_eq!(
        q,
        "SELECT e.content, e.created_at FROM event e WHERE hidden!=TRUE ORDER BY e.created_at ASC"
    );
    assert_eq!(p.len(), 0);
}

#[test]
fn author_prefix_becomes_range_params() {
    let mut f = empty_filter();
    f.authors = Some(vec!["aa".to_string()]);
    let (q, p) = query_from_filter(&f);
    assert_eq!(
        q,
        "SELECT e.content, e.created_at FROM event e WHERE hidden!=TRUE AND \
         ((author>? AND author<?) OR (delegated_by>? AND delegated_by<?)) \
         ORDER BY e.created_at ASC"
    );
    assert_eq!(p.len(), 4);
    assert_eq!(blob_param(&p[0]), Some(&[0xaau8][..]));
    assert_eq!(blob_param(&p[1]), Some(&[0xabu8][..]));
    assert_eq!(blob_param(&p[2]), Some(&[0xaau8][..]));
    assert_eq!(blob_param(&p[3]), Some(&[0xabu8][..]));
}

#[test]
fn empty_author_list_matches_nothing() {
    let mut f = empty_filter();
    f.authors = Some(vec![]);
    let (q, p) = query_from_filter(&f);
    assert_eq!(
        q,
        "SELECT e.content, e.created_at FROM event e WHERE hidden!=TRUE AND false \
         ORDER BY e.created_at ASC"
    );
    assert_eq!(p.len(), 0);
}

#[test]
fn kinds_are_inlined_integers() {
    let mut f = empty_filter();
    f.kinds = Some(vec![1, 30023]);
    let (q, p) = query_from_filter(&f);
    assert_eq!(
        q,
        "SELECT e.content, e.created_at FROM event e WHERE hidden!=TRUE AND kind IN (1, 30023) \
         ORDER BY e.created_at ASC"
    );
    assert_eq!(p.len(), 0);
}

#[test]
fn time_bounds_and_limit() {
    let mut f = empty_filter();
    f.since = Some(100);
    f.until = Some(200);
    f.limit = Some(1000000);
    let (q, _) = query_from_filter(&f);
    assert_eq!(
        q,
        "SELECT e.content, e.created_at FROM event e WHERE hidden!=TRUE AND created_at > 100 \
         AND created_at < 200 ORDER BY e.created_at DESC LIMIT 1000000"
    );
}

#[test]
fn negative_since_renders_signed() {
    let mut f = empty_filter();
    f.since = Some(-5);
    let (q, _) = query_from_filter(&f);
    assert_eq!(
        q,
        "SELECT e.content, e.created_at FROM event e WHERE hidden!=TRUE AND created_at > -5 \
         ORDER BY e.created_at ASC"
    );
}

#[test]
fn tag_values_split_into_text_and_blob() {
    let mut f = empty_filter();
    f.tags = Some(vec![TagQuery {
        name: 'e',
        values: vec!["abcd".to_string(), "plain".to_string()],
    }]);
    let (q, p) = query_from_filter(&f);
    assert_eq!(
        q,
        "SELECT e.content, e.created_at FROM event e WHERE hidden!=TRUE AND \
         e.id IN (SELECT e.id FROM event e LEFT JOIN tag t on e.id=t.event_id WHERE \
         hidden!=TRUE and (name=? AND (value IN (?) OR value_hex IN (?)))) \
         ORDER BY e.created_at ASC"
    );
    assert_eq!(p.len(), 3);
    assert_eq!(text_param(&p[0]), Some("e"));
    assert_eq!(text_param(&p[1]), Some("plain"));
    assert_eq!(blob_param(&p[2]), Some(&[0xab, 0xcd][..]));
}

#[test]
fn full_id_is_exact_parameter() {
    let mut id = String::from("ab");
    while id.len() < 64 {
        id.push('1');
    }
    let mut f = empty_filter();
    f.ids = Some(vec![id]);
    let (q, p) = query_from_filter(&f);
    assert_eq!(
        q,
        "SELECT e.content, e.created_at FROM event e WHERE hidden!=TRUE AND (event_hash=?) \
         ORDER BY e.created_at ASC"
    );
    assert_eq!(p.len(), 1);
    let blob = blob_param(&p[0]).unwrap();
    assert_eq!(blob.len(), 32);
    assert_eq!(blob[0], 0xab);
    assert_eq!(blob[1], 0x11);
}

#[test]
fn invalid_prefix_is_skipped() {
    let mut f = empty_filter();
    f.ids = Some(vec!["zz".to_string(), "aa".to_string()]);
    let (q, p) = query_from_filter(&f);
    assert_eq!(
        q,
        "SELECT e.content, e.created_at FROM event e WHERE hidden!=TRUE AND \
         ((event_hash>? AND event_hash<?)) ORDER BY e.created_at ASC"
    );
    assert_eq!(p.len(), 2);
}

#[test]
fn subscription_unions_filters() {
    let mut f1 = empty_filter();
    f1.kinds = Some(vec![1]);
    let mut f2 = empty_filter();
    f2.kinds = Some(vec![0]);
    let sub = Subscription { id: "s1".to_string(), filters: vec![f1, f2] };
    let (q, p) = query_from_sub(&sub);
    assert_eq!(
        q,
        "SELECT distinct content, created_at FROM (SELECT e.content, e.created_at FROM event e \
         WHERE hidden!=TRUE AND kind IN (1) ORDER BY e.created_at ASC) UNION \
         SELECT distinct content, created_at FROM (SELECT e.content, e.created_at FROM event e \
         WHERE hidden!=TRUE AND kind IN (0) ORDER BY e.created_at ASC)"
    );
    assert_eq!(p.len(), 0);
}
