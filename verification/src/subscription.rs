//! Subscriptions and filters, and the matching semantics shared by the
//! query compiler and the live broadcast path.
use vstd::prelude::*;

use crate::event::{Event, EventModel};

verus! {

/// One `#x` entry of a filter: a single-character tag name and the
/// candidate values, any of which matches.
pub struct TagQuery {
    pub name: char,
    pub values: Vec<String>,
}

/// Mathematical image of a `TagQuery`.
pub struct TagQueryModel {
    pub name: char,
    pub values: Seq<Seq<char>>,
}

impl View for TagQuery {
    type V = TagQueryModel;

    open spec fn view(&self) -> TagQueryModel {
        TagQueryModel { name: self.name, values: self.values.deep_view() }
    }
}

/// A filter: a conjunction of optional predicates over event fields.
/// A missing option means "no constraint"; an empty filter matches all.
pub struct ReqFilter {
    /// Hex prefixes on the event id; match if any prefix matches.
    pub ids: Option<Vec<String>>,
    /// Kind numbers; match by equality with any.
    pub kinds: Option<Vec<u64>>,
    /// Lower exclusive bound on `created_at`.
    pub since: Option<i64>,
    /// Upper exclusive bound on `created_at`.
    pub until: Option<i64>,
    /// Hex prefixes on the author key or the delegator key.
    pub authors: Option<Vec<String>>,
    /// Maximum result count; implies newest-first replay.
    pub limit: Option<u64>,
    /// Tag conditions, all of which must hold. The wire form is a JSON
    /// object, so it yields at most one entry per tag name; a repeated
    /// name here is harmless, its conditions simply conjoin.
    pub tags: Option<Vec<TagQuery>>,
    /// Sentinel for a malformed filter: matches nothing.
    pub force_no_match: bool,
}

/// Mathematical image of a `ReqFilter`.
pub struct ReqFilterModel {
    pub ids: Option<Seq<Seq<char>>>,
    pub kinds: Option<Seq<int>>,
    pub since: Option<int>,
    pub until: Option<int>,
    pub authors: Option<Seq<Seq<char>>>,
    pub limit: Option<int>,
    pub tags: Option<Seq<TagQueryModel>>,
    pub force_no_match: bool,
}

impl View for ReqFilter {
    type V = ReqFilterModel;

    open spec fn view(&self) -> ReqFilterModel {
        ReqFilterModel {
            ids: match self.ids {
                Some(v) => Some(v.deep_view()),
                None => None,
            },
            kinds: match self.kinds {
                Some(v) => Some(kind_models(v@)),
                None => None,
            },
            since: match self.since {
                Some(t) => Some(t as int),
                None => None,
            },
            until: match self.until {
                Some(t) => Some(t as int),
                None => None,
            },
            authors: match self.authors {
                Some(v) => Some(v.deep_view()),
                None => None,
            },
            limit: match self.limit {
                Some(l) => Some(l as int),
                None => None,
            },
            tags: match self.tags {
                Some(v) => Some(tag_query_models(v@)),
                None => None,
            },
            force_no_match: self.force_no_match,
        }
    }
}

/// A named set of filters; results are the union.
pub struct Subscription {
    pub id: String,
    pub filters: Vec<ReqFilter>,
}

/// Mathematical image of a `Subscription`.
pub struct SubscriptionModel {
    pub id: Seq<char>,
    pub filters: Seq<ReqFilterModel>,
}

impl View for Subscription {
    type V = SubscriptionModel;

    open spec fn view(&self) -> SubscriptionModel {
        SubscriptionModel { id: self.id@, filters: filter_models(self.filters@) }
    }
}

impl Subscription {
    /// The subscription identifier as a fresh string.
    pub fn get_id(&self) -> (r: String)
        ensures
            r@ == self@.id,
    {
        self.id.clone()
    }
}

/// The models of a list of filters.
pub open spec fn filter_models(fs: Seq<ReqFilter>) -> Seq<ReqFilterModel> {
    fs.map_values(|f: ReqFilter| f@)
}

/// The models of a list of tag queries.
pub open spec fn tag_query_models(qs: Seq<TagQuery>) -> Seq<TagQueryModel> {
    qs.map_values(|q: TagQuery| q@)
}

/// Kinds as mathematical integers.
pub open spec fn kind_models(ks: Seq<u64>) -> Seq<int> {
    ks.map_values(|k: u64| k as int)
}

/// `p` is a prefix of `s`.
pub open spec fn spec_starts_with(s: Seq<char>, p: Seq<char>) -> bool {
    p.len() <= s.len() && forall|i: int| 0 <= i < p.len() ==> s[i] == #[trigger] p[i]
}

/// Some prefix in the list matches `s`.
pub open spec fn spec_any_prefix(prefixes: Seq<Seq<char>>, s: Seq<char>) -> bool {
    exists|i: int| 0 <= i < prefixes.len() && spec_starts_with(s, #[trigger] prefixes[i])
}

/// The `ids` clause: no constraint, or some prefix matches the id.
pub open spec fn spec_ids_match(f: ReqFilterModel, e: EventModel) -> bool {
    match f.ids {
        None => true,
        Some(ids) => spec_any_prefix(ids, e.id),
    }
}

/// The `authors` clause: some prefix matches the author key or the
/// delegator key.
pub open spec fn spec_authors_match(f: ReqFilterModel, e: EventModel) -> bool {
    match f.authors {
        None => true,
        Some(authors) => spec_any_prefix(authors, e.pubkey) || (match e.delegated_by {
            Some(d) => spec_any_prefix(authors, d),
            None => false,
        }),
    }
}

/// The `kinds` clause: the event's kind is one of the listed kinds.
pub open spec fn spec_kinds_match(f: ReqFilterModel, e: EventModel) -> bool {
    match f.kinds {
        None => true,
        Some(ks) => ks.contains(e.kind),
    }
}

/// The time bounds, both exclusive.
pub open spec fn spec_time_match(f: ReqFilterModel, e: EventModel) -> bool {
    &&& match f.since {
        None => true,
        Some(t) => e.created_at > t,
    }
    &&& match f.until {
        None => true,
        Some(t) => e.created_at < t,
    }
}

/// One tag entry satisfies the tag condition: it carries a value under
/// the queried single-character name, and the value is a candidate.
pub open spec fn spec_tag_entry_matches(q: TagQueryModel, t: Seq<Seq<char>>) -> bool {
    t.len() > 1 && t[0].len() == 1 && t[0][0] == q.name && q.values.contains(t[1])
}

/// One tag condition: some tag entry of the event satisfies it.
pub open spec fn spec_tag_match_one(q: TagQueryModel, tags: Seq<Seq<Seq<char>>>) -> bool {
    exists|i: int| 0 <= i < tags.len() && spec_tag_entry_matches(q, #[trigger] tags[i])
}

/// All tag conditions of the filter hold.
pub open spec fn spec_tags_match(f: ReqFilterModel, e: EventModel) -> bool {
    match f.tags {
        None => true,
        Some(qs) => forall|i: int| 0 <= i < qs.len() ==> spec_tag_match_one(#[trigger] qs[i], e.tags),
    }
}

/// Whether an event satisfies a filter: the conjunction of every
/// present clause, and never for the no-match sentinel.
pub open spec fn spec_filter_matches(f: ReqFilterModel, e: EventModel) -> bool {
    &&& !f.force_no_match
    &&& spec_ids_match(f, e)
    &&& spec_authors_match(f, e)
    &&& spec_kinds_match(f, e)
    &&& spec_time_match(f, e)
    &&& spec_tags_match(f, e)
}

/// Whether an event satisfies any filter of a subscription.
pub open spec fn spec_sub_matches(s: SubscriptionModel, e: EventModel) -> bool {
    exists|i: int| 0 <= i < s.filters.len() && spec_filter_matches(#[trigger] s.filters[i], e)
}

proof fn lemma_not_tags_match(f: ReqFilterModel, e: EventModel, i: int)
    requires
        f.tags is Some,
        0 <= i < f.tags.unwrap().len(),
        !spec_tag_match_one(f.tags.unwrap()[i], e.tags),
    ensures
        !spec_tags_match(f, e),
{
}

proof fn lemma_sub_matches_witness(s: SubscriptionModel, e: EventModel, i: int)
    requires
        0 <= i < s.filters.len(),
        spec_filter_matches(s.filters[i], e),
    ensures
        spec_sub_matches(s, e),
{
}

/// `p` is a prefix of `s`.
pub fn str_starts_with(s: &str, p: &str) -> (r: bool)
    ensures
        r == spec_starts_with(s@, p@),
{
    let pl = p.unicode_len();
    if pl > s.unicode_len() {
        return false;
    }
    let mut i: usize = 0;
    while i < pl
        invariant
            i <= pl,
            pl == p@.len(),
            pl <= s@.len(),
            forall|j: int| 0 <= j < i ==> s@[j] == #[trigger] p@[j],
        decreases pl - i,
    {
        if s.get_char(i) != p.get_char(i) {
            return false;
        }
        i += 1;
    }
    true
}

fn any_prefix(prefixes: &Vec<String>, s: &str) -> (r: bool)
    ensures
        r == spec_any_prefix(prefixes.deep_view(), s@),
{
    let mut i: usize = 0;
    while i < prefixes.len()
        invariant
            i <= prefixes.len(),
            forall|j: int|
                0 <= j < i ==> !spec_starts_with(s@, #[trigger] prefixes.deep_view()[j]),
        decreases prefixes.len() - i,
    {
        if str_starts_with(s, prefixes[i].as_str()) {
            proof {
                assert(prefixes.deep_view()[i as int] == prefixes@[i as int]@);
            }
            return true;
        }
        proof {
            assert(prefixes.deep_view()[i as int] == prefixes@[i as int]@);
        }
        i += 1;
    }
    false
}

fn kind_in(kinds: &Vec<u64>, kind: u64) -> (r: bool)
    ensures
        r == kind_models(kinds@).contains(kind as int),
{
    let ghost mapped = kind_models(kinds@);
    let mut i: usize = 0;
    while i < kinds.len()
        invariant
            i <= kinds.len(),
            mapped == kind_models(kinds@),
            mapped.len() == kinds@.len(),
            forall|j: int| 0 <= j < i ==> #[trigger] mapped[j] != kind as int,
        decreases kinds.len() - i,
    {
        if kinds[i] == kind {
            proof {
                assert(mapped[i as int] == kind as int);
            }
            return true;
        }
        proof {
            assert(mapped[i as int] == kinds@[i as int] as int);
        }
        i += 1;
    }
    proof {
        assert(forall|j: int| 0 <= j < mapped.len() ==> #[trigger] mapped[j] != kind as int);
    }
    false
}

fn value_in(values: &Vec<String>, v: &String) -> (r: bool)
    ensures
        r == values.deep_view().contains(v@),
{
    let mut i: usize = 0;
    while i < values.len()
        invariant
            i <= values.len(),
            forall|j: int| 0 <= j < i ==> #[trigger] values.deep_view()[j] != v@,
        decreases values.len() - i,
    {
        proof {
            assert(values.deep_view()[i as int] == values@[i as int]@);
        }
        if v.eq(&values[i]) {
            proof {
                assert(values.deep_view()[i as int] == v@);
            }
            return true;
        }
        i += 1;
    }
    false
}

fn tag_match_one(q: &TagQuery, ev: &Event) -> (r: bool)
    ensures
        r == spec_tag_match_one(q@, ev@.tags),
{
    let mut i: usize = 0;
    while i < ev.tags.len()
        invariant
            i <= ev.tags.len(),
            ev@.tags.len() == ev.tags.len(),
            forall|j: int|
                0 <= j < i ==> !spec_tag_entry_matches(q@, #[trigger] ev@.tags[j]),
        decreases ev.tags.len() - i,
    {
        let tag = &ev.tags[i];
        proof {
            assert(ev@.tags[i as int] == tag.deep_view());
            assert(tag.deep_view().len() == tag@.len());
        }
        if tag.len() > 1 {
            proof {
                assert(tag.deep_view()[0] == tag@[0]@);
                assert(tag.deep_view()[1] == tag@[1]@);
            }
            match crate::event::single_char_tagname(tag[0].as_str()) {
                Some(name) => {
                    if name == q.name && value_in(&q.values, &tag[1]) {
                        proof {
                            assert(spec_tag_entry_matches(q@, ev@.tags[i as int]));
                        }
                        return true;
                    }
                },
                None => {},
            }
        }
        i += 1;
    }
    false
}

impl ReqFilter {
    /// Whether the event satisfies this filter.
    pub fn matches(&self, ev: &Event) -> (r: bool)
        ensures
            r == spec_filter_matches(self@, ev@),
    {
        if self.force_no_match {
            return false;
        }
        let ids_ok = match &self.ids {
            Some(ids) => any_prefix(ids, ev.id.as_str()),
            None => true,
        };
        if !ids_ok {
            return false;
        }
        let authors_ok = match &self.authors {
            Some(authors) => {
                if any_prefix(authors, ev.pubkey.as_str()) {
                    true
                } else {
                    match &ev.delegated_by {
                        Some(d) => any_prefix(authors, d.as_str()),
                        None => false,
                    }
                }
            },
            None => true,
        };
        if !authors_ok {
            return false;
        }
        let kinds_ok = match &self.kinds {
            Some(ks) => kind_in(ks, ev.kind),
            None => true,
        };
        if !kinds_ok {
            return false;
        }
        let since_ok = match self.since {
            Some(t) => ev.created_at > t,
            None => true,
        };
        if !since_ok {
            return false;
        }
        let until_ok = match self.until {
            Some(t) => ev.created_at < t,
            None => true,
        };
        if !until_ok {
            return false;
        }
        match &self.tags {
            Some(qs) => {
                let ghost qms = tag_query_models(qs@);
                let mut i: usize = 0;
                while i < qs.len()
                    invariant
                        i <= qs.len(),
                        qms == tag_query_models(qs@),
                        qms.len() == qs@.len(),
                        self.tags == Some(*qs),
                        forall|j: int| 0 <= j < i ==> spec_tag_match_one(#[trigger] qms[j], ev@.tags),
                    decreases qs.len() - i,
                {
                    proof {
                        assert(qms[i as int] == qs@[i as int]@);
                    }
                    if !tag_match_one(&qs[i], ev) {
                        proof {
                            assert(!spec_tag_match_one(qms[i as int], ev@.tags));
                            assert(self@.tags == Some(qms));
                            lemma_not_tags_match(self@, ev@, i as int);
                        }
                        return false;
                    }
                    i += 1;
                }
                true
            },
            None => true,
        }
    }
}

impl Subscription {
    /// Whether the event satisfies any filter of this subscription; the
    /// live path uses the same semantics as the query compiler.
    pub fn interested_in_event(&self, ev: &Event) -> (r: bool)
        ensures
            r == spec_sub_matches(self@, ev@),
    {
        let ghost fms = filter_models(self.filters@);
        let mut i: usize = 0;
        while i < self.filters.len()
            invariant
                i <= self.filters.len(),
                fms == filter_models(self.filters@),
                fms.len() == self.filters@.len(),
                forall|j: int| 0 <= j < i ==> !spec_filter_matches(#[trigger] fms[j], ev@),
            decreases self.filters.len() - i,
        {
            proof {
                assert(fms[i as int] == self.filters@[i as int]@);
            }
            if self.filters[i].matches(ev) {
                proof {
                    assert(self@.filters == fms);
                    assert(spec_filter_matches(fms[i as int], ev@));
                    lemma_sub_matches_witness(self@, ev@, i as int);
                }
                return true;
            }
            i += 1;
        }
        false
    }
}

} // verus!
