//! Events: the signed records clients publish, their kind policy, and
//! the tag rows extracted from them for indexing.
use vstd::prelude::*;

use crate::hexutil::{
    hex_decode, is_lower_hex, spec_hex_decodable, spec_hex_decode, spec_is_hex, spec_is_lower_hex,
};

verus! {

/// A published event, fields as they appear on the wire.
pub struct Event {
    /// Content hash, 64 lowercase hex characters.
    pub id: String,
    /// Author key, 64 lowercase hex characters.
    pub pubkey: String,
    /// Delegator key when the event was published on another key's behalf.
    pub delegated_by: Option<String>,
    /// Author timestamp, seconds since the epoch.
    pub created_at: i64,
    /// Event category; drives the persistence policy.
    pub kind: u64,
    /// Ordered list of tags; each tag is a list of strings whose first
    /// entry names the tag.
    pub tags: Vec<Vec<String>>,
    /// Opaque payload.
    pub content: String,
    /// Signature, 128 hex characters.
    pub sig: String,
}

/// Mathematical image of an `Event`.
pub struct EventModel {
    pub id: Seq<char>,
    pub pubkey: Seq<char>,
    pub delegated_by: Option<Seq<char>>,
    pub created_at: int,
    pub kind: int,
    pub tags: Seq<Seq<Seq<char>>>,
    pub content: Seq<char>,
    pub sig: Seq<char>,
}

impl View for Event {
    type V = EventModel;

    open spec fn view(&self) -> EventModel {
        EventModel {
            id: self.id@,
            pubkey: self.pubkey@,
            delegated_by: match self.delegated_by {
                Some(d) => Some(d@),
                None => None,
            },
            created_at: self.created_at as int,
            kind: self.kind as int,
            tags: self.tags.deep_view(),
            content: self.content@,
            sig: self.sig@,
        }
    }
}

impl EventModel {
    /// Broadcast only, never stored, never replayed.
    pub open spec fn is_ephemeral(&self) -> bool {
        20000 <= self.kind < 30000
    }

    /// Persisted and additionally forwarded to the identity verifier.
    pub open spec fn is_metadata(&self) -> bool {
        self.kind == 0
    }

    /// Only the latest per (author, kind) stays observable.
    pub open spec fn is_replaceable(&self) -> bool {
        self.kind == 0 || self.kind == 3 || (10000 <= self.kind < 20000)
    }

    /// Structural validity of the wire form: hex fields have their
    /// required lengths and case.
    pub open spec fn wf(&self) -> bool {
        &&& self.id.len() == 64
        &&& spec_is_lower_hex(self.id)
        &&& self.pubkey.len() == 64
        &&& spec_is_lower_hex(self.pubkey)
        &&& self.sig.len() == 128
        &&& spec_is_hex(self.sig)
        &&& match self.delegated_by {
            Some(d) => d.len() == 64 && spec_is_lower_hex(d),
            None => true,
        }
    }
}

impl Event {
    /// Whether the event's kind lies in the ephemeral range.
    pub fn is_ephemeral(&self) -> (r: bool)
        ensures
            r == self@.is_ephemeral(),
    {
        20000 <= self.kind && self.kind < 30000
    }

    /// Whether the event is a metadata event.
    pub fn is_kind_metadata(&self) -> (r: bool)
        ensures
            r == self@.is_metadata(),
    {
        self.kind == 0
    }

    /// Whether the event's kind keeps only the latest per (author, kind).
    pub fn is_replaceable(&self) -> (r: bool)
        ensures
            r == self@.is_replaceable(),
    {
        self.kind == 0 || self.kind == 3 || (10000 <= self.kind && self.kind < 20000)
    }

    /// Structural validation of the wire form; the signature itself is
    /// checked by an outside validator.
    pub fn validate_structure(&self) -> (r: bool)
        ensures
            r == self@.wf(),
    {
        if !(self.id.unicode_len() == 64 && is_lower_hex(self.id.as_str())) {
            return false;
        }
        if !(self.pubkey.unicode_len() == 64 && is_lower_hex(self.pubkey.as_str())) {
            return false;
        }
        if !(self.sig.unicode_len() == 128 && crate::hexutil::is_hex(self.sig.as_str())) {
            return false;
        }
        match &self.delegated_by {
            Some(d) => d.unicode_len() == 64 && is_lower_hex(d.as_str()),
            None => true,
        }
    }
}

/// The tag name when it is a single character; names longer than one
/// character are stored but never indexed.
pub fn single_char_tagname(tagname: &str) -> (r: Option<char>)
    ensures
        r == spec_single_char_tagname(tagname@),
{
    if tagname.unicode_len() == 1 {
        Some(tagname.get_char(0))
    } else {
        None
    }
}

/// The single-character tag name, when there is one.
pub open spec fn spec_single_char_tagname(name: Seq<char>) -> Option<char> {
    if name.len() == 1 {
        Some(name[0])
    } else {
        None
    }
}

/// An index row extracted from one tag of an event: the value is kept
/// as raw bytes when it reads as even-length lowercase hex, and as
/// text otherwise.
pub enum TagValue {
    Text(String),
    Hex(Vec<u8>),
}

/// Mathematical image of a `TagValue`.
pub enum TagValueModel {
    Text(Seq<char>),
    Hex(Seq<u8>),
}

impl View for TagValue {
    type V = TagValueModel;

    open spec fn view(&self) -> TagValueModel {
        match self {
            TagValue::Text(s) => TagValueModel::Text(s@),
            TagValue::Hex(b) => TagValueModel::Hex(b@),
        }
    }
}

/// One row of the tag index: a single-character name and the stored form
/// of the tag's value.
pub struct TagRow {
    pub name: char,
    pub value: TagValue,
}

/// Mathematical image of a `TagRow`.
pub struct TagRowModel {
    pub name: char,
    pub value: TagValueModel,
}

impl View for TagRow {
    type V = TagRowModel;

    open spec fn view(&self) -> TagRowModel {
        TagRowModel { name: self.name, value: self.value@ }
    }
}

/// The stored form of one tag value.
pub open spec fn spec_stored_tag_value(v: Seq<char>) -> TagValueModel {
    if spec_hex_decodable(v) && spec_is_lower_hex(v) {
        TagValueModel::Hex(spec_hex_decode(v))
    } else {
        TagValueModel::Text(v)
    }
}

/// The index row for one tag, when the tag is indexed at all: it must
/// carry a value and have a single-character name.
pub open spec fn spec_tag_row(tag: Seq<Seq<char>>) -> Option<TagRowModel> {
    if tag.len() > 1 && tag[0].len() == 1 {
        Some(TagRowModel { name: tag[0][0], value: spec_stored_tag_value(tag[1]) })
    } else {
        None
    }
}

/// The index rows of an event's tags, in tag order.
pub open spec fn spec_index_tags(tags: Seq<Seq<Seq<char>>>) -> Seq<TagRowModel>
    decreases tags.len(),
{
    if tags.len() == 0 {
        Seq::empty()
    } else {
        let rest = spec_index_tags(tags.drop_last());
        match spec_tag_row(tags.last()) {
            Some(row) => rest.push(row),
            None => rest,
        }
    }
}

/// The stored form of one tag value string.
pub fn stored_tag_value(v: &String) -> (r: TagValue)
    ensures
        r@ == spec_stored_tag_value(v@),
{
    if v.unicode_len() % 2 == 0 && is_lower_hex(v.as_str()) {
        proof {
            assert(spec_is_hex(v@)) by {
                assert(forall|i: int|
                    0 <= i < v@.len() ==> crate::hexutil::is_lower_hex_digit(#[trigger] v@[i])
                        ==> crate::hexutil::is_hex_digit(v@[i]));
            }
        }
        match hex_decode(v.as_str()) {
            Some(b) => TagValue::Hex(b),
            None => {
                proof {
                    assert(false);
                }
                TagValue::Text(String::new())
            },
        }
    } else {
        TagValue::Text(v.clone())
    }
}

/// The models of a sequence of extracted tag rows.
pub open spec fn tag_rows_model(rows: Seq<TagRow>) -> Seq<TagRowModel> {
    rows.map_values(|r: TagRow| r@)
}

proof fn lemma_tag_rows_model_push(s: Seq<TagRow>, x: TagRow)
    ensures
        tag_rows_model(s.push(x)) == tag_rows_model(s).push(x@),
{
    assert(tag_rows_model(s.push(x)) =~= tag_rows_model(s).push(x@));
}

/// Extract the index rows of an event's tags: tags that carry a value
/// under a single-character name, the value stored as bytes when it is
/// even-length lowercase hex and as text otherwise.
pub fn index_tags(ev: &Event) -> (rows: Vec<TagRow>)
    ensures
        tag_rows_model(rows@) == spec_index_tags(ev@.tags),
{
    let mut rows: Vec<TagRow> = Vec::new();
    let mut i: usize = 0;
    while i < ev.tags.len()
        invariant
            i <= ev.tags.len(),
            ev@.tags.len() == ev.tags.len(),
            tag_rows_model(rows@) =~= spec_index_tags(ev@.tags.take(i as int)),
        decreases ev.tags.len() - i,
    {
        let tag = &ev.tags[i];
        proof {
            assert(ev@.tags[i as int] == tag.deep_view());
            assert(ev@.tags.take(i as int + 1).drop_last() =~= ev@.tags.take(i as int));
            assert(ev@.tags.take(i as int + 1).last() == ev@.tags[i as int]);
        }
        if tag.len() > 1 {
            let name_opt = single_char_tagname(tag[0].as_str());
            match name_opt {
                Some(name) => {
                    let value = stored_tag_value(&tag[1]);
                    proof {
                        assert(tag.deep_view()[0] == tag@[0]@);
                        assert(tag.deep_view()[1] == tag@[1]@);
                    }
                    let row = TagRow { name, value };
                    let ghost rows_pre = rows@;
                    let ghost row_model = row@;
                    rows.push(row);
                    proof {
                        assert(rows@ == rows_pre.push(row));
                        lemma_tag_rows_model_push(rows_pre, row);
                        assert(spec_tag_row(ev@.tags[i as int]) == Some(row_model));
                        assert(spec_index_tags(ev@.tags.take(i as int + 1)) == spec_index_tags(
                            ev@.tags.take(i as int),
                        ).push(row_model));
                    }
                },
                None => {
                    proof {
                        assert(tag.deep_view()[0] == tag@[0]@);
                        assert(spec_tag_row(ev@.tags[i as int]) is None);
                    }
                },
            }
        } else {
            proof {
                assert(spec_tag_row(ev@.tags[i as int]) is None);
            }
        }
        i += 1;
    }
    proof {
        assert(ev@.tags.take(ev@.tags.len() as int) =~= ev@.tags);
    }
    rows
}

} // verus!


verus! {

/// Law: the tag index stores an even-length lowercase hex value as its
/// bytes, and matching through that blob column agrees exactly with
/// matching the text: the stored forms of two such values coincide
/// exactly when the values do. An event with such a tag value is
/// therefore retrievable by the value and by its decoded-bytes
/// rendering alike.
pub proof fn lemma_tag_value_blob_faithful(c: Seq<char>, v: Seq<char>)
    requires
        spec_hex_decodable(c),
        spec_is_lower_hex(c),
        spec_hex_decodable(v),
        spec_is_lower_hex(v),
    ensures
        (spec_stored_tag_value(c) == spec_stored_tag_value(v)) <==> (c == v),
{
    if spec_stored_tag_value(c) == spec_stored_tag_value(v) {
        crate::hexutil::lemma_hex_decode_injective(c, v);
    }
}

} // verus!
