//! Typed decoding of response bodies.
//!
//! A response body is a byte sequence. Decoding parses it as UTF-8 text,
//! then as JSON, then maps it structurally onto the target shape; each
//! failing step yields a `DecodeError`. The two supported shapes are the
//! top-stories list and the item record.

use vstd::prelude::*;
use vstd::string::StringSliceAdditionalSpecFns;
use vstd::utf8::decode_utf8;
use vstd::utf8::valid_utf8;

use crate::errors::HNError;
use crate::json::chars_to_string;
use crate::json::decode_raw_item;
use crate::json::decode_top_list;
use crate::json::lemma_top_list_round_trip;
use crate::json::spec_decode_raw_item;
use crate::json::spec_decode_top_list;
use crate::json::spec_encode_top_list;
use crate::json::vec_eq_str;
use crate::json::RawItem;

verus! {

/// The closed enumeration of item kinds.
#[derive(Debug, Clone, Copy, PartialEq, Eq, Structural)]
pub enum HNItemType {
    Job,
    Story,
    Comment,
    Poll,
    PollOpt,
}

/// The kind named by a JSON kind tag. The enumeration is closed: any other
/// tag is rejected.
pub open spec fn spec_kind_of(s: Seq<char>) -> Option<HNItemType> {
    if s == "job"@ {
        Some(HNItemType::Job)
    } else if s == "story"@ {
        Some(HNItemType::Story)
    } else if s == "comment"@ {
        Some(HNItemType::Comment)
    } else if s == "poll"@ {
        Some(HNItemType::Poll)
    } else if s == "pollopt"@ {
        Some(HNItemType::PollOpt)
    } else {
        None
    }
}

/// An item record of the API. The identifier and the kind are required by
/// decoding; author, title and child identifiers default to empty when the
/// response omits them.
#[derive(Debug, PartialEq)]
pub struct HNItem {
    pub id: u64,
    pub by: String,
    pub kids: Vec<u64>,
    pub title: String,
    pub item_type: HNItemType,
}

/// The mathematical content of an `HNItem`.
pub struct ItemView {
    pub id: u64,
    pub by: Seq<char>,
    pub kids: Seq<u64>,
    pub title: Seq<char>,
    pub item_type: HNItemType,
}

impl View for HNItem {
    type V = ItemView;

    open spec fn view(&self) -> ItemView {
        ItemView {
            id: self.id,
            by: self.by@,
            kids: self.kids@,
            title: self.title@,
            item_type: self.item_type,
        }
    }
}

/// The decoded form of an item response body: one JSON object whose `id`
/// and `type` members are required, whose `by`, `title` and `kids` members
/// default to empty when absent, and whose other members are ignored.
pub open spec fn spec_decode_item(v: Seq<char>) -> Option<ItemView> {
    match spec_decode_raw_item(v) {
        None => None,
        Some(raw) => match (raw.id, raw.kind) {
            (Some(id), Some(tag)) => match spec_kind_of(tag) {
                None => None,
                Some(k) => Some(
                    ItemView {
                        id,
                        by: match raw.by {
                            None => Seq::empty(),
                            Some(b) => b,
                        },
                        kids: match raw.kids {
                            None => Seq::empty(),
                            Some(x) => x,
                        },
                        title: match raw.title {
                            None => Seq::empty(),
                            Some(t) => t,
                        },
                        item_type: k,
                    },
                ),
            },
            _ => None,
        },
    }
}

/// A response shape the typed client can decode. `spec_decode` gives the
/// decoded form of a body, `None` standing for a malformed body; `decode`
/// returns exactly that form, with a `DecodeError` for `None`.
pub trait Decode: View + Sized {
    spec fn spec_decode(body: Seq<char>) -> Option<Self::V>;

    fn decode(body: &str) -> (r: Result<Self, HNError>)
        ensures
            match Self::spec_decode(body@) {
                Some(view) => r matches Ok(x) && x@ == view,
                None => r matches Err(e) && e is DecodeError,
            },
    ;
}

impl Decode for Vec<u64> {
    open spec fn spec_decode(body: Seq<char>) -> Option<Seq<u64>> {
        spec_decode_top_list(body)
    }

    fn decode(body: &str) -> (r: Result<Self, HNError>) {
        match decode_top_list(body) {
            Some(ids) => Ok(ids),
            None => Err(
                HNError::DecodeError(
                    "the body is not a JSON array of item identifiers".to_owned(),
                ),
            ),
        }
    }
}

impl Decode for HNItem {
    open spec fn spec_decode(body: Seq<char>) -> Option<ItemView> {
        spec_decode_item(body)
    }

    fn decode(body: &str) -> (r: Result<Self, HNError>) {
        let parts = match decode_raw_item(body) {
            Some(p) => p,
            None => {
                return Err(HNError::DecodeError("the body is not an item object".to_owned()));
            },
        };
        let (id_part, by_part, title_part, kids_part, kind_part) = parts;
        let id = match id_part {
            Some(x) => x,
            None => {
                return Err(HNError::DecodeError("the item has no identifier".to_owned()));
            },
        };
        let tag = match kind_part {
            Some(x) => x,
            None => {
                return Err(HNError::DecodeError("the item has no kind tag".to_owned()));
            },
        };
        let item_type = if vec_eq_str(&tag, "job") {
            HNItemType::Job
        } else if vec_eq_str(&tag, "story") {
            HNItemType::Story
        } else if vec_eq_str(&tag, "comment") {
            HNItemType::Comment
        } else if vec_eq_str(&tag, "poll") {
            HNItemType::Poll
        } else if vec_eq_str(&tag, "pollopt") {
            HNItemType::PollOpt
        } else {
            return Err(HNError::DecodeError("the item kind tag is unknown".to_owned()));
        };
        let by = match by_part {
            Some(cs) => chars_to_string(&cs),
            None => String::new(),
        };
        let title = match title_part {
            Some(cs) => chars_to_string(&cs),
            None => String::new(),
        };
        let kids = match kids_part {
            Some(k) => k,
            None => Vec::new(),
        };
        Ok(HNItem { id, by, kids, title, item_type })
    }
}

/// The decoded form of a raw response body: UTF-8 decoding followed by the
/// shape's own decoding, `None` standing for a body that fails either step.
pub open spec fn spec_decode_bytes<D: Decode>(bytes: Seq<u8>) -> Option<D::V> {
    if valid_utf8(bytes) {
        D::spec_decode(decode_utf8(bytes))
    } else {
        None
    }
}

/// Relies on core::str::from_utf8: it succeeds exactly when the bytes are
/// valid UTF-8, and the string it returns consists of exactly those bytes.
#[verifier::external_body]
pub(crate) fn bytes_to_str(bytes: &[u8]) -> (r: Option<&str>)
    ensures
        r matches Some(s) ==> valid_utf8(bytes@) && s.spec_bytes() == bytes@,
        r is None ==> !valid_utf8(bytes@),
{
    core::str::from_utf8(bytes).ok()
}

/// Decodes a raw response body into the target shape.
pub fn decode_bytes<D: Decode>(bytes: &Vec<u8>) -> (r: Result<D, HNError>)
    ensures
        match spec_decode_bytes::<D>(bytes@) {
            Some(view) => r matches Ok(x) && x@ == view,
            None => r matches Err(e) && e is DecodeError,
        },
{
    match bytes_to_str(bytes.as_slice()) {
        Some(s) => {
            proof {
                vstd::utf8::encode_utf8_decode_utf8(s@);
            }
            D::decode(s)
        },
        None => Err(HNError::DecodeError("the response body is not valid UTF-8".to_owned())),
    }
}

/// Decoding inverts encoding end-to-end: a response body holding the
/// UTF-8 rendering of a list of identifiers decodes back to exactly that
/// list, element order and count preserved.
pub proof fn lemma_top_list_round_trip_bytes(ids: Seq<u64>)
    ensures
        spec_decode_bytes::<Vec<u64>>(vstd::utf8::encode_utf8(spec_encode_top_list(ids)))
            == Some(ids),
{
    vstd::utf8::encode_utf8_valid_utf8(spec_encode_top_list(ids));
    vstd::utf8::encode_utf8_decode_utf8(spec_encode_top_list(ids));
    lemma_top_list_round_trip(ids);
}

/// The kind enumeration is closed: an item whose kind tag names none of
/// the five kinds does not decode.
pub proof fn lemma_unknown_kind_rejected(v: Seq<char>, raw: RawItem, tag: Seq<char>)
    requires
        spec_decode_raw_item(v) == Some(raw),
        raw.kind == Some(tag),
        spec_kind_of(tag) is None,
    ensures
        spec_decode_item(v) is None,
{
}

/// Optional members default rather than fail: when the identifier and a
/// known kind tag are present, the item decodes, and an absent author,
/// title or child list decodes to an empty value.
pub proof fn lemma_absent_members_default(
    v: Seq<char>,
    raw: RawItem,
    tag: Seq<char>,
    kind: HNItemType,
)
    requires
        spec_decode_raw_item(v) == Some(raw),
        raw.id is Some,
        raw.kind == Some(tag),
        spec_kind_of(tag) == Some(kind),
    ensures
        spec_decode_item(v) matches Some(item) && item.item_type == kind && (raw.by is None
            ==> item.by == Seq::<char>::empty()) && (raw.title is None ==> item.title
            == Seq::<char>::empty()) && (raw.kids is None ==> item.kids == Seq::<u64>::empty()),
{
}

/// The decoded form of a response is a function of the body alone: two
/// decodes of the same bytes cannot disagree, so repeated fetches that see
/// the same body yield structurally equal items.
pub proof fn lemma_decode_deterministic(b1: Seq<u8>, b2: Seq<u8>, v1: ItemView, v2: ItemView)
    requires
        b1 == b2,
        spec_decode_bytes::<HNItem>(b1) == Some(v1),
        spec_decode_bytes::<HNItem>(b2) == Some(v2),
    ensures
        v1 == v2,
{
}

} // verus!
