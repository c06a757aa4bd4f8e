//! The typed client and its transport boundary.
//!
//! The client owns a `Transport`, composes the request URL for each of the
//! two operations, and decodes the response body. The transport performs
//! the network exchange and is the only unverified step: everything the
//! client does with what the transport returns is verified for every
//! possible outcome.

use vstd::prelude::*;
use vstd::string::StrSliceExecFns;
use vstd::string::StringExecFns;

use crate::decode::decode_bytes;
use crate::decode::spec_decode_bytes;
use crate::decode::Decode;
use crate::decode::HNItem;
use crate::errors::spec_from_transport;
use crate::errors::HNError;
use crate::errors::TransportError;
use crate::json::chars_to_string;
use crate::json::push_decimal;
use crate::json::spec_u64_digits;

verus! {

/// Performs a single HTTP GET against an absolute URL and yields the whole
/// response body, or a transport failure. Implementations live outside the
/// verified library; the client is verified for every value a transport
/// can hand back.
pub trait Transport {
    fn fetch_bytes(&self, url: &str) -> Result<Vec<u8>, TransportError>;
}

/// The fixed top-stories URL.
pub open spec fn spec_top_stories_url() -> Seq<char> {
    "https://hacker-news.firebaseio.com/v0/topstories.json"@
}

/// The URL of the item with the given identifier.
pub open spec fn spec_item_url(id: u64) -> Seq<char> {
    "https://hacker-news.firebaseio.com/v0/item/"@ + spec_u64_digits(id as nat) + ".json"@
}

/// The request locations of the API, one associated function per operation.
pub struct HNApiUrl;

impl HNApiUrl {
    /// The fixed top-stories URL.
    pub fn top_stories() -> (r: String)
        ensures
            r@ == spec_top_stories_url(),
    {
        "https://hacker-news.firebaseio.com/v0/topstories.json".to_owned()
    }

    /// The item URL for an identifier: the fixed path template with the
    /// decimal identifier substituted.
    pub fn item(id: u64) -> (r: String)
        ensures
            r@ == spec_item_url(id),
    {
        let mut url = "https://hacker-news.firebaseio.com/v0/item/".to_owned();
        let mut digits: Vec<char> = Vec::new();
        push_decimal(id, &mut digits);
        let rendered = chars_to_string(&digits);
        url.append(rendered.as_str());
        url.append(".json");
        url
    }
}

/// Whether `p` is a prefix of `s`.
pub open spec fn spec_has_prefix(s: Seq<char>, p: Seq<char>) -> bool {
    s.len() >= p.len() && s.subrange(0, p.len() as int) == p
}

/// An absolute URL the transport can attempt: an `http` or `https` scheme
/// followed by a non-empty host part.
pub open spec fn spec_valid_url(s: Seq<char>) -> bool {
    (spec_has_prefix(s, "http://"@) && s.len() > "http://"@.len() && s["http://"@.len() as int]
        != '/') || (spec_has_prefix(s, "https://"@) && s.len() > "https://"@.len()
        && s["https://"@.len() as int] != '/')
}

/// Whether a string starts with the given prefix.
fn has_prefix(s: &str, p: &str) -> (r: bool)
    ensures
        r == spec_has_prefix(s@, p@),
{
    let sn: usize = s.unicode_len();
    let pn: usize = p.unicode_len();
    if sn < pn {
        return false;
    }
    let mut i: usize = 0;
    loop
        invariant
            i <= pn,
            pn == p@.len(),
            sn == s@.len(),
            sn >= pn,
            forall|t: int| 0 <= t < i ==> s@[t] == p@[t],
        decreases pn - i,
    {
        if i >= pn {
            proof {
                assert(s@.subrange(0, pn as int) =~= p@);
            }
            return true;
        }
        if s.get_char(i) != p.get_char(i) {
            proof {
                if spec_has_prefix(s@, p@) {
                    assert(s@.subrange(0, pn as int)[i as int] == s@[i as int]);
                }
            }
            return false;
        }
        i = i + 1;
    }
}

/// Whether the string is the given scheme followed by a non-empty host part.
fn scheme_ok(s: &str, p: &str) -> (r: bool)
    ensures
        r == (spec_has_prefix(s@, p@) && s@.len() > p@.len() && s@[p@.len() as int] != '/'),
{
    let pn: usize = p.unicode_len();
    if !has_prefix(s, p) {
        return false;
    }
    let n: usize = s.unicode_len();
    if n <= pn {
        return false;
    }
    s.get_char(pn) != '/'
}

/// Whether the string is a URL the transport can attempt.
pub fn is_valid_url(s: &str) -> (r: bool)
    ensures
        r == spec_valid_url(s@),
{
    let over_http = scheme_ok(s, "http://");
    let over_https = scheme_ok(s, "https://");
    over_http || over_https
}

/// Both request locations of the API are valid URLs, for every identifier.
pub proof fn lemma_api_urls_valid(id: u64)
    ensures
        spec_valid_url(spec_top_stories_url()),
        spec_valid_url(spec_item_url(id)),
{
    reveal_strlit("https://hacker-news.firebaseio.com/v0/topstories.json");
    reveal_strlit("https://hacker-news.firebaseio.com/v0/item/");
    reveal_strlit("https://");
    assert(spec_has_prefix(spec_top_stories_url(), "https://"@)) by {
        assert(spec_top_stories_url().subrange(0, 8) =~= "https://"@);
    }
    assert(spec_has_prefix(spec_item_url(id), "https://"@)) by {
        assert(spec_item_url(id).subrange(0, 8) =~= "https://"@);
    }
    assert(spec_top_stories_url()["https://"@.len() as int] != '/');
    assert(spec_item_url(id)["https://"@.len() as int] != '/');
}

/// The typed client: a transport plus the fixed API locations. Immutable
/// after construction; each call is a single stateless round trip, and a
/// failed call does not affect later, independent calls.
pub struct HNClient<T: Transport> {
    pub transport: T,
}

/// Maps a completed transport exchange onto the typed result: a transport
/// failure propagates with its kind preserved, and a received body decodes
/// to exactly its decoded form, a malformed body giving `DecodeError`.
pub fn respond<D: Decode>(exchange: Result<Vec<u8>, TransportError>) -> (r: Result<D, HNError>)
    ensures
        exchange matches Err(te) ==> r == Err::<D, HNError>(spec_from_transport(te)),
        exchange matches Ok(body) ==> match spec_decode_bytes::<D>(body@) {
            Some(view) => r matches Ok(x) && x@ == view,
            None => r matches Err(e) && e is DecodeError,
        },
{
    match exchange {
        Ok(body) => decode_bytes::<D>(&body),
        Err(te) => Err(HNError::from_transport(te)),
    }
}

impl<T: Transport> HNClient<T> {
    /// A client over the given transport.
    pub fn new(transport: T) -> (r: Self)
        ensures
            r.transport == transport,
    {
        HNClient { transport }
    }

    /// Fetches `url` through the transport and decodes the body as `D`.
    /// A malformed URL is rejected, with `InvalidUrl`, before any transport
    /// activity; no other path reports `InvalidUrl`, and every value
    /// returned is the decoded form of some response body.
    pub fn get_from_url<D: Decode>(&self, url: &str) -> (r: Result<D, HNError>)
        ensures
            !spec_valid_url(url@) ==> r == Err::<D, HNError>(HNError::InvalidUrl),
            r matches Err(e) ==> (e is InvalidUrl <==> !spec_valid_url(url@)),
            r matches Ok(x) ==> exists|b: Seq<u8>| spec_decode_bytes::<D>(b) == Some(x@),
    {
        if !is_valid_url(url) {
            return Err(HNError::InvalidUrl);
        }
        let exchange = self.transport.fetch_bytes(url);
        let ghost sent = exchange;
        let r = respond::<D>(exchange);
        proof {
            match sent {
                Ok(body) => {
                    if r is Ok {
                        assert(spec_decode_bytes::<D>(body@) == Some(r->Ok_0@));
                    }
                },
                Err(_) => {},
            }
        }
        r
    }

    /// Fetches the ranked list of current top-story identifiers, in rank
    /// order: any list returned is the decoded form of some response body.
    pub fn get_top_list(&self) -> (r: Result<Vec<u64>, HNError>)
        ensures
            r matches Err(e) ==> !(e is InvalidUrl),
            r matches Ok(ids) ==> exists|b: Seq<u8>|
                spec_decode_bytes::<Vec<u64>>(b) == Some(ids@),
    {
        proof {
            lemma_api_urls_valid(0);
        }
        let url = HNApiUrl::top_stories();
        self.get_from_url::<Vec<u64>>(url.as_str())
    }

    /// Fetches the item with the given identifier: any item returned is the
    /// decoded form of some response body.
    pub fn get_item(&self, id: u64) -> (r: Result<HNItem, HNError>)
        ensures
            r matches Err(e) ==> !(e is InvalidUrl),
            r matches Ok(item) ==> exists|b: Seq<u8>|
                spec_decode_bytes::<HNItem>(b) == Some(item@),
    {
        proof {
            lemma_api_urls_valid(id);
        }
        let url = HNApiUrl::item(id);
        self.get_from_url::<HNItem>(url.as_str())
    }
}

} // verus!
