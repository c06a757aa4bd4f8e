use std::cell::Cell;

use hn_client::client::is_valid_url;
use hn_client::client::HNApiUrl;
use hn_client::client::HNClient;
use hn_client::client::Transport;
use hn_client::decode::Decode;
use hn_client::decode::HNItemType;
use hn_client::errors::HNError;
use hn_client::errors::TransportError;

/// Serves a fixed top list for the top-stories URL and a fixed story for
/// every item URL.
struct RoutingTransport;

impl Transport for RoutingTransport {
    fn fetch_bytes(&self, url: &str) -> Result<Vec<u8>, TransportError> {
        if url.contains("topstories") {
            Ok("[17915371,17915560,17914959]".to_string().into_bytes())
        } else {
            Ok(
                "{\"id\":17915371,\"by\":\"pg\",\"title\":\"Example title\",\"kids\":[1,2],\"type\":\"story\"}"
                    .to_string()
                    .into_bytes(),
            )
        }
    }
}

/// Serves the same fixed body for every request.
struct FixedTransport {
    body: String,
}

impl Transport for FixedTransport {
    fn fetch_bytes(&self, _url: &str) -> Result<Vec<u8>, TransportError> {
        Ok(self.body.clone().into_bytes())
    }
}

/// Serves fixed raw bytes for every request.
struct BytesTransport {
    body: Vec<u8>,
}

impl Transport for BytesTransport {
    fn fetch_bytes(&self, _url: &str) -> Result<Vec<u8>, TransportError> {
        Ok(self.body.clone())
    }
}

/// Fails every request with the given transport error.
struct FailingTransport {
    kind: TransportError,
}

impl Transport for FailingTransport {
    fn fetch_bytes(&self, _url: &str) -> Result<Vec<u8>, TransportError> {
        Err(self.kind)
    }
}

/// Records whether it was ever invoked.
struct WatchfulTransport {
    called: Cell<bool>,
}

impl Transport for WatchfulTransport {
    fn fetch_bytes(&self, _url: &str) -> Result<Vec<u8>, TransportError> {
        self.called.set(true);
        Ok(Vec::new())
    }
}

#[test]
fn de_list_test() {
    let data = "[17915371,17915560,17914959,17915522,17914723,17915487,17914731,17912734,17914935,17914634,17907816]";

    let list: Vec<u64> = <Vec<u64> as Decode>::decode(data).unwrap();

    println!("{:?}", list);
}

#[test]
fn get_top_list_test() {
    let client = HNClient::new(RoutingTransport);

    match client.get_top_list() {
        Ok(r) => r
            .iter()
            .take(3)
            .flat_map(|&id| client.get_item(id))
            .map(|item| println!("{}", item.title))
            .collect(),
        Err(e) => panic!("{:?}", e),
    }
}

#[test]
fn get_item_test() {
    let client = HNClient::new(RoutingTransport);

    match client.get_item(17915371) {
        Ok(r) => {
            println!("{:?}", r);
        }
        Err(e) => panic!("{:?}", e),
    }
}

#[test]
#[should_panic]
fn get_from_url_should_panic_for_invalid_url() {
    let client = HNClient::new(FixedTransport { body: "[]".to_string() });

    client.get_from_url::<Vec<u64>>("haha").unwrap();
}

#[test]
fn top_list_preserves_order_and_count() {
    let ids: Vec<u64> = vec![17915371, 42, 0, 18446744073709551615, 7];
    let rendered: Vec<String> = ids.iter().map(|i| i.to_string()).collect();
    let body = format!("[{}]", rendered.join(","));
    let client = HNClient::new(FixedTransport { body });

    let got = client.get_top_list().unwrap();

    assert_eq!(got, ids);
}

#[test]
fn top_list_is_not_sorted() {
    let client = HNClient::new(FixedTransport { body: "[3,1,2]".to_string() });

    let got = client.get_top_list().unwrap();

    assert_eq!(got, vec![3, 1, 2]);
}

#[test]
fn item_without_kids_decodes_with_empty_kids() {
    let body = "{\"id\":1,\"by\":\"alice\",\"title\":\"Hello\",\"type\":\"story\"}".to_string();
    let client = HNClient::new(FixedTransport { body });

    let item = client.get_item(1).unwrap();

    assert_eq!(item.id, 1);
    assert_eq!(item.by, "alice");
    assert_eq!(item.title, "Hello");
    assert!(item.kids.is_empty());
    assert_eq!(item.item_type, HNItemType::Story);
}

#[test]
fn unknown_kind_tag_is_a_decode_error() {
    let body = "{\"id\":1,\"by\":\"alice\",\"title\":\"Hello\",\"type\":\"unknown\"}".to_string();
    let client = HNClient::new(FixedTransport { body });

    let err = client.get_item(1).unwrap_err();

    assert!(matches!(err, HNError::DecodeError(_)));
}

#[test]
fn connection_failure_propagates_unchanged() {
    let client = HNClient::new(FailingTransport { kind: TransportError::ConnectionFailed });

    assert!(matches!(client.get_top_list().unwrap_err(), HNError::ConnectionFailed));
    assert!(matches!(client.get_item(1).unwrap_err(), HNError::ConnectionFailed));
}

#[test]
fn protocol_failure_propagates_unchanged() {
    let client = HNClient::new(FailingTransport { kind: TransportError::ProtocolError });

    assert!(matches!(client.get_top_list().unwrap_err(), HNError::ProtocolError));
    assert!(matches!(client.get_item(1).unwrap_err(), HNError::ProtocolError));
}

#[test]
fn invalid_url_is_rejected_before_any_network_activity() {
    let transport = WatchfulTransport { called: Cell::new(false) };
    let client = HNClient::new(transport);

    let r = client.get_from_url::<Vec<u64>>("haha");

    assert!(matches!(r, Err(HNError::InvalidUrl)));
    assert!(!client.transport.called.get());
}

#[test]
fn repeated_fetches_of_the_same_body_are_equal() {
    let body =
        "{\"id\":42,\"by\":\"bob\",\"title\":\"Twice\",\"kids\":[9],\"type\":\"comment\"}"
            .to_string();
    let client = HNClient::new(FixedTransport { body });

    let first = client.get_item(42).unwrap();
    let second = client.get_item(42).unwrap();

    assert_eq!(first, second);
}

#[test]
fn invalid_utf8_body_is_a_decode_error() {
    let client = HNClient::new(BytesTransport { body: vec![0xff, 0xfe, 0x5b] });

    let err = client.get_top_list().unwrap_err();

    assert!(matches!(err, HNError::DecodeError(_)));
}

#[test]
fn url_templates_render_as_expected() {
    assert_eq!(
        HNApiUrl::top_stories(),
        "https://hacker-news.firebaseio.com/v0/topstories.json"
    );
    assert_eq!(HNApiUrl::item(42), "https://hacker-news.firebaseio.com/v0/item/42.json");
    assert_eq!(HNApiUrl::item(0), "https://hacker-news.firebaseio.com/v0/item/0.json");
    assert_eq!(
        HNApiUrl::item(18446744073709551615),
        "https://hacker-news.firebaseio.com/v0/item/18446744073709551615.json"
    );
}

#[test]
fn url_validity_checks() {
    assert!(!is_valid_url("haha"));
    assert!(!is_valid_url(""));
    assert!(!is_valid_url("https://"));
    assert!(!is_valid_url("http:///nohost"));
    assert!(!is_valid_url("ftp://example.org"));
    assert!(is_valid_url("http://example.org"));
    assert!(is_valid_url("https://hacker-news.firebaseio.com/v0/topstories.json"));
}
