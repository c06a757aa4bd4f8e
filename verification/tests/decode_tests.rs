use hn_client::decode::Decode;
use hn_client::decode::HNItem;
use hn_client::decode::HNItemType;
use hn_client::errors::HNError;

fn decode_item(body: &str) -> Result<HNItem, HNError> {
    <HNItem as Decode>::decode(body)
}

fn decode_list(body: &str) -> Result<Vec<u64>, HNError> {
    <Vec<u64> as Decode>::decode(body)
}

#[test]
fn list_tolerates_whitespace() {
    assert_eq!(decode_list(" [ 1 ,\t2 ,\r\n3 ] ").unwrap(), vec![1, 2, 3]);
    assert_eq!(decode_list("[]").unwrap(), Vec::<u64>::new());
    assert_eq!(decode_list(" [ ] ").unwrap(), Vec::<u64>::new());
}

#[test]
fn list_rejects_malformed_bodies() {
    assert!(decode_list("").is_err());
    assert!(decode_list("null").is_err());
    assert!(decode_list("[1,]").is_err());
    assert!(decode_list("[,1]").is_err());
    assert!(decode_list("[1 2]").is_err());
    assert!(decode_list("[1").is_err());
    assert!(decode_list("[-1]").is_err());
    assert!(decode_list("[1.5]").is_err());
    assert!(decode_list("[1]]").is_err());
    assert!(decode_list("{\"a\":1}").is_err());
}

#[test]
fn list_rejects_superfluous_leading_zero() {
    assert_eq!(decode_list("[0]").unwrap(), vec![0]);
    assert!(decode_list("[01]").is_err());
    assert!(decode_list("[00]").is_err());
}

#[test]
fn list_checks_the_integer_range() {
    assert_eq!(
        decode_list("[18446744073709551615]").unwrap(),
        vec![18446744073709551615]
    );
    assert!(decode_list("[18446744073709551616]").is_err());
}

#[test]
fn item_decodes_string_escapes() {
    let body = "{\"id\":9,\"type\":\"story\",\"title\":\"a\\\"b\\\\c\\/d\\ne\\u0041\\uD83D\\uDE00\"}";
    let item = decode_item(body).unwrap();
    assert_eq!(item.title, "a\"b\\c/d\neA😀");
}

#[test]
fn item_rejects_bad_escapes() {
    assert!(decode_item("{\"id\":9,\"type\":\"story\",\"title\":\"\\q\"}").is_err());
    assert!(decode_item("{\"id\":9,\"type\":\"story\",\"title\":\"\\u12\"}").is_err());
    assert!(decode_item("{\"id\":9,\"type\":\"story\",\"title\":\"\\uD83D\"}").is_err());
    assert!(decode_item("{\"id\":9,\"type\":\"story\",\"title\":\"\\uDE00\"}").is_err());
    assert!(decode_item("{\"id\":9,\"type\":\"story\",\"title\":\"unterminated}").is_err());
}

#[test]
fn item_requires_identifier_and_kind() {
    assert!(decode_item("{}").is_err());
    assert!(decode_item("{\"id\":1}").is_err());
    assert!(decode_item("{\"type\":\"story\"}").is_err());
    assert!(decode_item("{\"id\":1,\"type\":3}").is_err());
    assert!(decode_item("{\"id\":\"one\",\"type\":\"story\"}").is_err());
}

#[test]
fn item_rejects_duplicate_known_members() {
    assert!(decode_item("{\"id\":1,\"id\":2,\"type\":\"story\"}").is_err());
    assert!(decode_item("{\"id\":1,\"type\":\"story\",\"type\":\"job\"}").is_err());
}

#[test]
fn item_ignores_unknown_members() {
    let body = "{\"id\":3,\"type\":\"job\",\"score\":12.5,\"dead\":false,\"extra\":null,\
                \"nested\":{\"a\":[1,{\"b\":\"}\"}]},\"url\":\"https://example.org\"}";
    let item = decode_item(body).unwrap();
    assert_eq!(item.id, 3);
    assert_eq!(item.item_type, HNItemType::Job);
    assert_eq!(item.by, "");
    assert_eq!(item.title, "");
    assert!(item.kids.is_empty());
}

#[test]
fn item_keeps_kid_order() {
    let body = "{\"id\":3,\"type\":\"poll\",\"kids\":[5,3,4],\"by\":\"eve\",\"title\":\"Vote\"}";
    let item = decode_item(body).unwrap();
    assert_eq!(item.kids, vec![5, 3, 4]);
    assert_eq!(item.item_type, HNItemType::Poll);
}

#[test]
fn every_kind_tag_decodes() {
    for (tag, kind) in [
        ("job", HNItemType::Job),
        ("story", HNItemType::Story),
        ("comment", HNItemType::Comment),
        ("poll", HNItemType::Poll),
        ("pollopt", HNItemType::PollOpt),
    ] {
        let body = format!("{{\"id\":1,\"type\":\"{}\"}}", tag);
        assert_eq!(decode_item(&body).unwrap().item_type, kind);
    }
}

#[test]
fn item_rejects_trailing_text() {
    assert!(decode_item("{\"id\":1,\"type\":\"story\"} x").is_err());
    assert!(decode_item("{\"id\":1,\"type\":\"story\"}{}").is_err());
}
