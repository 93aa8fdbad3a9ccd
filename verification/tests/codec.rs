use libimagentrylink::codec::{decode_links, decode_value, encode_links, process_rw_result};
use libimagentrylink::error::{LinkErrorKind, StoreError};
use libimagentrylink::iter::{IntoValues, LinkIter};
use libimagentrylink::link::Link;
use libimagentrylink::storeid::StoreId;
use libimagentrylink::value::{Field, Value};

fn sid(name: &str) -> StoreId {
    StoreId::new_baseless(String::from(name)).unwrap()
}

fn plain(name: &str) -> Link {
    Link::Id { link: sid(name) }
}

fn noted(name: &str, note: &str) -> Link {
    Link::Annotated { link: sid(name), annotation: String::from(note) }
}

fn text(s: &str) -> Value {
    Value::String(String::from(s))
}

fn field(key: &str, value: Value) -> Field {
    Field { key: String::from(key), value }
}

#[test]
fn absent_field_decodes_as_no_links() {
    let links = process_rw_result(Ok(None)).unwrap();
    assert_eq!(links.count(), 0);
}

#[test]
fn store_failures_are_handed_on() {
    assert_eq!(
        process_rw_result(Err(StoreError::ReadFailed)).unwrap_err(),
        LinkErrorKind::StoreReadError
    );
    assert_eq!(
        process_rw_result(Err(StoreError::WriteFailed)).unwrap_err(),
        LinkErrorKind::StoreWriteError
    );
}

#[test]
fn single_value_is_wrong_field_type() {
    assert_eq!(
        process_rw_result(Ok(Some(text("a")))).unwrap_err(),
        LinkErrorKind::ExistingLinkTypeWrong
    );
    assert_eq!(
        process_rw_result(Ok(Some(Value::Other))).unwrap_err(),
        LinkErrorKind::ExistingLinkTypeWrong
    );
    assert_eq!(
        process_rw_result(Ok(Some(Value::Table(vec![])))).unwrap_err(),
        LinkErrorKind::ExistingLinkTypeWrong
    );
}

#[test]
fn table_without_annotation_is_malformed() {
    let table = Value::Table(vec![field("link", text("a"))]);
    assert_eq!(
        process_rw_result(Ok(Some(Value::Array(vec![table])))).unwrap_err(),
        LinkErrorKind::LinkParserError
    );
}

#[test]
fn table_with_wrong_keys_or_types_is_malformed() {
    let wrong_key = Value::Table(vec![field("link", text("a")), field("note", text("n"))]);
    assert_eq!(decode_value(&wrong_key).unwrap_err(), LinkErrorKind::LinkParserError);
    let wrong_type = Value::Table(vec![field("link", text("a")), field("annotation", Value::Other)]);
    assert_eq!(decode_value(&wrong_type).unwrap_err(), LinkErrorKind::LinkParserError);
    let three = Value::Table(vec![
        field("link", text("a")),
        field("annotation", text("n")),
        field("more", text("m")),
    ]);
    assert_eq!(decode_value(&three).unwrap_err(), LinkErrorKind::LinkParserError);
}

#[test]
fn element_of_other_shape_is_malformed() {
    assert_eq!(
        decode_links(&vec![text("a"), Value::Other]).unwrap_err(),
        LinkErrorKind::LinkParserError
    );
    assert_eq!(
        decode_links(&vec![Value::Array(vec![])]).unwrap_err(),
        LinkErrorKind::LinkParserError
    );
}

#[test]
fn shape_is_tested_before_identifiers() {
    assert_eq!(
        decode_links(&vec![text("/abs"), Value::Other]).unwrap_err(),
        LinkErrorKind::LinkParserError
    );
}

#[test]
fn absolute_identifier_is_refused() {
    assert_eq!(decode_links(&vec![text("/abs")]).unwrap_err(), LinkErrorKind::StoreIdError);
    let table = Value::Table(vec![field("annotation", text("n")), field("link", text("/abs"))]);
    assert_eq!(decode_value(&table).unwrap_err(), LinkErrorKind::StoreIdError);
}

#[test]
fn first_failing_element_decides() {
    let missing = Value::Table(vec![field("link", text("a"))]);
    assert_eq!(
        decode_links(&vec![text("ok"), missing, text("/abs")]).unwrap_err(),
        LinkErrorKind::LinkParserError
    );
    let missing = Value::Table(vec![field("link", text("a"))]);
    assert_eq!(
        decode_links(&vec![text("/abs"), missing]).unwrap_err(),
        LinkErrorKind::StoreIdError
    );
}

#[test]
fn links_decode_in_stored_order() {
    let table = Value::Table(vec![field("link", text("b")), field("annotation", text("why"))]);
    let links = decode_links(&vec![text("c"), table, text("a")]).unwrap();
    assert_eq!(links, vec![plain("c"), noted("b", "why"), plain("a")]);
}

#[test]
fn plain_link_encodes_as_text() {
    assert_eq!(plain("a/b").to_value(), text("a/b"));
}

#[test]
fn annotated_link_encodes_as_table_of_two() {
    assert_eq!(
        noted("a", "because").to_value(),
        Value::Table(vec![field("annotation", text("because")), field("link", text("a"))])
    );
}

#[test]
fn encoding_strips_store_root() {
    let based = Link::Id { link: StoreId::new(Some(String::from("/store")), String::from("x")).unwrap() };
    assert_eq!(encode_links(vec![based]), vec![text("x")]);
}

#[test]
fn encoding_sorts_and_drops_duplicates() {
    let values = encode_links(vec![plain("c"), plain("a"), plain("b"), plain("a"), plain("c")]);
    assert_eq!(values, vec![text("a"), text("b"), text("c")]);
}

#[test]
fn encoding_puts_plain_links_before_annotated() {
    let values = encode_links(vec![noted("a", "n"), plain("z"), noted("a", "m"), plain("b")]);
    assert_eq!(
        values,
        vec![
            text("b"),
            text("z"),
            Value::Table(vec![field("annotation", text("m")), field("link", text("a"))]),
            Value::Table(vec![field("annotation", text("n")), field("link", text("a"))]),
        ]
    );
}

#[test]
fn encoding_is_the_same_in_any_order() {
    let one = encode_links(vec![plain("b"), noted("a", "x"), plain("a"), plain("b")]);
    let two = encode_links(vec![plain("a"), plain("b"), noted("a", "x")]);
    let three = encode_links(vec![noted("a", "x"), plain("b"), plain("a"), plain("a")]);
    assert_eq!(one, two);
    assert_eq!(two, three);
}

#[test]
fn plain_and_annotated_links_differ() {
    assert_ne!(plain("a"), noted("a", ""));
    assert_eq!(encode_links(vec![plain("a"), noted("a", "")]).len(), 2);
}

#[test]
fn encoded_links_decode_again() {
    let links = vec![plain("b"), noted("a", "x"), plain("a")];
    let values = encode_links(links);
    let back = decode_links(&values).unwrap();
    assert_eq!(back, vec![plain("a"), plain("b"), noted("a", "x")]);
}

#[test]
fn into_values_of_iter_and_vec_agree() {
    let from_iter = LinkIter::new(vec![plain("b"), plain("a")]).into_values();
    let from_vec = vec![plain("a"), plain("b")].into_values();
    assert_eq!(from_iter, vec![text("a"), text("b")]);
    assert_eq!(from_iter, from_vec);
}

#[test]
fn order_goes_by_bytes() {
    let values = encode_links(vec![plain("b"), plain("B"), plain("a/b"), plain("a-b"), plain("ab"), plain("a")]);
    assert_eq!(
        values,
        vec![text("B"), text("a"), text("a-b"), text("a/b"), text("ab"), text("b")]
    );
}

#[test]
fn link_iter_hands_out_front_first() {
    let mut it = LinkIter::new(vec![plain("x"), plain("y")]);
    assert_eq!(it.count(), 2);
    assert_eq!(it.next(), Some(plain("x")));
    assert_eq!(it.count(), 1);
    assert_eq!(it.collect(), vec![plain("y")]);
    let mut none = LinkIter::new(vec![]);
    assert_eq!(none.next(), None);
}
