use libimagentrylink::entry::{Entry, InternalLinker};
use libimagentrylink::error::LinkErrorKind;
use libimagentrylink::link::Link;
use libimagentrylink::storeid::StoreId;
use libimagentrylink::value::{Field, Value};

fn sid(name: &str) -> StoreId {
    StoreId::new(Some(String::from("/store")), String::from(name)).unwrap()
}

fn entry(name: &str) -> Entry {
    Entry::new(sid(name))
}

fn broken(name: &str) -> Entry {
    Entry::with_link_field(sid(name), Some(Value::String(String::from("no sequence"))))
}

fn links(e: &Entry) -> Vec<Link> {
    e.get_internal_links().unwrap().collect()
}

fn plain(name: &str) -> Link {
    Link::Id { link: StoreId::new_baseless(String::from(name)).unwrap() }
}

fn noted(name: &str, note: &str) -> Link {
    Link::Annotated {
        link: StoreId::new_baseless(String::from(name)).unwrap(),
        annotation: String::from(note),
    }
}

fn text(s: &str) -> Value {
    Value::String(String::from(s))
}

#[test]
fn add_link_links_both_sides() {
    let mut a = entry("a");
    let mut b = entry("b");
    let mut c = entry("c");
    a.add_internal_link(&mut c).unwrap();
    let a_before = links(&a).len();
    let b_before = links(&b).len();
    assert!(a.add_internal_link(&mut b).is_ok());
    assert!(links(&a).contains(&plain("b")));
    assert!(links(&b).contains(&plain("a")));
    assert_eq!(links(&a).len(), a_before + 1);
    assert_eq!(links(&b).len(), b_before + 1);
}

#[test]
fn add_link_twice_is_add_link_once() {
    let mut a = entry("a");
    let mut b = entry("b");
    a.add_internal_link(&mut b).unwrap();
    let a_once = a.link_field().clone();
    let b_once = b.link_field().clone();
    a.add_internal_link(&mut b).unwrap();
    assert_eq!(a.link_field(), &a_once);
    assert_eq!(b.link_field(), &b_once);
    assert_eq!(links(&a), vec![plain("b")]);
    assert_eq!(links(&b), vec![plain("a")]);
}

#[test]
fn remove_after_add_restores_both() {
    let mut a = entry("a");
    let mut b = entry("b");
    let mut c = entry("c");
    a.add_internal_link(&mut c).unwrap();
    b.add_internal_link(&mut c).unwrap();
    let a_before = links(&a);
    let b_before = links(&b);
    a.add_internal_link(&mut b).unwrap();
    assert_ne!(links(&a), a_before);
    a.remove_internal_link(&mut b).unwrap();
    assert_eq!(links(&a), a_before);
    assert_eq!(links(&b), b_before);
}

#[test]
fn removing_a_link_that_is_not_there_changes_no_links() {
    let mut a = entry("a");
    let mut b = entry("b");
    let mut c = entry("c");
    a.add_internal_link(&mut c).unwrap();
    assert!(a.remove_internal_link(&mut b).is_ok());
    assert_eq!(links(&a), vec![plain("c")]);
    assert_eq!(links(&b), vec![]);
}

#[test]
fn annotated_link_is_annotated_on_one_side_only() {
    let mut a = entry("a");
    let mut b = entry("b");
    assert!(a.add_internal_annotated_link(&mut b, String::from("x")).is_ok());
    assert_eq!(links(&a), vec![noted("b", "x")]);
    assert_eq!(links(&b), vec![plain("a")]);
}

#[test]
fn remove_takes_annotated_links_too() {
    let mut a = entry("a");
    let mut b = entry("b");
    a.add_internal_annotated_link(&mut b, String::from("x")).unwrap();
    a.add_internal_link(&mut b).unwrap();
    assert_eq!(links(&a), vec![plain("b"), noted("b", "x")]);
    a.remove_internal_link(&mut b).unwrap();
    assert_eq!(links(&a), vec![]);
    assert_eq!(links(&b), vec![]);
}

#[test]
fn links_are_written_without_store_root_and_in_order() {
    let mut a = entry("a");
    let mut z = entry("z");
    let mut m = entry("m");
    a.add_internal_link(&mut z).unwrap();
    a.add_internal_link(&mut m).unwrap();
    assert_eq!(a.link_field(), &Some(Value::Array(vec![text("m"), text("z")])));
    assert_eq!(z.link_field(), &Some(Value::Array(vec![text("a")])));
}

#[test]
fn add_fails_before_writing_when_other_is_unreadable() {
    let mut a = entry("a");
    let mut b = broken("b");
    assert_eq!(a.add_internal_link(&mut b).unwrap_err(), LinkErrorKind::ExistingLinkTypeWrong);
    assert_eq!(a.link_field(), &None);
    assert_eq!(b.link_field(), &Some(text("no sequence")));
}

#[test]
fn add_leaves_back_link_when_own_links_are_unreadable() {
    let mut a = broken("a");
    let mut b = entry("b");
    assert_eq!(a.add_internal_link(&mut b).unwrap_err(), LinkErrorKind::ExistingLinkTypeWrong);
    assert_eq!(a.link_field(), &Some(text("no sequence")));
    assert_eq!(links(&b), vec![plain("a")]);
}

#[test]
fn remove_stops_at_the_first_unreadable_side() {
    let mut a = entry("a");
    let mut c = entry("c");
    a.add_internal_link(&mut c).unwrap();
    let mut b = broken("b");
    assert_eq!(a.remove_internal_link(&mut b).unwrap_err(), LinkErrorKind::ExistingLinkTypeWrong);
    assert_eq!(links(&a), vec![plain("c")]);
}

#[test]
fn get_links_reports_malformed_header() {
    let e = Entry::with_link_field(
        sid("e"),
        Some(Value::Array(vec![Value::Table(vec![Field {
            key: String::from("link"),
            value: text("a"),
        }])])),
    );
    assert_eq!(e.get_internal_links().unwrap_err(), LinkErrorKind::LinkParserError);
}

#[test]
fn set_links_replaces_and_links_back() {
    let mut a = entry("a");
    let mut old = entry("old");
    a.add_internal_link(&mut old).unwrap();
    let mut targets = vec![entry("c"), entry("b"), entry("c")];
    let held = a.set_internal_links(&mut targets).unwrap().collect();
    assert_eq!(held, vec![plain("old")]);
    assert_eq!(links(&a), vec![plain("b"), plain("c")]);
    assert_eq!(links(&targets[0]), vec![plain("a")]);
    assert_eq!(links(&targets[1]), vec![plain("a")]);
    assert_eq!(links(&targets[2]), vec![plain("a")]);
}

#[test]
fn set_links_to_nothing_empties_the_field() {
    let mut a = entry("a");
    let mut b = entry("b");
    a.add_internal_link(&mut b).unwrap();
    let mut targets: Vec<Entry> = vec![];
    a.set_internal_links(&mut targets).unwrap();
    assert_eq!(a.link_field(), &Some(Value::Array(vec![])));
    assert_eq!(links(&a), vec![]);
}

#[test]
fn set_links_stops_at_unreadable_target_without_rollback() {
    let mut a = entry("a");
    let mut targets = vec![entry("b"), broken("c"), entry("d")];
    let r = a.set_internal_links(&mut targets);
    assert_eq!(r.unwrap_err(), LinkErrorKind::ExistingLinkTypeWrong);
    assert_eq!(a.link_field(), &None);
    assert_eq!(links(&targets[0]), vec![plain("a")]);
    assert_eq!(targets[1].link_field(), &Some(text("no sequence")));
    assert_eq!(targets[2].link_field(), &None);
}

#[test]
fn set_links_reports_unreadable_old_links_after_writing() {
    let mut a = broken("a");
    let mut targets = vec![entry("b")];
    let r = a.set_internal_links(&mut targets);
    assert_eq!(r.unwrap_err(), LinkErrorKind::ExistingLinkTypeWrong);
    assert_eq!(links(&a), vec![plain("b")]);
    assert_eq!(links(&targets[0]), vec![plain("a")]);
}
