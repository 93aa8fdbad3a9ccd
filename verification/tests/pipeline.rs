use libimagentrylink::entry::{Entry, InternalLinker};
use libimagentrylink::error::{LinkErrorKind, StoreError};
use libimagentrylink::iter::{FilterLinksIter, LessThan, LinkIter, LinkPredicate};
use libimagentrylink::link::Link;
use libimagentrylink::store::{Store, StoreObject};
use libimagentrylink::storeid::StoreId;
use libimagentrylink::value::Value;

fn sid(name: &str) -> StoreId {
    StoreId::new_baseless(String::from(name)).unwrap()
}

fn plain(name: &str) -> Link {
    Link::Id { link: sid(name) }
}

fn link(store: &mut Store, from: &str, to: &str) {
    let mut a = store.retrieve(sid(from)).unwrap();
    let mut b = store.retrieve(sid(to)).unwrap();
    a.add_internal_link(&mut b).unwrap();
    store.update(&a).unwrap();
    store.update(&b).unwrap();
}

fn names(entries: &[Entry]) -> Vec<String> {
    entries.iter().map(|e| e.get_location().local_part().clone()).collect()
}

#[test]
fn store_creates_gets_and_deletes() {
    let mut store = Store::new();
    assert_eq!(store.len(), 0);
    let e = store.create(sid("a")).unwrap();
    assert_eq!(e.get_location(), &sid("a"));
    assert_eq!(e.link_field(), &None);
    assert_eq!(store.create(sid("a")).unwrap_err(), StoreError::EntryAlreadyExists);
    assert!(store.get(&sid("a")).unwrap().is_some());
    assert!(store.get(&sid("b")).unwrap().is_none());
    assert_eq!(store.len(), 1);
    assert_eq!(store.delete(&sid("b")).unwrap_err(), StoreError::EntryNotFound);
    assert!(store.delete(&sid("a")).is_ok());
    assert!(store.get(&sid("a")).unwrap().is_none());
    assert_eq!(store.len(), 0);
}

#[test]
fn store_retrieve_makes_or_finds() {
    let mut store = Store::new();
    store.retrieve(sid("a")).unwrap();
    link(&mut store, "a", "b");
    let again = store.retrieve(sid("a")).unwrap();
    assert_eq!(again.get_internal_links().unwrap().collect(), vec![plain("b")]);
    assert_eq!(store.len(), 2);
}

#[test]
fn store_update_writes_link_field() {
    let mut store = Store::new();
    let mut a = store.create(sid("a")).unwrap();
    let mut b = Entry::new(sid("b"));
    a.add_internal_link(&mut b).unwrap();
    assert_eq!(store.update(&b).unwrap_err(), StoreError::EntryNotFound);
    assert!(store.update(&a).is_ok());
    let held = store.get(&sid("a")).unwrap().unwrap();
    assert_eq!(held.link_field(), &Some(Value::Array(vec![Value::String(String::from("b"))])));
}

#[test]
fn store_ignores_store_root_in_identifiers() {
    let mut store = Store::new();
    store.create(StoreId::new(Some(String::from("/root")), String::from("a")).unwrap()).unwrap();
    assert!(store.get(&sid("a")).unwrap().is_some());
    assert_eq!(store.create(sid("a")).unwrap_err(), StoreError::EntryAlreadyExists);
}

#[test]
fn store_unhealthy_entries_fail() {
    let mut store = Store::new();
    let a = store.create(sid("a")).unwrap();
    assert!(store.set_state(&sid("a"), false, true));
    assert!(!store.set_state(&sid("zz"), false, true));
    assert_eq!(store.get(&sid("a")).unwrap_err(), StoreError::ReadFailed);
    assert_eq!(store.update(&a).unwrap_err(), StoreError::WriteFailed);
    assert_eq!(store.delete(&sid("a")).unwrap_err(), StoreError::WriteFailed);
    assert_eq!(store.retrieve(sid("a")).unwrap_err(), StoreError::ReadFailed);
    assert_eq!(store.len(), 1);
}

#[test]
fn store_backing_flag() {
    let mut store = Store::new();
    store.create(sid("a")).unwrap();
    assert!(store.exists_on_backing(&sid("a")));
    assert!(!store.exists_on_backing(&sid("b")));
    store.set_state(&sid("a"), true, false);
    assert!(!store.exists_on_backing(&sid("a")));
    assert!(store.get(&sid("a")).unwrap().is_some());
}

#[test]
fn store_walk_names_every_entry_in_order() {
    let mut store = Store::new();
    store.create(sid("b")).unwrap();
    store.create(sid("a")).unwrap();
    store.create(sid("c")).unwrap();
    store.delete(&sid("a")).unwrap();
    let walked: Vec<String> = store
        .walk()
        .into_iter()
        .map(|o| match o {
            StoreObject::Id(id) => id.local_part().clone(),
            StoreObject::Collection(c) => c,
        })
        .collect();
    assert_eq!(walked, vec![String::from("b"), String::from("c")]);
}

#[test]
fn getter_skips_dangling_links() {
    let mut store = Store::new();
    store.create(sid("a")).unwrap();
    store.create(sid("c")).unwrap();
    let mut it = LinkIter::new(vec![plain("a"), plain("gone"), plain("c")]).into_getter();
    let first = it.next(&store).unwrap().unwrap();
    assert_eq!(first.get_location(), &sid("a"));
    let second = it.next(&store).unwrap().unwrap();
    assert_eq!(second.get_location(), &sid("c"));
    assert!(it.next(&store).is_none());
    assert!(it.next(&store).is_none());
}

#[test]
fn getter_hands_on_read_errors() {
    let mut store = Store::new();
    store.create(sid("a")).unwrap();
    store.create(sid("b")).unwrap();
    store.set_state(&sid("a"), false, true);
    let mut it = LinkIter::new(vec![plain("a"), plain("b")]).into_getter();
    assert_eq!(it.next(&store).unwrap().unwrap_err(), LinkErrorKind::StoreReadError);
    assert!(it.next(&store).is_none());
}

#[test]
fn getter_yields_what_comes_before_an_error() {
    let mut store = Store::new();
    store.create(sid("a")).unwrap();
    store.create(sid("b")).unwrap();
    store.set_state(&sid("b"), false, true);
    let mut it = LinkIter::new(vec![plain("a"), plain("b"), plain("a")]).into_getter();
    assert_eq!(it.next(&store).unwrap().unwrap().get_location(), &sid("a"));
    assert_eq!(it.next(&store).unwrap().unwrap_err(), LinkErrorKind::StoreReadError);
    assert!(it.next(&store).is_none());
}

#[test]
fn less_than_one_link_yields_exactly_the_unlinked() {
    let mut store = Store::new();
    link(&mut store, "a", "x");
    link(&mut store, "a", "y");
    store.create(sid("b")).unwrap();
    let mut it = LinkIter::new(vec![plain("a"), plain("b")]).into_getter().with_less_than_n_links(1);
    let mut found = Vec::new();
    while let Some(r) = it.next(&store) {
        found.push(r.unwrap());
    }
    assert_eq!(names(&found), vec![String::from("b")]);
    assert_eq!(store.len(), 4);
}

#[test]
fn more_than_n_links_and_without_unlinked() {
    let mut store = Store::new();
    link(&mut store, "a", "x");
    link(&mut store, "a", "y");
    store.create(sid("b")).unwrap();
    let all = || LinkIter::new(vec![plain("a"), plain("b"), plain("x"), plain("nowhere")]);

    let mut it = all().into_getter().with_more_than_n_links(1);
    let mut found = Vec::new();
    while let Some(r) = it.next(&store) {
        found.push(r.unwrap());
    }
    assert_eq!(names(&found), vec![String::from("a")]);

    let mut it = all().into_getter().without_unlinked();
    let mut found = Vec::new();
    while let Some(r) = it.next(&store) {
        found.push(r.unwrap());
    }
    assert_eq!(names(&found), vec![String::from("a"), String::from("x")]);

    let mut it = all().into_getter().with_more_than_n_links(2);
    assert!(it.next(&store).is_none());
}

#[test]
fn filter_with_a_test_of_ones_own() {
    let mut store = Store::new();
    link(&mut store, "a", "x");
    link(&mut store, "a", "y");
    store.create(sid("b")).unwrap();
    let mut it = LinkIter::new(vec![plain("b"), plain("x"), plain("a"), plain("y")])
        .into_getter()
        .filtered_for_links(|links: &[Link]| links.len() == 1);
    let mut found = Vec::new();
    while let Some(r) = it.next(&store) {
        found.push(r.unwrap());
    }
    assert_eq!(names(&found), vec![String::from("x"), String::from("y")]);
}

#[test]
fn named_tests_go_by_the_number_of_links() {
    let one = vec![plain("a")];
    assert!(LessThan(2).test(&one));
    assert!(!LessThan(1).test(&one));
    let mut store = Store::new();
    store.create(sid("b")).unwrap();
    let mut it = FilterLinksIter::new(LinkIter::new(vec![plain("b")]).into_getter(), LessThan(1));
    assert_eq!(it.next(&store).unwrap().unwrap().get_location(), &sid("b"));
}

#[test]
fn filter_reports_unreadable_links_as_read_error() {
    let mut store = Store::new();
    store.create(sid("a")).unwrap();
    let bad = Entry::with_link_field(sid("a"), Some(Value::Other));
    store.update(&bad).unwrap();
    let mut it = LinkIter::new(vec![plain("a")]).into_getter().without_unlinked();
    assert_eq!(it.next(&store).unwrap().unwrap_err(), LinkErrorKind::StoreReadError);
    assert!(it.next(&store).is_none());
}

#[test]
fn collecting_deletes_the_unlinked_and_yields_the_linked() {
    let mut store = Store::new();
    link(&mut store, "a", "b");
    store.create(sid("c")).unwrap();
    let a_before = store.get(&sid("a")).unwrap().unwrap();
    let mut it = LinkIter::new(vec![plain("a"), plain("c")]).into_getter().delete_unlinked();
    let first = it.next(&mut store).unwrap().unwrap();
    assert_eq!(first.get_location(), &sid("a"));
    assert_eq!(first.link_field(), a_before.link_field());
    assert!(it.next(&mut store).is_none());
    assert!(store.get(&sid("c")).unwrap().is_none());
    assert!(store.get(&sid("a")).unwrap().is_some());
    assert!(store.get(&sid("b")).unwrap().is_some());
    assert_eq!(store.len(), 2);
}

#[test]
fn collecting_passes_over_what_is_gone_already() {
    let mut store = Store::new();
    store.create(sid("c")).unwrap();
    link(&mut store, "a", "b");
    let mut it =
        LinkIter::new(vec![plain("c"), plain("c"), plain("gone"), plain("b")]).into_getter().delete_unlinked();
    let found = it.next(&mut store).unwrap().unwrap();
    assert_eq!(found.get_location(), &sid("b"));
    assert!(it.next(&mut store).is_none());
    assert_eq!(store.len(), 2);
}

#[test]
fn collecting_stops_with_read_error_and_keeps_the_entry() {
    let mut store = Store::new();
    store.create(sid("a")).unwrap();
    store.set_state(&sid("a"), false, true);
    store.create(sid("c")).unwrap();
    let mut it = LinkIter::new(vec![plain("a"), plain("c")]).into_getter().delete_unlinked();
    assert_eq!(it.next(&mut store).unwrap().unwrap_err(), LinkErrorKind::StoreReadError);
    assert!(it.next(&mut store).is_none());
    assert_eq!(store.len(), 2);
}
