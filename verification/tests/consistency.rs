use libimagentrylink::entry::{Entry, InternalLinker};
use libimagentrylink::store::{Store, StoreObject};
use libimagentrylink::store_check::{
    aggregate_link_network, check_links, collect_edges, StoreLinkConsistencyErrorCustomData,
    StoreLinkConsistencyErrorKind, StoreLinkConsistentExt,
};
use libimagentrylink::storeid::StoreId;
use libimagentrylink::value::Value;

fn sid(name: &str) -> StoreId {
    StoreId::new_baseless(String::from(name)).unwrap()
}

fn link(store: &mut Store, from: &str, to: &str) {
    let mut a = store.retrieve(sid(from)).unwrap();
    let mut b = store.retrieve(sid(to)).unwrap();
    a.add_internal_link(&mut b).unwrap();
    store.update(&a).unwrap();
    store.update(&b).unwrap();
}

fn write_links(store: &mut Store, name: &str, targets: &[&str]) {
    let field = Value::Array(targets.iter().map(|t| Value::String(String::from(*t))).collect());
    if store.get(&sid(name)).unwrap().is_none() {
        store.create(sid(name)).unwrap();
    }
    store.update(&Entry::with_link_field(sid(name), Some(field))).unwrap();
}

fn dead(findings: &[StoreLinkConsistencyErrorCustomData]) -> Vec<String> {
    findings
        .iter()
        .map(|f| match f {
            StoreLinkConsistencyErrorCustomData::DeadLink { target } => target.local_part().clone(),
            other => panic!("not a dead link: {:?}", other),
        })
        .collect()
}

fn one_way(findings: &[StoreLinkConsistencyErrorCustomData]) -> Vec<(String, String)> {
    findings
        .iter()
        .map(|f| match f {
            StoreLinkConsistencyErrorCustomData::OneDirectionalLink { source, target } => {
                (source.local_part().clone(), target.local_part().clone())
            }
            other => panic!("not a one-way link: {:?}", other),
        })
        .collect()
}

fn pair(a: &str, b: &str) -> (String, String) {
    (String::from(a), String::from(b))
}

#[test]
fn empty_store_is_consistent() {
    assert!(Store::new().check_link_consistency().is_ok());
}

#[test]
fn store_without_links_is_consistent() {
    let mut store = Store::new();
    store.create(sid("a")).unwrap();
    store.create(sid("b")).unwrap();
    assert!(store.check_link_consistency().is_ok());
}

#[test]
fn store_linked_by_the_protocol_is_consistent() {
    let mut store = Store::new();
    link(&mut store, "1", "2");
    link(&mut store, "1", "3");
    link(&mut store, "4", "1");
    link(&mut store, "2", "3");
    assert!(store.check_link_consistency().is_ok());
}

#[test]
fn one_way_link_is_named_with_the_lacking_entry_second() {
    let mut store = Store::new();
    store.create(sid("B")).unwrap();
    write_links(&mut store, "A", &["B"]);
    let err = store.check_link_consistency().unwrap_err();
    assert_eq!(err.kind, StoreLinkConsistencyErrorKind::StoreLinkConsistencyError);
    assert_eq!(one_way(&err.findings), vec![pair("A", "B")]);
}

#[test]
fn every_one_way_link_is_named() {
    let mut store = Store::new();
    link(&mut store, "a", "b");
    write_links(&mut store, "c", &["a", "b"]);
    write_links(&mut store, "d", &["c"]);
    let err = store.check_link_consistency().unwrap_err();
    assert_eq!(err.kind, StoreLinkConsistencyErrorKind::StoreLinkConsistencyError);
    assert_eq!(one_way(&err.findings), vec![pair("c", "a"), pair("c", "b"), pair("d", "c")]);
}

#[test]
fn link_to_nowhere_is_dead() {
    let mut store = Store::new();
    write_links(&mut store, "A", &["nowhere"]);
    let err = store.check_link_consistency().unwrap_err();
    assert_eq!(err.kind, StoreLinkConsistencyErrorKind::LinkHandlingError);
    assert_eq!(dead(&err.findings), vec![String::from("nowhere")]);
}

#[test]
fn entry_missing_on_backing_is_dead() {
    let mut store = Store::new();
    link(&mut store, "a", "b");
    store.set_state(&sid("b"), true, false);
    let err = store.check_link_consistency().unwrap_err();
    assert_eq!(err.kind, StoreLinkConsistencyErrorKind::LinkHandlingError);
    assert_eq!(dead(&err.findings), vec![String::from("b")]);
}

#[test]
fn dead_links_come_before_one_way_links_and_all_are_named() {
    let mut store = Store::new();
    store.create(sid("b")).unwrap();
    write_links(&mut store, "a", &["gone", "b", "lost"]);
    let err = store.check_link_consistency().unwrap_err();
    assert_eq!(err.kind, StoreLinkConsistencyErrorKind::LinkHandlingError);
    assert_eq!(dead(&err.findings), vec![String::from("gone"), String::from("lost")]);
}

#[test]
fn unreadable_entry_fails_the_check_as_store_error() {
    let mut store = Store::new();
    link(&mut store, "a", "b");
    store.set_state(&sid("a"), false, true);
    let err = store.check_link_consistency().unwrap_err();
    assert_eq!(err.kind, StoreLinkConsistencyErrorKind::StoreError);
    assert!(err.findings.is_empty());
}

#[test]
fn malformed_link_field_fails_the_check_as_store_error() {
    let mut store = Store::new();
    store.create(sid("a")).unwrap();
    store.update(&Entry::with_link_field(sid("a"), Some(Value::Other))).unwrap();
    let err = store.check_link_consistency().unwrap_err();
    assert_eq!(err.kind, StoreLinkConsistencyErrorKind::StoreError);
}

#[test]
fn entry_without_links_needs_no_backing() {
    let mut store = Store::new();
    store.create(sid("alone")).unwrap();
    store.set_state(&sid("alone"), true, false);
    assert!(store.check_link_consistency().is_ok());
}

#[test]
fn walk_may_name_what_is_no_entry() {
    let mut store = Store::new();
    link(&mut store, "a", "b");
    let walked = vec![
        StoreObject::Collection(String::from("dir")),
        StoreObject::Id(sid("a")),
        StoreObject::Id(sid("not-there")),
        StoreObject::Id(sid("b")),
    ];
    assert!(check_links(&store, &walked).is_ok());
}

#[test]
fn partial_walk_sees_one_way_links() {
    let mut store = Store::new();
    link(&mut store, "a", "b");
    let walked = vec![StoreObject::Id(sid("a"))];
    let err = check_links(&store, &walked).unwrap_err();
    assert_eq!(one_way(&err.findings), vec![pair("a", "b")]);
}

#[test]
fn network_notes_links_at_both_ends() {
    let mut store = Store::new();
    link(&mut store, "a", "b");
    write_links(&mut store, "c", &["a"]);
    let edges = collect_edges(&store, &store.walk()).unwrap();
    let listed: Vec<(String, String)> = edges
        .iter()
        .map(|e| (e.source.local_part().clone(), e.target.local_part().clone()))
        .collect();
    assert_eq!(listed, vec![pair("a", "b"), pair("b", "a"), pair("c", "a")]);
    let net = aggregate_link_network(&edges);
    let ids: Vec<String> = net.iter().map(|n| n.id.local_part().clone()).collect();
    assert_eq!(ids, vec![String::from("b"), String::from("a"), String::from("c")]);
    let a = &net[1];
    assert_eq!(a.outgoing, vec![sid("b")]);
    assert_eq!(a.incoming, vec![sid("b"), sid("c")]);
    let c = &net[2];
    assert_eq!(c.outgoing, vec![sid("a")]);
    assert!(c.incoming.is_empty());
}
