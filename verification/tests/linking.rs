use libimagentrylink::entry::{Entry, InternalLinker};
use libimagentrylink::store::Store;
use libimagentrylink::storeid::StoreId;

fn id(name: &str) -> StoreId {
    StoreId::new(Some(String::from("/")), String::from(name)).unwrap()
}

fn count(entry: &Entry) -> usize {
    entry.get_internal_links().unwrap().collect().len()
}

#[test]
fn test_new_entry_no_links() {
    let mut store = Store::new();
    let entry = store.create(id("test_new_entry_no_links")).unwrap();
    let links = entry.get_internal_links();
    assert!(links.is_ok());
    let links = links.unwrap();
    assert_eq!(links.collect().len(), 0);
}

#[test]
fn test_link_two_entries() {
    let mut store = Store::new();
    let mut e1 = store.create(id("test_link_two_entries1")).unwrap();
    assert!(e1.get_internal_links().is_ok());

    let mut e2 = store.create(id("test_link_two_entries2")).unwrap();
    assert!(e2.get_internal_links().is_ok());

    {
        assert!(e1.add_internal_link(&mut e2).is_ok());

        let e1_links = e1.get_internal_links().unwrap().collect();
        let e2_links = e2.get_internal_links().unwrap().collect();

        assert_eq!(e1_links.len(), 1);
        assert_eq!(e2_links.len(), 1);

        assert!(e1_links
            .first()
            .map(|l| l.clone().with_base(String::from("/")).eq_store_id(e2.get_location()))
            .unwrap_or(false));
        assert!(e2_links
            .first()
            .map(|l| l.clone().with_base(String::from("/")).eq_store_id(e1.get_location()))
            .unwrap_or(false));
    }

    {
        assert!(e1.remove_internal_link(&mut e2).is_ok());

        let e2_links = e2.get_internal_links().unwrap().collect();
        assert_eq!(e2_links.len(), 0, "Expected [], got: {:?}", e2_links);

        let e1_links = e1.get_internal_links().unwrap().collect();
        assert_eq!(e1_links.len(), 0, "Expected [], got: {:?}", e1_links);
    }
}

#[test]
fn test_multiple_links() {
    let mut store = Store::new();

    let mut e1 = store.retrieve(id("1")).unwrap();
    let mut e2 = store.retrieve(id("2")).unwrap();
    let mut e3 = store.retrieve(id("3")).unwrap();
    let mut e4 = store.retrieve(id("4")).unwrap();
    let mut e5 = store.retrieve(id("5")).unwrap();

    assert!(e1.add_internal_link(&mut e2).is_ok());

    assert_eq!(count(&e1), 1);
    assert_eq!(count(&e2), 1);
    assert_eq!(count(&e3), 0);
    assert_eq!(count(&e4), 0);
    assert_eq!(count(&e5), 0);

    assert!(e1.add_internal_link(&mut e3).is_ok());

    assert_eq!(count(&e1), 2);
    assert_eq!(count(&e2), 1);
    assert_eq!(count(&e3), 1);
    assert_eq!(count(&e4), 0);
    assert_eq!(count(&e5), 0);

    assert!(e1.add_internal_link(&mut e4).is_ok());

    assert_eq!(count(&e1), 3);
    assert_eq!(count(&e2), 1);
    assert_eq!(count(&e3), 1);
    assert_eq!(count(&e4), 1);
    assert_eq!(count(&e5), 0);

    assert!(e1.add_internal_link(&mut e5).is_ok());

    assert_eq!(count(&e1), 4);
    assert_eq!(count(&e2), 1);
    assert_eq!(count(&e3), 1);
    assert_eq!(count(&e4), 1);
    assert_eq!(count(&e5), 1);

    assert!(e5.remove_internal_link(&mut e1).is_ok());

    assert_eq!(count(&e1), 3);
    assert_eq!(count(&e2), 1);
    assert_eq!(count(&e3), 1);
    assert_eq!(count(&e4), 1);
    assert_eq!(count(&e5), 0);

    assert!(e4.remove_internal_link(&mut e1).is_ok());

    assert_eq!(count(&e1), 2);
    assert_eq!(count(&e2), 1);
    assert_eq!(count(&e3), 1);
    assert_eq!(count(&e4), 0);
    assert_eq!(count(&e5), 0);

    assert!(e3.remove_internal_link(&mut e1).is_ok());

    assert_eq!(count(&e1), 1);
    assert_eq!(count(&e2), 1);
    assert_eq!(count(&e3), 0);
    assert_eq!(count(&e4), 0);
    assert_eq!(count(&e5), 0);

    assert!(e2.remove_internal_link(&mut e1).is_ok());

    assert_eq!(count(&e1), 0);
    assert_eq!(count(&e2), 0);
    assert_eq!(count(&e3), 0);
    assert_eq!(count(&e4), 0);
    assert_eq!(count(&e5), 0);
}

#[test]
fn test_link_deleting() {
    let mut store = Store::new();

    let mut e1 = store.retrieve(id("1")).unwrap();
    let mut e2 = store.retrieve(id("2")).unwrap();

    assert_eq!(count(&e1), 0);
    assert_eq!(count(&e2), 0);

    assert!(e1.add_internal_link(&mut e2).is_ok());

    assert_eq!(count(&e1), 1);
    assert_eq!(count(&e2), 1);

    assert!(e1.remove_internal_link(&mut e2).is_ok());

    assert_eq!(count(&e1), 0);
    assert_eq!(count(&e2), 0);
}
