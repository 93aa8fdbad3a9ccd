use std::cmp::Ordering;

use libimagentrylink::bm::BMModule;
use libimagentrylink::error::{from_store_error, LinkErrorKind, StoreError};
use libimagentrylink::link::Link;
use libimagentrylink::lister::{ListErrorKind, TableLister};
use libimagentrylink::printer::{
    decimal, DebugPrinter, FileInfo, FilePrinter, Level, SimplePrinter, TablePrinter,
};
use libimagentrylink::store_check::{
    StoreLinkConsistencyErrorCustomData, StoreLinkConsistencyErrorKind,
};
use libimagentrylink::storeid::{StoreId, StoreIdError};
use libimagentrylink::text::{rank_text, Rank};

fn s(text: &str) -> String {
    String::from(text)
}

fn sid(name: &str) -> StoreId {
    StoreId::new_baseless(s(name)).unwrap()
}

fn row(cells: &[&str]) -> Vec<String> {
    cells.iter().map(|c| s(c)).collect()
}

#[test]
fn identifier_must_be_relative() {
    assert_eq!(StoreId::new_baseless(s("/etc")).unwrap_err(), StoreIdError::LocalPartAbsolute);
    assert_eq!(StoreId::new(Some(s("/store")), s("/")).unwrap_err(), StoreIdError::LocalPartAbsolute);
    assert!(StoreId::new_baseless(s("")).is_ok());
    assert!(StoreId::new_baseless(s("a/b")).is_ok());
}

#[test]
fn identifiers_are_equal_whatever_root_they_carry() {
    let bare = sid("a/b");
    let based = StoreId::new(Some(s("/store")), s("a/b")).unwrap();
    assert_eq!(bare, based);
    assert!(bare.same_entry(&based));
    assert_ne!(bare, sid("a/c"));
    assert!(!bare.has_base());
    assert!(based.has_base());
    assert!(!based.clone().without_base().has_base());
    assert!(bare.clone().with_base(s("/x")).has_base());
}

#[test]
fn identifier_as_path() {
    assert_eq!(sid("a/b").to_str(), s("a/b"));
    assert_eq!(sid("a/b").local_part(), &s("a/b"));
    assert_eq!(StoreId::new(Some(s("/store")), s("a/b")).unwrap().to_str(), s("/store/a/b"));
    assert_eq!(StoreId::new(Some(s("/store/")), s("a")).unwrap().to_str(), s("/store/a"));
    assert_eq!(StoreId::new(Some(s("/")), s("a")).unwrap().to_str(), s("/a"));
    assert_eq!(StoreId::new(Some(s("")), s("a")).unwrap().to_str(), s("a"));
    assert_eq!(StoreId::new(Some(s("/store")), s("a")).unwrap().local_part(), &s("a"));
}

#[test]
fn texts_are_ranked_by_bytes() {
    assert_eq!(rank_text("a", "b"), Rank::Before);
    assert_eq!(rank_text("b", "a"), Rank::After);
    assert_eq!(rank_text("a", "a"), Rank::Same);
    assert_eq!(rank_text("", "a"), Rank::Before);
    assert_eq!(rank_text("a", ""), Rank::After);
    assert_eq!(rank_text("", ""), Rank::Same);
    assert_eq!(rank_text("ab", "abc"), Rank::Before);
    assert_eq!(rank_text("Z", "a"), Rank::Before);
    assert_eq!(rank_text("z", "\u{e9}"), Rank::Before);
    assert_eq!(rank_text("\u{e9}", "\u{4e2d}"), Rank::Before);
}

#[test]
fn links_are_ordered_by_form_target_and_annotation() {
    let plain = |n: &str| Link::Id { link: sid(n) };
    let noted = |n: &str, a: &str| Link::Annotated { link: sid(n), annotation: s(a) };
    assert_eq!(plain("a").compare(&plain("b")), Ordering::Less);
    assert_eq!(plain("b").compare(&plain("a")), Ordering::Greater);
    assert_eq!(plain("a").compare(&plain("a")), Ordering::Equal);
    assert_eq!(plain("z").compare(&noted("a", "")), Ordering::Less);
    assert_eq!(noted("a", "").compare(&plain("z")), Ordering::Greater);
    assert_eq!(noted("a", "y").compare(&noted("b", "x")), Ordering::Less);
    assert_eq!(noted("a", "x").compare(&noted("a", "y")), Ordering::Less);
    assert_eq!(noted("a", "y").compare(&noted("a", "x")), Ordering::Greater);
    assert_eq!(noted("a", "x").compare(&noted("a", "x")), Ordering::Equal);
}

#[test]
fn link_knows_its_target() {
    let based = StoreId::new(Some(s("/store")), s("t")).unwrap();
    let l = Link::Annotated { link: based.clone(), annotation: s("n") };
    assert!(l.eq_store_id(&sid("t")));
    assert!(!l.eq_store_id(&sid("u")));
    assert_eq!(l.get_store_id(), &sid("t"));
    assert_eq!(l.to_str(), s("/store/t"));
    assert_eq!(l.clone().without_base().to_str(), s("t"));
    assert_eq!(Link::from(sid("t")).with_base(s("/r")).to_str(), s("/r/t"));
    assert_eq!(l.into_storeid(), sid("t"));
    assert_eq!(Link::from(sid("t")), Link::Id { link: sid("t") });
}

#[test]
fn store_errors_become_link_errors() {
    assert_eq!(from_store_error(StoreError::ReadFailed), LinkErrorKind::StoreReadError);
    assert_eq!(from_store_error(StoreError::WriteFailed), LinkErrorKind::StoreWriteError);
    assert_eq!(from_store_error(StoreError::EntryAlreadyExists), LinkErrorKind::StoreWriteError);
    assert_eq!(from_store_error(StoreError::EntryNotFound), LinkErrorKind::StoreWriteError);
}

#[test]
fn findings_in_words() {
    let d = StoreLinkConsistencyErrorCustomData::DeadLink { target: sid("gone") };
    assert_eq!(d.description(), s("Dead Link to 'gone'"));
    let o = StoreLinkConsistencyErrorCustomData::OneDirectionalLink {
        source: sid("a"),
        target: sid("b"),
    };
    assert_eq!(o.description(), s("Link from 'a' to 'b' does exist, but not other way round"));
    assert_eq!(
        StoreLinkConsistencyErrorKind::StoreLinkConsistencyError.description(),
        s("Links in the store are not consistent")
    );
    assert_eq!(
        StoreLinkConsistencyErrorKind::LinkHandlingError.description(),
        s("Error in link handling")
    );
    assert_eq!(
        StoreLinkConsistencyErrorKind::StoreError.description(),
        s("Error while talking to the store")
    );
}

#[test]
fn numbers_in_decimal() {
    assert_eq!(decimal(0), s("0"));
    assert_eq!(decimal(7), s("7"));
    assert_eq!(decimal(10), s("10"));
    assert_eq!(decimal(109), s("109"));
    assert_eq!(decimal(4096), s("4096"));
    assert_eq!(decimal(usize::MAX), format!("{}", usize::MAX));
}

#[test]
fn bookmark_module_names() {
    let m = BMModule::new();
    assert_eq!(m.name(), s("bookmark"));
    assert_eq!(m.callnames(), row(&["bm", "bookmark"]));
    assert_eq!(m.get_commands(), row(&["add", "list", "remove"]));
    assert!(m.shutdown().is_ok());
}

#[test]
fn simple_printer_lines() {
    let quiet = SimplePrinter::new(false, false).print_file_custom(s("x")).unwrap();
    assert_eq!((quiet.level, quiet.quoted, quiet.text), (Level::Info, false, s("[File]: x")));
    let verbose = SimplePrinter::new(true, false).print_file_custom(s("x")).unwrap();
    assert_eq!((verbose.level, verbose.quoted, verbose.text), (Level::Info, false, s("x")));
    let debug = SimplePrinter::new(true, true).print_file_custom(s("x")).unwrap();
    assert_eq!((debug.level, debug.quoted, debug.text), (Level::Debug, true, s("x")));
    let file = FileInfo { owner: s("me"), id: s("id-1") };
    assert_eq!(SimplePrinter::new(false, false).print_file(&file).unwrap().text, s("[File]: id-1"));
    assert!(SimplePrinter::new(true, false).print_file(&file).is_none());
    assert!(SimplePrinter::new(false, true).print_file(&file).is_none());
}

#[test]
fn debug_printer_speaks_only_when_debugging() {
    assert!(DebugPrinter::new(true, false).print_file_custom(s("x")).is_none());
    let line = DebugPrinter::new(false, true).print_file_custom(s("x")).unwrap();
    assert_eq!((line.level, line.quoted, line.text), (Level::Debug, true, s("x")));
}

#[test]
fn table_printer_rows() {
    let p = TablePrinter::new(false, false);
    assert_eq!(p.titles(), row(&["File#", "Owner", "ID"]));
    let files = vec![
        FileInfo { owner: s("bm"), id: s("a") },
        FileInfo { owner: s("notes"), id: s("b") },
    ];
    assert_eq!(p.print_files(&files), vec![row(&["1", "bm", "a"]), row(&["2", "notes", "b"])]);
    assert_eq!(
        p.print_files_custom(&files, &row(&["x", "y"])),
        vec![row(&["1", "bm", "a", "x"]), row(&["2", "notes", "b", "y"])]
    );
    assert!(p.print_files(&vec![]).is_empty());
    assert_eq!(p.print_file_custom(s("t")).unwrap().text, s("[File]: t"));
}

#[test]
fn lister_numbers_and_fills_rows() {
    let lister = TableLister::new().with_header(row(&["name", "kind", "note"]));
    let table = lister.list(&vec![row(&["a", "x"]), row(&["b", "y", "z"]), row(&[])]).unwrap();
    assert_eq!(table.titles, Some(row(&["#", "name", "kind", "note"])));
    assert_eq!(
        table.rows,
        vec![row(&["0", "a", "x", ""]), row(&["1", "b", "y", "z"]), row(&["2", "", "", ""])]
    );
    assert!(table.print);
}

#[test]
fn lister_without_header_goes_by_the_first_line() {
    let lister = TableLister::new().with_idx(false);
    let table = lister.list(&vec![row(&["a", "b"]), row(&["c"])]).unwrap();
    assert_eq!(table.titles, None);
    assert_eq!(table.rows, vec![row(&["a", "b"]), row(&["c", ""])]);
    let err = lister.list(&vec![row(&["a"]), row(&["b", "c"])]).unwrap_err();
    assert_eq!(err, ListErrorKind::FormatError);
}

#[test]
fn lister_refuses_lines_longer_than_the_header() {
    let lister = TableLister::new().with_header(row(&["only"]));
    assert_eq!(lister.list(&vec![row(&["a", "b"])]).unwrap_err(), ListErrorKind::FormatError);
    assert!(lister.list(&vec![row(&["a"])]).is_ok());
}

#[test]
fn lister_print_switch() {
    let lines = vec![row(&["a"])];
    assert!(TableLister::new().list(&lines).unwrap().print);
    assert!(!TableLister::new().print_empty(true).list(&lines).unwrap().print);
    assert!(!TableLister::new().list(&vec![]).unwrap().print);
    assert!(!TableLister::new().print_empty(true).list(&vec![]).unwrap().print);
    let table = TableLister::new().with_header(row(&["h"])).with_idx(false).list(&vec![]).unwrap();
    assert_eq!(table.titles, Some(row(&["h"])));
    assert!(table.rows.is_empty());
}

#[test]
fn link_target_is_read_as_url() {
    let link = libimagentrylink::markdown::Link {
        title: s("example text"),
        link: s("http://EXAMPLE.com"),
    };
    let url = link.into_urllink().unwrap();
    assert_eq!(url.title, s("example text"));
    assert_eq!(url.link, s("http://example.com/"));
    let kept = libimagentrylink::markdown::Link { title: s("foo"), link: s("http://example.com/foo") };
    assert_eq!(kept.into_urllink().unwrap().link, s("http://example.com/foo"));
}

#[test]
fn link_target_that_is_no_url_is_refused() {
    let link = libimagentrylink::markdown::Link { title: s("t"), link: s("no url at all") };
    assert_eq!(
        link.into_urllink().unwrap_err(),
        libimagentrylink::markdown::MarkdownErrorKind::LinkParsingError
    );
    let relative = libimagentrylink::markdown::Link { title: s("t"), link: s("/only/a/path") };
    assert!(relative.into_urllink().is_err());
}
