use kobo_transfer::path::join;
use kobo_transfer::scan::{scan_flat, scan_recursive, Contents, Entry, Node, NodeKind};
use kobo_transfer::filter::EntryKind;
use kobo_transfer::transfer::{
    acsm, books_to_move, delete_set, files_to_remove, downloads_dir, epub, library_dir, move_set, move_target, plan_moves,
    reader_cache_dir, record_outcome, report, Config, Move,
};

fn epub_file(name: &str) -> Entry {
    Entry { name: name.to_string(), kind: EntryKind::File }
}

fn pairs(moves: &[Move]) -> Vec<(String, String)> {
    moves.iter().map(|m| (m.from.clone(), m.to.clone())).collect()
}

#[test]
fn config_from_words() {
    let words = vec!["kobo-transfer".to_string(), "/media/KOBO".to_string()];
    let c = Config::build(Some("/home/r".to_string()), words).unwrap();
    assert_eq!(c.dest(), "/media/KOBO");
    assert_eq!(c.home(), "/home/r");
    let c = Config::build(Some("/h".to_string()), vec!["a".to_string(), "b".to_string()]).unwrap();
    assert_eq!(c.dest(), "b");
    assert!(Config::build(None, vec!["/media/KOBO".to_string()]).is_none());
    assert!(Config::build(Some("/h".to_string()), Vec::new()).is_none());
    let only_program = vec!["kobo-transfer".to_string()];
    assert!(Config::build(Some("/home/r".to_string()), only_program).is_none());
    let c = Config::new("/d".to_string(), "/h".to_string());
    assert_eq!((c.dest(), c.home()), ("/d", "/h"));
}

#[test]
fn source_folders() {
    assert_eq!(downloads_dir("/tmp/h"), "/tmp/h/Downloads");
    assert_eq!(library_dir("/tmp/h"), "/tmp/h/Calibre Library");
    assert_eq!(reader_cache_dir("/tmp/h"), "/tmp/h/Documents/Digital Editions");
    assert_eq!((epub(), acsm()), ("epub", "acsm"));
}

#[test]
fn move_targets() {
    assert_eq!(move_target("/tmp/d", "/tmp/h/Downloads/a.epub"), Some("/tmp/d/a.epub".to_string()));
    assert_eq!(move_target("/tmp/d/", "x/b.epub"), Some("/tmp/d//b.epub".to_string()));
    assert_eq!(move_target("/tmp/d", "/tmp/h/"), Some("/tmp/d/h".to_string()));
    assert_eq!(move_target("/tmp/d", "/tmp/h/.."), None);
}

#[test]
fn plan_skips_paths_without_name_and_keeps_order() {
    let files = vec!["/a/x.epub".to_string(), "/a/..".to_string(), "/b/x.epub".to_string()];
    let moves = plan_moves("/d", &files);
    assert_eq!(
        pairs(&moves),
        vec![
            ("/a/x.epub".to_string(), "/d/x.epub".to_string()),
            ("/b/x.epub".to_string(), "/d/x.epub".to_string()),
        ]
    );
}

#[test]
fn move_set_orders_and_tolerates_failures() {
    let d = Ok(vec!["/h/Downloads/a.epub".to_string()]);
    let l = Some(vec!["/h/Calibre Library/x/b.epub".to_string()]);
    assert_eq!(
        move_set(d, l),
        vec!["/h/Downloads/a.epub".to_string(), "/h/Calibre Library/x/b.epub".to_string()]
    );
    assert_eq!(move_set(Err("denied".to_string()), None), Vec::<String>::new());
}

#[test]
fn delete_set_reports_only_reader_copies_failure() {
    let mut errors = vec!["first".to_string()];
    let set = delete_set(Err("no downloads".to_string()), Err("no cache".to_string()), &mut errors);
    assert!(set.is_empty());
    assert_eq!(errors, vec!["first".to_string(), "no cache".to_string()]);
    let mut errors = Vec::new();
    let set = delete_set(
        Ok(vec!["/h/Downloads/b.acsm".to_string()]),
        Ok(vec!["/h/Documents/Digital Editions/c.epub".to_string()]),
        &mut errors,
    );
    assert_eq!(
        set,
        vec!["/h/Downloads/b.acsm".to_string(), "/h/Documents/Digital Editions/c.epub".to_string()]
    );
    assert!(errors.is_empty());
}

#[test]
fn report_joins_failures() {
    assert_eq!(report(&Vec::new()), Ok(()));
    let mut errors = Vec::new();
    record_outcome(&mut errors, Ok(()));
    record_outcome(&mut errors, Err("one".to_string()));
    record_outcome(&mut errors, Ok(()));
    record_outcome(&mut errors, Err("two".to_string()));
    assert_eq!(errors, vec!["one".to_string(), "two".to_string()]);
    assert_eq!(report(&errors), Err("one\ntwo".to_string()));
    assert_eq!(report(&vec!["only".to_string()]), Err("only".to_string()));
}

fn downloads_scan(home: &str, names: &[&str], tag: &str) -> Result<Vec<String>, String> {
    let listing = names.iter().map(|n| epub_file(n)).collect();
    scan_flat(&downloads_dir(home), Ok(listing), tag)
}

#[test]
fn book_in_downloads_moves() {
    let c = Config::new("/tmp/d".to_string(), "/tmp/h".to_string());
    let found = downloads_scan(c.home(), &["a.epub"], epub());
    let walked = scan_recursive(&library_dir(c.home()), &Contents::Listed(Vec::new()), epub());
    let moves = plan_moves(c.dest(), &move_set(found, walked));
    assert_eq!(
        pairs(&moves),
        vec![("/tmp/h/Downloads/a.epub".to_string(), "/tmp/d/a.epub".to_string())]
    );
    let mut errors = Vec::new();
    record_outcome(&mut errors, Ok(()));
    let rm = delete_set(downloads_scan(c.home(), &["a.epub"], acsm()), Ok(Vec::new()), &mut errors);
    assert!(rm.is_empty());
    assert_eq!(report(&errors), Ok(()));
}

#[test]
fn missing_destination_fails_once() {
    let c = Config::new("/tmp/d".to_string(), "/tmp/h".to_string());
    let found = downloads_scan(c.home(), &["a.epub"], epub());
    let moves = plan_moves(c.dest(), &move_set(found, None));
    assert_eq!(moves.len(), 1);
    let mut errors = Vec::new();
    record_outcome(&mut errors, Err("No such file or directory (os error 2)".to_string()));
    let _ = delete_set(Ok(Vec::new()), Ok(Vec::new()), &mut errors);
    assert_eq!(errors.len(), 1);
    assert_eq!(report(&errors), Err("No such file or directory (os error 2)".to_string()));
}

#[test]
fn licence_file_removed() {
    let mut errors = Vec::new();
    let licences = downloads_scan("/tmp/h", &["b.acsm"], acsm());
    let rm = delete_set(licences, Ok(Vec::new()), &mut errors);
    assert_eq!(rm, vec!["/tmp/h/Downloads/b.acsm".to_string()]);
    record_outcome(&mut errors, Ok(()));
    assert!(errors.is_empty());
    assert_eq!(report(&errors), Ok(()));
}

#[test]
fn nested_library_book_moves() {
    let tree = Contents::Listed(vec![Node {
        name: "sub".to_string(),
        kind: NodeKind::Dir(Contents::Listed(vec![Node {
            name: "c.epub".to_string(),
            kind: NodeKind::File,
        }])),
    }]);
    let walked = scan_recursive(&library_dir("/tmp/h"), &tree, epub());
    let moves = plan_moves("/tmp/d", &move_set(Ok(Vec::new()), walked));
    assert_eq!(
        pairs(&moves),
        vec![("/tmp/h/Calibre Library/sub/c.epub".to_string(), "/tmp/d/c.epub".to_string())]
    );
}

#[test]
fn second_run_has_nothing_to_do() {
    let home = "/tmp/h";
    let found = downloads_scan(home, &[], epub());
    let walked = scan_recursive(&library_dir(home), &Contents::Listed(Vec::new()), epub());
    let moves = plan_moves("/tmp/d", &move_set(found, walked));
    assert!(moves.is_empty());
    let mut errors = Vec::new();
    let rm = delete_set(
        downloads_scan(home, &[], acsm()),
        scan_flat(&join(&reader_cache_dir(home), ""), Ok(Vec::new()), epub()),
        &mut errors,
    );
    assert!(rm.is_empty());
    assert_eq!(report(&errors), Ok(()));
}

#[test]
fn composed_transfer_plan() {
    let c = Config::new("/tmp/d".to_string(), "/tmp/h".to_string());
    let library = Contents::Listed(vec![Node {
        name: "sub".to_string(),
        kind: NodeKind::Dir(Contents::Listed(vec![Node { name: "c.epub".to_string(), kind: NodeKind::File }])),
    }]);
    let moves = books_to_move(&c, Ok(vec![epub_file("a.epub"), epub_file("b.acsm")]), &library);
    assert_eq!(
        pairs(&moves),
        vec![
            ("/tmp/h/Downloads/a.epub".to_string(), "/tmp/d/a.epub".to_string()),
            ("/tmp/h/Calibre Library/sub/c.epub".to_string(), "/tmp/d/c.epub".to_string()),
        ]
    );
    let moves = books_to_move(&c, Err("gone".to_string()), &Contents::Unreadable);
    assert!(moves.is_empty());
    let mut errors = Vec::new();
    let rm = files_to_remove(
        &c,
        Ok(vec![epub_file("b.acsm"), epub_file("a.epub")]),
        Ok(vec![epub_file("c.epub")]),
        &mut errors,
    );
    assert_eq!(
        rm,
        vec![
            "/tmp/h/Downloads/b.acsm".to_string(),
            "/tmp/h/Documents/Digital Editions/c.epub".to_string(),
        ]
    );
    assert!(errors.is_empty());
    let rm = files_to_remove(&c, Err("gone".to_string()), Err("no cache".to_string()), &mut errors);
    assert!(rm.is_empty());
    assert_eq!(errors, vec!["no cache".to_string()]);
    assert_eq!(report(&errors), Err("no cache".to_string()));
}
