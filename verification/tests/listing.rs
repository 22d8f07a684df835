use fileboard::error::GatewayError;
use fileboard::filetree::{
    directory_page, directory_rows, entry_at_or_before, guess_mime, sorted_order, listing_item, serve_files, serve_step, upload_endpoint, Body, EntryMeta,
    RawEntry, ServeAction, ServeEvent, ServePhase,
};
use fileboard::order::name_at_or_before;
use fileboard::path::resolve;

fn file(name: &str, len: u64) -> RawEntry {
    RawEntry { name: name.to_string(), meta: Some(EntryMeta { is_dir: false, len, modified: 86400 }) }
}

fn dir(name: &str) -> RawEntry {
    RawEntry { name: name.to_string(), meta: Some(EntryMeta { is_dir: true, len: 4096, modified: 86400 }) }
}

#[test]
fn listing_of_the_root_has_one_row_per_entry() {
    let root = resolve("/srv", "").ok().unwrap();
    let entries = vec![file("a.txt", 1536), dir("sub"), file("b.bin", 0)];
    let items = directory_rows(&root, &entries);
    assert_eq!(items.len(), 3);
    assert_eq!(items[0].name, "a.txt");
    assert_eq!(items[0].link, "a.txt");
    assert_eq!(items[0].size, "1.5 KB");
    assert_eq!(items[1].name, "b.bin");
    assert_eq!(items[1].size, "0 B");
    assert_eq!(items[2].name, "sub/");
    assert_eq!(items[2].link, "sub/");
    assert_eq!(items[2].size, "-");
}

fn shown(entries: Vec<RawEntry>) -> Vec<String> {
    let dir = resolve("/srv", "docs").ok().unwrap();
    directory_rows(&dir, &entries).into_iter().map(|item| item.name).collect()
}

#[test]
fn rows_ascend_by_name_whatever_the_order_of_reading() {
    let expected = vec!["../", "A.txt", "a", "a.txt", "ab/", "b.txt", "é"];
    let one = vec![file("b.txt", 1), file("a.txt", 2), dir("ab"), file("é", 3), file("a", 4), file("A.txt", 5)];
    let other = vec![file("é", 3), file("A.txt", 5), file("a", 4), dir("ab"), file("a.txt", 2), file("b.txt", 1)];
    assert_eq!(shown(one), expected);
    assert_eq!(shown(other), expected);
}

#[test]
fn entries_of_one_name_go_by_their_metadata() {
    let bare = RawEntry { name: "x".to_string(), meta: None };
    let one = vec![file("x", 2048), dir("x"), file("a", 1), file("x", 1), bare];
    let bare = RawEntry { name: "x".to_string(), meta: None };
    let other = vec![bare, file("x", 1), dir("x"), file("a", 1), file("x", 2048)];
    let root = resolve("/srv", "").ok().unwrap();
    for entries in [one, other] {
        let items = directory_rows(&root, &entries);
        assert_eq!(items[0].name, "a");
        assert_eq!((items[1].name.as_str(), items[1].size.as_str()), ("x", ""));
        assert_eq!((items[2].name.as_str(), items[2].size.as_str()), ("x", "1 B"));
        assert_eq!((items[3].name.as_str(), items[3].size.as_str()), ("x", "2 KB"));
        assert_eq!((items[4].name.as_str(), items[4].size.as_str()), ("x/", "-"));
    }
}

#[test]
fn the_order_of_names() {
    assert_eq!(sorted_order(&vec![file("c", 1), file("a", 1), file("b", 1)]), vec![1, 2, 0]);
    assert_eq!(sorted_order(&Vec::new()), Vec::<usize>::new());
    assert!(name_at_or_before("", "a"));
    assert!(name_at_or_before("a", "a"));
    assert!(name_at_or_before("a", "ab"));
    assert!(!name_at_or_before("ab", "a"));
    assert!(name_at_or_before("Z", "a"));
    assert!(!name_at_or_before("b", "a"));
    assert!(name_at_or_before("z", "é"));
    assert!(entry_at_or_before(&file("a", 9), &file("b", 1)));
    assert!(entry_at_or_before(&file("a", 1), &file("a", 9)));
    assert!(!entry_at_or_before(&file("a", 9), &file("a", 1)));
    assert!(entry_at_or_before(&file("a", 9), &dir("a")));
    assert!(!entry_at_or_before(&dir("a"), &file("a", 9)));
}

#[test]
fn listing_below_the_root_starts_with_the_parent() {
    let sub = resolve("/srv", "docs").ok().unwrap();
    let entries = vec![file("a.txt", 10), file("b.txt", 20)];
    let items = directory_rows(&sub, &entries);
    assert_eq!(items.len(), 3);
    assert_eq!(items[0].name, "../");
    assert_eq!(items[0].link, "../");
    assert_eq!(items[0].date, "");
    assert_eq!(items[0].size, "");
    assert_eq!(items[1].name, "a.txt");
    assert_eq!(items[2].name, "b.txt");
}

#[test]
fn listing_of_an_empty_directory() {
    let root = resolve("/srv", "/").ok().unwrap();
    assert_eq!(directory_rows(&root, &Vec::new()).len(), 0);
    let sub = resolve("/srv", "x/y").ok().unwrap();
    let items = directory_rows(&sub, &Vec::new());
    assert_eq!(items.len(), 1);
    assert_eq!(items[0].name, "../");
}

#[test]
fn links_are_percent_encoded() {
    let root = resolve("/srv", "").ok().unwrap();
    let entries = vec![file("a b.txt", 1), file("é.txt", 1), dir("x&y"), file("safe-_.~09AZaz", 1), file("100%", 1)];
    let items = directory_rows(&root, &entries);
    assert_eq!(items[0].name, "100%");
    assert_eq!(items[0].link, "100%25");
    assert_eq!(items[1].name, "a b.txt");
    assert_eq!(items[1].link, "a%20b.txt");
    assert_eq!(items[2].link, "safe-_.~09AZaz");
    assert_eq!(items[3].name, "x&y/");
    assert_eq!(items[3].link, "x%26y/");
    assert_eq!(items[4].link, "%C3%A9.txt");
}

#[test]
fn dates_have_the_shape_of_a_local_time() {
    let root = resolve("/srv", "").ok().unwrap();
    let old = RawEntry {
        name: "b".to_string(),
        meta: Some(EntryMeta { is_dir: false, len: 1, modified: -62167132800 }),
    };
    let late = RawEntry {
        name: "c".to_string(),
        meta: Some(EntryMeta { is_dir: false, len: 1, modified: 253402214399 }),
    };
    let items = directory_rows(&root, &vec![file("a", 1), old, late]);
    for item in &items {
        let date: Vec<char> = item.date.chars().collect();
        assert_eq!(date.len(), 19);
        for (i, c) in date.iter().enumerate() {
            match i {
                4 | 7 => assert_eq!(*c, '-'),
                10 => assert_eq!(*c, ' '),
                13 | 16 => assert_eq!(*c, ':'),
                _ => assert!(c.is_ascii_digit()),
            }
        }
    }
    assert!(items[1].date.starts_with("0000-01-0"));
    assert!(items[2].date.starts_with("9999-12-3"));
}

#[test]
fn an_entry_without_metadata_has_no_date_and_no_size() {
    let root = resolve("/srv", "").ok().unwrap();
    let items = directory_rows(&root, &vec![RawEntry { name: "gone".to_string(), meta: None }]);
    assert_eq!(items[0].name, "gone");
    assert_eq!(items[0].link, "gone");
    assert_eq!(items[0].date, "");
    assert_eq!(items[0].size, "");
}

#[test]
fn a_time_out_of_range_gives_no_date() {
    let root = resolve("/srv", "").ok().unwrap();
    let far = RawEntry { name: "far".to_string(), meta: Some(EntryMeta { is_dir: false, len: 1, modified: i64::MAX }) };
    let items = directory_rows(&root, &vec![far]);
    assert_eq!(items[0].date, "");
    assert_eq!(items[0].size, "1 B");
}

#[test]
fn a_row_from_its_parts() {
    let meta = Some(EntryMeta { is_dir: true, len: 0, modified: 0 });
    let item = listing_item("my dir", meta, "my%20dir".to_string(), Some("2024-01-02 03:04:05".to_string()));
    assert_eq!(item.name, "my dir/");
    assert_eq!(item.link, "my%20dir/");
    assert_eq!(item.date, "2024-01-02 03:04:05");
    assert_eq!(item.size, "-");
    let plain = listing_item("f", Some(EntryMeta { is_dir: false, len: 2048, modified: 0 }), "f".to_string(), None);
    assert_eq!(plain.date, "");
    assert_eq!(plain.size, "2 KB");
}

#[test]
fn the_upload_endpoint_of_a_listing() {
    let root = resolve("/srv", "").ok().unwrap();
    assert_eq!(upload_endpoint("http://h:3000", &root), "http://h:3000/");
    let sub = resolve("/srv", "a/b/").ok().unwrap();
    assert_eq!(upload_endpoint("http://h:3000", &sub), "http://h:3000/a/b");
}

#[test]
fn serving_plans_the_target_and_its_index() {
    let plan = serve_files("docs/../docs/guide.pdf", "/srv").ok().unwrap();
    assert_eq!(guess_mime("docs/../docs/guide.pdf"), "application/pdf");
    assert_eq!(plan.target_path(), "/srv/docs/guide.pdf");
    assert_eq!(plan.index_path(), "/srv/docs/guide.pdf/index.html");
    assert_eq!(plan.target().relative(), "docs/guide.pdf");
    assert_eq!(plan.content_type(Body::File), Some("application/pdf"));
    assert_eq!(plan.content_type(Body::Index), Some("text/html"));
    assert_eq!(plan.content_type(Body::Listing), Some("text/html"));
    assert_eq!(plan.content_type(Body::Empty), None);
}

#[test]
fn serving_refuses_a_path_out_of_the_root() {
    assert!(matches!(serve_files("../secret", "/srv"), Err(GatewayError::InvalidPath)));
    assert!(matches!(serve_files("a/../../secret", "/srv"), Err(GatewayError::InvalidPath)));
}

#[test]
fn serving_a_file() {
    assert_eq!(serve_step(ServePhase::Stat, ServeEvent::File), (ServePhase::FileRead, ServeAction::ReadFile));
    assert_eq!(
        serve_step(ServePhase::FileRead, ServeEvent::Loaded),
        (ServePhase::Done, ServeAction::Respond(200, Body::File))
    );
    assert_eq!(
        serve_step(ServePhase::FileRead, ServeEvent::Failed),
        (ServePhase::Done, ServeAction::Respond(404, Body::Empty))
    );
}

#[test]
fn serving_a_directory_with_an_index_file() {
    assert_eq!(
        serve_step(ServePhase::Stat, ServeEvent::Directory),
        (ServePhase::IndexProbe, ServeAction::ProbeIndex)
    );
    assert_eq!(
        serve_step(ServePhase::IndexProbe, ServeEvent::IndexPresent),
        (ServePhase::IndexRead, ServeAction::ReadIndex)
    );
    assert_eq!(
        serve_step(ServePhase::IndexRead, ServeEvent::Loaded),
        (ServePhase::Done, ServeAction::Respond(200, Body::Index))
    );
    assert_eq!(
        serve_step(ServePhase::IndexRead, ServeEvent::Failed),
        (ServePhase::Done, ServeAction::Respond(500, Body::Empty))
    );
}

#[test]
fn serving_a_directory_without_an_index_file() {
    assert_eq!(
        serve_step(ServePhase::IndexProbe, ServeEvent::IndexAbsent),
        (ServePhase::Listing, ServeAction::ListDirectory)
    );
    assert_eq!(
        serve_step(ServePhase::Listing, ServeEvent::Loaded),
        (ServePhase::Done, ServeAction::Respond(200, Body::Listing))
    );
    assert_eq!(
        serve_step(ServePhase::Listing, ServeEvent::Failed),
        (ServePhase::Done, ServeAction::Respond(404, Body::Empty))
    );
}

#[test]
fn serving_what_is_missing_or_out_of_turn() {
    assert_eq!(
        serve_step(ServePhase::Stat, ServeEvent::Missing),
        (ServePhase::Done, ServeAction::Respond(404, Body::Empty))
    );
    assert_eq!(
        serve_step(ServePhase::Stat, ServeEvent::Outside),
        (ServePhase::Done, ServeAction::Respond(404, Body::Empty))
    );
    assert_eq!(
        serve_step(ServePhase::Done, ServeEvent::Loaded),
        (ServePhase::Done, ServeAction::Respond(500, Body::Empty))
    );
    assert_eq!(
        serve_step(ServePhase::Stat, ServeEvent::Loaded),
        (ServePhase::Done, ServeAction::Respond(500, Body::Empty))
    );
}

#[test]
fn a_directory_that_was_not_read_fails_to_list() {
    let sub = resolve("/srv", "docs").ok().unwrap();
    assert!(matches!(directory_page(&sub, None), Err(GatewayError::ListingFailed)));
    let entries = vec![file("a.txt", 10)];
    let items = directory_page(&sub, Some(&entries)).ok().unwrap();
    assert_eq!(items.len(), 2);
    assert_eq!(items[0].name, "../");
    assert_eq!(items[1].name, "a.txt");
}

#[test]
fn one_file_is_served_under_one_type() {
    for path in ["a.html", "a.html/", "a.html/.", "./a.html", "x/../a.html", "a.html/b/.."] {
        let plan = serve_files(path, "/srv").ok().unwrap();
        assert_eq!(plan.target_path(), "/srv/a.html");
        assert_eq!(plan.content_type(Body::File), Some("text/html; charset=utf-8"));
    }
    let root = serve_files("", "/srv").ok().unwrap();
    assert_eq!(root.content_type(Body::File), Some("application/octet-stream"));
}
