use myhs::listing::build_listing;
use myhs::listing::EntryInfo;
use myhs::paths::resolve_request;

#[test]
fn directories_come_first_each_group_sorted() {
    let entries = vec![
        EntryInfo { name: "zeta.txt".to_string(), is_dir: false, size: Some(3), modified: None },
        EntryInfo { name: "beta".to_string(), is_dir: true, size: None, modified: None },
        EntryInfo { name: "alpha.txt".to_string(), is_dir: false, size: Some(1), modified: None },
        EntryInfo { name: "delta".to_string(), is_dir: true, size: None, modified: None },
    ];
    let segs = resolve_request("d").unwrap();
    let page = build_listing(entries, &segs);
    let names: Vec<&str> = page.entries.iter().map(|x| x.name.as_str()).collect();
    assert_eq!(names, vec!["beta", "delta", "alpha.txt", "zeta.txt"]);
    assert_eq!(page.current, "d");
    assert_eq!(page.parent.as_deref(), Some(""));
}

#[test]
fn sorting_is_by_codepoint_case_sensitive() {
    let entries = vec![
        EntryInfo { name: "banana".to_string(), is_dir: false, size: Some(0), modified: None },
        EntryInfo { name: "Apple".to_string(), is_dir: false, size: Some(0), modified: None },
        EntryInfo { name: "apple".to_string(), is_dir: false, size: Some(0), modified: None },
    ];
    let segs = resolve_request("").unwrap();
    let page = build_listing(entries, &segs);
    let names: Vec<&str> = page.entries.iter().map(|x| x.name.as_str()).collect();
    assert_eq!(names, vec!["Apple", "apple", "banana"]);
}

#[test]
fn empty_directory_lists_nothing() {
    let segs = resolve_request("").unwrap();
    let page = build_listing(Vec::new(), &segs);
    assert!(page.entries.is_empty());
    assert!(page.parent.is_none());
    assert_eq!(page.current, "");
}

#[test]
fn parent_points_one_level_up() {
    let segs = resolve_request("a/b/c").unwrap();
    let page = build_listing(Vec::new(), &segs);
    assert_eq!(page.parent.as_deref(), Some("a/b"));
    assert_eq!(page.current, "a/b/c");
}

#[test]
fn entry_data_is_preserved() {
    let entries = vec![
        EntryInfo {
            name: "file.bin".to_string(),
            is_dir: false,
            size: Some(2048),
            modified: Some("recently".to_string()),
        },
    ];
    let segs = resolve_request("").unwrap();
    let page = build_listing(entries, &segs);
    assert_eq!(page.entries.len(), 1);
    assert_eq!(page.entries[0].name, "file.bin");
    assert!(!page.entries[0].is_dir);
    assert_eq!(page.entries[0].size, Some(2048));
    assert_eq!(page.entries[0].modified.as_deref(), Some("recently"));
}
