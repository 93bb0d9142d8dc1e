use myhs::paths::is_valid_segment_str;
use myhs::paths::join_segments;
use myhs::paths::parent_path;
use myhs::paths::resolve_request;

#[test]
fn resolve_empty_is_root() {
    assert!(resolve_request("").unwrap().is_empty());
}

#[test]
fn resolve_bare_separator_is_root() {
    assert!(resolve_request("/").unwrap().is_empty());
}

#[test]
fn resolve_plain_subpath() {
    let segs = resolve_request("a/b.txt").unwrap();
    assert_eq!(segs, vec!["a".to_string(), "b.txt".to_string()]);
}

#[test]
fn resolve_drops_empty_and_dot_pieces() {
    let segs = resolve_request("a//.//b/").unwrap();
    assert_eq!(segs, vec!["a".to_string(), "b".to_string()]);
}

#[test]
fn resolve_dotdot_pops_within_root() {
    assert_eq!(resolve_request("a/../b").unwrap(), vec!["b".to_string()]);
    assert!(resolve_request("a/..").unwrap().is_empty());
}

#[test]
fn resolve_rejects_escapes() {
    assert!(resolve_request("..").is_none());
    assert!(resolve_request("../x").is_none());
    assert!(resolve_request("a/../../x").is_none());
    assert!(resolve_request("a/b/../../../c").is_none());
}

#[test]
fn resolve_rejects_absolute_override() {
    assert!(resolve_request("/etc/passwd").is_none());
    assert!(resolve_request("//host/share").is_none());
}

#[test]
fn resolve_is_idempotent_on_examples() {
    for p in ["", "/", "a/b", "a//b/./c/..", "dir/file.txt", "x/.."] {
        let first = resolve_request(p).unwrap();
        let joined = join_segments(&first);
        let second = resolve_request(&joined).unwrap();
        assert_eq!(first, second);
        assert_eq!(join_segments(&second), joined);
    }
}

#[test]
fn join_concatenates_with_separators() {
    let segs = resolve_request("a/b/c").unwrap();
    assert_eq!(join_segments(&segs), "a/b/c");
    assert_eq!(join_segments(&resolve_request("").unwrap()), "");
}

#[test]
fn parent_of_nested_and_root() {
    let segs = resolve_request("a/b/c").unwrap();
    assert_eq!(parent_path(&segs).unwrap(), "a/b");
    let one = resolve_request("a").unwrap();
    assert_eq!(parent_path(&one).unwrap(), "");
    let root = resolve_request("").unwrap();
    assert!(parent_path(&root).is_none());
}

#[test]
fn segment_validity() {
    assert!(is_valid_segment_str("report.txt"));
    assert!(is_valid_segment_str("..."));
    assert!(!is_valid_segment_str(""));
    assert!(!is_valid_segment_str("a/b"));
    assert!(!is_valid_segment_str("."));
    assert!(!is_valid_segment_str(".."));
}
