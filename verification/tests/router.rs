use myhs::mime::guess_content_type;
use myhs::paths::resolve_request;
use myhs::router::content_disposition;
use myhs::router::dispatch_get;
use myhs::router::http_status;
use myhs::router::PathKind;
use myhs::router::ServeDecision;

#[test]
fn missing_path_is_not_found_not_server_error() {
    let d = dispatch_get(true, PathKind::Missing);
    assert_eq!(d, ServeDecision::NotFound);
    assert_eq!(http_status(d), 404);
    assert_ne!(http_status(d), 500);
}

#[test]
fn escaping_request_is_forbidden_before_any_probe() {
    assert!(resolve_request("../secret").is_none());
    let d = dispatch_get(false, PathKind::Missing);
    assert_eq!(d, ServeDecision::Forbidden);
    assert_eq!(http_status(d), 403);
}

#[test]
fn live_probe_decides_directory_or_file() {
    assert_eq!(dispatch_get(true, PathKind::Directory), ServeDecision::ShowListing);
    assert_eq!(dispatch_get(true, PathKind::File), ServeDecision::SendFile);
    assert_eq!(http_status(ServeDecision::ShowListing), 200);
    assert_eq!(http_status(ServeDecision::SendFile), 200);
}

#[test]
fn uploaded_file_is_served_back_with_its_type_and_name() {
    let segs = resolve_request("d/report.txt").unwrap();
    assert_eq!(segs, vec!["d".to_string(), "report.txt".to_string()]);
    assert_eq!(guess_content_type("d/report.txt"), "text/plain; charset=utf-8");
    assert_eq!(content_disposition("report.txt"), "inline; filename=\"report.txt\"");
}
