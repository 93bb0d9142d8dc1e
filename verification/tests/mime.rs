use myhs::mime::guess_content_type;

#[test]
fn html_variants() {
    assert_eq!(guess_content_type("index.html"), "text/html; charset=utf-8");
    assert_eq!(guess_content_type("a/b/x.htm"), "text/html; charset=utf-8");
}

#[test]
fn text_types() {
    assert_eq!(guess_content_type("style.css"), "text/css; charset=utf-8");
    assert_eq!(guess_content_type("app.js"), "application/javascript; charset=utf-8");
    assert_eq!(guess_content_type("data.json"), "application/json; charset=utf-8");
    assert_eq!(guess_content_type("feed.xml"), "application/xml; charset=utf-8");
    assert_eq!(guess_content_type("report.txt"), "text/plain; charset=utf-8");
    assert_eq!(guess_content_type("README.md"), "text/markdown; charset=utf-8");
}

#[test]
fn uppercase_extension_is_lowercased() {
    assert_eq!(guess_content_type("REPORT.TXT"), "text/plain; charset=utf-8");
    assert_eq!(guess_content_type("photo.JPG"), "image/jpeg");
}

#[test]
fn image_types() {
    assert_eq!(guess_content_type("p.png"), "image/png");
    assert_eq!(guess_content_type("p.jpg"), "image/jpeg");
    assert_eq!(guess_content_type("p.jpeg"), "image/jpeg");
    assert_eq!(guess_content_type("p.gif"), "image/gif");
    assert_eq!(guess_content_type("p.svg"), "image/svg+xml");
    assert_eq!(guess_content_type("p.ico"), "image/x-icon");
}

#[test]
fn document_and_archive_types() {
    assert_eq!(guess_content_type("doc.pdf"), "application/pdf");
    assert_eq!(guess_content_type("a.zip"), "application/zip");
    assert_eq!(guess_content_type("a.tar"), "application/x-tar");
    assert_eq!(guess_content_type("a.tar.gz"), "application/gzip");
}

#[test]
fn media_types() {
    assert_eq!(guess_content_type("v.mp4"), "video/mp4");
    assert_eq!(guess_content_type("s.mp3"), "audio/mpeg");
    assert_eq!(guess_content_type("s.wav"), "audio/wav");
}

#[test]
fn unknown_or_missing_extension_is_binary() {
    assert_eq!(guess_content_type("noext"), "application/octet-stream");
    assert_eq!(guess_content_type("archive.xyz"), "application/octet-stream");
    assert_eq!(guess_content_type(".gitignore"), "application/octet-stream");
}

#[test]
fn extension_comes_from_the_last_segment() {
    assert_eq!(guess_content_type("dir.html/data"), "application/octet-stream");
    assert_eq!(guess_content_type("dir/page.html"), "text/html; charset=utf-8");
}
