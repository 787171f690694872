use typage::http::{
    decimal_string, file_etag, is_cacheable, no_cache_head, not_modified_head, plan_file_reply,
    response_head, route_request, FileReply, Route, LIVE_JS, SECURITY_HEADERS,
};
use typage::serve::{
    candidate_public_path, header_value, inject_live_reload, mime_type, percent_decode,
    try_inject_live_reload, LIVE_RELOAD_TAG,
};

#[test]
fn candidate_public_path_rejects_traversal_and_bad_encoding() {
    let public = "/tmp/site/public";
    assert!(candidate_public_path(public, "/posts/hello/").is_some());
    assert!(candidate_public_path(public, "/../secret.txt").is_none());
    assert!(candidate_public_path(public, "/%2e%2e/secret.txt").is_none());
    assert!(candidate_public_path(public, "/bad%zz").is_none());
    assert!(candidate_public_path(public, "/bad%00name").is_none());
    assert!(candidate_public_path(public, "/bad\\name").is_none());
}

#[test]
fn feed_files_use_feed_mime_types() {
    assert_eq!(mime_type("feed.xml"), "application/rss+xml; charset=utf-8");
    assert_eq!(mime_type("atom.xml"), "application/atom+xml; charset=utf-8");
    assert_eq!(mime_type("sitemap.xml"), "application/xml; charset=utf-8");
}

#[test]
fn candidate_paths_join_decoded_pieces_under_public() {
    let public = "/srv/public";
    assert_eq!(
        candidate_public_path(public, "/posts/hello%20world/?x=1").as_deref(),
        Some("/srv/public/posts/hello world")
    );
    assert_eq!(candidate_public_path(public, "/").as_deref(), Some("/srv/public"));
    assert_eq!(
        candidate_public_path(public, "//a/./b").as_deref(),
        Some("/srv/public/a/b")
    );
}

#[test]
fn percent_decoding_accepts_utf8_and_rejects_bad_escapes() {
    assert_eq!(percent_decode("a%20b").as_deref(), Some("a b"));
    assert_eq!(percent_decode("caf%C3%A9").as_deref(), Some("café"));
    assert_eq!(percent_decode("plain").as_deref(), Some("plain"));
    assert_eq!(percent_decode("%"), None);
    assert_eq!(percent_decode("%4"), None);
    assert_eq!(percent_decode("%zz"), None);
    assert_eq!(percent_decode("%ff"), None);
}

#[test]
fn content_types_follow_extensions() {
    assert_eq!(mime_type("index.html"), "text/html; charset=utf-8");
    assert_eq!(mime_type("a/b/style.css"), "text/css; charset=utf-8");
    assert_eq!(mime_type("app.js"), "text/javascript; charset=utf-8");
    assert_eq!(mime_type("photo.JPG"), "application/octet-stream");
    assert_eq!(mime_type("photo.jpeg"), "image/jpeg");
    assert_eq!(mime_type("doc.pdf"), "application/pdf");
    assert_eq!(mime_type(".hidden"), "application/octet-stream");
    assert_eq!(mime_type("noext"), "application/octet-stream");
    assert_eq!(mime_type("posts/other.xml"), "application/xml; charset=utf-8");
}

#[test]
fn header_values_match_names_ignoring_case() {
    let req = "GET / HTTP/1.1\r\nHost: x\r\nIf-None-Match:  W/\"1-2\" \r\n\r\n";
    assert_eq!(header_value(req, "if-none-match").as_deref(), Some("W/\"1-2\""));
    assert_eq!(header_value(req, "host").as_deref(), Some("x"));
    assert_eq!(header_value(req, "accept"), None);
    assert_eq!(header_value("Host: x", "host"), None);
}

#[test]
fn live_reload_tag_goes_before_the_last_closing_body() {
    let page = b"<html><BODY>x</body></Body></html>".to_vec();
    let got = inject_live_reload(page);
    let want = format!("<html><BODY>x</body>{}</Body></html>", LIVE_RELOAD_TAG);
    assert_eq!(String::from_utf8(got).unwrap(), want);
    let bare = try_inject_live_reload(b"<p>hi</p>".to_vec()).unwrap();
    assert_eq!(
        String::from_utf8(bare).unwrap(),
        format!("<p>hi</p>{}", LIVE_RELOAD_TAG)
    );
}

#[test]
fn requests_are_routed_by_method_and_path() {
    let public = "/srv/public";
    assert_eq!(
        route_request(public, "POST / HTTP/1.1\r\n\r\n", true),
        Route::MethodNotAllowed
    );
    assert_eq!(
        route_request(public, "GET /__typage/revision?t=1 HTTP/1.1\r\n", true),
        Route::Revision
    );
    assert_eq!(
        route_request(public, "GET /__typage/live.js HTTP/1.1\r\n", true),
        Route::LiveScript
    );
    assert_eq!(
        route_request(public, "GET /__typage/live.js HTTP/1.1\r\n", false),
        Route::File { head: false, path: "/srv/public/__typage/live.js".to_string() }
    );
    assert_eq!(
        route_request(public, "HEAD /a/b.css HTTP/1.1\r\n", false),
        Route::File { head: true, path: "/srv/public/a/b.css".to_string() }
    );
    assert_eq!(
        route_request(public, "GET /../x HTTP/1.1\r\n", false),
        Route::BadRequest
    );
    assert_eq!(route_request(public, "", false), Route::MethodNotAllowed);
    assert_eq!(
        route_request(public, "GET", false),
        Route::File { head: false, path: "/srv/public".to_string() }
    );
}

#[test]
fn file_replies_revalidate_and_inject() {
    let tag = file_etag(2, 16);
    assert_eq!(tag, "W/\"2-10\"");
    let req = "GET /a.css HTTP/1.1\r\nIf-None-Match: W/\"2-10\"\r\n";
    assert!(is_cacheable("a.css", true));
    assert!(!is_cacheable("index.html", true));
    assert!(is_cacheable("index.html", false));
    assert_eq!(
        plan_file_reply(req, false, true, "a.css", Some(tag.clone())),
        FileReply::NotModified { tag: tag.clone() }
    );
    assert_eq!(
        plan_file_reply("GET / HTTP/1.1\r\n", true, false, "a.css", Some(tag.clone())),
        FileReply::Head { mime: "text/css; charset=utf-8", etag: Some(tag.clone()) }
    );
    assert_eq!(
        plan_file_reply(req, false, true, "index.html", Some(tag.clone())),
        FileReply::Inject { mime: "text/html; charset=utf-8" }
    );
    assert_eq!(
        plan_file_reply("GET / HTTP/1.1\r\nIf-None-Match: other\r\n", false, false, "a.css", Some(tag.clone())),
        FileReply::Whole { mime: "text/css; charset=utf-8", etag: Some(tag) }
    );
}

#[test]
fn response_heads_carry_status_length_and_security_headers() {
    let head = response_head(404, "Not Found", "text/plain; charset=utf-8", 9, None);
    assert_eq!(
        head,
        format!(
            "HTTP/1.1 404 Not Found\r\nContent-Type: text/plain; charset=utf-8\r\nContent-Length: 9\r\n{}Connection: close\r\n\r\n",
            SECURITY_HEADERS
        )
    );
    let tagged = response_head(200, "OK", "image/png", 1234, Some("W/\"1-2\""));
    assert!(tagged.contains("Content-Length: 1234\r\nETag: W/\"1-2\"\r\nX-Content-Type-Options: nosniff\r\n"));
    let nc = no_cache_head(200, "OK", "text/plain; charset=utf-8", 1);
    assert!(nc.starts_with("HTTP/1.1 200 OK\r\nContent-Type: text/plain; charset=utf-8\r\nCache-Control: no-store\r\nContent-Length: 1\r\n"));
    let nm = not_modified_head("W/\"a-b\"");
    assert!(nm.starts_with("HTTP/1.1 304 Not Modified\r\nETag: W/\"a-b\"\r\n"));
    assert!(nm.ends_with("Connection: close\r\n\r\n"));
    assert_eq!(decimal_string(0), "0");
    assert_eq!(decimal_string(18446744073709551615), "18446744073709551615");
    assert!(LIVE_JS.contains("/__typage/revision"));
}

#[test]
fn entity_tags_are_lowercase_hexadecimal() {
    assert_eq!(file_etag(0, 0), "W/\"0-0\"");
    assert_eq!(file_etag(255, 4096), "W/\"ff-1000\"");
    assert_eq!(file_etag(u64::MAX, 171), "W/\"ffffffffffffffff-ab\"");
}
