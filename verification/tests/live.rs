use sfhtml::live::{
    change_update, compute_ws_accept, guess_mime, hash_content, inject_live_script,
    is_upgrade_request, parse_request_path, percent_decode, response_header, route, sha1_hash,
    upgrade_response, websocket_key, Route, LIVE_CLIENT_JS,
};

fn hex(b: &[u8]) -> String {
    b.iter().map(|x| format!("{:02x}", x)).collect()
}

#[test]
fn sha1_of_known_texts() {
    assert_eq!(hex(&sha1_hash(b"abc")), "a9993e364706816aba3e25717850c26c9cd0d89d");
    assert_eq!(hex(&sha1_hash(b"")), "da39a3ee5e6b4b0d3255bfef95601890afd80709");
    let long = vec![b'a'; 1000];
    assert_eq!(hex(&sha1_hash(&long)), "291e9a6c66994949b57ba5e650361e98fc36b1ba");
}

#[test]
fn websocket_accept_of_the_rfc_example() {
    assert_eq!(compute_ws_accept("dGhlIHNhbXBsZSBub25jZQ=="), "s3pPLMBiTxaQ9kYGzzhZRbK+xOo=");
}

#[test]
fn content_hashes() {
    assert_eq!(hash_content(""), "e3b0c44298fc1c149afbf4c8996fb92427ae41e4649b934ca495991b7852b855");
    assert_eq!(hash_content("hello"), "2cf24dba5fb0a30e26e83b2ac5b9e29e1b161e5c1fa7425e73043362938b9824");
}

#[test]
fn live_script_goes_before_the_last_body_end() {
    let html = "<html><BODY>x</body></BODY></html>";
    let out = inject_live_script(html);
    assert_eq!(out, format!("<html><BODY>x</body>{}</BODY></html>", LIVE_CLIENT_JS));
}

#[test]
fn live_script_appended_without_body() {
    assert_eq!(inject_live_script("<p>hi</p>"), format!("<p>hi</p>\n{}", LIVE_CLIENT_JS));
}

#[test]
fn percent_escapes() {
    assert_eq!(percent_decode("/a%20b%2"), "/a b ");
    assert_eq!(percent_decode("%41%zz%"), "A\u{0}\u{0}");
    assert_eq!(percent_decode("caf\u{e9}"), "caf\u{e9}");
    assert_eq!(percent_decode("/%E4%B8%AD%20x.png"), "/\u{4e2d} x.png");
    assert_eq!(percent_decode("/a%FFb"), "/a\u{ff}b");
}

#[test]
fn request_paths() {
    assert_eq!(parse_request_path("GET /index.html HTTP/1.1\r\nHost: x\r\n\r\n"), "/index.html");
    assert_eq!(parse_request_path(""), "/");
    assert_eq!(parse_request_path("GET"), "/");
}

#[test]
fn upgrade_requests() {
    assert!(is_upgrade_request("GET / HTTP/1.1\r\nUpgrade: websocket\r\n"));
    assert!(is_upgrade_request("GET / HTTP/1.1\r\nupgrade: websocket\r\n"));
    assert!(!is_upgrade_request("GET / HTTP/1.1\r\nUPGRADE: WEBSOCKET\r\n"));
}

#[test]
fn websocket_keys() {
    let req = "GET /__sfhtml_ws HTTP/1.1\r\nSec-WebSocket-Key:  abc== \r\nX: y\r\n\r\n";
    assert_eq!(websocket_key(req), "abc==");
    assert_eq!(websocket_key("GET / HTTP/1.1\r\n\r\n"), "");
}

#[test]
fn response_texts() {
    assert_eq!(
        response_header(404, "text/plain", 9),
        "HTTP/1.1 404 Not Found\r\nContent-Type: text/plain\r\nContent-Length: 9\r\nConnection: close\r\nCache-Control: no-cache\r\n\r\n"
    );
    assert!(response_header(500, "x", 0).starts_with("HTTP/1.1 500 Error\r\n"));
    assert_eq!(
        upgrade_response("K"),
        "HTTP/1.1 101 Switching Protocols\r\nUpgrade: websocket\r\nConnection: Upgrade\r\nSec-WebSocket-Accept: K\r\n\r\n"
    );
}

#[test]
fn mime_types() {
    assert_eq!(guess_mime("css"), "text/css; charset=utf-8");
    assert_eq!(guess_mime("jpeg"), "image/jpeg");
    assert_eq!(guess_mime("HTML"), "application/octet-stream");
    assert_eq!(guess_mime(""), "application/octet-stream");
}

#[test]
fn routes() {
    assert!(matches!(route("/", "app.html"), Route::Main));
    assert!(matches!(route("/%61pp.html", "app.html"), Route::Main));
    match route("//img/a.png", "app.html") {
        Route::Static(p) => assert_eq!(p, "img/a.png"),
        Route::Main => panic!("expected a static file"),
    }
}

#[test]
fn change_updates() {
    let h = hash_content("<p>x</p>");
    assert!(change_update(&h, "<p>x</p>", true).is_none());
    let u = change_update(&h, "<p>\"y\"\n</p>", false).unwrap();
    assert_eq!(u.served, "<p>\"y\"\n</p>");
    assert_eq!(u.hash, hash_content("<p>\"y\"\n</p>"));
    assert_eq!(u.payload, "{\"html\":\"<p>\\\"y\\\"\\n</p>\",\"type\":\"full\"}");
}
