use sfhtml::cdp::{
    cdp_timeout_message, click_expression, click_status, dom_expression, focus_expression, http_body, launch_args,
    list_request, pick_debugger_url, profile_dir_name, rect_expression,
};
use sfhtml::cdp::{base64_decode, debugger_url_from_answer, saved_or_inline, Payload};

#[test]
fn browser_arguments() {
    let a = launch_args(9222, "/tmp/p", true, "file:///x.html");
    assert_eq!(
        a,
        vec![
            "--remote-debugging-port=9222",
            "--no-first-run",
            "--no-default-browser-check",
            "--user-data-dir=/tmp/p",
            "--headless=new",
            "file:///x.html",
        ]
    );
    assert_eq!(launch_args(1, "d", false, "u").len(), 5);
    assert_eq!(profile_dir_name(9555), "sfhtml-cdp-9555");
}

#[test]
fn endpoint_texts() {
    assert_eq!(list_request(9222), "GET /json HTTP/1.1\r\nHost: 127.0.0.1:9222\r\nConnection: close\r\n\r\n");
    assert_eq!(http_body("HTTP/1.1 200 OK\r\nA: b\r\n\r\n[1]"), Some("[1]".to_string()));
    assert_eq!(http_body("no blank line"), None);
    assert_eq!(
        cdp_timeout_message(9),
        "Timed out waiting for CDP on port 9. Is the browser running with --remote-debugging-port=9?"
    );
}

#[test]
fn debugger_target_choice() {
    let s = |x: &str| Some(x.to_string());
    let targets = vec![
        (s("service_worker"), s("ws://a")),
        (s("page"), None),
        (s("page"), s("ws://b")),
        (s("page"), s("ws://c")),
    ];
    assert_eq!(pick_debugger_url(&targets), s("ws://b"));
    assert_eq!(pick_debugger_url(&vec![(None, s("ws://z"))]), None);
}

#[test]
fn page_expressions() {
    assert_eq!(rect_expression("#a"), "JSON.stringify(document.querySelector(\"#a\").getBoundingClientRect())");
    assert_eq!(dom_expression(None), "document.documentElement.outerHTML");
    assert_eq!(dom_expression(Some("p\"q")), "(document.querySelector(\"p\\\"q\") || {}).outerHTML || 'Element not found'");
    assert_eq!(
        click_expression(".b"),
        "(function() { var el = document.querySelector(\".b\"); if (!el) return 'not_found'; el.click(); return 'clicked'; })()"
    );
    assert_eq!(focus_expression("i"), "document.querySelector(\"i\").focus()");
    assert_eq!(click_status(Some("clicked".to_string())), Ok("clicked".to_string()));
    assert_eq!(click_status(Some("not_found".to_string())), Err(()));
    assert_eq!(click_status(None), Ok("error".to_string()));
}

#[test]
fn answer_gives_the_page_address() {
    let answer = "HTTP/1.1 200 OK\r\nContent-Type: application/json\r\n\r\n[{\"type\":\"service_worker\",\"webSocketDebuggerUrl\":\"ws://w\"},{\"type\":\"page\",\"webSocketDebuggerUrl\":\"ws://p\"}]";
    assert_eq!(debugger_url_from_answer(answer), Some("ws://p".to_string()));
    assert_eq!(debugger_url_from_answer("HTTP/1.1 200 OK\r\n\r\nnot json"), None);
    assert_eq!(debugger_url_from_answer("no blank line"), None);
    assert_eq!(debugger_url_from_answer("HTTP/1.1 200 OK\r\n\r\n[{\"type\":\"page\"}]"), None);
}

#[test]
fn payloads_saved_or_inline() {
    assert_eq!(base64_decode("aGk="), Some(b"hi".to_vec()));
    assert_eq!(base64_decode("!!"), None);
    match saved_or_inline("aGk=", true) {
        Some(Payload::Save(b)) => assert_eq!(b, b"hi".to_vec()),
        _ => panic!("expected bytes to save"),
    }
    assert!(saved_or_inline("@@", true).is_none());
    match saved_or_inline("aGk=", false) {
        Some(Payload::Inline(n)) => assert_eq!(n, 4),
        _ => panic!("expected the inline length"),
    }
}
