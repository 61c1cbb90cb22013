//! The decisions around the browser's DevTools endpoint: how the browser is
//! launched, what is asked of the endpoint, and which target is debugged.
use vstd::prelude::*;
use crate::text::{chars_of, dec, decimal, find, find_seq, push_all, push_str, skip, to_string};
use crate::live::{json_quote, json_string};
use base64::Engine;

verus! {

/// The arguments a browser is launched with: its debugging port, no first
/// run screens, its own profile, headless where asked, then the page.
pub open spec fn launch_args_spec(port: u16, profile_dir: Seq<char>, headless: bool, file_url: Seq<char>) -> Seq<Seq<char>> {
    seq![
        "--remote-debugging-port="@ + dec(port as nat),
        "--no-first-run"@,
        "--no-default-browser-check"@,
        "--user-data-dir="@ + profile_dir,
    ] + (if headless {
        seq!["--headless=new"@]
    } else {
        Seq::empty()
    }) + seq![file_url]
}

/// The command-line arguments of a browser launched for debugging.
pub fn launch_args(port: u16, profile_dir: &str, headless: bool, file_url: &str) -> (r: Vec<String>)
    ensures
        r@.map_values(|s: String| s@) == launch_args_spec(port, profile_dir@, headless, file_url@),
{
    let mut args: Vec<String> = Vec::new();
    let mut a: Vec<char> = Vec::new();
    push_str(&mut a, "--remote-debugging-port=");
    push_all(&mut a, &decimal(port as usize));
    args.push(to_string(&a));
    args.push("--no-first-run".to_string());
    args.push("--no-default-browser-check".to_string());
    let mut d: Vec<char> = Vec::new();
    push_str(&mut d, "--user-data-dir=");
    push_str(&mut d, profile_dir);
    args.push(to_string(&d));
    if headless {
        args.push("--headless=new".to_string());
    }
    args.push(file_url.to_string());
    assert(args@.map_values(|s: String| s@) =~= launch_args_spec(port, profile_dir@, headless, file_url@));
    args
}

/// The name of the profile directory of the browser debugged on a port.
pub fn profile_dir_name(port: u16) -> (r: String)
    ensures
        r@ == "sfhtml-cdp-"@ + dec(port as nat),
{
    let mut v: Vec<char> = Vec::new();
    push_str(&mut v, "sfhtml-cdp-");
    push_all(&mut v, &decimal(port as usize));
    to_string(&v)
}

/// The request for the list of the browser's targets.
pub fn list_request(port: u16) -> (r: String)
    ensures
        r@ == "GET /json HTTP/1.1\r\nHost: 127.0.0.1:"@ + dec(port as nat)
            + "\r\nConnection: close\r\n\r\n"@,
{
    let mut v: Vec<char> = Vec::new();
    push_str(&mut v, "GET /json HTTP/1.1\r\nHost: 127.0.0.1:");
    push_all(&mut v, &decimal(port as usize));
    push_str(&mut v, "\r\nConnection: close\r\n\r\n");
    to_string(&v)
}

/// The body of an HTTP response: what follows its first blank line.
pub open spec fn body_of(response: Seq<char>) -> Option<Seq<char>> {
    match find_seq(response, "\r\n\r\n"@) {
        Some(i) => Some(response.skip(i + 4)),
        None => None,
    }
}

/// The body of an HTTP response, where it has a blank line.
pub fn http_body(response: &str) -> (r: Option<String>)
    ensures
        match r {
            Some(b) => body_of(response@) == Some(b@),
            None => body_of(response@) is None,
        },
{
    let resp = chars_of(response);
    let sep = chars_of("\r\n\r\n");
    proof {
        reveal_strlit("\r\n\r\n");
    }
    assert(sep@.len() == 4);
    let n = resp.len();
    match find(&resp, &sep) {
        Some(i) => {
            assert(crate::text::occurs_at(resp@, sep@, i as int));
            assert(i + 4 <= n);
            Some(to_string(&skip(&resp, i + 4)))
        },
        None => None,
    }
}

/// A target of the browser by its view: its `type` and its
/// `webSocketDebuggerUrl`, where they are texts.
pub open spec fn target_views(v: Seq<(Option<String>, Option<String>)>) -> Seq<(Option<Seq<char>>, Option<Seq<char>>)> {
    v.map_values(|t: (Option<String>, Option<String>)| (crate::js_scope::opt_view(t.0), crate::js_scope::opt_view(t.1)))
}

/// The first target that is a page and has a debugger address.
pub open spec fn debugger_url_of(targets: Seq<(Option<Seq<char>>, Option<Seq<char>>)>) -> Option<Seq<char>>
    decreases targets.len(),
{
    if targets.len() == 0 {
        None
    } else if targets[0].0 == Some("page"@) && targets[0].1 is Some {
        targets[0].1
    } else {
        debugger_url_of(targets.drop_first())
    }
}

/// Pick the debugger address among the browser's targets, each given by its
/// `type` and its `webSocketDebuggerUrl` where they are texts.
pub fn pick_debugger_url(targets: &Vec<(Option<String>, Option<String>)>) -> (r: Option<String>)
    ensures
        crate::js_scope::opt_view(r) == debugger_url_of(target_views(targets@)),
{
    let ghost tv = target_views(targets@);
    let page = chars_of("page");
    let mut i: usize = 0;
    assert(tv.skip(0) =~= tv);
    while i < targets.len()
        invariant
            i <= targets@.len(),
            page@ == "page"@,
            tv == target_views(targets@),
            debugger_url_of(tv) == debugger_url_of(tv.skip(i as int)),
        decreases targets@.len() - i,
    {
        proof {
            assert(tv.skip(i as int).drop_first() =~= tv.skip(i + 1));
            assert(tv.skip(i as int)[0] == tv[i as int]);
        }
        match (&targets[i].0, &targets[i].1) {
            (Some(t), Some(u)) => {
                if crate::differ::vec_eq(&chars_of(t.as_str()), &page) {
                    return Some(String::from_str(u.as_str()));
                }
            },
            _ => {},
        }
        i = i + 1;
    }
    assert(tv.skip(i as int) =~= Seq::<(Option<Seq<char>>, Option<Seq<char>>)>::empty());
    None
}

/// The targets that the endpoint's answer lists (a JSON array of objects),
/// each by its `type` and `webSocketDebuggerUrl` where they are strings;
/// none where the body is no JSON array.
pub uninterp spec fn listed_targets(body: Seq<char>) -> Option<Seq<(Option<Seq<char>>, Option<Seq<char>>)>>;

/// `serde_json::from_str::<Vec<Value>>` of the body, each element read for
/// its `type` and `webSocketDebuggerUrl` fields where they are strings; the
/// contract names the result.
#[verifier::external_body]
fn parse_targets(body: &str) -> (r: Option<Vec<(Option<String>, Option<String>)>>)
    ensures
        match r {
            Some(v) => listed_targets(body@) == Some(target_views(v@)),
            None => listed_targets(body@) is None,
        },
{
    let pages = serde_json::from_str::<Vec<serde_json::Value>>(body).ok()?;
    let text = |v: Option<&serde_json::Value>| v.and_then(|t| t.as_str()).map(String::from);
    Some(pages.iter().map(|p| (text(p.get("type")), text(p.get("webSocketDebuggerUrl")))).collect())
}

/// The debugger address the endpoint's HTTP answer offers: the first page
/// target with an address among the targets its body lists.
pub open spec fn answer_url(response: Seq<char>) -> Option<Seq<char>> {
    match body_of(response) {
        Some(b) => match listed_targets(b) {
            Some(ts) => debugger_url_of(ts),
            None => None,
        },
        None => None,
    }
}

/// Read the endpoint's HTTP answer for the debugger address to connect to.
pub fn debugger_url_from_answer(response: &str) -> (r: Option<String>)
    ensures
        crate::js_scope::opt_view(r) == answer_url(response@),
{
    match http_body(response) {
        Some(body) => match parse_targets(body.as_str()) {
            Some(targets) => pick_debugger_url(&targets),
            None => None,
        },
        None => None,
    }
}

/// What is reported when the endpoint does not answer in time.
pub fn cdp_timeout_message(port: u16) -> (r: String)
    ensures
        r@ == "Timed out waiting for CDP on port "@ + dec(port as nat)
            + ". Is the browser running with --remote-debugging-port="@ + dec(port as nat) + "?"@,
{
    let mut v: Vec<char> = Vec::new();
    push_str(&mut v, "Timed out waiting for CDP on port ");
    push_all(&mut v, &decimal(port as usize));
    push_str(&mut v, ". Is the browser running with --remote-debugging-port=");
    push_all(&mut v, &decimal(port as usize));
    push_str(&mut v, "?");
    to_string(&v)
}

// ---------------------------------------------------------------------------
// What is evaluated in the page
// ---------------------------------------------------------------------------

/// The expression that gives an element's bounding box, as JSON text.
pub open spec fn rect_expression_spec(selector: Seq<char>) -> Seq<char> {
    "JSON.stringify(document.querySelector("@ + json_string(selector) + ").getBoundingClientRect())"@
}

pub fn rect_expression(selector: &str) -> (r: String)
    ensures
        r@ == rect_expression_spec(selector@),
{
    let mut e = chars_of("JSON.stringify(document.querySelector(");
    push_str(&mut e, json_quote(selector).as_str());
    push_str(&mut e, ").getBoundingClientRect())");
    to_string(&e)
}

/// The expression that gives the page's HTML, or that of the element a
/// selector picks (a message where none matches).
pub open spec fn dom_expression_spec(selector: Option<Seq<char>>) -> Seq<char> {
    match selector {
        Some(sel) => "(document.querySelector("@ + json_string(sel) + ") || {}).outerHTML || 'Element not found'"@,
        None => "document.documentElement.outerHTML"@,
    }
}

pub fn dom_expression(selector: Option<&str>) -> (r: String)
    ensures
        r@ == dom_expression_spec(match selector {
            Some(s) => Some(s@),
            None => None,
        }),
{
    match selector {
        Some(sel) => {
            let mut e = chars_of("(document.querySelector(");
            push_str(&mut e, json_quote(sel).as_str());
            push_str(&mut e, ") || {}).outerHTML || 'Element not found'");
            to_string(&e)
        },
        None => String::from_str("document.documentElement.outerHTML"),
    }
}

/// The expression that clicks the element a selector picks and tells
/// `clicked`, or `not_found`.
pub open spec fn click_expression_spec(selector: Seq<char>) -> Seq<char> {
    "(function() { var el = document.querySelector("@ + json_string(selector)
        + "); if (!el) return 'not_found'; el.click(); return 'clicked'; })()"@
}

pub fn click_expression(selector: &str) -> (r: String)
    ensures
        r@ == click_expression_spec(selector@),
{
    let mut e = chars_of("(function() { var el = document.querySelector(");
    push_str(&mut e, json_quote(selector).as_str());
    push_str(&mut e, "); if (!el) return 'not_found'; el.click(); return 'clicked'; })()");
    to_string(&e)
}

/// The expression that focuses the element a selector picks.
pub open spec fn focus_expression_spec(selector: Seq<char>) -> Seq<char> {
    "document.querySelector("@ + json_string(selector) + ").focus()"@
}

pub fn focus_expression(selector: &str) -> (r: String)
    ensures
        r@ == focus_expression_spec(selector@),
{
    let mut e = chars_of("document.querySelector(");
    push_str(&mut e, json_quote(selector).as_str());
    push_str(&mut e, ").focus()");
    to_string(&e)
}

/// What a click reports, from the text the page gave back (none where it
/// gave none): `Err` where no element matched, else the status (`error` where
/// there was none).
pub open spec fn click_status_spec(reply: Option<Seq<char>>) -> Result<Seq<char>, ()> {
    match reply {
        Some(t) => if t == "not_found"@ {
            Err(())
        } else {
            Ok(t)
        },
        None => Ok("error"@),
    }
}

pub fn click_status(reply: Option<String>) -> (r: Result<String, ()>)
    ensures
        match r {
            Ok(t) => click_status_spec(match reply {
                Some(s) => Some(s@),
                None => None,
            }) == Ok::<Seq<char>, ()>(t@),
            Err(e) => click_status_spec(match reply {
                Some(s) => Some(s@),
                None => None,
            }) == Err::<Seq<char>, ()>(e),
        },
{
    proof {
        reveal_strlit("not_found");
    }
    match reply {
        Some(t) => {
            if crate::differ::vec_eq(&chars_of(t.as_str()), &chars_of("not_found")) {
                Err(())
            } else {
                Ok(t)
            }
        },
        None => Ok(String::from_str("error")),
    }
}

// ---------------------------------------------------------------------------
// Captured payloads
// ---------------------------------------------------------------------------

/// The bytes that a text encodes in standard base64 (with padding), or none
/// where it is no such text.
pub uninterp spec fn base64_decoded(text: Seq<char>) -> Option<Seq<u8>>;

/// `base64::engine::general_purpose::STANDARD.decode`; the contract names the
/// result.
#[verifier::external_body]
pub fn base64_decode(text: &str) -> (r: Option<Vec<u8>>)
    ensures
        match r {
            Some(b) => base64_decoded(text@) == Some(b@),
            None => base64_decoded(text@) is None,
        },
{
    base64::engine::general_purpose::STANDARD.decode(text).ok()
}

/// What becomes of a screenshot or PDF the browser sent as base64: the
/// decoded bytes to save to a file, or the encoded text handed back inline
/// with its length in bytes.
pub enum Payload {
    Save(Vec<u8>),
    Inline(usize),
}

/// Where the payload is saved to a file, its decoded bytes (none where it is
/// no base64); else its length, to hand it back inline.
pub fn saved_or_inline(b64: &str, to_file: bool) -> (r: Option<Payload>)
    ensures
        to_file ==> match r {
            Some(Payload::Save(b)) => base64_decoded(b64@) == Some(b@),
            Some(Payload::Inline(_)) => false,
            None => base64_decoded(b64@) is None,
        },
        !to_file ==> (r matches Some(Payload::Inline(n)) && n == crate::text::byte_len(b64@)),
{
    if to_file {
        match base64_decode(b64) {
            Some(b) => Some(Payload::Save(b)),
            None => None,
        }
    } else {
        Some(Payload::Inline(crate::text::str_len(b64)))
    }
}

} // verus!
