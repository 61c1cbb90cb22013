//! The logic of the live server: the WebSocket handshake (SHA-1 and
//! base64), content hashes, the injected client script, request parsing,
//! routing and the responses' framing.
use vstd::prelude::*;
use vstd::utf8::{decode_utf8, encode_utf8, valid_utf8};
use base64::Engine;
use sha2::Digest;
use crate::text::{
    byte_len, chars_of, contains, includes, lemma_byte_len_ascii, lemma_byte_len_concat,
    lemma_utf8_len, lines_seq, lower_seq, push_all, push_str, rfind, rfind_seq, split_char,
    split_on, starts, starts_with, str_lines, to_lower, to_lowercase, to_string, trim, trim_seq,
    trim_start_char, trim_start_char_seq, unicode_lower, views, words, words_seq, dec, decimal,
};
use crate::differ::vec_eq;

verus! {

// ---------------------------------------------------------------------------
// SHA-1 (FIPS 180-4), for the WebSocket handshake
// ---------------------------------------------------------------------------

pub open spec fn rotl(x: u32, n: u32) -> u32 {
    (x << n) | (x >> (32 - n) as u32)
}

/// How many zero bytes follow the `0x80` byte so that the length is 56
/// modulo 64.
pub open spec fn zero_count(len: nat) -> nat {
    ((119 - (len % 64) as int) % 64) as nat
}

/// Big-endian bytes of a 64-bit value.
pub open spec fn be64(v: u64) -> Seq<u8> {
    seq![
        (v >> 56u64) as u8,
        (v >> 48u64) as u8,
        (v >> 40u64) as u8,
        (v >> 32u64) as u8,
        (v >> 24u64) as u8,
        (v >> 16u64) as u8,
        (v >> 8u64) as u8,
        v as u8,
    ]
}

/// Big-endian bytes of a 32-bit value.
pub open spec fn be32(v: u32) -> Seq<u8> {
    seq![(v >> 24u32) as u8, (v >> 16u32) as u8, (v >> 8u32) as u8, v as u8]
}

/// The padded message: the data, `0x80`, zeros, and the length in bits.
pub open spec fn sha1_padded(data: Seq<u8>) -> Seq<u8> {
    data + seq![0x80u8] + Seq::new(zero_count(data.len()), |i: int| 0u8) + be64(
        (data.len() * 8) as u64,
    )
}

/// The big-endian word at byte `i` of `b`.
pub open spec fn be_word(b: Seq<u8>, i: int) -> u32 {
    ((b[i] as u32) << 24u32) | ((b[i + 1] as u32) << 16u32) | ((b[i + 2] as u32) << 8u32) | (b[i
        + 3] as u32)
}

/// The first `n` words of the message schedule of a 64-byte block.
pub open spec fn schedule(block: Seq<u8>, n: nat) -> Seq<u32>
    decreases n,
{
    if n == 0 {
        Seq::empty()
    } else {
        let w = schedule(block, (n - 1) as nat);
        let t = n - 1;
        w.push(
            if t < 16 {
                be_word(block, 4 * t)
            } else {
                rotl(w[t - 3] ^ w[t - 8] ^ w[t - 14] ^ w[t - 16], 1)
            },
        )
    }
}

proof fn lemma_schedule_len(block: Seq<u8>, n: nat)
    ensures
        schedule(block, n).len() == n,
    decreases n,
{
    if n > 0 {
        lemma_schedule_len(block, (n - 1) as nat);
    }
}

pub open spec fn round_f(t: int, b: u32, c: u32, d: u32) -> u32 {
    if t < 20 {
        (b & c) | (!b & d)
    } else if t < 40 {
        b ^ c ^ d
    } else if t < 60 {
        (b & c) | (b & d) | (c & d)
    } else {
        b ^ c ^ d
    }
}

pub open spec fn round_k(t: int) -> u32 {
    if t < 20 {
        0x5A827999u32
    } else if t < 40 {
        0x6ED9EBA1u32
    } else if t < 60 {
        0x8F1BBCDCu32
    } else {
        0xCA62C1D6u32
    }
}

/// The working variables after the first `n` rounds.
pub open spec fn rounds(h: (u32, u32, u32, u32, u32), w: Seq<u32>, n: nat) -> (
    u32,
    u32,
    u32,
    u32,
    u32,
)
    decreases n,
{
    if n == 0 {
        h
    } else {
        let (a, b, c, d, e) = rounds(h, w, (n - 1) as nat);
        let t = n - 1;
        let temp = rotl(a, 5).wrapping_add(round_f(t, b, c, d)).wrapping_add(e).wrapping_add(
            round_k(t),
        ).wrapping_add(w[t]);
        (temp, a, rotl(b, 30), c, d)
    }
}

/// The hash state after one 64-byte block.
pub open spec fn compress(h: (u32, u32, u32, u32, u32), block: Seq<u8>) -> (
    u32,
    u32,
    u32,
    u32,
    u32,
) {
    let (a, b, c, d, e) = rounds(h, schedule(block, 80), 80);
    (
        h.0.wrapping_add(a),
        h.1.wrapping_add(b),
        h.2.wrapping_add(c),
        h.3.wrapping_add(d),
        h.4.wrapping_add(e),
    )
}

pub open spec fn sha1_init() -> (u32, u32, u32, u32, u32) {
    (0x67452301u32, 0xEFCDAB89u32, 0x98BADCFEu32, 0x10325476u32, 0xC3D2E1F0u32)
}

/// The hash state after the first `n` blocks of `m`.
pub open spec fn sha1_blocks(m: Seq<u8>, n: nat) -> (u32, u32, u32, u32, u32)
    decreases n,
{
    if n == 0 {
        sha1_init()
    } else {
        compress(sha1_blocks(m, (n - 1) as nat), m.subrange(64 * (n - 1), 64 * n as int))
    }
}

/// The SHA-1 digest of `data`.
pub open spec fn sha1(data: Seq<u8>) -> Seq<u8> {
    let m = sha1_padded(data);
    let h = sha1_blocks(m, m.len() / 64);
    be32(h.0) + be32(h.1) + be32(h.2) + be32(h.3) + be32(h.4)
}

fn rotl_exec(x: u32, n: u32) -> (r: u32)
    requires
        0 < n < 32,
    ensures
        r == rotl(x, n),
{
    (x << n) | (x >> (32 - n))
}

fn push_be32(out: &mut Vec<u8>, v: u32)
    ensures
        final(out)@ == old(out)@ + be32(v),
{
    out.push((v >> 24u32) as u8);
    out.push((v >> 16u32) as u8);
    out.push((v >> 8u32) as u8);
    out.push(v as u8);
    assert(out@ =~= old(out)@ + be32(v));
}

fn padded(data: &[u8]) -> (m: Vec<u8>)
    requires
        data@.len() * 8 <= u64::MAX,
    ensures
        m@ == sha1_padded(data@),
        m@.len() % 64 == 0,
{
    let mut m: Vec<u8> = Vec::new();
    let mut i: usize = 0;
    while i < data.len()
        invariant
            i <= data@.len(),
            m@ == data@.take(i as int),
        decreases data@.len() - i,
    {
        m.push(data[i]);
        i = i + 1;
        assert(m@ =~= data@.take(i as int));
    }
    assert(data@.take(data@.len() as int) =~= data@);
    m.push(0x80u8);
    let len = data.len();
    let zc = (119 - len % 64) % 64;
    let mut j: usize = 0;
    while j < zc
        invariant
            j <= zc,
            zc == zero_count(data@.len()),
            m@ == data@ + seq![0x80u8] + Seq::new(j as nat, |k: int| 0u8),
        decreases zc - j,
    {
        m.push(0u8);
        j = j + 1;
        assert(m@ =~= data@ + seq![0x80u8] + Seq::new(j as nat, |k: int| 0u8));
    }
    let bits: u64 = (len as u64) * 8;
    m.push((bits >> 56u64) as u8);
    m.push((bits >> 48u64) as u8);
    m.push((bits >> 40u64) as u8);
    m.push((bits >> 32u64) as u8);
    m.push((bits >> 24u64) as u8);
    m.push((bits >> 16u64) as u8);
    m.push((bits >> 8u64) as u8);
    m.push(bits as u8);
    assert(m@ =~= sha1_padded(data@));
    assert((len + 1 + zc + 8) % 64 == 0) by (nonlinear_arith)
        requires
            zc == (119 - len % 64) % 64,
    ;
    m
}

fn f_and_k(t: usize, b: u32, c: u32, d: u32) -> (r: (u32, u32))
    ensures
        r.0 == round_f(t as int, b, c, d),
        r.1 == round_k(t as int),
{
    if t < 20 {
        ((b & c) | ((!b) & d), 0x5A827999u32)
    } else if t < 40 {
        (b ^ c ^ d, 0x6ED9EBA1u32)
    } else if t < 60 {
        ((b & c) | (b & d) | (c & d), 0x8F1BBCDCu32)
    } else {
        (b ^ c ^ d, 0xCA62C1D6u32)
    }
}

/// The message schedule of the block at `base` in `m`.
fn block_schedule(m: &Vec<u8>, base: usize) -> (w: Vec<u32>)
    requires
        base + 64 <= m@.len(),
    ensures
        w@ == schedule(m@.subrange(base as int, base + 64), 80),
        w@.len() == 80,
{
    let ghost block = m@.subrange(base as int, base + 64);
    let mlen = m.len();
    let mut w: Vec<u32> = Vec::new();
    let mut t: usize = 0;
    while t < 80
        invariant
            t <= 80,
            base + 64 <= mlen,
            mlen == m@.len(),
            block == m@.subrange(base as int, base + 64),
            w@ == schedule(block, t as nat),
        decreases 80 - t,
    {
        proof {
            lemma_schedule_len(block, t as nat);
        }
        let v = if t < 16 {
            let i = base + 4 * t;
            assert(block[4 * t] == m@[i as int]);
            assert(block[4 * t + 1] == m@[i + 1]);
            assert(block[4 * t + 2] == m@[i + 2]);
            assert(block[4 * t + 3] == m@[i + 3]);
            ((m[i] as u32) << 24u32) | ((m[i + 1] as u32) << 16u32) | ((m[i + 2] as u32) << 8u32)
                | (m[i + 3] as u32)
        } else {
            rotl_exec(w[t - 3] ^ w[t - 8] ^ w[t - 14] ^ w[t - 16], 1)
        };
        w.push(v);
        t = t + 1;
    }
    proof {
        lemma_schedule_len(block, 80);
    }
    w
}

fn compress_exec(h: (u32, u32, u32, u32, u32), m: &Vec<u8>, base: usize) -> (r: (
    u32,
    u32,
    u32,
    u32,
    u32,
))
    requires
        base + 64 <= m@.len(),
    ensures
        r == compress(h, m@.subrange(base as int, base + 64)),
{
    let w = block_schedule(m, base);
    let (mut a, mut b, mut c, mut d, mut e) = h;
    let mut t: usize = 0;
    while t < 80
        invariant
            t <= 80,
            w@.len() == 80,
            (a, b, c, d, e) == rounds(h, w@, t as nat),
        decreases 80 - t,
    {
        let (f, k) = f_and_k(t, b, c, d);
        let temp = rotl_exec(a, 5).wrapping_add(f).wrapping_add(e).wrapping_add(k).wrapping_add(w[t]);
        e = d;
        d = c;
        c = rotl_exec(b, 30);
        b = a;
        a = temp;
        t = t + 1;
    }
    (
        h.0.wrapping_add(a),
        h.1.wrapping_add(b),
        h.2.wrapping_add(c),
        h.3.wrapping_add(d),
        h.4.wrapping_add(e),
    )
}

/// The SHA-1 digest of `data`, for the WebSocket handshake.
pub fn sha1_hash(data: &[u8]) -> (r: Vec<u8>)
    requires
        data@.len() * 8 <= u64::MAX,
    ensures
        r@ == sha1(data@),
{
    let m = padded(data);
    let mlen = m.len();
    let nblocks = mlen / 64;
    let mut h = (0x67452301u32, 0xEFCDAB89u32, 0x98BADCFEu32, 0x10325476u32, 0xC3D2E1F0u32);
    let mut i: usize = 0;
    while i < nblocks
        invariant
            i <= nblocks,
            nblocks == m@.len() / 64,
            mlen == m@.len(),
            m@.len() % 64 == 0,
            h == sha1_blocks(m@, i as nat),
        decreases nblocks - i,
    {
        assert(64 * i + 64 <= m@.len()) by (nonlinear_arith)
            requires
                i < nblocks,
                nblocks == m@.len() / 64,
        ;
        h = compress_exec(h, &m, 64 * i);
        i = i + 1;
    }
    let mut out: Vec<u8> = Vec::new();
    push_be32(&mut out, h.0);
    push_be32(&mut out, h.1);
    push_be32(&mut out, h.2);
    push_be32(&mut out, h.3);
    push_be32(&mut out, h.4);
    assert(out@ =~= sha1(data@));
    out
}

// ---------------------------------------------------------------------------
// The handshake
// ---------------------------------------------------------------------------

/// The value of a base64 digit.
pub open spec fn b64_digit(v: int) -> char {
    if v < 26 {
        (65 + v) as char
    } else if v < 52 {
        (71 + v) as char
    } else if v < 62 {
        (v - 4) as char
    } else if v == 62 {
        '+'
    } else {
        '/'
    }
}

/// Base64 (RFC 4648) with the standard alphabet and `=` padding.
pub open spec fn base64_text(b: Seq<u8>) -> Seq<char>
    decreases b.len(),
{
    if b.len() == 0 {
        Seq::empty()
    } else if b.len() == 1 {
        seq![b64_digit(b[0] as int / 4), b64_digit((b[0] as int % 4) * 16), '=', '=']
    } else if b.len() == 2 {
        seq![
            b64_digit(b[0] as int / 4),
            b64_digit((b[0] as int % 4) * 16 + b[1] as int / 16),
            b64_digit((b[1] as int % 16) * 4),
            '=',
        ]
    } else {
        seq![
            b64_digit(b[0] as int / 4),
            b64_digit((b[0] as int % 4) * 16 + b[1] as int / 16),
            b64_digit((b[1] as int % 16) * 4 + b[2] as int / 64),
            b64_digit(b[2] as int % 64),
        ] + base64_text(b.skip(3))
    }
}

/// `base64::engine::general_purpose::STANDARD.encode`: RFC 4648 base64 with
/// the standard alphabet and padding, as its documentation states.
#[verifier::external_body]
fn base64_standard(bytes: &[u8]) -> (r: String)
    ensures
        r@ == base64_text(bytes@),
{
    base64::engine::general_purpose::STANDARD.encode(bytes)
}

/// The GUID that RFC 6455 appends to the client's key.
pub open spec fn ws_magic() -> Seq<char> {
    "258EAFA5-E914-47DA-95CA-C5AB0DC85B11"@
}

/// `Sec-WebSocket-Accept` for a client's `Sec-WebSocket-Key`: the base64 of
/// the SHA-1 of the key followed by the protocol's GUID.
pub fn compute_ws_accept(key: &str) -> (r: String)
    requires
        byte_len(key@) + 36 <= u64::MAX / 8,
    ensures
        r@ == base64_text(sha1(encode_utf8(key@ + ws_magic()))),
{
    let mut v = chars_of(key);
    push_str(&mut v, "258EAFA5-E914-47DA-95CA-C5AB0DC85B11");
    let concat = to_string(&v);
    proof {
        reveal_strlit("258EAFA5-E914-47DA-95CA-C5AB0DC85B11");
        lemma_byte_len_ascii(ws_magic());
        lemma_byte_len_concat(key@, ws_magic());
        lemma_utf8_len(concat@);
    }
    let bytes = concat.as_str().as_bytes();
    let h = sha1_hash(bytes);
    base64_standard(h.as_slice())
}

// ---------------------------------------------------------------------------
// Content hashes
// ---------------------------------------------------------------------------

/// The SHA-256 digest of `data`, as `sha2` computes it.
pub uninterp spec fn sha256(data: Seq<u8>) -> Seq<u8>;

/// `sha2::Sha256::digest`; the contract names the result and gives its
/// documented size of 32 bytes.
#[verifier::external_body]
fn sha256_digest(data: &[u8]) -> (r: Vec<u8>)
    ensures
        r@ == sha256(data@),
        r@.len() == 32,
{
    sha2::Sha256::digest(data).to_vec()
}

pub open spec fn hex_digit(v: int) -> char {
    if v < 10 {
        (48 + v) as char
    } else {
        (87 + v) as char
    }
}

/// Lower-case hexadecimal, two digits a byte (`{:x}` of a digest).
pub open spec fn hex_text(b: Seq<u8>) -> Seq<char>
    decreases b.len(),
{
    if b.len() == 0 {
        Seq::empty()
    } else {
        hex_text(b.drop_last()) + seq![
            hex_digit(b.last() as int / 16),
            hex_digit(b.last() as int % 16),
        ]
    }
}

fn hex_char(v: u8) -> (c: char)
    requires
        v < 16,
    ensures
        c == hex_digit(v as int),
{
    if v < 10 {
        (v + 48) as char
    } else {
        (v + 87) as char
    }
}

/// The hash by which the server tells whether the file changed: the SHA-256
/// of its text in lower-case hexadecimal.
pub fn hash_content(content: &str) -> (r: String)
    ensures
        r@ == hex_text(sha256(encode_utf8(content@))),
{
    let d = sha256_digest(content.as_bytes());
    let mut out: Vec<char> = Vec::new();
    let mut i: usize = 0;
    while i < d.len()
        invariant
            i <= d@.len(),
            out@ == hex_text(d@.take(i as int)),
        decreases d@.len() - i,
    {
        let b = d[i];
        out.push(hex_char(b / 16));
        out.push(hex_char(b % 16));
        proof {
            assert(d@.take(i + 1).drop_last() =~= d@.take(i as int));
        }
        i = i + 1;
    }
    assert(d@.take(d@.len() as int) =~= d@);
    to_string(&out)
}

// ---------------------------------------------------------------------------
// The injected client
// ---------------------------------------------------------------------------

/// The script that makes a served page reload itself on change.
pub const LIVE_CLIENT_JS: &'static str = r##"
<script data-sfhtml-live>
(function(){
  var ws, oldHTML = document.documentElement.outerHTML;
  function connect(){
    var proto = location.protocol === 'https:' ? 'wss' : 'ws';
    ws = new WebSocket(proto + '://' + location.host + '/__sfhtml_ws');
    ws.onmessage = function(e){
      try {
        var msg = JSON.parse(e.data);
        if (msg.type === 'full') {
          document.open();
          document.write(msg.html);
          document.close();
        } else if (msg.type === 'patch') {
          applyPatch(msg);
        } else if (msg.type === 'reload') {
          location.reload();
        }
      } catch(err) { location.reload(); }
    };
    ws.onclose = function(){ setTimeout(connect, 1000); };
    ws.onerror = function(){ ws.close(); };
  }
  function applyPatch(msg){
    if (msg.selector && msg.html) {
      var el = document.querySelector(msg.selector);
      if (el) { el.outerHTML = msg.html; return; }
    }
    if (msg.eval) {
      try { (0, eval)(msg.eval); return; } catch(e){}
    }
    location.reload();
  }
  connect();
})();
</script>
"##;

/// The page with the live script before its last `</body>` (found without
/// regard to ASCII case), or after it and a newline where it has none.
pub open spec fn injected(html: Seq<char>) -> Seq<char> {
    match rfind_seq(lower_seq(html), "</body>"@) {
        Some(p) => html.take(p) + LIVE_CLIENT_JS@ + html.skip(p),
        None => html + seq!['\n'] + LIVE_CLIENT_JS@,
    }
}

/// Insert the live script into a page.
pub fn inject_live_script(html: &str) -> (r: String)
    ensures
        r@ == injected(html@),
{
    let h = chars_of(html);
    let pat = chars_of("</body>");
    match rfind(&to_lower(&h), &pat) {
        Some(pos) => {
            let mut out: Vec<char> = Vec::new();
            let mut i: usize = 0;
            while i < pos
                invariant
                    pos <= h@.len(),
                    i <= pos,
                    out@ == h@.take(i as int),
                decreases pos - i,
            {
                out.push(h[i]);
                i = i + 1;
                assert(out@ =~= h@.take(i as int));
            }
            push_str(&mut out, LIVE_CLIENT_JS);
            let ghost mid = out@;
            while i < h.len()
                invariant
                    pos <= i <= h@.len(),
                    out@ == mid + h@.subrange(pos as int, i as int),
                decreases h@.len() - i,
            {
                out.push(h[i]);
                i = i + 1;
                assert(out@ =~= mid + h@.subrange(pos as int, i as int));
            }
            assert(out@ =~= h@.take(pos as int) + LIVE_CLIENT_JS@ + h@.skip(pos as int));
            to_string(&out)
        },
        None => {
            let mut out = h;
            out.push('\n');
            push_str(&mut out, LIVE_CLIENT_JS);
            to_string(&out)
        },
    }
}

// ---------------------------------------------------------------------------
// Requests
// ---------------------------------------------------------------------------

/// The value of a hexadecimal digit byte (0 for any other byte).
pub open spec fn hex_value(b: u8) -> u8 {
    if 48 <= b <= 57 {
        (b - 48) as u8
    } else if 97 <= b <= 102 {
        (b - 87) as u8
    } else if 65 <= b <= 70 {
        (b - 55) as u8
    } else {
        0
    }
}

/// The bytes of a request path with its `%XY` sequences decoded, a missing
/// digit read as `0`.
pub open spec fn percent_bytes(b: Seq<u8>) -> Seq<u8>
    decreases b.len(),
{
    if b.len() == 0 {
        Seq::empty()
    } else if b[0] == 37 {
        let h = if b.len() > 1 {
            b[1]
        } else {
            48u8
        };
        let l = if b.len() > 2 {
            b[2]
        } else {
            48u8
        };
        let rest = if b.len() > 3 {
            b.skip(3)
        } else {
            Seq::empty()
        };
        seq![(hex_value(h) * 16 + hex_value(l)) as u8] + percent_bytes(rest)
    } else {
        seq![b[0]] + percent_bytes(b.skip(1))
    }
}

/// Each byte as the character of that code (Latin-1).
pub open spec fn latin1(b: Seq<u8>) -> Seq<char> {
    b.map_values(|x: u8| x as char)
}

/// A request path decoded: its bytes, percent escapes decoded, read as UTF-8
/// (each byte as its own character where they are no UTF-8).
pub open spec fn percent_decoded(b: Seq<u8>) -> Seq<char> {
    let d = percent_bytes(b);
    if valid_utf8(d) {
        decode_utf8(d)
    } else {
        latin1(d)
    }
}

fn hex_val(b: u8) -> (r: u8)
    ensures
        r == hex_value(b),
        r < 16,
{
    if 48 <= b && b <= 57 {
        b - 48
    } else if 97 <= b && b <= 102 {
        b - 87
    } else if 65 <= b && b <= 70 {
        b - 55
    } else {
        0
    }
}

/// Decode the percent escapes of a request path, reading the bytes as UTF-8.
pub fn percent_decode(s: &str) -> (r: String)
    ensures
        r@ == percent_decoded(encode_utf8(s@)),
{
    let b = s.as_bytes();
    let ghost bs = b@;
    let mut out: Vec<u8> = Vec::new();
    let mut i: usize = 0;
    assert(bs.skip(0) =~= bs);
    while i < b.len()
        invariant
            bs == b@,
            i <= bs.len(),
            percent_bytes(bs) == out@ + percent_bytes(bs.skip(i as int)),
        decreases bs.len() - i,
    {
        let ghost t = bs.skip(i as int);
        if b[i] == 37u8 {
            let h = if b.len() - i > 1 {
                b[i + 1]
            } else {
                48u8
            };
            let l = if b.len() - i > 2 {
                b[i + 2]
            } else {
                48u8
            };
            let val = hex_val(h) * 16 + hex_val(l);
            out.push(val);
            let next = if b.len() - i > 3 {
                i + 3
            } else {
                b.len()
            };
            proof {
                if t.len() > 3 {
                    assert(t.skip(3) =~= bs.skip(next as int));
                } else {
                    assert(bs.skip(next as int) =~= Seq::<u8>::empty());
                }
            }
            i = next;
        } else {
            out.push(b[i]);
            proof {
                assert(t.skip(1) =~= bs.skip(i + 1));
            }
            i = i + 1;
        }
    }
    assert(bs.skip(i as int) =~= Seq::<u8>::empty());
    assert(out@ =~= percent_bytes(bs));
    match crate::scanner::utf8_text(out.as_slice()) {
        Ok(t) => t,
        Err(_) => {
            let mut c: Vec<char> = Vec::new();
            let mut k: usize = 0;
            while k < out.len()
                invariant
                    k <= out.len(),
                    c@ =~= latin1(out@.take(k as int)),
                decreases out.len() - k,
            {
                c.push(out[k] as char);
                k = k + 1;
                assert(c@ =~= latin1(out@.take(k as int)));
            }
            assert(out@.take(k as int) =~= out@);
            to_string(&c)
        },
    }
}

/// The path of an HTTP request: the second word of its first line (`/`
/// where there is none).
pub open spec fn request_path(req: Seq<char>) -> Seq<char> {
    let ls = lines_seq(req);
    if ls.len() > 0 && words_seq(ls[0]).len() > 1 {
        words_seq(ls[0])[1]
    } else {
        seq!['/']
    }
}

/// The path a request asks for.
pub fn parse_request_path(request: &str) -> (r: String)
    ensures
        r@ == request_path(request@),
{
    let ls = str_lines(request);
    if ls.len() > 0 {
        let ws = words(&ls[0]);
        proof {
            assert(ls@[0]@ == views(ls@)[0]);
        }
        if ws.len() > 1 {
            proof {
                assert(ws@[1]@ == views(ws@)[1]);
            }
            return to_string(&ws[1]);
        }
    }
    let mut v: Vec<char> = Vec::new();
    v.push('/');
    assert(v@ =~= seq!['/']);
    to_string(&v)
}

/// Whether a request asks to upgrade to a WebSocket.
pub fn is_upgrade_request(request: &str) -> (r: bool)
    ensures
        r == (includes(request@, "Upgrade: websocket"@) || includes(
            request@,
            "upgrade: websocket"@,
        )),
{
    let req = chars_of(request);
    contains(&req, &chars_of("Upgrade: websocket")) || contains(
        &req,
        &chars_of("upgrade: websocket"),
    )
}

/// The first of the lines from `i` on whose lower-case form starts with
/// `sec-websocket-key:` (-1 where none does).
pub open spec fn key_line(ls: Seq<Seq<char>>, i: int) -> int
    decreases ls.len() - i,
{
    if i < 0 || i >= ls.len() {
        -1
    } else if starts(unicode_lower(ls[i]), "sec-websocket-key:"@) {
        i
    } else {
        key_line(ls, i + 1)
    }
}

/// The client's `Sec-WebSocket-Key`: what follows the first `:` of that
/// header line, up to the next `:`, trimmed (empty where there is none).
pub open spec fn websocket_key_of(req: Seq<char>) -> Seq<char> {
    let ls = lines_seq(req);
    let j = key_line(ls, 0);
    if j < 0 {
        Seq::empty()
    } else if split_on(ls[j], ':').len() > 1 {
        trim_seq(split_on(ls[j], ':')[1])
    } else {
        Seq::empty()
    }
}

/// The key of a WebSocket upgrade request.
pub fn websocket_key(request: &str) -> (r: String)
    ensures
        r@ == websocket_key_of(request@),
{
    let ls = str_lines(request);
    let prefix = chars_of("sec-websocket-key:");
    let mut j: usize = 0;
    while j < ls.len()
        invariant
            j <= ls@.len(),
            views(ls@) == lines_seq(request@),
            prefix@ == "sec-websocket-key:"@,
            key_line(views(ls@), 0) == key_line(views(ls@), j as int),
        decreases ls@.len() - j,
    {
        let line = to_string(&ls[j]);
        let lower = chars_of(to_lowercase(line.as_str()).as_str());
        proof {
            assert(ls@[j as int]@ == views(ls@)[j as int]);
        }
        if starts_with(&lower, &prefix) {
            let pieces = split_char(&ls[j], ':');
            if pieces.len() > 1 {
                proof {
                    assert(pieces@[1]@ == views(pieces@)[1]);
                }
                return to_string(&trim(&pieces[1]));
            }
            return String::new();
        }
        j = j + 1;
    }
    String::new()
}

/// The answer to a WebSocket upgrade.
pub fn upgrade_response(accept: &str) -> (r: String)
    ensures
        r@ == "HTTP/1.1 101 Switching Protocols\r\nUpgrade: websocket\r\nConnection: Upgrade\r\nSec-WebSocket-Accept: "@
            + accept@ + "\r\n\r\n"@,
{
    let mut v: Vec<char> = Vec::new();
    push_str(
        &mut v,
        "HTTP/1.1 101 Switching Protocols\r\nUpgrade: websocket\r\nConnection: Upgrade\r\nSec-WebSocket-Accept: ",
    );
    push_str(&mut v, accept);
    push_str(&mut v, "\r\n\r\n");
    to_string(&v)
}

pub open spec fn status_text(status: u16) -> Seq<char> {
    if status == 200 {
        "OK"@
    } else if status == 403 {
        "Forbidden"@
    } else if status == 404 {
        "Not Found"@
    } else {
        "Error"@
    }
}

/// The head of an HTTP response.
pub fn response_header(status: u16, content_type: &str, body_len: usize) -> (r: String)
    ensures
        r@ == "HTTP/1.1 "@ + dec(status as nat) + " "@ + status_text(status)
            + "\r\nContent-Type: "@ + content_type@ + "\r\nContent-Length: "@ + dec(
            body_len as nat,
        ) + "\r\nConnection: close\r\nCache-Control: no-cache\r\n\r\n"@,
{
    let mut v: Vec<char> = Vec::new();
    push_str(&mut v, "HTTP/1.1 ");
    push_all(&mut v, &decimal(status as usize));
    push_str(&mut v, " ");
    let text = if status == 200 {
        "OK"
    } else if status == 403 {
        "Forbidden"
    } else if status == 404 {
        "Not Found"
    } else {
        "Error"
    };
    push_str(&mut v, text);
    push_str(&mut v, "\r\nContent-Type: ");
    push_str(&mut v, content_type);
    push_str(&mut v, "\r\nContent-Length: ");
    push_all(&mut v, &decimal(body_len));
    push_str(&mut v, "\r\nConnection: close\r\nCache-Control: no-cache\r\n\r\n");
    to_string(&v)
}

fn is_text(e: &Vec<char>, lit: &str) -> (r: bool)
    ensures
        r == (e@ == lit@),
{
    vec_eq(e, &chars_of(lit))
}

/// The content type served for a file extension.
pub open spec fn mime_for(ext: Seq<char>) -> Seq<char> {
    if ext == "html"@ || ext == "htm"@ {
        "text/html; charset=utf-8"@
    } else if ext == "css"@ {
        "text/css; charset=utf-8"@
    } else if ext == "js"@ || ext == "mjs"@ {
        "application/javascript; charset=utf-8"@
    } else if ext == "json"@ {
        "application/json; charset=utf-8"@
    } else if ext == "png"@ {
        "image/png"@
    } else if ext == "jpg"@ || ext == "jpeg"@ {
        "image/jpeg"@
    } else if ext == "gif"@ {
        "image/gif"@
    } else if ext == "svg"@ {
        "image/svg+xml"@
    } else if ext == "ico"@ {
        "image/x-icon"@
    } else if ext == "woff2"@ {
        "font/woff2"@
    } else if ext == "woff"@ {
        "font/woff"@
    } else if ext == "ttf"@ {
        "font/ttf"@
    } else if ext == "wasm"@ {
        "application/wasm"@
    } else {
        "application/octet-stream"@
    }
}

/// The content type of a file, by its extension (empty where it has none).
pub fn guess_mime(ext: &str) -> (r: &'static str)
    ensures
        r@ == mime_for(ext@),
{
    let e = chars_of(ext);
    if is_text(&e, "html") || is_text(&e, "htm") {
        "text/html; charset=utf-8"
    } else if is_text(&e, "css") {
        "text/css; charset=utf-8"
    } else if is_text(&e, "js") || is_text(&e, "mjs") {
        "application/javascript; charset=utf-8"
    } else if is_text(&e, "json") {
        "application/json; charset=utf-8"
    } else if is_text(&e, "png") {
        "image/png"
    } else if is_text(&e, "jpg") || is_text(&e, "jpeg") {
        "image/jpeg"
    } else if is_text(&e, "gif") {
        "image/gif"
    } else if is_text(&e, "svg") {
        "image/svg+xml"
    } else if is_text(&e, "ico") {
        "image/x-icon"
    } else if is_text(&e, "woff2") {
        "font/woff2"
    } else if is_text(&e, "woff") {
        "font/woff"
    } else if is_text(&e, "ttf") {
        "font/ttf"
    } else if is_text(&e, "wasm") {
        "application/wasm"
    } else {
        "application/octet-stream"
    }
}

/// What an HTTP request is answered with.
pub enum Route {
    /// The served page itself.
    Main,
    /// A file under the page's directory, by its relative path.
    Static(String),
}

/// The decoded path without its leading slashes.
pub open spec fn clean_path(path: Seq<char>) -> Seq<char> {
    trim_start_char_seq(percent_decoded(encode_utf8(path)), '/')
}

/// Route a request path: the page for the root or the page's own name,
/// else a file relative to the page's directory.
pub fn route(path: &str, main_name: &str) -> (r: Route)
    ensures
        (clean_path(path@).len() == 0 || clean_path(path@) == main_name@) ==> r is Main,
        !(clean_path(path@).len() == 0 || clean_path(path@) == main_name@) ==> (r matches Route::Static(p)
            && p@ == clean_path(path@)),
{
    let decoded = chars_of(percent_decode(path).as_str());
    let clean = trim_start_char(&decoded, '/');
    if clean.len() == 0 || vec_eq(&clean, &chars_of(main_name)) {
        Route::Main
    } else {
        Route::Static(to_string(&clean))
    }
}

// ---------------------------------------------------------------------------
// Pushing changes
// ---------------------------------------------------------------------------

/// How `serde_json` writes a character inside a string.
pub open spec fn json_escape(c: char) -> Seq<char> {
    if c == '"' {
        seq!['\\', '"']
    } else if c == '\\' {
        seq!['\\', '\\']
    } else if c == '\n' {
        seq!['\\', 'n']
    } else if c == '\r' {
        seq!['\\', 'r']
    } else if c == '\t' {
        seq!['\\', 't']
    } else if c == '\u{8}' {
        seq!['\\', 'b']
    } else if c == '\u{c}' {
        seq!['\\', 'f']
    } else if (c as u32) < 0x20 {
        seq!['\\', 'u', '0', '0', hex_digit(c as int / 16), hex_digit(c as int % 16)]
    } else {
        seq![c]
    }
}

pub open spec fn json_body(s: Seq<char>) -> Seq<char>
    decreases s.len(),
{
    if s.len() == 0 {
        Seq::empty()
    } else {
        json_body(s.drop_last()) + json_escape(s.last())
    }
}

/// A text as a JSON string.
pub open spec fn json_string(s: Seq<char>) -> Seq<char> {
    seq!['"'] + json_body(s) + seq!['"']
}

/// `serde_json::to_string` of a text: the text quoted, with `"`, `\` and the
/// control characters escaped as the crate's escape table does.
#[verifier::external_body]
pub(crate) fn json_quote(s: &str) -> (r: String)
    ensures
        r@ == json_string(s@),
{
    serde_json::to_string(s).unwrap_or_default()
}

/// The message that replaces the whole page in the clients.
pub open spec fn full_message(html: Seq<char>) -> Seq<char> {
    "{\"html\":"@ + json_string(html) + ",\"type\":\"full\"}"@
}

/// What the server holds and pushes after the file changed.
pub struct LiveUpdate {
    pub served: String,
    pub hash: String,
    pub payload: String,
}

/// The update for a new text of the file: none where its hash is the one
/// served; else the page to serve (with the live script where asked), its
/// hash, and the message for the clients.
pub fn change_update(current_hash: &str, new_raw: &str, inject_live: bool) -> (r: Option<LiveUpdate>)
    ensures
        r is None <==> hex_text(sha256(encode_utf8(new_raw@))) == current_hash@,
        r matches Some(u) ==> {
            &&& u.hash@ == hex_text(sha256(encode_utf8(new_raw@)))
            &&& u.served@ == if inject_live {
                injected(new_raw@)
            } else {
                new_raw@
            }
            &&& u.payload@ == full_message(u.served@)
        },
{
    let hash = hash_content(new_raw);
    if vec_eq(&chars_of(hash.as_str()), &chars_of(current_hash)) {
        return None;
    }
    let served = if inject_live {
        inject_live_script(new_raw)
    } else {
        new_raw.to_string()
    };
    let mut v: Vec<char> = Vec::new();
    push_str(&mut v, "{\"html\":");
    push_str(&mut v, json_quote(served.as_str()).as_str());
    push_str(&mut v, ",\"type\":\"full\"}");
    Some(LiveUpdate { served, hash, payload: to_string(&v) })
}

} // verus!
