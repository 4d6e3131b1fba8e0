//! Request decoding: turning the header text into a structured request.
//!
//! The header text is split into lines on CRLF.  The first line is the
//! start line, split on ASCII whitespace into method, path and version
//! tokens; missing tokens are empty, an unrecognized method means GET and
//! any version means HTTP/1.1.  Every further line is matched against the
//! four recognized header names by prefix; a match stores the text after
//! the first ": " in the corresponding field, `Content-Length` being read
//! as an unsigned integer that defaults to 0 when malformed.  When a
//! content length is present, that many bytes of the remainder become the
//! request body.

use vstd::prelude::*;
use vstd::slice::{slice_subrange, slice_to_vec};
use crate::bytes::{bytes_of, str_bytes, starts_with, starts_with_spec, seq_views};
use crate::framer::{CR, LF, body_spec, frame_spec};
use crate::http::{
    HttpMethod, HttpVersion, HttpHeaders, HttpRequest, SpecHeaders, SpecRequest, method_of_token,
};

verus! {

/// The first position where byte `a` is immediately followed by byte `b`.
pub open spec fn first_pair(s: Seq<u8>, a: u8, b: u8) -> Option<int>
    decreases s.len(),
{
    if s.len() < 2 {
        None
    } else if s[0] == a && s[1] == b {
        Some(0)
    } else {
        match first_pair(s.skip(1), a, b) {
            None => None,
            Some(i) => Some(i + 1),
        }
    }
}

pub proof fn lemma_first_pair_bounds(s: Seq<u8>, a: u8, b: u8)
    ensures
        match first_pair(s, a, b) {
            Some(i) => 0 <= i && i + 1 < s.len() && s[i] == a && s[i + 1] == b,
            None => true,
        },
    decreases s.len(),
{
    if s.len() >= 2 && !(s[0] == a && s[1] == b) {
        lemma_first_pair_bounds(s.skip(1), a, b);
    }
}

/// The first pair position is set by the first place the pair occurs.
pub proof fn lemma_first_pair_at(s: Seq<u8>, a: u8, b: u8, i: int)
    requires
        0 <= i <= s.len(),
        forall|j: int| 0 <= j < i ==> !(j + 1 < s.len() && #[trigger] s[j] == a && s[j + 1] == b),
    ensures
        i + 1 < s.len() && s[i] == a && s[i + 1] == b ==> first_pair(s, a, b) == Some(i),
        i >= s.len() - 1 ==> first_pair(s, a, b) is None,
    decreases i,
{
    if i > 0 {
        if s.len() >= 2 {
            assert(!(s[0] == a && s[1] == b));
            assert forall|j: int| 0 <= j < i - 1 implies !(j + 1 < s.skip(1).len()
                && #[trigger] s.skip(1)[j] == a && s.skip(1)[j + 1] == b) by {
                assert(s.skip(1)[j] == s[j + 1]);
                assert(j + 1 < s.skip(1).len() ==> s.skip(1)[j + 1] == s[j + 2]);
            }
            lemma_first_pair_at(s.skip(1), a, b, i - 1);
        }
    }
}

/// The first position where `a` is immediately followed by `b` in `s`.
pub fn find_pair(s: &[u8], a: u8, b: u8) -> (r: Option<usize>)
    ensures
        match r {
            Some(i) => first_pair(s@, a, b) == Some(i as int),
            None => first_pair(s@, a, b) is None,
        },
{
    let l = s.len();
    let mut i: usize = 0;
    while i + 1 < l
        invariant
            l == s@.len(),
            0 <= i <= l,
            i == 0 || i < l,
            forall|j: int| 0 <= j < i ==> !(j + 1 < s@.len() && #[trigger] s@[j] == a && s@[j + 1] == b),
        decreases l - i,
    {
        if s[i] == a && s[i + 1] == b {
            proof {
                lemma_first_pair_at(s@, a, b, i as int);
            }
            return Some(i);
        }
        i = i + 1;
    }
    proof {
        lemma_first_pair_at(s@, a, b, i as int);
    }
    None
}

/// The chunks of `s` between successive CRLF separators, in order.  There
/// is always at least one chunk; a trailing CRLF yields a final empty one.
pub open spec fn split_crlf(s: Seq<u8>) -> Seq<Seq<u8>>
    decreases s.len(),
{
    proof {
        lemma_first_pair_bounds(s, CR, LF);
    }
    match first_pair(s, CR, LF) {
        None => seq![s],
        Some(i) => seq![s.take(i)] + split_crlf(s.skip(i + 2)),
    }
}

/// Splits the header text into its CRLF-separated lines.
pub fn split_lines(s: &[u8]) -> (r: Vec<Vec<u8>>)
    ensures
        seq_views(r@) == split_crlf(s@),
    decreases s@.len(),
{
    proof {
        lemma_first_pair_bounds(s@, CR, LF);
    }
    let l = s.len();
    match find_pair(s, CR, LF) {
        None => {
            let mut r: Vec<Vec<u8>> = Vec::new();
            r.push(slice_to_vec(s));
            proof {
                assert(seq_views(r@) =~= seq![s@]);
            }
            r
        },
        Some(i) => {
            let chunk = slice_to_vec(slice_subrange(s, 0, i));
            let tail = slice_subrange(s, i + 2, l);
            proof {
                assert(tail@ =~= s@.skip(i + 2));
            }
            let mut rest = split_lines(tail);
            let ghost rest_views = seq_views(rest@);
            let mut r: Vec<Vec<u8>> = Vec::new();
            r.push(chunk);
            r.append(&mut rest);
            proof {
                assert(seq_views(r@) =~= seq![s@.subrange(0, i as int)] + rest_views);
                assert(s@.subrange(0, i as int) =~= s@.take(i as int));
                assert(seq_views(r@) =~= split_crlf(s@));
            }
            r
        },
    }
}

/// ASCII whitespace, as the start line is tokenized by.
pub open spec fn is_ws(b: u8) -> bool {
    b == 32 || b == 9 || b == 10 || b == 12 || b == 13
}

/// Length of the leading run of non-whitespace bytes.
pub open spec fn token_run(s: Seq<u8>) -> int
    decreases s.len(),
{
    if s.len() == 0 {
        0
    } else if is_ws(s[0]) {
        0
    } else {
        1 + token_run(s.skip(1))
    }
}

pub proof fn lemma_token_run_bounds(s: Seq<u8>)
    ensures
        0 <= token_run(s) <= s.len(),
    decreases s.len(),
{
    if s.len() > 0 && !is_ws(s[0]) {
        lemma_token_run_bounds(s.skip(1));
    }
}

/// The leading run's length is set by the first whitespace position.
proof fn lemma_token_run_at(s: Seq<u8>, i: int)
    requires
        0 <= i <= s.len(),
        forall|j: int| 0 <= j < i ==> !is_ws(s[j]),
        i == s.len() || is_ws(s[i]),
    ensures
        token_run(s) == i,
    decreases i,
{
    if i > 0 {
        assert(!is_ws(s[0]));
        assert forall|j: int| 0 <= j < i - 1 implies !is_ws(s.skip(1)[j]) by {
            assert(s.skip(1)[j] == s[j + 1]);
        }
        lemma_token_run_at(s.skip(1), i - 1);
    }
}

/// The ASCII-whitespace-separated tokens of `s`, in order.
pub open spec fn tokens_of(s: Seq<u8>) -> Seq<Seq<u8>>
    decreases s.len(),
{
    if s.len() == 0 {
        Seq::<Seq<u8>>::empty()
    } else if is_ws(s[0]) {
        tokens_of(s.skip(1))
    } else {
        proof {
            lemma_token_run_bounds(s.skip(1));
        }
        let n = 1 + token_run(s.skip(1));
        seq![s.take(n)] + tokens_of(s.skip(n))
    }
}

/// The `i`th token, or the empty sequence when there are fewer.
pub open spec fn token_or_empty(toks: Seq<Seq<u8>>, i: int) -> Seq<u8> {
    if 0 <= i < toks.len() {
        toks[i]
    } else {
        Seq::<u8>::empty()
    }
}

fn is_ws_byte(b: u8) -> (r: bool)
    ensures
        r == is_ws(b),
{
    b == 32 || b == 9 || b == 10 || b == 12 || b == 13
}

/// Length of the leading run of non-whitespace bytes.
fn token_scan(s: &[u8]) -> (n: usize)
    ensures
        n == token_run(s@),
{
    let l = s.len();
    let mut i: usize = 0;
    while i < l
        invariant
            l == s@.len(),
            0 <= i <= l,
            forall|j: int| 0 <= j < i ==> !is_ws(s@[j]),
        decreases l - i,
    {
        if is_ws_byte(s[i]) {
            proof {
                lemma_token_run_at(s@, i as int);
            }
            return i;
        }
        i = i + 1;
    }
    proof {
        lemma_token_run_at(s@, i as int);
    }
    i
}

/// Splits the start line into its whitespace-separated tokens.
pub fn split_tokens(s: &[u8]) -> (r: Vec<Vec<u8>>)
    ensures
        seq_views(r@) == tokens_of(s@),
    decreases s@.len(),
{
    let l = s.len();
    if l == 0 {
        let r: Vec<Vec<u8>> = Vec::new();
        proof {
            assert(seq_views(r@) =~= tokens_of(s@));
        }
        r
    } else if is_ws_byte(s[0]) {
        let tail = slice_subrange(s, 1, l);
        proof {
            assert(tail@ =~= s@.skip(1));
        }
        split_tokens(tail)
    } else {
        let n = token_scan(s);
        proof {
            lemma_token_run_bounds(s@.skip(1));
            assert(n >= 1);
        }
        let tok = slice_to_vec(slice_subrange(s, 0, n));
        let tail = slice_subrange(s, n, l);
        proof {
            assert(tail@ =~= s@.skip(n as int));
        }
        let mut rest = split_tokens(tail);
        let ghost rest_views = seq_views(rest@);
        let mut r: Vec<Vec<u8>> = Vec::new();
        r.push(tok);
        r.append(&mut rest);
        proof {
            assert(seq_views(r@) =~= seq![s@.subrange(0, n as int)] + rest_views);
            assert(s@.subrange(0, n as int) =~= s@.take(n as int));
            assert(seq_views(r@) =~= tokens_of(s@));
        }
        r
    }
}

/// A decimal digit.
pub open spec fn is_digit(b: u8) -> bool {
    48 <= b <= 57
}

pub open spec fn all_digits(s: Seq<u8>) -> bool {
    forall|i: int| 0 <= i < s.len() ==> is_digit(#[trigger] s[i])
}

/// The number a digit string denotes, most significant digit first.
pub open spec fn digits_val(s: Seq<u8>) -> int
    decreases s.len(),
{
    if s.len() == 0 {
        0
    } else {
        digits_val(s.take(s.len() - 1)) * 10 + (s.last() - 48)
    }
}

/// The content length a header value denotes: the number of a nonempty
/// digit string whose value fits the machine, and 0 for anything else.
pub open spec fn parse_len(s: Seq<u8>) -> int {
    if s.len() > 0 && all_digits(s) && digits_val(s) <= usize::MAX {
        digits_val(s)
    } else {
        0
    }
}

proof fn lemma_digits_val_nonneg(s: Seq<u8>)
    requires
        all_digits(s),
    ensures
        digits_val(s) >= 0,
    decreases s.len(),
{
    if s.len() > 0 {
        assert(all_digits(s.take(s.len() - 1)));
        lemma_digits_val_nonneg(s.take(s.len() - 1));
    }
}

/// A longer digit prefix denotes at least as large a number.
proof fn lemma_digits_val_grows(s: Seq<u8>, i: int, j: int)
    requires
        all_digits(s),
        0 <= i <= j <= s.len(),
    ensures
        digits_val(s.take(i)) <= digits_val(s.take(j)),
    decreases j - i,
{
    if i < j {
        lemma_digits_val_grows(s, i, j - 1);
        let t = s.take(j);
        assert(all_digits(t));
        assert(t.take(j - 1) =~= s.take(j - 1));
        lemma_digits_val_nonneg(s.take(j - 1));
        assert(digits_val(t) == digits_val(s.take(j - 1)) * 10 + (s[j - 1] - 48));
    }
}

/// Reads a decimal number; anything malformed or out of range reads as 0.
pub fn parse_usize(s: &[u8]) -> (r: usize)
    ensures
        r as int == parse_len(s@),
{
    let l = s.len();
    if l == 0 {
        return 0;
    }
    let mut val: usize = 0;
    let mut i: usize = 0;
    while i < l
        invariant
            l == s@.len(),
            0 < l,
            0 <= i <= l,
            all_digits(s@.take(i as int)),
            val as int == digits_val(s@.take(i as int)),
        decreases l - i,
    {
        let b = s[i];
        if b < 48 || b > 57 {
            proof {
                assert(!is_digit(s@[i as int]));
                assert(!all_digits(s@));
            }
            return 0;
        }
        let d = (b - 48) as usize;
        if val > (usize::MAX - d) / 10 {
            proof {
                assert(s@.take(i + 1 as int).take(i as int) =~= s@.take(i as int));
                assert(s@.take(i + 1 as int).last() == s@[i as int]);
                assert(digits_val(s@.take(i + 1 as int)) == val as int * 10 + d);
                assert(val as int * 10 + d > usize::MAX) by {
                    assert(val > (usize::MAX - d) / 10);
                };
                if all_digits(s@) {
                    lemma_digits_val_grows(s@, i + 1, l as int);
                    assert(s@.take(l as int) =~= s@);
                    assert(digits_val(s@) > usize::MAX);
                }
            }
            return 0;
        }
        proof {
            assert(val * 10 + d <= usize::MAX) by {
                assert(val <= (usize::MAX - d) / 10);
            };
            assert(s@.take(i + 1 as int).take(i as int) =~= s@.take(i as int));
            assert(s@.take(i + 1 as int).last() == s@[i as int]);
            assert(all_digits(s@.take(i + 1 as int)));
        }
        val = val * 10 + d;
        i = i + 1;
    }
    proof {
        assert(s@.take(l as int) =~= s@);
    }
    val
}

/// The value of a header line: what follows the first ": ", or nothing
/// when the line holds no ": ".
pub open spec fn header_value(line: Seq<u8>) -> Seq<u8> {
    match first_pair(line, 58, 32) {
        Some(i) => line.skip(i + 2),
        None => Seq::<u8>::empty(),
    }
}

/// The value of a header line, after the first ": ".
pub fn header_value_of(line: &[u8]) -> (r: Vec<u8>)
    ensures
        r@ == header_value(line@),
{
    let l = line.len();
    proof {
        lemma_first_pair_bounds(line@, 58, 32);
    }
    match find_pair(line, 58, 32) {
        Some(i) => {
            let v = slice_to_vec(slice_subrange(line, i + 2, l));
            proof {
                assert(v@ =~= line@.skip(i + 2));
            }
            v
        },
        None => Vec::new(),
    }
}

/// One header line's effect on the record: the first recognized name it
/// begins with takes the line's value; other lines change nothing.
pub open spec fn scan_step(h: SpecHeaders, line: Seq<u8>) -> SpecHeaders {
    if starts_with_spec(line, bytes_of("Host"@)) {
        SpecHeaders { host: Some(header_value(line)), ..h }
    } else if starts_with_spec(line, bytes_of("User-Agent"@)) {
        SpecHeaders { user_agent: Some(header_value(line)), ..h }
    } else if starts_with_spec(line, bytes_of("Content-Length"@)) {
        SpecHeaders { content_length: Some(parse_len(header_value(line))), ..h }
    } else if starts_with_spec(line, bytes_of("Accept-Encoding"@)) {
        SpecHeaders { content_encoding: Some(header_value(line)), ..h }
    } else {
        h
    }
}

/// The record left by scanning every header line in order; a later line
/// for the same name wins.
pub open spec fn scan_headers(lines: Seq<Seq<u8>>) -> SpecHeaders
    decreases lines.len(),
{
    if lines.len() == 0 {
        SpecHeaders::empty()
    } else {
        scan_step(scan_headers(lines.drop_last()), lines.last())
    }
}

/// The request decoded from the header text and the bytes that followed
/// the blank line.
pub open spec fn decode_spec(header_text: Seq<u8>, rest: Seq<u8>) -> SpecRequest {
    let lines = split_crlf(header_text);
    let toks = tokens_of(lines[0]);
    let h = scan_headers(lines.skip(1));
    let headers = match h.content_length {
        Some(l) => SpecHeaders { request_body: Some(body_spec(rest, l)), ..h },
        None => h,
    };
    SpecRequest {
        method: method_of_token(token_or_empty(toks, 0)),
        path: token_or_empty(toks, 1),
        version: HttpVersion::V1_1,
        headers,
    }
}

/// Decodes the framed header text, taking the body from the bytes after
/// the blank line when a content length is present.
pub fn decode_request(header_text: &[u8], rest: &[u8]) -> (r: HttpRequest)
    ensures
        r@ == decode_spec(header_text@, rest@),
{
    let lines = split_lines(header_text);
    proof {
        assert(seq_views(lines@).len() >= 1);
        reveal_strlit("Host");
        reveal_strlit("User-Agent");
        reveal_strlit("Content-Length");
        reveal_strlit("Accept-Encoding");
    }
    let toks = split_tokens(lines[0].as_slice());
    let empty: Vec<u8> = Vec::new();
    let t0 = if toks.len() > 0 { toks[0].as_slice() } else { empty.as_slice() };
    let t1 = if toks.len() > 1 { toks[1].as_slice() } else { empty.as_slice() };
    let t2 = if toks.len() > 2 { toks[2].as_slice() } else { empty.as_slice() };
    let method = HttpMethod::from(t0);
    let path = slice_to_vec(t1);
    let version = HttpVersion::from(t2);
    let mut headers = HttpHeaders::default();
    let n = lines.len();
    let mut i: usize = 1;
    while i < n
        invariant
            n == lines@.len(),
            1 <= i <= n,
            headers@ == scan_headers(seq_views(lines@).subrange(1, i as int)),
        decreases n - i,
    {
        proof {
            reveal_strlit("Host");
            reveal_strlit("User-Agent");
            reveal_strlit("Content-Length");
            reveal_strlit("Accept-Encoding");
        }
        let line = lines[i].as_slice();
        if starts_with(line, str_bytes("Host")) {
            headers.host = Some(header_value_of(line));
        } else if starts_with(line, str_bytes("User-Agent")) {
            headers.user_agent = Some(header_value_of(line));
        } else if starts_with(line, str_bytes("Content-Length")) {
            let v = header_value_of(line);
            headers.content_length = Some(parse_usize(v.as_slice()));
        } else if starts_with(line, str_bytes("Accept-Encoding")) {
            headers.content_encoding = Some(header_value_of(line));
        }
        proof {
            let lv = seq_views(lines@);
            assert(lv.subrange(1, i + 1 as int).drop_last() =~= lv.subrange(1, i as int));
            assert(lv.subrange(1, i + 1 as int).last() == lv[i as int]);
        }
        i = i + 1;
    }
    proof {
        assert(seq_views(lines@).subrange(1, n as int) =~= seq_views(lines@).skip(1));
    }
    if let Some(len) = headers.content_length {
        headers.request_body = Some(crate::framer::read_body(rest, len));
    }
    let r = HttpRequest { method, path, version, headers };
    proof {
        assert(r@ == decode_spec(header_text@, rest@));
    }
    r
}

/// Reads a whole raw message: frames it, then decodes the request.
pub fn request_from_bytes(input: &[u8]) -> (r: HttpRequest)
    ensures
        r@ == decode_spec(frame_spec(input@).0, frame_spec(input@).1),
{
    let framed = crate::framer::frame_message(input);
    decode_request(framed.0.as_slice(), framed.1.as_slice())
}

} // verus!
