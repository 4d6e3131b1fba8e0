//! Message framing: cutting a raw byte stream into the header block and
//! the bytes that follow it, and taking the body out of the latter.
//!
//! A message is read line by line, a line running through the first line
//! feed.  Lines accumulate into the header text until a line consisting of
//! just a carriage return and a line feed appears; that blank line is
//! consumed and excluded.  If the input ends first, whatever was available
//! counts as the header text.  The body is then the first `Content-Length`
//! bytes of the remainder, or all of it when fewer are available.

use vstd::prelude::*;
use vstd::slice::{slice_subrange, slice_to_vec};
use crate::bytes::{push_all, find_from};

verus! {

pub const CR: u8 = 13;

pub const LF: u8 = 10;

/// Length of the first line of `s`: through the first line feed, or all
/// of `s` when it holds none.
pub open spec fn line_len(s: Seq<u8>) -> int
    decreases s.len(),
{
    if s.len() == 0 {
        0
    } else if s[0] == LF {
        1
    } else {
        1 + line_len(s.skip(1))
    }
}

pub proof fn lemma_line_len_bounds(s: Seq<u8>)
    ensures
        0 <= line_len(s) <= s.len(),
        s.len() > 0 ==> 1 <= line_len(s),
    decreases s.len(),
{
    if s.len() > 0 && s[0] != LF {
        lemma_line_len_bounds(s.skip(1));
    }
}

/// The first line's length is set by the first line-feed position.
pub proof fn lemma_line_len_at(s: Seq<u8>, i: int)
    requires
        0 <= i <= s.len(),
        forall|j: int| 0 <= j < i ==> s[j] != LF,
        i == s.len() || s[i] == LF,
    ensures
        line_len(s) == if i == s.len() { s.len() as int } else { i + 1 },
    decreases i,
{
    if i > 0 {
        assert(s[0] != LF);
        assert forall|j: int| 0 <= j < i - 1 implies s.skip(1)[j] != LF by {
            assert(s.skip(1)[j] == s[j + 1]);
        }
        lemma_line_len_at(s.skip(1), i - 1);
    }
}

/// Whether `s` begins with a blank line (a bare CRLF).
pub open spec fn blank_start(s: Seq<u8>) -> bool {
    s.len() >= 2 && s[0] == CR && s[1] == LF
}

/// Splits a raw message into the header text (all lines before the first
/// blank line, line terminators kept) and whatever follows the blank line.
pub open spec fn frame_spec(s: Seq<u8>) -> (Seq<u8>, Seq<u8>)
    decreases s.len(),
{
    if blank_start(s) {
        (Seq::<u8>::empty(), s.skip(2))
    } else if s.len() == 0 {
        (Seq::<u8>::empty(), Seq::<u8>::empty())
    } else {
        proof {
            lemma_line_len_bounds(s);
        }
        let n = line_len(s);
        let rec = frame_spec(s.skip(n));
        (s.take(n) + rec.0, rec.1)
    }
}

/// The body taken from the bytes after the header block: the first `len`
/// of them, or all of them when fewer are available.
pub open spec fn body_spec(rest: Seq<u8>, len: int) -> Seq<u8> {
    if len <= rest.len() {
        rest.take(len)
    } else {
        rest
    }
}

/// Length of the line at the front of `s`.
fn line_scan(s: &[u8]) -> (n: usize)
    requires
        s@.len() > 0,
    ensures
        n == line_len(s@),
        1 <= n <= s@.len(),
{
    let l = s.len();
    match find_from(s, 0, LF) {
        Some(i) => {
            proof {
                lemma_line_len_at(s@, i as int);
            }
            i + 1
        },
        None => {
            proof {
                lemma_line_len_at(s@, s@.len() as int);
            }
            l
        },
    }
}

/// Splits a raw message into header text and the bytes after the blank
/// line, as `frame_spec` describes.
pub fn frame_message(input: &[u8]) -> (r: (Vec<u8>, Vec<u8>))
    ensures
        r.0@ == frame_spec(input@).0,
        r.1@ == frame_spec(input@).1,
    decreases input@.len(),
{
    if input.len() >= 2 && input[0] == CR && input[1] == LF {
        let rest = slice_to_vec(slice_subrange(input, 2, input.len()));
        proof {
            assert(input@.subrange(2, input@.len() as int) =~= input@.skip(2));
        }
        (Vec::new(), rest)
    } else if input.len() == 0 {
        (Vec::new(), Vec::new())
    } else {
        let n = line_scan(input);
        let tail = slice_subrange(input, n, input.len());
        proof {
            assert(tail@ =~= input@.skip(n as int));
        }
        let rec = frame_message(tail);
        let mut header = slice_to_vec(slice_subrange(input, 0, n));
        proof {
            assert(input@.subrange(0, n as int) =~= input@.take(n as int));
        }
        push_all(&mut header, rec.0.as_slice());
        (header, rec.1)
    }
}

/// Takes the body out of the bytes that follow the header block.
pub fn read_body(rest: &[u8], len: usize) -> (r: Vec<u8>)
    ensures
        r@ == body_spec(rest@, len as int),
{
    if len <= rest.len() {
        slice_to_vec(slice_subrange(rest, 0, len))
    } else {
        slice_to_vec(rest)
    }
}

/// A well-formed header block: complete lines, each ending in a line
/// feed, none of them blank.
pub open spec fn is_header_block(h: Seq<u8>) -> bool
    decreases h.len(),
{
    if h.len() == 0 {
        true
    } else {
        proof {
            lemma_line_len_bounds(h);
        }
        &&& !blank_start(h)
        &&& h[line_len(h) - 1] == LF
        &&& is_header_block(h.skip(line_len(h)))
    }
}

/// A complete first line keeps its length under any extension.
proof fn lemma_line_len_prefix(s: Seq<u8>, t: Seq<u8>)
    requires
        s.len() > 0,
        s[line_len(s) - 1] == LF,
    ensures
        line_len(s + t) == line_len(s),
    decreases s.len(),
{
    lemma_line_len_bounds(s);
    if s[0] == LF {
        assert((s + t)[0] == LF);
    } else {
        assert((s + t)[0] == s[0]);
        assert((s + t).skip(1) =~= s.skip(1) + t);
        assert(s.skip(1)[line_len(s.skip(1)) - 1] == s[line_len(s) - 1]);
        lemma_line_len_prefix(s.skip(1), t);
    }
}

/// The framing law: a message made of a well-formed header block, a blank
/// line, and a remainder frames into exactly that header block, and the
/// body taken at a length within the remainder is exactly that many of
/// its leading bytes.
pub proof fn lemma_framer_extracts(h: Seq<u8>, b: Seq<u8>, l: int)
    requires
        is_header_block(h),
        0 <= l <= b.len(),
    ensures
        frame_spec(h + seq![CR, LF] + b).0 == h,
        frame_spec(h + seq![CR, LF] + b).1 == b,
        body_spec(frame_spec(h + seq![CR, LF] + b).1, l) == b.take(l),
        body_spec(frame_spec(h + seq![CR, LF] + b).1, l).len() == l,
    decreases h.len(),
{
    let s = h + seq![CR, LF] + b;
    if h.len() == 0 {
        assert(s[0] == CR && s[1] == LF);
        assert(s.skip(2) =~= b);
        assert(frame_spec(s).0 =~= h);
    } else {
        lemma_line_len_bounds(h);
        let n = line_len(h);
        // the blank line cannot begin the block
        if blank_start(s) {
            assert(h[0] == CR);
            if h.len() == 1 {
                assert(h[line_len(h) - 1] == CR);
            } else {
                assert(h[1] == s[1]);
                assert(blank_start(h));
            }
            assert(false);
        }
        assert(h + seq![CR, LF] + b =~= h + (seq![CR, LF] + b));
        lemma_line_len_prefix(h, seq![CR, LF] + b);
        assert(line_len(s) == n);
        assert(s.take(n) =~= h.take(n));
        assert(s.skip(n) =~= h.skip(n) + seq![CR, LF] + b);
        lemma_framer_extracts(h.skip(n), b, l);
        assert(frame_spec(s).0 =~= h.take(n) + h.skip(n));
        assert(h.take(n) + h.skip(n) =~= h);
    }
}

} // verus!
