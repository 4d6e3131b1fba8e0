//! Response encoding: serializing a structured response into the exact
//! HTTP/1.1 byte framing: status line, one line per header in the order
//! supplied, a blank line, then the body bytes when present.

use vstd::prelude::*;
use crate::bytes::{bytes_of, str_bytes, push_all};
use crate::framer::{CR, LF};
use crate::http::{HttpResponse, SpecResponse};

verus! {

/// The decimal digits of `n`, most significant first.
pub open spec fn dec_digits(n: nat) -> Seq<u8>
    decreases n,
{
    if n < 10 {
        seq![(48 + n) as u8]
    } else {
        dec_digits(n / 10).push((48 + n % 10) as u8)
    }
}

/// Writes `n` in decimal.
pub fn usize_to_dec(n: usize) -> (r: Vec<u8>)
    ensures
        r@ == dec_digits(n as nat),
    decreases n,
{
    if n < 10 {
        let mut v: Vec<u8> = Vec::new();
        v.push(48 + n as u8);
        proof {
            assert(v@ =~= dec_digits(n as nat));
        }
        v
    } else {
        let mut v = usize_to_dec(n / 10);
        v.push(48 + (n % 10) as u8);
        proof {
            assert(v@ =~= dec_digits(n as nat));
        }
        v
    }
}

/// One header on the wire: name, ": ", value, CRLF.
pub open spec fn header_line(n: Seq<u8>, v: Seq<u8>) -> Seq<u8> {
    n + bytes_of(": "@) + v + seq![CR, LF]
}

/// The header section: each header's line, in order.
pub open spec fn header_lines(hs: Seq<(Seq<u8>, Seq<u8>)>) -> Seq<u8>
    decreases hs.len(),
{
    if hs.len() == 0 {
        Seq::<u8>::empty()
    } else {
        header_lines(hs.drop_last()) + header_line(hs.last().0, hs.last().1)
    }
}

/// The status line without its terminator: version, a space, status.
pub open spec fn status_line(r: SpecResponse) -> Seq<u8> {
    r.version.spec_bytes() + seq![32u8] + r.status.spec_bytes()
}

/// The wire form of a response: status line, header lines, a blank line,
/// then the body bytes when present.
pub open spec fn encode_spec(r: SpecResponse) -> Seq<u8> {
    status_line(r) + seq![CR, LF] + header_lines(r.headers) + seq![CR, LF] + r.body_seq()
}

/// Serializes a response into its wire bytes.
pub fn encode_response(resp: &HttpResponse) -> (out: Vec<u8>)
    ensures
        out@ == encode_spec(resp@),
{
    proof {
        reveal_strlit("HTTP/1.1");
        reveal_strlit("200 OK");
        reveal_strlit("201 Created");
        reveal_strlit("404 Not Found");
        reveal_strlit(": ");
    }
    let mut out: Vec<u8> = Vec::new();
    push_all(&mut out, str_bytes(resp.version.as_str()));
    out.push(32);
    push_all(&mut out, str_bytes(resp.status.as_str()));
    out.push(CR);
    out.push(LF);
    let ghost start = status_line(resp@) + seq![CR, LF];
    proof {
        assert(out@ =~= start);
    }
    let n = resp.headers.len();
    let mut i: usize = 0;
    while i < n
        invariant
            n == resp.headers@.len(),
            0 <= i <= n,
            start == status_line(resp@) + seq![CR, LF],
            out@ == start + header_lines(resp@.headers.take(i as int)),
        decreases n - i,
    {
        proof {
            reveal_strlit(": ");
        }
        push_all(&mut out, resp.headers[i].0.as_slice());
        push_all(&mut out, str_bytes(": "));
        push_all(&mut out, resp.headers[i].1.as_slice());
        out.push(CR);
        out.push(LF);
        proof {
            let hs = resp@.headers;
            assert(hs.take(i + 1 as int).drop_last() =~= hs.take(i as int));
            assert(hs.take(i + 1 as int).last() == hs[i as int]);
            assert(out@ =~= start + header_lines(hs.take(i + 1 as int)));
        }
        i = i + 1;
    }
    proof {
        assert(resp@.headers.take(n as int) =~= resp@.headers);
    }
    out.push(CR);
    out.push(LF);
    match &resp.body {
        Some(b) => push_all(&mut out, b.as_slice()),
        None => {},
    }
    proof {
        assert(out@ =~= encode_spec(resp@));
    }
    out
}

/// Bytes fit for a header field: no carriage return, no line feed.
pub open spec fn field_ok(s: Seq<u8>) -> bool {
    forall|j: int| 0 <= j < s.len() ==> #[trigger] s[j] != CR && s[j] != LF
}

/// Bytes fit for a header name: nonempty, no line break, no colon.
pub open spec fn name_ok(n: Seq<u8>) -> bool {
    n.len() > 0 && field_ok(n) && (forall|j: int| 0 <= j < n.len() ==> #[trigger] n[j] != 58)
}

/// Headers whose names and values stay within one line each.
pub open spec fn headers_wf(hs: Seq<(Seq<u8>, Seq<u8>)>) -> bool {
    forall|i: int| 0 <= i < hs.len()
        ==> name_ok(#[trigger] hs[i].0) && field_ok(hs[i].1)
}

/// A response whose wire form can be read back: well-formed headers.
pub open spec fn resp_wf(r: SpecResponse) -> bool {
    headers_wf(r.headers)
}

/// A complete, non-blank line followed by a header block is one.
proof fn lemma_header_block_cons(line: Seq<u8>, rest: Seq<u8>)
    requires
        line.len() >= 1,
        line[line.len() - 1] == LF,
        forall|j: int| 0 <= j < line.len() - 1 ==> #[trigger] line[j] != LF,
        line[0] != CR,
        crate::framer::is_header_block(rest),
    ensures
        crate::framer::is_header_block(line + rest),
{
    let s = line + rest;
    assert forall|j: int| 0 <= j < line.len() - 1 implies s[j] != LF by {
        assert(s[j] == line[j]);
    }
    crate::framer::lemma_line_len_at(s, line.len() - 1);
    assert(crate::framer::line_len(s) == line.len());
    assert(s.skip(line.len() as int) =~= rest);
    assert(!crate::framer::blank_start(s));
}

/// Front decomposition of the header section.
proof fn lemma_header_lines_front(hs: Seq<(Seq<u8>, Seq<u8>)>)
    requires
        hs.len() > 0,
    ensures
        header_lines(hs) == header_line(hs[0].0, hs[0].1) + header_lines(hs.skip(1)),
    decreases hs.len(),
{
    if hs.len() == 1 {
        assert(hs.drop_last().len() == 0);
        assert(hs.skip(1).len() == 0);
        assert(hs.last() == hs[0]);
        assert(header_lines(hs) == header_lines(hs.drop_last()) + header_line(hs.last().0,
            hs.last().1));
        assert(header_lines(hs) =~= header_line(hs[0].0, hs[0].1) + header_lines(hs.skip(1)));
    } else {
        lemma_header_lines_front(hs.drop_last());
        assert(hs.drop_last()[0] == hs[0]);
        assert(hs.skip(1).drop_last() =~= hs.drop_last().skip(1));
        assert(hs.skip(1).last() == hs.last());
        assert((header_line(hs[0].0, hs[0].1) + header_lines(hs.drop_last().skip(1)))
            + header_line(hs.last().0, hs.last().1)
            =~= header_line(hs[0].0, hs[0].1) + (header_lines(hs.skip(1).drop_last())
                + header_line(hs.skip(1).last().0, hs.skip(1).last().1)));
    }
}

/// A well-formed header's wire line: complete, non-blank, one line feed.
proof fn lemma_header_line_shape(n: Seq<u8>, v: Seq<u8>)
    requires
        name_ok(n),
        field_ok(v),
    ensures
        header_line(n, v).len() == n.len() + v.len() + 4,
        header_line(n, v)[header_line(n, v).len() - 1] == LF,
        forall|j: int| 0 <= j < header_line(n, v).len() - 1 ==> #[trigger] header_line(n, v)[j] != LF,
        forall|j: int| 0 <= j < header_line(n, v).len() - 2 ==> #[trigger] header_line(n, v)[j] != CR,
        header_line(n, v)[0] == n[0],
{
    reveal_strlit(": ");
    assert(bytes_of(": "@) =~= seq![58u8, 32u8]);
    let line = header_line(n, v);
    assert forall|j: int| 0 <= j < line.len() - 1 implies line[j] != LF by {
        if j < n.len() {
            assert(line[j] == n[j]);
        } else if j < n.len() + 2 {
        } else if j < n.len() + 2 + v.len() {
            assert(line[j] == v[j - n.len() - 2]);
        }
    }
    assert forall|j: int| 0 <= j < line.len() - 2 implies line[j] != CR by {
        if j < n.len() {
            assert(line[j] == n[j]);
        } else if j < n.len() + 2 {
        } else if j < n.len() + 2 + v.len() {
            assert(line[j] == v[j - n.len() - 2]);
        }
    }
}

/// The header section of well-formed headers is a header block.
proof fn lemma_header_lines_block(hs: Seq<(Seq<u8>, Seq<u8>)>)
    requires
        headers_wf(hs),
    ensures
        crate::framer::is_header_block(header_lines(hs)),
    decreases hs.len(),
{
    if hs.len() > 0 {
        lemma_header_lines_front(hs);
        assert forall|i: int| 0 <= i < hs.skip(1).len()
            implies name_ok(#[trigger] hs.skip(1)[i].0) && field_ok(hs.skip(1)[i].1) by {
            assert(hs.skip(1)[i] == hs[i + 1]);
            assert(name_ok(hs[i + 1].0) && field_ok(hs[i + 1].1));
        }
        lemma_header_lines_block(hs.skip(1));
        let n = hs[0].0;
        let v = hs[0].1;
        lemma_header_line_shape(n, v);
        assert(header_line(n, v)[0] != CR);
        lemma_header_block_cons(header_line(n, v), header_lines(hs.skip(1)));
    }
}

/// Splitting on CRLF takes off a chunk free of carriage returns.
proof fn lemma_split_crlf_cons(c: Seq<u8>, rest: Seq<u8>)
    requires
        forall|j: int| 0 <= j < c.len() ==> #[trigger] c[j] != CR,
    ensures
        crate::decoder::split_crlf(c + seq![CR, LF] + rest)
            == seq![c] + crate::decoder::split_crlf(rest),
{
    let s = c + seq![CR, LF] + rest;
    assert forall|j: int| 0 <= j < c.len()
        implies !(j + 1 < s.len() && #[trigger] s[j] == CR && s[j + 1] == LF) by {
        assert(s[j] == c[j]);
    }
    crate::decoder::lemma_first_pair_at(s, CR, LF, c.len() as int);
    assert(s[c.len() as int] == CR && s[c.len() as int + 1] == LF);
    assert(crate::decoder::first_pair(s, CR, LF) == Some(c.len() as int));
    assert(s.take(c.len() as int) =~= c);
    assert(s.skip(c.len() as int + 2) =~= rest);
    assert(crate::decoder::split_crlf(s)
        =~= seq![c] + crate::decoder::split_crlf(rest));
}

/// The lines read back from a well-formed header section: one line per
/// header, in order, then the empty chunk after the final CRLF.
proof fn lemma_split_header_lines(hs: Seq<(Seq<u8>, Seq<u8>)>)
    requires
        headers_wf(hs),
    ensures
        crate::decoder::split_crlf(header_lines(hs)).len() == hs.len() + 1,
        forall|i: int| 0 <= i < hs.len()
            ==> crate::decoder::split_crlf(header_lines(hs))[i]
                == #[trigger] hs[i].0 + bytes_of(": "@) + hs[i].1,
        crate::decoder::split_crlf(header_lines(hs))[hs.len() as int] == Seq::<u8>::empty(),
    decreases hs.len(),
{
    reveal_strlit(": ");
    assert(bytes_of(": "@) =~= seq![58u8, 32u8]);
    if hs.len() == 0 {
        assert(header_lines(hs).len() == 0);
        assert(crate::decoder::first_pair(header_lines(hs), CR, LF) is None);
        assert(crate::decoder::split_crlf(header_lines(hs))[0] =~= Seq::<u8>::empty());
    } else {
        lemma_header_lines_front(hs);
        assert forall|i: int| 0 <= i < hs.skip(1).len()
            implies name_ok(#[trigger] hs.skip(1)[i].0) && field_ok(hs.skip(1)[i].1) by {
            assert(hs.skip(1)[i] == hs[i + 1]);
            assert(name_ok(hs[i + 1].0) && field_ok(hs[i + 1].1));
        }
        lemma_split_header_lines(hs.skip(1));
        let n = hs[0].0;
        let v = hs[0].1;
        let content = n + bytes_of(": "@) + v;
        assert(header_line(n, v) =~= content + seq![CR, LF]);
        assert(header_line(n, v) + header_lines(hs.skip(1))
            =~= content + seq![CR, LF] + header_lines(hs.skip(1)));
        assert forall|j: int| 0 <= j < content.len() implies #[trigger] content[j] != CR by {
            if j < n.len() {
                assert(content[j] == n[j]);
            } else if j < n.len() + 2 {
            } else {
                assert(content[j] == v[j - n.len() - 2]);
            }
        }
        lemma_split_crlf_cons(content, header_lines(hs.skip(1)));
        let lines = crate::decoder::split_crlf(header_lines(hs));
        assert(lines =~= seq![content] + crate::decoder::split_crlf(header_lines(hs.skip(1))));
        assert forall|i: int| 0 <= i < hs.len()
            implies lines[i] == #[trigger] hs[i].0 + bytes_of(": "@) + hs[i].1 by {
            if i > 0 {
                assert(hs.skip(1)[i - 1] == hs[i]);
            }
        }
    }
}

/// The status line has no line break (its spellings are fixed).
proof fn lemma_status_line_shape(r: SpecResponse)
    ensures
        forall|j: int| 0 <= j < status_line(r).len()
            ==> #[trigger] status_line(r)[j] != CR && status_line(r)[j] != LF,
        status_line(r).len() >= 1,
        status_line(r)[0] != CR,
{
    reveal_strlit("HTTP/1.1");
    reveal_strlit("200 OK");
    reveal_strlit("201 Created");
    reveal_strlit("404 Not Found");
    assert(r.version.spec_bytes() =~= seq![72u8, 84u8, 84u8, 80u8, 47u8, 49u8, 46u8, 49u8]);
    let sb = r.status.spec_bytes();
    match r.status {
        crate::http::StatusCode::Okay => {
            assert(sb =~= seq![50u8, 48u8, 48u8, 32u8, 79u8, 75u8]);
        },
        crate::http::StatusCode::Created => {
            assert(sb =~= seq![50u8, 48u8, 49u8, 32u8, 67u8, 114u8, 101u8, 97u8, 116u8, 101u8,
                100u8]);
        },
        crate::http::StatusCode::NotFound => {
            assert(sb =~= seq![52u8, 48u8, 52u8, 32u8, 78u8, 111u8, 116u8, 32u8, 70u8, 111u8,
                117u8, 110u8, 100u8]);
        },
    }
    assert forall|j: int| 0 <= j < status_line(r).len()
        implies #[trigger] status_line(r)[j] != CR && status_line(r)[j] != LF by {
        if j < 8 {
            assert(status_line(r)[j] == r.version.spec_bytes()[j]);
        } else if j == 8 {
        } else {
            assert(status_line(r)[j] == sb[j - 9]);
        }
    }
}

/// The round-trip law: the encoded bytes of a well-formed response frame
/// back into a header block whose lines are exactly the status line and
/// the headers, each header's value readable back after ": ", and the
/// remainder after the blank line is exactly the body.
pub proof fn lemma_encode_round_trip(r: SpecResponse)
    requires
        resp_wf(r),
    ensures
        ({
            let framed = crate::framer::frame_spec(encode_spec(r));
            let lines = crate::decoder::split_crlf(framed.0);
            &&& framed.1 == r.body_seq()
            &&& lines.len() == r.headers.len() + 2
            &&& lines[0] == status_line(r)
            &&& (forall|i: int| 0 <= i < r.headers.len()
                ==> lines[i + 1] == #[trigger] r.headers[i].0 + bytes_of(": "@) + r.headers[i].1)
            &&& (forall|i: int| 0 <= i < r.headers.len()
                ==> crate::decoder::header_value(lines[i + 1]) == #[trigger] r.headers[i].1)
            &&& lines[lines.len() - 1] == Seq::<u8>::empty()
        }),
{
    reveal_strlit(": ");
    assert(bytes_of(": "@) =~= seq![58u8, 32u8]);
    let sl = status_line(r) + seq![CR, LF];
    let block = sl + header_lines(r.headers);
    assert(encode_spec(r) =~= block + seq![CR, LF] + r.body_seq());

    // the encoded bytes frame back into the header block and the body
    lemma_status_line_shape(r);
    lemma_header_lines_block(r.headers);
    lemma_header_block_cons(sl, header_lines(r.headers));
    crate::framer::lemma_framer_extracts(block, r.body_seq(), 0);
    let framed = crate::framer::frame_spec(encode_spec(r));
    assert(framed.0 == block && framed.1 == r.body_seq());

    // the block splits into the status line, the header lines, and an
    // empty final chunk
    lemma_split_header_lines(r.headers);
    assert(block =~= status_line(r) + seq![CR, LF] + header_lines(r.headers));
    lemma_split_crlf_cons(status_line(r), header_lines(r.headers));
    let lines = crate::decoder::split_crlf(block);
    assert(lines =~= seq![status_line(r)]
        + crate::decoder::split_crlf(header_lines(r.headers)));
    assert forall|i: int| 0 <= i < r.headers.len()
        implies lines[i + 1] == #[trigger] r.headers[i].0 + bytes_of(": "@) + r.headers[i].1 by {
        assert(crate::decoder::split_crlf(header_lines(r.headers))[i]
            == r.headers[i].0 + bytes_of(": "@) + r.headers[i].1);
    }

    // each header's value reads back from its line after the first ": "
    assert forall|i: int| 0 <= i < r.headers.len()
        implies crate::decoder::header_value(lines[i + 1]) == #[trigger] r.headers[i].1 by {
        let n = r.headers[i].0;
        let v = r.headers[i].1;
        let line = n + bytes_of(": "@) + v;
        assert forall|j: int| 0 <= j < n.len()
            implies !(j + 1 < line.len() && #[trigger] line[j] == 58 && line[j + 1] == 32) by {
            assert(line[j] == n[j]);
        }
        crate::decoder::lemma_first_pair_at(line, 58, 32, n.len() as int);
        assert(line[n.len() as int] == 58 && line[n.len() as int + 1] == 32);
        assert(crate::decoder::first_pair(line, 58, 32) == Some(n.len() as int));
        assert(line.skip(n.len() as int + 2) =~= v);
    }
}

} // verus!
