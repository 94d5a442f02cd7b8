//! Length-prefixed streams of pipe-delimited records.

use vstd::prelude::*;
use crate::altium::bytes::{le32, read_u32_le, utf8_lossy_range};
use crate::altium::error::AltiumImportError;
use crate::altium::record::{spec_from_pipe, AltiumRecord};
use crate::text::{chars_of, find_char, spec_split, spec_utf8_lossy, split_chars};

verus! {

/// The records that a list of text pieces yields: one per piece that
/// holds a `|`, in order.
pub open spec fn pieces_records(pieces: Seq<Seq<char>>) -> Seq<Map<Seq<char>, Seq<char>>>
    decreases pieces.len(),
{
    if pieces.len() == 0 {
        Seq::empty()
    } else if pieces.last().contains('|') {
        pieces_records(pieces.drop_last()).push(spec_from_pipe(pieces.last()))
    } else {
        pieces_records(pieces.drop_last())
    }
}

/// The records of a single text: one record if it holds a `|`, else none.
pub open spec fn text_records(t: Seq<char>) -> Seq<Map<Seq<char>, Seq<char>>> {
    if t.contains('|') {
        seq![spec_from_pipe(t)]
    } else {
        Seq::empty()
    }
}

/// The records of `data` from `cursor` on. Each record is a 4-byte
/// little-endian length followed by that many bytes of text, optionally
/// followed by one zero byte. Fewer than four bytes left are read as one
/// trailing text; a zero or overlong length makes the rest (from the
/// length on) a text of NUL-separated records, and ends the stream.
pub open spec fn spec_stream(data: Seq<u8>, cursor: int) -> Seq<Map<Seq<char>, Seq<char>>>
    decreases data.len() - cursor,
{
    if cursor < 0 || cursor >= data.len() {
        Seq::empty()
    } else if cursor + 4 > data.len() {
        text_records(spec_utf8_lossy(data.subrange(cursor, data.len() as int)))
    } else {
        let n = le32(data, cursor) as int;
        let body = cursor + 4;
        if n == 0 || body + n > data.len() {
            pieces_records(
                spec_split(spec_utf8_lossy(data.subrange(cursor, data.len() as int)), '\0'),
            )
        } else {
            let end = body + n;
            let next = if end < data.len() && data[end] == 0 {
                end + 1
            } else {
                end
            };
            text_records(spec_utf8_lossy(data.subrange(body, end))) + spec_stream(data, next)
        }
    }
}

/// The views of a list of records.
pub open spec fn record_views(v: Seq<AltiumRecord>) -> Seq<Map<Seq<char>, Seq<char>>> {
    v.map_values(|r: AltiumRecord| r@)
}

/// Appends the record of `chars` to `out` if it holds a `|`.
fn push_if_record(out: &mut Vec<AltiumRecord>, chars: &Vec<char>)
    ensures
        record_views(final(out)@) == record_views(old(out)@) + text_records(chars@),
{
    let ghost before = out@;
    if find_char(chars, '|').is_some() {
        let rec = AltiumRecord::from_pipe_chars(chars);
        out.push(rec);
        assert(record_views(out@) =~= record_views(before) + text_records(chars@));
    } else {
        assert(record_views(out@) =~= record_views(before) + text_records(chars@));
    }
}

/// Parses a stream of length-prefixed pipe-delimited records (see
/// [`spec_stream`]). Never fails.
pub fn parse_record_stream(data: &[u8]) -> (r: Result<Vec<AltiumRecord>, AltiumImportError>)
    ensures
        r matches Ok(v) && record_views(v@) == spec_stream(data@, 0),
{
    let mut records: Vec<AltiumRecord> = Vec::new();
    let mut cursor: usize = 0;
    while cursor < data.len()
        invariant
            cursor <= data.len(),
            record_views(records@) + spec_stream(data@, cursor as int) == spec_stream(data@, 0),
        decreases data.len() - cursor,
    {
        let ghost before = records@;
        if data.len() - cursor < 4 {
            let text = utf8_lossy_range(data, cursor, data.len());
            let chars = chars_of(text.as_str());
            push_if_record(&mut records, &chars);
            assert(record_views(records@) == spec_stream(data@, 0)) by {
                assert(record_views(records@) == record_views(before) + spec_stream(
                    data@,
                    cursor as int,
                ));
            }
            return Ok(records);
        }
        let len = read_u32_le(data, cursor) as usize;
        let body = cursor + 4;
        if len == 0 || len > data.len() - body {
            let text = utf8_lossy_range(data, cursor, data.len());
            let chars = chars_of(text.as_str());
            let pieces = split_chars(&chars, '\0');
            let ghost sp = spec_split(chars@, '\0');
            let mut k: usize = 0;
            while k < pieces.len()
                invariant
                    k <= pieces.len(),
                    pieces.len() == sp.len(),
                    forall|t: int| 0 <= t < pieces.len() ==> #[trigger] pieces@[t]@ == sp[t],
                    record_views(records@) == record_views(before) + pieces_records(
                        sp.take(k as int),
                    ),
                decreases pieces.len() - k,
            {
                assert(sp.take(k + 1).drop_last() =~= sp.take(k as int));
                push_if_record(&mut records, &pieces[k]);
                k += 1;
            }
            assert(sp.take(pieces.len() as int) =~= sp);
            return Ok(records);
        }
        let end = body + len;
        let text = utf8_lossy_range(data, body, end);
        let chars = chars_of(text.as_str());
        push_if_record(&mut records, &chars);
        cursor = end;
        if cursor < data.len() && data[cursor] == 0 {
            cursor += 1;
        }
        assert(record_views(records@) + spec_stream(data@, cursor as int) =~= spec_stream(
            data@,
            0,
        )) by {
            assert(record_views(records@) + spec_stream(data@, cursor as int) =~= record_views(
                before,
            ) + (text_records(chars@) + spec_stream(data@, cursor as int)));
        }
    }
    assert(spec_stream(data@, cursor as int) =~= Seq::<Map<Seq<char>, Seq<char>>>::empty());
    assert(record_views(records@) =~= record_views(records@) + spec_stream(data@, cursor as int));
    Ok(records)
}

/// The 4-byte little-endian length prefix of a piece shorter than 256
/// bytes.
pub open spec fn short_prefix(n: nat) -> Seq<u8> {
    seq![n as u8, 0u8, 0u8, 0u8]
}

/// A stream holding each byte string of `pieces` (each shorter than 256
/// bytes) behind its length prefix, in order.
pub open spec fn encode_pieces(pieces: Seq<Seq<u8>>) -> Seq<u8>
    decreases pieces.len(),
{
    if pieces.len() == 0 {
        Seq::empty()
    } else {
        short_prefix(pieces[0].len()) + pieces[0] + encode_pieces(pieces.drop_first())
    }
}

/// Reading a stream from a cursor inside its tail `d` does not depend on
/// what comes before the tail.
proof fn lemma_stream_shift(pre: Seq<u8>, d: Seq<u8>, c: int)
    requires
        0 <= c,
    ensures
        spec_stream(pre + d, pre.len() + c) == spec_stream(d, c),
    decreases d.len() - c,
{
    let data = pre + d;
    let cc = pre.len() + c;
    if c >= d.len() {
    } else if c + 4 > d.len() {
        assert(data.subrange(cc, data.len() as int) =~= d.subrange(c, d.len() as int));
    } else {
        assert(data[cc] == d[c] && data[cc + 1] == d[c + 1] && data[cc + 2] == d[c + 2] && data[cc
            + 3] == d[c + 3]);
        assert(le32(data, cc) == le32(d, c));
        let n = le32(d, c) as int;
        if n == 0 || c + 4 + n > d.len() {
            assert(data.subrange(cc, data.len() as int) =~= d.subrange(c, d.len() as int));
        } else {
            let end = c + 4 + n;
            assert(data.subrange(cc + 4, cc + 4 + n) =~= d.subrange(c + 4, end));
            if end < d.len() {
                assert(data[pre.len() + end] == d[end]);
            }
            let next = if end < d.len() && d[end] == 0 {
                end + 1
            } else {
                end
            };
            lemma_stream_shift(pre, d, next);
        }
    }
}

/// A stream built from byte strings, each shorter than 256 bytes and
/// reading as a text that holds a `|`, parses back to one record per
/// string, in order: the record of that string's text.
pub proof fn law_stream_round_trip(pieces: Seq<Seq<u8>>)
    requires
        forall|i: int|
            0 <= i < pieces.len() ==> 0 < (#[trigger] pieces[i]).len() < 256 && spec_utf8_lossy(
                pieces[i],
            ).contains('|'),
    ensures
        spec_stream(encode_pieces(pieces), 0) == pieces.map_values(
            |b: Seq<u8>| spec_from_pipe(spec_utf8_lossy(b)),
        ),
    decreases pieces.len(),
{
    let f = |b: Seq<u8>| spec_from_pipe(spec_utf8_lossy(b));
    if pieces.len() == 0 {
        assert(pieces.map_values(f) =~= Seq::<Map<Seq<char>, Seq<char>>>::empty());
    } else {
        let p0 = pieces[0];
        let rest = pieces.drop_first();
        assert forall|i: int| 0 <= i < rest.len() implies 0 < (#[trigger] rest[i]).len() < 256
            && spec_utf8_lossy(rest[i]).contains('|') by {
            assert(rest[i] == pieces[i + 1]);
        }
        law_stream_round_trip(rest);
        let hdr = short_prefix(p0.len()) + p0;
        let tail = encode_pieces(rest);
        let data = encode_pieces(pieces);
        assert(data == hdr + tail);
        assert(data[0] == p0.len() as u8 && data[1] == 0 && data[2] == 0 && data[3] == 0);
        assert(le32(data, 0) == p0.len());
        let end = 4 + p0.len();
        assert(data.subrange(4, end as int) =~= p0);
        if end < data.len() {
            assert(tail.len() > 0);
            assert(rest.len() > 0);
            assert(tail[0] == rest[0].len() as u8);
            assert(data[end as int] == tail[0]);
            assert(0 < rest[0].len() < 256);
        }
        assert(spec_stream(data, 0) == text_records(spec_utf8_lossy(p0)) + spec_stream(
            data,
            end as int,
        ));
        lemma_stream_shift(hdr, tail, 0);
        assert(hdr.len() == end);
        assert(spec_stream(data, 0) =~= pieces.map_values(f));
    }
}

} // verus!
