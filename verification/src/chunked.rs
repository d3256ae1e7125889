//! Chunked transfer encoding: the streaming encoder, the decoder, and the
//! round-trip law tying them together.
//!
//! Each chunk is framed as `<hex-length>\r\n<data>\r\n`; a zero-length chunk
//! terminates the body, followed by optional trailer lines and one final
//! empty line.

use vstd::prelude::*;

use crate::num::{
    spec_hex_digits, spec_all_hex_digits, spec_hex_val, lemma_hex_digits_are_digits,
    lemma_hex_round_trip, parse_hex, push_hex_digits,
};
use crate::wire::{spec_take_line, lemma_take_line_frame, take_line_from};

verus! {

/// One chunk frame: the hexadecimal length, CRLF, the data, CRLF.
pub open spec fn spec_chunk_frame(d: Seq<u8>) -> Seq<u8> {
    spec_hex_digits(d.len()) + seq![13u8, 10u8] + d + seq![13u8, 10u8]
}

/// A whole chunked body: one frame per piece, then the zero-length frame.
pub open spec fn spec_chunked_stream(pieces: Seq<Seq<u8>>) -> Seq<u8>
    decreases pieces.len(),
{
    if pieces.len() == 0 {
        spec_chunk_frame(Seq::<u8>::empty())
    } else {
        spec_chunk_frame(pieces[0]) + spec_chunked_stream(pieces.skip(1))
    }
}

/// The pieces joined back together.
pub open spec fn spec_concat(pieces: Seq<Seq<u8>>) -> Seq<u8>
    decreases pieces.len(),
{
    if pieces.len() == 0 {
        Seq::<u8>::empty()
    } else {
        pieces[0] + spec_concat(pieces.skip(1))
    }
}

/// A body cut into consecutive pieces of at most `k` bytes.
pub open spec fn spec_partition(b: Seq<u8>, k: int) -> Seq<Seq<u8>>
    decreases b.len(),
{
    if b.len() == 0 || k < 1 {
        Seq::<Seq<u8>>::empty()
    } else if b.len() <= k {
        seq![b]
    } else {
        seq![b.take(k)] + spec_partition(b.skip(k), k)
    }
}

/// What decoding the chunk sequence of `s` yields: the body bytes and what
/// follows the zero-length chunk's size line (the trailer section).
pub open spec fn spec_decode_chunks(s: Seq<u8>) -> Option<(Seq<u8>, Seq<u8>)>
    decreases s.len(),
{
    match spec_take_line(s) {
        None => None,
        Some(lr) => {
            if !(lr.0.len() >= 1 && spec_all_hex_digits(lr.0) && spec_hex_val(lr.0) <= u64::MAX) {
                None
            } else {
                let n = spec_hex_val(lr.0) as int;
                if n == 0 {
                    Some((Seq::<u8>::empty(), lr.1))
                } else if lr.1.len() < s.len() && lr.1.len() >= n + 2 && lr.1[n] == 13 && lr.1[n
                    + 1] == 10 {
                    match spec_decode_chunks(lr.1.skip(n + 2)) {
                        Some(br) => Some((lr.1.take(n) + br.0, br.1)),
                        None => None,
                    }
                } else {
                    None
                }
            }
        },
    }
}

/// What the trailer section holds: raw trailer lines up to the final empty
/// line, and what follows it.
pub open spec fn spec_take_trailers(s: Seq<u8>) -> Option<(Seq<Seq<u8>>, Seq<u8>)>
    decreases s.len(),
{
    match spec_take_line(s) {
        None => None,
        Some(lr) => {
            if lr.0.len() == 0 {
                Some((Seq::<Seq<u8>>::empty(), lr.1))
            } else if lr.1.len() < s.len() {
                match spec_take_trailers(lr.1) {
                    Some(tr) => Some((seq![lr.0] + tr.0, tr.1)),
                    None => None,
                }
            } else {
                None
            }
        },
    }
}

/// The length of the hexadecimal rendering of `n`.
pub open spec fn spec_hex_len(n: nat) -> int {
    spec_hex_digits(n).len() as int
}

/// The biggest chunk payload whose frame fits a buffer of `buf_len` bytes.
pub open spec fn spec_max_bytes(buf_len: int) -> int {
    (buf_len - 4) - spec_hex_len((buf_len - 4) as nat)
}

/// Longer values never render to fewer hexadecimal digits.
proof fn lemma_hex_len_monotone(a: nat, b: nat)
    requires
        a <= b,
    ensures
        spec_hex_len(a) <= spec_hex_len(b),
    decreases b,
{
    if b >= 16 {
        if a >= 16 {
            lemma_hex_len_monotone(a / 16, b / 16);
        } else {
            lemma_hex_len_monotone(0, b / 16);
        }
    }
}

/// From two bytes up, a value is strictly longer than its rendering.
proof fn lemma_hex_len_small(x: nat)
    requires
        x >= 2,
    ensures
        spec_hex_len(x) < x,
    decreases x,
{
    if x >= 16 {
        assert(x / 16 < x) by (nonlinear_arith)
            requires
                x >= 16,
        ;
        assert(x / 16 >= 1) by (nonlinear_arith)
            requires
                x >= 16,
        ;
        assert(spec_hex_len(x) == spec_hex_len(x / 16) + 1);
        if x / 16 >= 2 {
            lemma_hex_len_small(x / 16);
        } else {
            assert(spec_hex_len(1) == 1);
        }
    }
}

/// Powers of sixteen.
spec fn pow16(d: nat) -> nat
    decreases d,
{
    if d == 0 {
        1
    } else {
        16 * pow16((d - 1) as nat)
    }
}

/// A positive power stays positive.
proof fn lemma_pow16_positive(d: nat)
    ensures
        pow16(d) >= 1,
    decreases d,
{
    if d > 0 {
        lemma_pow16_positive((d - 1) as nat);
    }
}

/// A value below `16^d` renders to at most `d` hexadecimal digits.
proof fn lemma_hex_len_le(n: nat, d: nat)
    requires
        d >= 1,
        n < pow16(d),
    ensures
        spec_hex_len(n) <= d,
    decreases d,
{
    if n >= 16 {
        lemma_pow16_positive((d - 1) as nat);
        assert(d >= 2) by {
            if d == 1 {
                assert(pow16(1) == 16 * pow16(0));
            }
        }
        assert(n / 16 < pow16((d - 1) as nat)) by (nonlinear_arith)
            requires
                n < 16 * pow16((d - 1) as nat),
                pow16((d - 1) as nat) >= 1,
        ;
        lemma_hex_len_le(n / 16, (d - 1) as nat);
    }
}

/// The number of hexadecimal digits of `n`.
fn hex_len(n: u64) -> (r: usize)
    ensures
        r == spec_hex_len(n as nat),
        1 <= r <= 16,
    decreases n,
{
    proof {
        assert(pow16(16) == 0x10000000000000000) by {
            reveal_with_fuel(pow16, 17);
        }
        lemma_hex_len_le(n as nat, 16);
    }
    if n < 16 {
        1
    } else {
        let inner = hex_len(n / 16);
        1 + inner
    }
}

/// How many payload bytes one read may carry so that the hex length prefix,
/// its CRLF, and the trailing CRLF still fit the caller's buffer.
///
/// Buffers below six bytes cannot hold any chunk frame at all.
pub fn max_bytes_to_read(buf_len: usize) -> (r: usize)
    requires
        buf_len >= 6,
    ensures
        r as int == spec_max_bytes(buf_len as int),
        1 <= r,
        spec_hex_len(r as nat) + 4 + r <= buf_len,
{
    let x = buf_len - 4;
    let h = hex_len(x as u64);
    proof {
        lemma_hex_len_small(x as nat);
    }
    let r = x - h;
    proof {
        lemma_hex_len_monotone(r as nat, x as nat);
    }
    r
}

/// The streaming chunked encoder: wraps a body and hands out one framed
/// chunk per read, sized to the caller's buffer; after the zero-length
/// terminal chunk every further read yields nothing.
pub struct ChunkedEncoder {
    pub body: Vec<u8>,
    pub pos: usize,
    pub done: bool,
}

impl ChunkedEncoder {
    /// The read position stays within the body.
    pub open spec fn wf(self) -> bool {
        self.pos <= self.body@.len()
    }

    /// A new encoder over the body bytes, positioned at the start.
    pub fn new(body: Vec<u8>) -> (r: ChunkedEncoder)
        ensures
            r.body == body,
            r.pos == 0,
            !r.done,
            r.wf(),
    {
        ChunkedEncoder { body, pos: 0, done: false }
    }

    /// Produce the next chunk frame for a reader with `buf_len` bytes of
    /// room. A zero-length read of the body emits the terminal chunk and
    /// ends the stream; after that, reads yield nothing, indefinitely.
    pub fn poll_read(&mut self, buf_len: usize) -> (r: Vec<u8>)
        requires
            buf_len >= 6,
            old(self).wf(),
        ensures
            final(self).wf(),
            final(self).body == old(self).body,
            old(self).done ==> r@ == Seq::<u8>::empty() && *final(self) == *old(self),
            !old(self).done ==> ({
                let k = vstd::math::min(
                    spec_max_bytes(buf_len as int),
                    old(self).body@.len() - old(self).pos,
                );
                &&& r@ == spec_chunk_frame(
                    old(self).body@.subrange(old(self).pos as int, old(self).pos + k),
                )
                &&& final(self).pos == old(self).pos + k
                &&& final(self).done == (k == 0)
            }),
            r@.len() <= buf_len,
    {
        if self.done {
            return Vec::new();
        }
        let maxb = max_bytes_to_read(buf_len);
        let remaining = self.body.len() - self.pos;
        let k = if maxb <= remaining {
            maxb
        } else {
            remaining
        };
        let mut out: Vec<u8> = Vec::new();
        push_hex_digits(&mut out, k as u64);
        out.push(13);
        out.push(10);
        let start = self.pos;
        out.extend_from_slice(&self.body.as_slice()[start..start + k]);
        out.push(13);
        out.push(10);
        proof {
            let piece = old(self).body@.subrange(old(self).pos as int, old(self).pos + k);
            assert(out@ =~= spec_hex_digits(k as nat) + seq![13u8, 10u8] + piece + seq![
                13u8,
                10u8,
            ]);
            assert(piece.len() == k);
            lemma_hex_len_monotone(k as nat, spec_max_bytes(buf_len as int) as nat);
        }
        self.pos = self.pos + k;
        if k == 0 {
            self.done = true;
        }
        out
    }

    /// Encode the whole body as one chunked stream, reading into a buffer
    /// of `buf_len` bytes each time.
    pub fn encode_whole(body: Vec<u8>, buf_len: usize) -> (r: Vec<u8>)
        requires
            buf_len >= 6,
        ensures
            r@ == spec_chunked_stream(spec_partition(body@, spec_max_bytes(buf_len as int))),
    {
        let ghost whole = body@;
        let ghost k = spec_max_bytes(buf_len as int);
        proof {
            lemma_hex_len_small((buf_len - 4) as nat);
        }
        let mut enc = ChunkedEncoder::new(body);
        let mut out: Vec<u8> = Vec::new();
        proof {
            assert(whole.skip(0) =~= whole);
            assert(out@ + spec_chunked_stream(spec_partition(whole, k)) =~= spec_chunked_stream(
                spec_partition(whole, k),
            ));
        }
        while !enc.done
            invariant
                buf_len >= 6,
                k == spec_max_bytes(buf_len as int),
                k >= 1,
                enc.wf(),
                enc.body@ == whole,
                !enc.done ==> out@ + spec_chunked_stream(spec_partition(whole.skip(enc.pos as int), k))
                    == spec_chunked_stream(spec_partition(whole, k)),
                enc.done ==> out@ == spec_chunked_stream(spec_partition(whole, k)),
            decreases whole.len() - enc.pos + (if enc.done { 0int } else { 1int }),
        {
            let ghost pos0 = enc.pos;
            let ghost out0 = out@;
            let mut chunk = enc.poll_read(buf_len);
            out.append(&mut chunk);
            proof {
                let rem = whole.skip(pos0 as int);
                let kk = vstd::math::min(k, whole.len() - pos0);
                let piece = whole.subrange(pos0 as int, pos0 + kk);
                let total = spec_chunked_stream(spec_partition(whole, k));
                if kk == 0 {
                    assert(rem =~= Seq::<u8>::empty());
                    assert(spec_partition(rem, k) =~= Seq::<Seq<u8>>::empty());
                    assert(piece =~= Seq::<u8>::empty());
                    assert(spec_chunked_stream(spec_partition(rem, k)) == spec_chunk_frame(
                        Seq::<u8>::empty(),
                    ));
                    assert(out@ =~= out0 + spec_chunk_frame(Seq::<u8>::empty()));
                    assert(out@ == total);
                } else if whole.len() - pos0 <= k {
                    assert(rem.len() <= k);
                    assert(piece =~= rem);
                    assert(spec_partition(rem, k) == seq![rem]);
                    assert(seq![rem][0] == rem);
                    assert(seq![rem].skip(1) =~= Seq::<Seq<u8>>::empty());
                    assert(spec_chunked_stream(seq![rem]) == spec_chunk_frame(rem)
                        + spec_chunked_stream(Seq::<Seq<u8>>::empty()));
                    assert(out0 + (spec_chunk_frame(rem) + spec_chunked_stream(
                        Seq::<Seq<u8>>::empty(),
                    )) =~= (out0 + spec_chunk_frame(rem)) + spec_chunked_stream(
                        Seq::<Seq<u8>>::empty(),
                    ));
                    assert(whole.skip(enc.pos as int) =~= Seq::<u8>::empty());
                    assert(spec_partition(whole.skip(enc.pos as int), k) =~= Seq::<
                        Seq<u8>,
                    >::empty());
                    assert(out@ + spec_chunked_stream(spec_partition(whole.skip(enc.pos as int), k))
                        == total);
                } else {
                    assert(piece =~= rem.take(k));
                    let parts = seq![rem.take(k)] + spec_partition(rem.skip(k), k);
                    assert(spec_partition(rem, k) == parts);
                    assert(parts[0] == rem.take(k));
                    assert(parts.skip(1) =~= spec_partition(rem.skip(k), k));
                    assert(spec_chunked_stream(parts) == spec_chunk_frame(rem.take(k))
                        + spec_chunked_stream(spec_partition(rem.skip(k), k)));
                    assert(out0 + (spec_chunk_frame(rem.take(k)) + spec_chunked_stream(
                        spec_partition(rem.skip(k), k),
                    )) =~= (out0 + spec_chunk_frame(rem.take(k))) + spec_chunked_stream(
                        spec_partition(rem.skip(k), k),
                    ));
                    assert(whole.skip(enc.pos as int) =~= rem.skip(k));
                    assert(out@ + spec_chunked_stream(spec_partition(whole.skip(enc.pos as int), k))
                        == total);
                }
            }
        }
        out
    }
}

/// Decode the chunk sequence starting at `from`, appending the body bytes
/// to `out`; on success the result is the index of the trailer section.
fn decode_chunks_at(s: &[u8], from: usize, out: &mut Vec<u8>) -> (r: Option<usize>)
    requires
        from <= s@.len(),
    ensures
        (match r {
            Some(rest) => from <= rest <= s@.len() && (match spec_decode_chunks(
                s@.skip(from as int),
            ) {
                Some(br) => final(out)@ == old(out)@ + br.0 && br.1 == s@.skip(rest as int),
                None => false,
            }),
            None => spec_decode_chunks(s@.skip(from as int)) is None,
        }),
    decreases s@.len() - from,
{
    let ghost t = s@.skip(from as int);
    match take_line_from(s, from) {
        None => None,
        Some((end, rest)) => {
            let ghost line = s@.subrange(from as int, end as int);
            let ghost after = s@.skip(rest as int);
            match parse_hex(&s[from..end]) {
                None => {
                    proof {
                        assert(!(line.len() >= 1 && spec_all_hex_digits(line) && spec_hex_val(line)
                            <= u64::MAX));
                    }
                    None
                },
                Some(n) => {
                    if n == 0 {
                        proof {
                            assert(final(out)@ =~= old(out)@ + Seq::<u8>::empty());
                        }
                        Some(rest)
                    } else {
                        let avail = s.len() - rest;
                        if avail < 2 || n > (avail - 2) as u64 {
                            proof {
                                assert(after.len() == avail);
                                assert(!(after.len() >= n + 2));
                            }
                            None
                        } else {
                            let n_us = n as usize;
                            proof {
                                assert(after.len() >= n + 2);
                                assert(after[n as int] == s@[rest + n_us]);
                                assert(after[n as int + 1] == s@[rest + n_us + 1]);
                                assert(after.take(n as int) =~= s@.subrange(
                                    rest as int,
                                    rest + n_us,
                                ));
                                assert(after.skip(n as int + 2) =~= s@.skip(rest + n_us + 2));
                                assert(after.len() < t.len());
                            }
                            if s[rest + n_us] == 13 && s[rest + n_us + 1] == 10 {
                                out.extend_from_slice(&s[rest..rest + n_us]);
                                let ghost mid = out@;
                                match decode_chunks_at(s, rest + n_us + 2, out) {
                                    Some(tail_rest) => {
                                        proof {
                                            let br = spec_decode_chunks(
                                                s@.skip(rest + n_us + 2),
                                            ).unwrap();
                                            assert(final(out)@ =~= old(out)@ + (after.take(n as int)
                                                + br.0));
                                        }
                                        Some(tail_rest)
                                    },
                                    None => None,
                                }
                            } else {
                                None
                            }
                        }
                    }
                },
            }
        },
    }
}

/// Read the trailer section starting at `from`: the raw trailer lines and
/// the index just past the final empty line.
fn take_trailers_at(s: &[u8], from: usize) -> (r: Option<(Vec<Vec<u8>>, usize)>)
    requires
        from <= s@.len(),
    ensures
        (match r {
            Some((lines, rest)) => from <= rest <= s@.len() && spec_take_trailers(
                s@.skip(from as int),
            ) == Some((lines.deep_view(), s@.skip(rest as int))),
            None => spec_take_trailers(s@.skip(from as int)) is None,
        }),
    decreases s@.len() - from,
{
    let ghost t = s@.skip(from as int);
    match take_line_from(s, from) {
        None => None,
        Some((end, rest)) => {
            if end == from {
                let lines: Vec<Vec<u8>> = Vec::new();
                proof {
                    assert(s@.subrange(from as int, end as int) =~= Seq::<u8>::empty());
                    assert(lines.deep_view() =~= Seq::<Seq<u8>>::empty());
                }
                Some((lines, rest))
            } else {
                proof {
                    assert(s@.subrange(from as int, end as int).len() > 0);
                    assert(s@.skip(rest as int).len() < t.len());
                }
                match take_trailers_at(s, rest) {
                    Some((tail, tail_rest)) => {
                        let line = vstd::slice::slice_to_vec(&s[from..end]);
                        let mut lines: Vec<Vec<u8>> = Vec::new();
                        lines.push(line);
                        let ghost head_view = lines.deep_view();
                        let mut tail = tail;
                        let ghost tail_view = tail.deep_view();
                        lines.append(&mut tail);
                        proof {
                            assert(head_view =~~= seq![s@.subrange(from as int, end as int)]);
                            assert(lines.deep_view() =~~= head_view + tail_view);
                        }
                        Some((lines, tail_rest))
                    },
                    None => None,
                }
            }
        },
    }
}

/// A fully decoded chunked body: the bytes, the raw trailer lines, and how
/// many input bytes the stream occupied.
pub struct ChunkedDecoded {
    pub body: Vec<u8>,
    pub trailer_lines: Vec<Vec<u8>>,
    pub consumed: usize,
}

/// What decoding a whole chunked stream yields: body bytes, trailer lines,
/// and the input left over after the final empty line.
pub open spec fn spec_decode_chunked(s: Seq<u8>) -> Option<(Seq<u8>, Seq<Seq<u8>>, Seq<u8>)> {
    match spec_decode_chunks(s) {
        None => None,
        Some(bt) => match spec_take_trailers(bt.1) {
            None => None,
            Some(tr) => Some((bt.0, tr.0, tr.1)),
        },
    }
}

/// Decode one complete chunked stream from the front of `s`.
pub fn decode_chunked(s: &[u8]) -> (r: Option<ChunkedDecoded>)
    ensures
        (match r {
            Some(d) => d.consumed <= s@.len() && spec_decode_chunked(s@) == Some(
                (d.body@, d.trailer_lines.deep_view(), s@.skip(d.consumed as int)),
            ),
            None => spec_decode_chunked(s@) is None,
        }),
{
    let mut body: Vec<u8> = Vec::new();
    proof {
        assert(s@.skip(0) =~= s@);
    }
    match decode_chunks_at(s, 0, &mut body) {
        None => None,
        Some(rest) => {
            match take_trailers_at(s, rest) {
                None => None,
                Some((lines, consumed)) => {
                    proof {
                        let br = spec_decode_chunks(s@).unwrap();
                        assert(Seq::<u8>::empty() + br.0 =~= br.0);
                        assert(body@ == br.0);
                    }
                    Some(ChunkedDecoded { body, trailer_lines: lines, consumed })
                },
            }
        },
    }
}

/// Hexadecimal digit characters are never the carriage return.
proof fn lemma_hex_digits_no_cr(n: nat)
    ensures
        forall|j: int|
            0 <= j < spec_hex_digits(n).len() ==> #[trigger] spec_hex_digits(n)[j] != 13,
{
    lemma_hex_digits_are_digits(n);
}

/// Decoding the chunk frames of any nonempty pieces gives the pieces'
/// bytes back, with exactly the terminal empty line left as the trailer
/// section.
pub proof fn lemma_chunk_stream_decodes(pieces: Seq<Seq<u8>>)
    requires
        forall|i: int| 0 <= i < pieces.len() ==> 1 <= (#[trigger] pieces[i]).len() <= u64::MAX,
    ensures
        spec_decode_chunks(spec_chunked_stream(pieces)) == Some(
            (spec_concat(pieces), seq![13u8, 10u8]),
        ),
    decreases pieces.len(),
{
    if pieces.len() == 0 {
        let hexd = spec_hex_digits(0);
        lemma_hex_digits_no_cr(0);
        lemma_hex_round_trip(0);
        lemma_hex_digits_are_digits(0);
        assert(spec_chunked_stream(pieces) =~= hexd + seq![13u8, 10u8] + seq![13u8, 10u8]);
        lemma_take_line_frame(hexd, seq![13u8, 10u8]);
    } else {
        let d = pieces[0];
        let tail = spec_chunked_stream(pieces.skip(1));
        let hexd = spec_hex_digits(d.len());
        let rest = d + seq![13u8, 10u8] + tail;
        lemma_hex_digits_no_cr(d.len());
        lemma_hex_round_trip(d.len());
        lemma_hex_digits_are_digits(d.len());
        assert(spec_chunked_stream(pieces) =~= hexd + seq![13u8, 10u8] + rest);
        lemma_take_line_frame(hexd, rest);
        let s = spec_chunked_stream(pieces);
        assert(spec_take_line(s) == Some((hexd, rest)));
        let n = d.len() as int;
        assert(rest[n] == 13);
        assert(rest[n + 1] == 10);
        assert(rest.len() < s.len());
        assert(rest.take(n) =~= d);
        assert(rest.skip(n + 2) =~= tail);
        assert forall|i: int| 0 <= i < pieces.skip(1).len() implies 1 <= (#[trigger] pieces.skip(
            1,
        )[i]).len() <= u64::MAX by {
            assert(pieces.skip(1)[i] == pieces[i + 1]);
        }
        lemma_chunk_stream_decodes(pieces.skip(1));
        assert(spec_decode_chunks(s) == Some((d + spec_concat(pieces.skip(1)), seq![13u8, 10u8])));
    }
}

/// The terminal empty line reads as an empty trailer section.
pub proof fn lemma_empty_trailers()
    ensures
        spec_take_trailers(seq![13u8, 10u8]) == Some(
            (Seq::<Seq<u8>>::empty(), Seq::<u8>::empty()),
        ),
{
    lemma_take_line_frame(Seq::<u8>::empty(), Seq::<u8>::empty());
    assert(Seq::<u8>::empty() + seq![13u8, 10u8] + Seq::<u8>::empty() =~= seq![13u8, 10u8]);
}

/// Cutting a body into bounded pieces loses nothing: the pieces are
/// nonempty, no longer than the bound, and join back to the body.
pub proof fn lemma_partition_props(b: Seq<u8>, k: int)
    requires
        k >= 1,
    ensures
        spec_concat(spec_partition(b, k)) =~= b,
        forall|i: int|
            0 <= i < spec_partition(b, k).len() ==> 1 <= (#[trigger] spec_partition(b, k)[i]).len()
                <= k,
    decreases b.len(),
{
    if b.len() == 0 {
    } else if b.len() <= k {
        assert(spec_partition(b, k) == seq![b]);
        assert(seq![b].skip(1) =~= Seq::<Seq<u8>>::empty());
        assert(spec_concat(seq![b]) == b + spec_concat(Seq::<Seq<u8>>::empty()));
        assert(b + Seq::<u8>::empty() =~= b);
    } else {
        lemma_partition_props(b.skip(k), k);
        let parts = seq![b.take(k)] + spec_partition(b.skip(k), k);
        assert(parts.skip(1) =~= spec_partition(b.skip(k), k));
        assert(spec_concat(parts) == b.take(k) + spec_concat(spec_partition(b.skip(k), k)));
        assert(b.take(k) + b.skip(k) =~= b);
        assert forall|i: int| 0 <= i < parts.len() implies 1 <= (#[trigger] parts[i]).len()
            <= k by {
            if i > 0 {
                assert(parts[i] == spec_partition(b.skip(k), k)[i - 1]);
            }
        }
    }
}

/// The chunked round trip: for every body and every read-buffer size of at
/// least six bytes, decoding the encoder's stream gives the body back
/// exactly, with no trailers and nothing left over; the terminal chunk is
/// the zero-length one.
pub proof fn lemma_chunked_round_trip(body: Seq<u8>, buf_len: int)
    requires
        6 <= buf_len <= u64::MAX,
    ensures
        spec_decode_chunked(spec_chunked_stream(spec_partition(body, spec_max_bytes(buf_len))))
            == Some((body, Seq::<Seq<u8>>::empty(), Seq::<u8>::empty())),
{
    let k = spec_max_bytes(buf_len);
    assert(k >= 1) by {
        lemma_hex_len_small((buf_len - 4) as nat);
    }
    lemma_partition_props(body, k);
    let pieces = spec_partition(body, k);
    assert forall|i: int| 0 <= i < pieces.len() implies 1 <= (#[trigger] pieces[i]).len()
        <= u64::MAX by {
        assert(1 <= pieces[i].len() <= k);
    }
    lemma_chunk_stream_decodes(pieces);
    lemma_empty_trailers();
}

} // verus!
