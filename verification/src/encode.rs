//! The response encoder: header finalization, the canonical (sorted) head,
//! the HTTP date, and the one-directional encoding state machine.

use vstd::prelude::*;

use crate::ascii;
use crate::ascii::{spec_bytes_of_chars, spec_chars_of_bytes, spec_lower_chars};
use crate::chunked::ChunkedEncoder;
use crate::headers::{Headers, HeaderEntry, spec_find, spec_insert, wf_entry};
use crate::method::Method;
use crate::num::{spec_dec_digits, lemma_dec_digits_are_digits, push_dec_digits};
use crate::response::{Response, Body};
use crate::status::{spec_reason, spec_valid_status, canonical_reason};

verus! {

/// Two decimal digit characters, for clock fields and day numbers.
pub open spec fn spec_dec2(n: int) -> Seq<u8> {
    seq![(48 + n / 10) as u8, (48 + n % 10) as u8]
}

/// Four decimal digit characters, for the year.
pub open spec fn spec_dec4(n: int) -> Seq<u8> {
    seq![
        (48 + n / 1000) as u8,
        (48 + (n / 100) % 10) as u8,
        (48 + (n / 10) % 10) as u8,
        (48 + n % 10) as u8,
    ]
}

/// The three-letter weekday name, weekday 0 being Sunday.
pub open spec fn spec_day_name(w: int) -> Seq<u8> {
    if w == 0 {
        seq![83u8, 117u8, 110u8]
    } else if w == 1 {
        seq![77u8, 111u8, 110u8]
    } else if w == 2 {
        seq![84u8, 117u8, 101u8]
    } else if w == 3 {
        seq![87u8, 101u8, 100u8]
    } else if w == 4 {
        seq![84u8, 104u8, 117u8]
    } else if w == 5 {
        seq![70u8, 114u8, 105u8]
    } else {
        seq![83u8, 97u8, 116u8]
    }
}

/// The three-letter month name, month 1 being January.
pub open spec fn spec_month_name(m: int) -> Seq<u8> {
    if m == 1 {
        seq![74u8, 97u8, 110u8]
    } else if m == 2 {
        seq![70u8, 101u8, 98u8]
    } else if m == 3 {
        seq![77u8, 97u8, 114u8]
    } else if m == 4 {
        seq![65u8, 112u8, 114u8]
    } else if m == 5 {
        seq![77u8, 97u8, 121u8]
    } else if m == 6 {
        seq![74u8, 117u8, 110u8]
    } else if m == 7 {
        seq![74u8, 117u8, 108u8]
    } else if m == 8 {
        seq![65u8, 117u8, 103u8]
    } else if m == 9 {
        seq![83u8, 101u8, 112u8]
    } else if m == 10 {
        seq![79u8, 99u8, 116u8]
    } else if m == 11 {
        seq![78u8, 111u8, 118u8]
    } else {
        seq![68u8, 101u8, 99u8]
    }
}

/// The civil date of a day count since the epoch: year, month, day.
///
/// Fields that the formulas place outside their calendar ranges are clamped,
/// so the rendering below is total; for real epoch day counts the clamps
/// never fire.
pub open spec fn spec_civil(days: int) -> (int, int, int) {
    let z = days + 719468;
    let era = z / 146097;
    let doe = z - era * 146097;
    let yoe = (doe - doe / 1460 + doe / 36524 - doe / 146096) / 365;
    let ydays = 365 * yoe + yoe / 4 - yoe / 100;
    let doy = if doe >= ydays {
        doe - ydays
    } else {
        0
    };
    let mp = (5 * doy + 2) / 153;
    let mdays = (153 * mp + 2) / 5;
    let d0 = if doy + 1 >= mdays {
        doy + 1 - mdays
    } else {
        0
    };
    let m0 = if mp < 10 {
        mp + 3
    } else {
        mp - 9
    };
    let y0 = yoe + era * 400 + (if m0 <= 2 {
        1int
    } else {
        0int
    });
    let y = if 0 <= y0 <= 9999 {
        y0
    } else {
        0
    };
    let m = if 1 <= m0 <= 12 {
        m0
    } else {
        1
    };
    let d = if 1 <= d0 <= 31 {
        d0
    } else {
        1
    };
    (y, m, d)
}

/// The fixed-format HTTP date of a Unix timestamp:
/// `Day, DD Mon YYYY HH:MM:SS GMT`.
pub open spec fn spec_http_date(secs: int) -> Seq<u8> {
    let days = secs / 86400;
    let rem = secs % 86400;
    let hh = rem / 3600;
    let mm = (rem % 3600) / 60;
    let ss = rem % 60;
    let w = (days + 4) % 7;
    let ymd = spec_civil(days);
    spec_day_name(w) + seq![44u8, 32u8] + spec_dec2(ymd.2) + seq![32u8] + spec_month_name(ymd.1)
        + seq![32u8] + spec_dec4(ymd.0) + seq![32u8] + spec_dec2(hh) + seq![58u8] + spec_dec2(mm)
        + seq![58u8] + spec_dec2(ss) + seq![32u8, 71u8, 77u8, 84u8]
}

/// Append two decimal digits.
fn push_dec2(out: &mut Vec<u8>, n: u64)
    requires
        n < 100,
    ensures
        final(out)@ == old(out)@ + spec_dec2(n as int),
{
    out.push(48 + (n / 10) as u8);
    out.push(48 + (n % 10) as u8);
    proof {
        assert(final(out)@ =~= old(out)@ + spec_dec2(n as int));
    }
}

/// Append four decimal digits.
fn push_dec4(out: &mut Vec<u8>, n: u64)
    requires
        n < 10000,
    ensures
        final(out)@ == old(out)@ + spec_dec4(n as int),
{
    out.push(48 + (n / 1000) as u8);
    out.push(48 + ((n / 100) % 10) as u8);
    out.push(48 + ((n / 10) % 10) as u8);
    out.push(48 + (n % 10) as u8);
    proof {
        assert(final(out)@ =~= old(out)@ + spec_dec4(n as int));
    }
}

/// Append a weekday name.
fn push_day_name(out: &mut Vec<u8>, w: u64)
    ensures
        final(out)@ == old(out)@ + spec_day_name(w as int),
{
    if w == 0 {
        out.push(83);
        out.push(117);
        out.push(110);
    } else if w == 1 {
        out.push(77);
        out.push(111);
        out.push(110);
    } else if w == 2 {
        out.push(84);
        out.push(117);
        out.push(101);
    } else if w == 3 {
        out.push(87);
        out.push(101);
        out.push(100);
    } else if w == 4 {
        out.push(84);
        out.push(104);
        out.push(117);
    } else if w == 5 {
        out.push(70);
        out.push(114);
        out.push(105);
    } else {
        out.push(83);
        out.push(97);
        out.push(116);
    }
    proof {
        assert(final(out)@ =~= old(out)@ + spec_day_name(w as int));
    }
}

/// Append a month name.
fn push_month_name(out: &mut Vec<u8>, m: u64)
    ensures
        final(out)@ == old(out)@ + spec_month_name(m as int),
{
    if m == 1 {
        out.push(74);
        out.push(97);
        out.push(110);
    } else if m == 2 {
        out.push(70);
        out.push(101);
        out.push(98);
    } else if m == 3 {
        out.push(77);
        out.push(97);
        out.push(114);
    } else if m == 4 {
        out.push(65);
        out.push(112);
        out.push(114);
    } else if m == 5 {
        out.push(77);
        out.push(97);
        out.push(121);
    } else if m == 6 {
        out.push(74);
        out.push(117);
        out.push(110);
    } else if m == 7 {
        out.push(74);
        out.push(117);
        out.push(108);
    } else if m == 8 {
        out.push(65);
        out.push(117);
        out.push(103);
    } else if m == 9 {
        out.push(83);
        out.push(101);
        out.push(112);
    } else if m == 10 {
        out.push(79);
        out.push(99);
        out.push(116);
    } else if m == 11 {
        out.push(78);
        out.push(111);
        out.push(118);
    } else {
        out.push(68);
        out.push(101);
        out.push(99);
    }
    proof {
        assert(final(out)@ =~= old(out)@ + spec_month_name(m as int));
    }
}

/// Render a Unix timestamp in the fixed HTTP date format.
#[verifier::rlimit(100)]
#[verifier::spinoff_prover]
pub fn fmt_http_date(secs: u64) -> (r: Vec<u8>)
    ensures
        r@ == spec_http_date(secs as int),
{
    let days: u64 = secs / 86400;
    let rem: u64 = secs % 86400;
    let hh: u64 = rem / 3600;
    let mm: u64 = (rem % 3600) / 60;
    let ss: u64 = rem % 60;
    let w: u64 = (days + 4) % 7;
    let z: u64 = days + 719468;
    let era: u64 = z / 146097;
    let doe: u64 = z - era * 146097;
    proof {
        assert(doe < 146097 && era * 146097 <= z) by (nonlinear_arith)
            requires
                era == z / 146097,
                doe == z - era * 146097,
                z >= 0,
        ;
    }
    let yoe: u64 = (doe - doe / 1460 + doe / 36524 - doe / 146096) / 365;
    proof {
        assert(yoe <= 400) by (nonlinear_arith)
            requires
                doe < 146097,
                yoe == (doe - doe / 1460 + doe / 36524 - doe / 146096) / 365,
        ;
    }
    let ydays: u64 = 365 * yoe + yoe / 4 - yoe / 100;
    let doy: u64 = if doe >= ydays {
        doe - ydays
    } else {
        0
    };
    let mp: u64 = (5 * doy + 2) / 153;
    let mdays: u64 = (153 * mp + 2) / 5;
    let d0: u64 = if doy + 1 >= mdays {
        doy + 1 - mdays
    } else {
        0
    };
    let m0: u64 = if mp < 10 {
        mp + 3
    } else {
        mp - 9
    };
    let y0: u64 = yoe + era * 400 + (if m0 <= 2 {
        1
    } else {
        0
    });
    let y: u64 = if y0 <= 9999 {
        y0
    } else {
        0
    };
    let m: u64 = if 1 <= m0 && m0 <= 12 {
        m0
    } else {
        1
    };
    let d: u64 = if 1 <= d0 && d0 <= 31 {
        d0
    } else {
        1
    };
    let mut out: Vec<u8> = Vec::new();
    push_day_name(&mut out, w);
    out.push(44);
    out.push(32);
    push_dec2(&mut out, d);
    out.push(32);
    push_month_name(&mut out, m);
    out.push(32);
    push_dec4(&mut out, y);
    out.push(32);
    push_dec2(&mut out, hh);
    out.push(58);
    push_dec2(&mut out, mm);
    out.push(58);
    push_dec2(&mut out, ss);
    out.push(32);
    out.push(71);
    out.push(77);
    out.push(84);
    proof {
        assert(out@ =~= spec_http_date(secs as int));
    }
    out
}

/// Lexicographic order on character sequences, by code point.
pub open spec fn spec_lex_le(a: Seq<char>, b: Seq<char>) -> bool
    decreases a.len(),
{
    if a.len() == 0 {
        true
    } else if b.len() == 0 {
        false
    } else if a[0] != b[0] {
        a[0] < b[0]
    } else {
        spec_lex_le(a.skip(1), b.skip(1))
    }
}

/// One entry placed into an already-sorted entry list.
pub open spec fn spec_insert_sorted(
    e: (Seq<char>, Seq<Seq<char>>),
    s: Seq<(Seq<char>, Seq<Seq<char>>)>,
) -> Seq<(Seq<char>, Seq<Seq<char>>)>
    decreases s.len(),
{
    if s.len() == 0 {
        seq![e]
    } else if spec_lex_le(e.0, s[0].0) {
        seq![e] + s
    } else {
        seq![s[0]] + spec_insert_sorted(e, s.skip(1))
    }
}

/// The entry list sorted by name, via insertion from the front.
pub open spec fn spec_sort(s: Seq<(Seq<char>, Seq<Seq<char>>)>) -> Seq<(Seq<char>, Seq<Seq<char>>)>
    decreases s.len(),
{
    if s.len() == 0 {
        Seq::<(Seq<char>, Seq<Seq<char>>)>::empty()
    } else {
        spec_insert_sorted(s.last(), spec_sort(s.drop_last()))
    }
}

/// One header entry rendered onto the wire: one `name: value` line per
/// value, in order.
pub open spec fn spec_render_values(name: Seq<u8>, values: Seq<Seq<char>>) -> Seq<u8>
    decreases values.len(),
{
    if values.len() == 0 {
        Seq::<u8>::empty()
    } else {
        name + seq![58u8, 32u8] + spec_bytes_of_chars(values[0]) + seq![13u8, 10u8]
            + spec_render_values(name, values.skip(1))
    }
}

/// All entries rendered onto the wire, in list order.
pub open spec fn spec_render_entries(es: Seq<(Seq<char>, Seq<Seq<char>>)>) -> Seq<u8>
    decreases es.len(),
{
    if es.len() == 0 {
        Seq::<u8>::empty()
    } else {
        spec_render_values(spec_bytes_of_chars(es[0].0), es[0].1) + spec_render_entries(es.skip(1))
    }
}

/// The status line: `HTTP/1.1 <code> <reason>` and CRLF.
pub open spec fn spec_status_line(status: u16) -> Seq<u8> {
    seq![72u8, 84u8, 84u8, 80u8, 47u8, 49u8, 46u8, 49u8, 32u8] + spec_dec_digits(status as nat)
        + seq![32u8] + spec_bytes_of_chars(spec_reason(status)) + seq![13u8, 10u8]
}

/// Headers after finalization: exactly one of `Content-Length` and
/// `Transfer-Encoding: chunked` set from the body, and a `Date` synthesized
/// when none is present.
pub open spec fn spec_finalized(
    headers: Seq<(Seq<char>, Seq<Seq<char>>)>,
    length_known: bool,
    body_len: int,
    date_secs: int,
) -> Seq<(Seq<char>, Seq<Seq<char>>)> {
    let h1 = if length_known {
        spec_insert(headers, "content-length"@, spec_chars_of_bytes(spec_dec_digits(body_len as nat)))
    } else {
        spec_insert(headers, "transfer-encoding"@, "chunked"@)
    };
    if spec_find(h1, "date"@) >= 0 {
        h1
    } else {
        spec_insert(h1, "date"@, spec_chars_of_bytes(spec_http_date(date_secs)))
    }
}

/// The whole response head: status line, finalized headers sorted by name,
/// and the blank line.
pub open spec fn spec_encode_head(
    status: u16,
    headers: Seq<(Seq<char>, Seq<Seq<char>>)>,
    length_known: bool,
    body_len: int,
    date_secs: int,
) -> Seq<u8> {
    spec_status_line(status) + spec_render_entries(
        spec_sort(spec_finalized(headers, length_known, body_len, date_secs)),
    ) + seq![13u8, 10u8]
}

/// Concatenation keeps bytes below 128.
proof fn lemma_ascii_concat_bytes(a: Seq<u8>, b: Seq<u8>)
    requires
        ascii::spec_ascii_bytes(a),
        ascii::spec_ascii_bytes(b),
    ensures
        ascii::spec_ascii_bytes(a + b),
{
    assert forall|i: int| 0 <= i < (a + b).len() implies #[trigger] (a + b)[i] < 128 by {
        if i < a.len() {
            assert((a + b)[i] == a[i]);
        } else {
            assert((a + b)[i] == b[i - a.len()]);
        }
    }
}

/// The HTTP date renders to ASCII bytes.
proof fn lemma_date_ascii(secs: int)
    requires
        secs >= 0,
    ensures
        ascii::spec_ascii_bytes(spec_http_date(secs)),
{
    let days = secs / 86400;
    let rem = secs % 86400;
    let w = (days + 4) % 7;
    let ymd = spec_civil(days);
    assert(0 <= w < 7);
    assert(0 <= rem < 86400);
    assert(0 <= rem / 3600 < 100);
    assert(0 <= (rem % 3600) / 60 < 100);
    assert(0 <= rem % 60 < 100);
    assert(0 <= ymd.0 <= 9999 && 1 <= ymd.1 <= 12 && 1 <= ymd.2 <= 31);
    assert(ascii::spec_ascii_bytes(spec_day_name(w)));
    assert(ascii::spec_ascii_bytes(spec_month_name(ymd.1)));
    assert(ascii::spec_ascii_bytes(spec_dec2(ymd.2)));
    assert(ascii::spec_ascii_bytes(spec_dec4(ymd.0)));
    assert(ascii::spec_ascii_bytes(spec_dec2(rem / 3600)));
    assert(ascii::spec_ascii_bytes(spec_dec2((rem % 3600) / 60)));
    assert(ascii::spec_ascii_bytes(spec_dec2(rem % 60)));
    let p1 = spec_day_name(w) + seq![44u8, 32u8];
    let p2 = p1 + spec_dec2(ymd.2);
    let p3 = p2 + seq![32u8];
    let p4 = p3 + spec_month_name(ymd.1);
    let p5 = p4 + seq![32u8];
    let p6 = p5 + spec_dec4(ymd.0);
    let p7 = p6 + seq![32u8];
    let p8 = p7 + spec_dec2(rem / 3600);
    let p9 = p8 + seq![58u8];
    let p10 = p9 + spec_dec2((rem % 3600) / 60);
    let p11 = p10 + seq![58u8];
    let p12 = p11 + spec_dec2(rem % 60);
    lemma_ascii_concat_bytes(spec_day_name(w), seq![44u8, 32u8]);
    lemma_ascii_concat_bytes(p1, spec_dec2(ymd.2));
    lemma_ascii_concat_bytes(p2, seq![32u8]);
    lemma_ascii_concat_bytes(p3, spec_month_name(ymd.1));
    lemma_ascii_concat_bytes(p4, seq![32u8]);
    lemma_ascii_concat_bytes(p5, spec_dec4(ymd.0));
    lemma_ascii_concat_bytes(p6, seq![32u8]);
    lemma_ascii_concat_bytes(p7, spec_dec2(rem / 3600));
    lemma_ascii_concat_bytes(p8, seq![58u8]);
    lemma_ascii_concat_bytes(p9, spec_dec2((rem % 3600) / 60));
    lemma_ascii_concat_bytes(p10, seq![58u8]);
    lemma_ascii_concat_bytes(p11, spec_dec2(rem % 60));
    lemma_ascii_concat_bytes(p12, seq![32u8, 71u8, 77u8, 84u8]);
}

/// The names and values the encoder writes are ASCII and folded.
proof fn lemma_encode_literals()
    ensures
        "content-length".is_ascii(),
        spec_lower_chars("content-length"@) == "content-length"@,
        "transfer-encoding".is_ascii(),
        spec_lower_chars("transfer-encoding"@) == "transfer-encoding"@,
        "date".is_ascii(),
        spec_lower_chars("date"@) == "date"@,
        "chunked".is_ascii(),
{
    reveal_strlit("content-length");
    reveal_strlit("transfer-encoding");
    reveal_strlit("date");
    reveal_strlit("chunked");
    assert(spec_lower_chars("content-length"@) =~= "content-length"@);
    assert(spec_lower_chars("transfer-encoding"@) =~= "transfer-encoding"@);
    assert(spec_lower_chars("date"@) =~= "date"@);
}

/// Compare two ASCII strings lexicographically.
fn lex_le(a: &str, b: &str) -> (r: bool)
    requires
        a.is_ascii(),
        b.is_ascii(),
    ensures
        r == spec_lex_le(a@, b@),
    decreases a@.len(),
{
    broadcast use vstd::utf8::is_ascii_chars_nat_bound;

    let an = a.unicode_len();
    let bn = b.unicode_len();
    if an == 0 {
        true
    } else if bn == 0 {
        false
    } else {
        let ca = a.get_ascii(0);
        let cb = b.get_ascii(0);
        proof {
            assert((a@.index(0) as nat) < 128);
            assert((b@.index(0) as nat) < 128);
            ascii::lemma_ascii_char_roundtrip(a@[0]);
            ascii::lemma_ascii_char_roundtrip(b@[0]);
        }
        if ca != cb {
            proof {
                assert((a@[0] != b@[0]));
                assert((a@[0] < b@[0]) == (ca < cb));
            }
            ca < cb
        } else {
            proof {
                assert(a@[0] == b@[0]);
            }
            let ra = a.substring_ascii(1, an);
            let rb = b.substring_ascii(1, bn);
            proof {
                assert(ra@ =~= a@.skip(1));
                assert(rb@ =~= b@.skip(1));
            }
            lex_le(ra, rb)
        }
    }
}

/// Clone one header entry.
fn clone_entry(e: &HeaderEntry) -> (r: HeaderEntry)
    ensures
        r@ == e@,
{
    let mut values: Vec<String> = Vec::new();
    let mut i: usize = 0;
    while i < e.values.len()
        invariant
            0 <= i <= e.values@.len(),
            values@.len() == i,
            forall|j: int| 0 <= j < i ==> #[trigger] values@[j]@ == e.values@[j]@,
        decreases e.values@.len() - i,
    {
        values.push(e.values[i].clone());
        i = i + 1;
    }
    proof {
        assert forall|j: int| 0 <= j < values.deep_view().len() implies #[trigger] values.deep_view()[j]
            == e.values.deep_view()[j] by {
            assert(values@[j]@ == e.values@[j]@);
        }
        assert(values.deep_view() =~= e.values.deep_view());
    }
    proof {
        assert(e.values.deep_view().take(e.values@.len() as int) =~= e.values.deep_view());
    }
    HeaderEntry { name: e.name.clone(), values }
}

/// An inserted entry lands exactly where the first not-smaller neighbour
/// stands.
proof fn lemma_insert_sorted_at(
    e: (Seq<char>, Seq<Seq<char>>),
    s: Seq<(Seq<char>, Seq<Seq<char>>)>,
    p: int,
)
    requires
        0 <= p <= s.len(),
        forall|j: int| 0 <= j < p ==> !spec_lex_le(e.0, (#[trigger] s[j]).0),
        p < s.len() ==> spec_lex_le(e.0, s[p].0),
    ensures
        spec_insert_sorted(e, s) == s.take(p) + seq![e] + s.skip(p),
    decreases p,
{
    if s.len() == 0 {
        assert(s.take(0) + seq![e] + s.skip(0) =~= seq![e]);
    } else if p == 0 {
        assert(s.take(0) + seq![e] + s.skip(0) =~= seq![e] + s);
    } else {
        assert(!spec_lex_le(e.0, s[0].0));
        lemma_insert_sorted_at(e, s.skip(1), p - 1);
        assert forall|j: int| 0 <= j < p - 1 implies !spec_lex_le(e.0, (#[trigger] s.skip(1)[j]).0)
            by {
            assert(s.skip(1)[j] == s[j + 1]);
        }
        assert(s.take(p) + seq![e] + s.skip(p) =~= seq![s[0]] + (s.skip(1).take(p - 1) + seq![e]
            + s.skip(1).skip(p - 1)));
    }
}

/// Sort header entries by name.
fn sort_entries(entries: Vec<HeaderEntry>) -> (r: Vec<HeaderEntry>)
    requires
        forall|i: int|
            0 <= i < entries@.len() ==> vstd::utf8::is_ascii_chars(
                (#[trigger] entries@[i])@.0,
            ),
    ensures
        Seq::new(r@.len(), |i: int| r@[i]@) == spec_sort(
            Seq::new(entries@.len(), |i: int| entries@[i]@),
        ),
        forall|i: int|
            0 <= i < r@.len() ==> vstd::utf8::is_ascii_chars((#[trigger] r@[i])@.0),
{
    let ghost input = Seq::new(entries@.len(), |i: int| entries@[i]@);
    let mut out: Vec<HeaderEntry> = Vec::new();
    proof {
        assert(input.take(0) =~= Seq::<(Seq<char>, Seq<Seq<char>>)>::empty());
        assert(Seq::new(out@.len(), |i: int| out@[i]@) =~= spec_sort(input.take(0)));
    }
    let mut i: usize = 0;
    while i < entries.len()
        invariant
            0 <= i <= entries@.len(),
            input == Seq::new(entries@.len(), |k: int| entries@[k]@),
            input.len() == entries@.len(),
            forall|k: int|
                0 <= k < entries@.len() ==> vstd::utf8::is_ascii_chars(
                    (#[trigger] entries@[k])@.0,
                ),
            Seq::new(out@.len(), |k: int| out@[k]@) == spec_sort(input.take(i as int)),
            forall|k: int| 0 <= k < out@.len() ==> vstd::utf8::is_ascii_chars((#[trigger] out@[k])@.0),
        decreases entries@.len() - i,
    {
        let e = clone_entry(&entries[i]);
        let ghost ev = e@;
        let ghost before = Seq::new(out@.len(), |k: int| out@[k]@);
        let mut p: usize = 0;
        let mut found: bool = false;
        while p < out.len() && !found
            invariant
                0 <= p <= out@.len(),
                ev == e@,
                e.name@ == ev.0,
                before == Seq::new(out@.len(), |k: int| out@[k]@),
                before.len() == out@.len(),
                vstd::utf8::is_ascii_chars(ev.0),
                forall|k: int| 0 <= k < out@.len() ==> vstd::utf8::is_ascii_chars((#[trigger] out@[k])@.0),
                forall|j: int| 0 <= j < p ==> !spec_lex_le(ev.0, (#[trigger] before[j]).0),
                found ==> p < out@.len() && spec_lex_le(ev.0, before[p as int].0),
            decreases out@.len() - p + (if found { 0int } else { 1int }),
        {
            proof {
                assert(before[p as int].0 == out@[p as int]@.0);
            }
            if lex_le(e.name.as_str(), out[p].name.as_str()) {
                found = true;
            } else {
                p = p + 1;
            }
        }
        proof {
            lemma_insert_sorted_at(ev, before, p as int);
        }
        out.insert(p, e);
        i = i + 1;
        proof {
            assert(input.take(i as int).drop_last() =~= input.take(i - 1));
            assert(input.take(i as int).last() == input[i - 1]);
            assert(input[i - 1] == ev);
            assert(Seq::new(out@.len(), |k: int| out@[k]@) =~= before.take(p as int) + seq![ev]
                + before.skip(p as int));
            assert(Seq::new(out@.len(), |k: int| out@[k]@) == spec_sort(input.take(i as int)));
        }
    }
    proof {
        assert(input.take(input.len() as int) =~= input);
    }
    out
}

/// Apply the header finalization rules to a response, in place: set
/// `Content-Length` from a body of known length or `Transfer-Encoding:
/// chunked` otherwise, and synthesize `Date` when none is present.
#[verifier::rlimit(100)]
#[verifier::spinoff_prover]
pub fn finalize_headers(response: &mut Response, date_secs: u64)
    requires
        old(response).wf(),
    ensures
        final(response).headers@ == spec_finalized(
            old(response).headers@,
            old(response).body.length_known(),
            old(response).body.bytes().len() as int,
            date_secs as int,
        ),
        final(response).status == old(response).status,
        final(response).body == old(response).body,
        final(response).error == old(response).error,
        final(response).wf(),
{
    proof {
        lemma_encode_literals();
        reveal_strlit("content-length");
        reveal_strlit("transfer-encoding");
        reveal_strlit("date");
        reveal_strlit("chunked");
    }
    match response.len() {
        Some(n) => {
            let mut digits: Vec<u8> = Vec::new();
            push_dec_digits(&mut digits, n as u64);
            proof {
                assert(Seq::<u8>::empty() + spec_dec_digits(n as nat) =~= spec_dec_digits(
                    n as nat,
                ));
                lemma_dec_digits_are_digits(n as nat);
                assert forall|j: int| 0 <= j < digits@.len() implies #[trigger] digits@[j]
                    < 128 by {
                    assert(crate::num::spec_is_dec_digit(digits@[j]));
                }
            }
            let value = match ascii::bytes_to_string_checked(digits.as_slice()) {
                Some(x) => x,
                None => {
                    proof {
                        assert(false);
                    }
                    String::new()
                },
            };
            response.insert_header("content-length", value.as_str());
        },
        None => {
            response.insert_header("transfer-encoding", "chunked");
        },
    }
    if !response.headers.contains("date") {
        let date_bytes = fmt_http_date(date_secs);
        proof {
            lemma_date_ascii(date_secs as int);
        }
        let value = match ascii::bytes_to_string_checked(date_bytes.as_slice()) {
            Some(x) => x,
            None => {
                proof {
                    assert(false);
                }
                String::new()
            },
        };
        response.insert_header("date", value.as_str());
    }
}

/// Render the whole response head: the status line, the finalized headers
/// sorted by name, and the blank line. Finalization is applied to the
/// response exactly once, before any byte is rendered.
pub fn compute_head(response: &mut Response, date_secs: u64) -> (r: Vec<u8>)
    requires
        old(response).wf(),
    ensures
        r@ == spec_encode_head(
            old(response).status,
            old(response).headers@,
            old(response).body.length_known(),
            old(response).body.bytes().len() as int,
            date_secs as int,
        ),
        final(response).status == old(response).status,
        final(response).body == old(response).body,
        final(response).error == old(response).error,
        final(response).wf(),
{
    finalize_headers(response, date_secs);
    let ghost finalized = response.headers@;
    let mut out: Vec<u8> = Vec::new();
    out.push(72);
    out.push(84);
    out.push(84);
    out.push(80);
    out.push(47);
    out.push(49);
    out.push(46);
    out.push(49);
    out.push(32);
    push_dec_digits(&mut out, response.status as u64);
    out.push(32);
    let reason = canonical_reason(response.status);
    proof {
        crate::status::lemma_reason_ascii(response.status);
    }
    let reason_bytes = ascii::string_to_bytes(reason);
    let mut reason_bytes = reason_bytes;
    out.append(&mut reason_bytes);
    out.push(13);
    out.push(10);
    proof {
        assert(out@ =~= spec_status_line(old(response).status));
    }
    let ghost status_line = out@;
    let mut entries: Vec<HeaderEntry> = Vec::new();
    let mut i: usize = 0;
    while i < response.headers.entries.len()
        invariant
            0 <= i <= response.headers.entries@.len(),
            finalized == response.headers@,
            response.headers.wf(),
            entries@.len() == i,
            forall|k: int| 0 <= k < i ==> #[trigger] entries@[k]@ == response.headers@[k],
        decreases response.headers.entries@.len() - i,
    {
        let e = clone_entry(&response.headers.entries[i]);
        proof {
            assert(response.headers@[i as int] == response.headers.entries@[i as int]@);
        }
        entries.push(e);
        i = i + 1;
    }
    proof {
        assert(Seq::new(entries@.len(), |k: int| entries@[k]@) =~= finalized);
        assert forall|k: int| 0 <= k < entries@.len() implies vstd::utf8::is_ascii_chars(
            (#[trigger] entries@[k])@.0,
        ) by {
            assert(wf_entry(finalized[k]));
        }
    }
    let sorted = sort_entries(entries);
    let ghost sortedv = spec_sort(finalized);
    proof {
        assert(Seq::new(sorted@.len(), |k: int| sorted@[k]@) == sortedv);
        lemma_sort_preserves_wf(finalized);
    }
    let mut j: usize = 0;
    while j < sorted.len()
        invariant
            0 <= j <= sorted@.len(),
            sortedv == Seq::new(sorted@.len(), |k: int| sorted@[k]@),
            sortedv.len() == sorted@.len(),
            forall|k: int| 0 <= k < sortedv.len() ==> wf_entry(#[trigger] sortedv[k]),
            status_line == spec_status_line(old(response).status),
            out@ == status_line + spec_render_entries(sortedv.take(j as int)),
        decreases sorted@.len() - j,
    {
        let entry = &sorted[j];
        proof {
            assert(entry@ == sortedv[j as int]);
            assert(wf_entry(sortedv[j as int]));
            assert(vstd::utf8::is_ascii_chars(entry.name@));
        }
        let name_bytes = ascii::string_to_bytes(entry.name.as_str());
        let ghost name_b = name_bytes@;
        let ghost entry_v = entry@;
        let mut v: usize = 0;
        while v < entry.values.len()
            invariant
                0 <= v <= entry.values@.len(),
                entry_v == entry@,
                entry.name@ == entry_v.0,
                wf_entry(entry_v),
                name_b == spec_bytes_of_chars(entry_v.0),
                name_bytes@ == name_b,
                out@ == status_line + spec_render_entries(sortedv.take(j as int))
                    + spec_render_values(name_b, entry_v.1.take(v as int)),
                sortedv == Seq::new(sorted@.len(), |k: int| sorted@[k]@),
                status_line == spec_status_line(old(response).status),
            decreases entry.values@.len() - v,
        {
            let ghost out0 = out@;
            let mut nb = ascii::string_to_bytes(entry.name.as_str());
            out.append(&mut nb);
            out.push(58);
            out.push(32);
            proof {
                assert(vstd::utf8::is_ascii_chars(entry_v.1[v as int]));
                assert(entry.values@[v as int]@ == entry_v.1[v as int]);
            }
            let mut vb = ascii::string_to_bytes(entry.values[v].as_str());
            out.append(&mut vb);
            out.push(13);
            out.push(10);
            v = v + 1;
            proof {
                let vals = entry_v.1;
                assert(out@ =~= out0 + (name_b + seq![58u8, 32u8] + spec_bytes_of_chars(
                    vals[v - 1],
                ) + seq![13u8, 10u8]));
                lemma_render_values_snoc(name_b, vals, v as int);
            }
        }
        j = j + 1;
        proof {
            assert(entry_v.1.take(entry_v.1.len() as int) =~= entry_v.1);
            lemma_render_entries_snoc(sortedv, j as int);
        }
    }
    out.push(13);
    out.push(10);
    proof {
        assert(sortedv.take(sortedv.len() as int) =~= sortedv);
        assert(out@ =~= spec_status_line(old(response).status) + spec_render_entries(sortedv)
            + seq![13u8, 10u8]);
    }
    out
}

/// Rendering one more value extends the rendered lines at the end.
proof fn lemma_render_values_snoc(name: Seq<u8>, values: Seq<Seq<char>>, v: int)
    requires
        1 <= v <= values.len(),
    ensures
        spec_render_values(name, values.take(v)) == spec_render_values(name, values.take(v - 1))
            + (name + seq![58u8, 32u8] + spec_bytes_of_chars(values[v - 1]) + seq![13u8, 10u8]),
    decreases v,
{
    if v == 1 {
        assert(values.take(1)[0] == values[0]);
        assert(values.take(1).skip(1) =~= Seq::<Seq<char>>::empty());
        assert(values.take(0) =~= Seq::<Seq<char>>::empty());
        assert(spec_render_values(name, values.take(0)) =~= Seq::<u8>::empty());
        assert(spec_render_values(name, values.take(1)) =~= name + seq![58u8, 32u8]
            + spec_bytes_of_chars(values[0]) + seq![13u8, 10u8]);
    } else {
        lemma_render_values_snoc(name, values.skip(1), v - 1);
        assert(values.take(v).skip(1) =~= values.skip(1).take(v - 1));
        assert(values.take(v - 1).skip(1) =~= values.skip(1).take(v - 2));
        assert(values.take(v)[0] == values[0]);
        assert(values.take(v - 1)[0] == values[0]);
        assert(values.skip(1)[v - 2] == values[v - 1]);
        let head = name + seq![58u8, 32u8] + spec_bytes_of_chars(values[0]) + seq![13u8, 10u8];
        let tail_new = name + seq![58u8, 32u8] + spec_bytes_of_chars(values[v - 1]) + seq![
            13u8,
            10u8,
        ];
        assert(spec_render_values(name, values.take(v)) == head + spec_render_values(
            name,
            values.skip(1).take(v - 1),
        ));
        assert(spec_render_values(name, values.take(v - 1)) == head + spec_render_values(
            name,
            values.skip(1).take(v - 2),
        ));
        assert(head + (spec_render_values(name, values.skip(1).take(v - 2)) + tail_new) =~= (head
            + spec_render_values(name, values.skip(1).take(v - 2))) + tail_new);
    }
}

/// Rendering one more entry extends the rendered lines at the end.
proof fn lemma_render_entries_snoc(es: Seq<(Seq<char>, Seq<Seq<char>>)>, j: int)
    requires
        1 <= j <= es.len(),
    ensures
        spec_render_entries(es.take(j)) == spec_render_entries(es.take(j - 1))
            + spec_render_values(spec_bytes_of_chars(es[j - 1].0), es[j - 1].1),
    decreases j,
{
    if j == 1 {
        assert(es.take(1)[0] == es[0]);
        assert(es.take(1).skip(1) =~= Seq::<(Seq<char>, Seq<Seq<char>>)>::empty());
        assert(es.take(0) =~= Seq::<(Seq<char>, Seq<Seq<char>>)>::empty());
        assert(spec_render_entries(es.take(0)) =~= Seq::<u8>::empty());
        assert(Seq::<u8>::empty() + spec_render_values(
            spec_bytes_of_chars(es[0].0),
            es[0].1,
        ) =~= spec_render_values(spec_bytes_of_chars(es[0].0), es[0].1));
        assert(spec_render_entries(es.take(1)) =~= spec_render_values(
            spec_bytes_of_chars(es[0].0),
            es[0].1,
        ));
    } else {
        lemma_render_entries_snoc(es.skip(1), j - 1);
        assert(es.take(j).skip(1) =~= es.skip(1).take(j - 1));
        assert(es.take(j - 1).skip(1) =~= es.skip(1).take(j - 2));
        assert(es.take(j)[0] == es[0]);
        assert(es.take(j - 1)[0] == es[0]);
        assert(es.skip(1)[j - 2] == es[j - 1]);
        let head = spec_render_values(spec_bytes_of_chars(es[0].0), es[0].1);
        let tail_new = spec_render_values(spec_bytes_of_chars(es[j - 1].0), es[j - 1].1);
        assert(spec_render_entries(es.take(j)) == head + spec_render_entries(
            es.skip(1).take(j - 1),
        ));
        assert(spec_render_entries(es.take(j - 1)) == head + spec_render_entries(
            es.skip(1).take(j - 2),
        ));
        assert(head + (spec_render_entries(es.skip(1).take(j - 2)) + tail_new) =~= (head
            + spec_render_entries(es.skip(1).take(j - 2))) + tail_new);
    }
}

/// Inserting into a list of well-formed entries keeps them well formed.
proof fn lemma_insert_sorted_wf(e: (Seq<char>, Seq<Seq<char>>), s: Seq<(Seq<char>, Seq<Seq<char>>)>)
    requires
        wf_entry(e),
        forall|k: int| 0 <= k < s.len() ==> wf_entry(#[trigger] s[k]),
    ensures
        forall|k: int|
            0 <= k < spec_insert_sorted(e, s).len() ==> wf_entry(
                #[trigger] spec_insert_sorted(e, s)[k],
            ),
    decreases s.len(),
{
    if s.len() == 0 {
    } else if spec_lex_le(e.0, s[0].0) {
        assert forall|k: int| 0 <= k < (seq![e] + s).len() implies wf_entry(
            #[trigger] (seq![e] + s)[k],
        ) by {
            if k > 0 {
                assert((seq![e] + s)[k] == s[k - 1]);
            }
        }
    } else {
        lemma_insert_sorted_wf(e, s.skip(1));
        let inner = spec_insert_sorted(e, s.skip(1));
        assert forall|k: int| 0 <= k < (seq![s[0]] + inner).len() implies wf_entry(
            #[trigger] (seq![s[0]] + inner)[k],
        ) by {
            if k > 0 {
                assert((seq![s[0]] + inner)[k] == inner[k - 1]);
            }
        }
    }
}

/// Sorting a list of well-formed entries keeps them well formed.
proof fn lemma_sort_preserves_wf(s: Seq<(Seq<char>, Seq<Seq<char>>)>)
    requires
        forall|k: int| 0 <= k < s.len() ==> wf_entry(#[trigger] s[k]),
    ensures
        forall|k: int|
            0 <= k < spec_sort(s).len() ==> wf_entry(#[trigger] spec_sort(s)[k]),
    decreases s.len(),
{
    if s.len() > 0 {
        assert forall|k: int| 0 <= k < s.drop_last().len() implies wf_entry(
            #[trigger] s.drop_last()[k],
        ) by {
            assert(s.drop_last()[k] == s[k]);
        }
        lemma_sort_preserves_wf(s.drop_last());
        lemma_insert_sorted_wf(s.last(), spec_sort(s.drop_last()));
    }
}

/// The phase of the encoding state machine: transitions only move forward.
pub open spec fn spec_phase(s: &EncoderState) -> int {
    match s {
        EncoderState::Start => 0,
        EncoderState::Head(_, _) => 1,
        EncoderState::FixedBody(_, _) => 2,
        EncoderState::ChunkedBody(_) => 2,
        EncoderState::End => 3,
    }
}

/// Where the encoder stands: writing the head, streaming the body, or done.
pub enum EncoderState {
    /// Nothing emitted yet; the head is computed on the first read.
    Start,
    /// Emitting the head bytes, from the given position.
    Head(Vec<u8>, usize),
    /// Emitting a body of known length, from the given position.
    FixedBody(Vec<u8>, usize),
    /// Emitting a chunked body.
    ChunkedBody(ChunkedEncoder),
    /// Everything emitted; every further read yields nothing.
    End,
}

/// The streaming response encoder: one status line, the canonical header
/// block, the blank line, then the body — or no body at all for a `HEAD`
/// request. The state only ever moves forward.
pub struct Encoder {
    pub response: Response,
    pub method: Method,
    pub date_secs: u64,
    pub state: EncoderState,
}

impl Encoder {
    /// The encoder's internal consistency.
    pub open spec fn wf(self) -> bool {
        &&& self.response.wf()
        &&& (self.state matches EncoderState::Head(h, p) ==> p <= h@.len())
        &&& (self.state matches EncoderState::FixedBody(b, p) ==> p <= b@.len())
        &&& (self.state matches EncoderState::ChunkedBody(e) ==> e.wf())
    }

    /// A new encoder over a response, for a request made with `method`,
    /// stamping `date_secs` when the response carries no `Date` header.
    pub fn new(response: Response, method: Method, date_secs: u64) -> (r: Encoder)
        requires
            response.wf(),
        ensures
            r.response == response,
            r.method == method,
            r.date_secs == date_secs,
            r.state is Start,
            r.wf(),
    {
        Encoder { response, method, date_secs, state: EncoderState::Start }
    }

    /// Produce the next at-most-`buf_len` bytes of the encoded response.
    ///
    /// An empty result means the response is fully encoded, and every later
    /// read stays empty; the state machine only moves forward.
    pub fn poll_read(&mut self, buf_len: usize) -> (r: Vec<u8>)
        requires
            buf_len >= 6,
            old(self).wf(),
        ensures
            final(self).wf(),
            final(self).method == old(self).method,
            final(self).date_secs == old(self).date_secs,
            spec_phase(&final(self).state) >= spec_phase(&old(self).state),
            old(self).state is End ==> final(self).state is End && r@.len() == 0,
            r@.len() == 0 ==> final(self).state is End,
            r@.len() <= buf_len || buf_len < 6,
            old(self).state is Start ==> (final(self).state matches EncoderState::Head(h, p) && h@
                == spec_encode_head(
                old(self).response.status,
                old(self).response.headers@,
                old(self).response.body.length_known(),
                old(self).response.body.bytes().len() as int,
                old(self).date_secs as int,
            ) && p == vstd::math::min(buf_len as int, h@.len() as int) && r@ == h@.take(p as int)),
            old(self).state matches EncoderState::Head(h, p) ==> if p < h@.len() {
                final(self).state matches EncoderState::Head(h2, p2) && h2@ == h@ && p2 == p
                    + vstd::math::min(buf_len as int, h@.len() - p) && r@ == h@.subrange(
                    p as int,
                    p2 as int,
                )
            } else if old(self).method is Head {
                final(self).state is End && r@.len() == 0
            } else {
                true
            },
            old(self).state matches EncoderState::FixedBody(b, p) ==> if p < b@.len() {
                final(self).state matches EncoderState::FixedBody(b2, p2) && b2@ == b@ && p2 == p
                    + vstd::math::min(buf_len as int, b@.len() - p) && r@ == b@.subrange(
                    p as int,
                    p2 as int,
                )
            } else {
                final(self).state is End && r@.len() == 0
            },
    {
        let mut st = EncoderState::End;
        core::mem::swap(&mut self.state, &mut st);
        match st {
            EncoderState::Start => {
                let head = compute_head(&mut self.response, self.date_secs);
                let n = head.len();
                let k = if buf_len <= n {
                    buf_len
                } else {
                    n
                };
                let r = vstd::slice::slice_to_vec(&head.as_slice()[0..k]);
                proof {
                    assert(r@ =~= head@.take(k as int));
                    assert(head@.len() >= 1) by {
                        assert(spec_status_line(old(self).response.status).len() >= 9);
                    }
                }
                self.state = EncoderState::Head(head, k);
                r
            },
            EncoderState::Head(head, p) => {
                if p < head.len() {
                    let n = head.len();
                    let rem = n - p;
                    let k = if buf_len <= rem {
                        buf_len
                    } else {
                        rem
                    };
                    let r = vstd::slice::slice_to_vec(&head.as_slice()[p..p + k]);
                    proof {
                        assert(r@ =~= head@.subrange(p as int, p + k));
                        assert(k >= 1);
                    }
                    self.state = EncoderState::Head(head, p + k);
                    r
                } else {
                    if matches!(self.method, Method::Head) {
                        self.state = EncoderState::End;
                        Vec::new()
                    } else {
                        let body = self.response.take_body();
                        match body {
                            Body::Fixed(bytes) => {
                                if bytes.len() == 0 {
                                    self.state = EncoderState::End;
                                    Vec::new()
                                } else {
                                    let n = bytes.len();
                                    let k = if buf_len <= n {
                                        buf_len
                                    } else {
                                        n
                                    };
                                    let r = vstd::slice::slice_to_vec(&bytes.as_slice()[0..k]);
                                    proof {
                                        assert(r@ =~= bytes@.take(k as int));
                                        assert(k >= 1);
                                    }
                                    self.state = EncoderState::FixedBody(bytes, k);
                                    r
                                }
                            },
                            Body::Streamed(bytes) => {
                                let mut enc = ChunkedEncoder::new(bytes);
                                let r = enc.poll_read(buf_len);
                                proof {
                                    assert(r@.len() >= 5) by {
                                        crate::num::lemma_hex_digits_are_digits(
                                            vstd::math::min(
                                                crate::chunked::spec_max_bytes(buf_len as int),
                                                enc.body@.len() as int,
                                            ) as nat,
                                        );
                                    }
                                }
                                self.state = EncoderState::ChunkedBody(enc);
                                r
                            },
                        }
                    }
                }
            },
            EncoderState::FixedBody(bytes, p) => {
                if p < bytes.len() {
                    let n = bytes.len();
                    let rem = n - p;
                    let k = if buf_len <= rem {
                        buf_len
                    } else {
                        rem
                    };
                    let r = vstd::slice::slice_to_vec(&bytes.as_slice()[p..p + k]);
                    proof {
                        assert(r@ =~= bytes@.subrange(p as int, p + k));
                        assert(k >= 1);
                    }
                    self.state = EncoderState::FixedBody(bytes, p + k);
                    r
                } else {
                    self.state = EncoderState::End;
                    Vec::new()
                }
            },
            EncoderState::ChunkedBody(enc) => {
                let mut enc = enc;
                if enc.done {
                    self.state = EncoderState::End;
                    Vec::new()
                } else {
                    let r = enc.poll_read(buf_len);
                    proof {
                        assert(r@.len() >= 5) by {
                            crate::num::lemma_hex_digits_are_digits(
                                vstd::math::min(
                                    crate::chunked::spec_max_bytes(buf_len as int),
                                    enc.body@.len() - enc.pos,
                                ) as nat,
                            );
                        }
                    }
                    self.state = EncoderState::ChunkedBody(enc);
                    r
                }
            },
            EncoderState::End => Vec::new(),
        }
    }
}

} // verus!
