//! The encode/decode round trip: parsing the bytes the response encoder
//! emits gives the status, the header lines, and the body back exactly.

use vstd::prelude::*;

use crate::ascii::{spec_bytes_of_chars, spec_lower_bytes, lemma_byte_char_below_128};
use crate::decode::{
    spec_parse_header_line, spec_trim, spec_trim_start, spec_trim_end, spec_ws,
    spec_valid_header_name, spec_valid_header_value, spec_name_byte, spec_value_byte,
};
use crate::encode::{
    spec_encode_head, spec_finalized, spec_render_entries, spec_render_values, spec_sort,
    spec_insert_sorted, spec_status_line, spec_http_date, spec_dec2, spec_dec4, spec_day_name,
    spec_month_name, spec_civil,
};
use crate::headers::{spec_find, spec_insert};
use crate::num::{
    spec_dec_digits, spec_all_dec_digits, spec_dec_val, lemma_dec_digits_are_digits,
    lemma_dec_round_trip,
};
use crate::status::{spec_reason, spec_valid_status, lemma_reason_ascii};
use crate::wire::{spec_take_line, spec_find_byte, lemma_take_line_frame, lemma_find_byte_frame};

verus! {

/// One entry spread into one flat pair per value, in order.
pub open spec fn spec_flatten_values(name: Seq<u8>, values: Seq<Seq<char>>) -> Seq<
    (Seq<u8>, Seq<u8>),
>
    decreases values.len(),
{
    if values.len() == 0 {
        Seq::<(Seq<u8>, Seq<u8>)>::empty()
    } else {
        seq![(name, spec_bytes_of_chars(values[0]))] + spec_flatten_values(name, values.skip(1))
    }
}

/// All entries spread into flat pairs, in list order.
pub open spec fn spec_flatten_entries(es: Seq<(Seq<char>, Seq<Seq<char>>)>) -> Seq<
    (Seq<u8>, Seq<u8>),
>
    decreases es.len(),
{
    if es.len() == 0 {
        Seq::<(Seq<u8>, Seq<u8>)>::empty()
    } else {
        spec_flatten_values(spec_bytes_of_chars(es[0].0), es[0].1) + spec_flatten_entries(
            es.skip(1),
        )
    }
}

/// Header lines up to the empty line, and everything after it.
pub open spec fn spec_parse_header_lines_rem(s: Seq<u8>) -> Option<
    (Seq<(Seq<u8>, Seq<u8>)>, Seq<u8>),
>
    decreases s.len(),
{
    match spec_take_line(s) {
        None => None,
        Some(lr) => {
            if lr.0.len() == 0 {
                Some((Seq::<(Seq<u8>, Seq<u8>)>::empty(), lr.1))
            } else if lr.1.len() < s.len() {
                match spec_parse_header_line(lr.0) {
                    None => None,
                    Some(p) => match spec_parse_header_lines_rem(lr.1) {
                        None => None,
                        Some(pr) => Some((seq![p] + pr.0, pr.1)),
                    },
                }
            } else {
                None
            }
        },
    }
}

/// The status a well-formed status line names.
pub open spec fn spec_parse_status_line(line: Seq<u8>) -> Option<u16> {
    if line.len() >= 9 && line.take(9) == seq![
        72u8,
        84u8,
        84u8,
        80u8,
        47u8,
        49u8,
        46u8,
        49u8,
        32u8,
    ] {
        let rest = line.skip(9);
        let sp = spec_find_byte(rest, 32);
        if sp >= 1 {
            let digits = rest.take(sp);
            if spec_all_dec_digits(digits) && spec_dec_val(digits) <= 0xFFFF {
                Some(spec_dec_val(digits) as u16)
            } else {
                None
            }
        } else {
            None
        }
    } else {
        None
    }
}

/// What decoding one whole response stream yields: the status, the header
/// lines as parsed pairs, and the bytes after the blank line.
pub open spec fn spec_parse_response(s: Seq<u8>) -> Option<
    (u16, Seq<(Seq<u8>, Seq<u8>)>, Seq<u8>),
> {
    match spec_take_line(s) {
        None => None,
        Some(lr) => match spec_parse_status_line(lr.0) {
            None => None,
            Some(status) => match spec_parse_header_lines_rem(lr.1) {
                None => None,
                Some(pr) => Some((status, pr.0, pr.1)),
            },
        },
    }
}

/// A value that survives the wire unchanged: ASCII, printable, and not
/// padded with whitespace.
pub open spec fn spec_wire_safe_value(v: Seq<char>) -> bool {
    &&& vstd::utf8::is_ascii_chars(v)
    &&& spec_valid_header_value(spec_bytes_of_chars(v))
    &&& (v.len() > 0 ==> !spec_ws(spec_bytes_of_chars(v)[0]) && !spec_ws(
        spec_bytes_of_chars(v).last(),
    ))
}

/// An entry that survives the wire unchanged: a lowercase token name and
/// wire-safe values.
pub open spec fn spec_wire_safe_entry(e: (Seq<char>, Seq<Seq<char>>)) -> bool {
    &&& vstd::utf8::is_ascii_chars(e.0)
    &&& spec_valid_header_name(spec_bytes_of_chars(e.0))
    &&& spec_lower_bytes(spec_bytes_of_chars(e.0)) == spec_bytes_of_chars(e.0)
    &&& forall|k: int| 0 <= k < e.1.len() ==> spec_wire_safe_value(#[trigger] e.1[k])
}

/// All entries wire safe.
pub open spec fn spec_wire_safe(es: Seq<(Seq<char>, Seq<Seq<char>>)>) -> bool {
    forall|i: int| 0 <= i < es.len() ==> spec_wire_safe_entry(#[trigger] es[i])
}

/// Trimming does not change a value without whitespace padding.
proof fn lemma_trim_of_padded(v: Seq<u8>)
    requires
        v.len() > 0 ==> !spec_ws(v[0]) && !spec_ws(v.last()),
    ensures
        spec_trim(seq![32u8] + v) == v,
{
    let padded = seq![32u8] + v;
    assert(spec_ws(padded[0]));
    assert(padded.skip(1) =~= v);
    if v.len() == 0 {
        assert(spec_trim_start(padded) == spec_trim_start(v));
        assert(spec_trim_end(v) == v);
    } else {
        assert(!spec_ws(v[0]));
        assert(spec_trim_start(padded) == spec_trim_start(padded.skip(1)));
        assert(spec_trim_start(v) == v);
        assert(!spec_ws(v.last()));
        assert(spec_trim_end(v) == v);
    }
}

/// Parsing one rendered header line gives the name and value back.
proof fn lemma_parse_rendered_line(name: Seq<u8>, value: Seq<char>)
    requires
        spec_valid_header_name(name),
        spec_lower_bytes(name) == name,
        spec_wire_safe_value(value),
    ensures
        spec_parse_header_line(name + seq![58u8, 32u8] + spec_bytes_of_chars(value)) == Some(
            (name, spec_bytes_of_chars(value)),
        ),
{
    let vb = spec_bytes_of_chars(value);
    let line = name + seq![58u8, 32u8] + vb;
    assert forall|j: int| 0 <= j < name.len() implies name[j] != 58 by {
        assert(spec_name_byte(name[j]));
    }
    assert(line =~= name + seq![58u8] + (seq![32u8] + vb));
    lemma_find_byte_frame(name, seq![32u8] + vb, 58);
    let c = spec_find_byte(line, 58);
    assert(c == name.len());
    assert(line.take(c) =~= name);
    assert(line.skip(c + 1) =~= seq![32u8] + vb);
    lemma_trim_of_padded(vb);
    assert(spec_trim(line.skip(c + 1)) == vb);
}

/// A rendered header line holds no carriage return.
proof fn lemma_rendered_line_no_cr(name: Seq<u8>, value: Seq<char>)
    requires
        spec_valid_header_name(name),
        spec_wire_safe_value(value),
    ensures
        forall|j: int|
            0 <= j < (name + seq![58u8, 32u8] + spec_bytes_of_chars(value)).len() ==> (name + seq![
                58u8,
                32u8,
            ] + spec_bytes_of_chars(value))[j] != 13,
{
    let vb = spec_bytes_of_chars(value);
    let line = name + seq![58u8, 32u8] + vb;
    assert forall|j: int| 0 <= j < line.len() implies line[j] != 13 by {
        if j < name.len() {
            assert(line[j] == name[j]);
            assert(spec_name_byte(name[j]));
        } else if j < name.len() + 2 {
            assert(line[j] == 58 || line[j] == 32);
        } else {
            assert(line[j] == vb[j - name.len() - 2]);
            assert(spec_value_byte(vb[j - name.len() - 2]));
        }
    }
}

/// Parsing the rendered lines of one entry prepends its flat pairs.
proof fn lemma_parse_rem_values(
    name: Seq<u8>,
    values: Seq<Seq<char>>,
    rest: Seq<u8>,
    ps: Seq<(Seq<u8>, Seq<u8>)>,
    body: Seq<u8>,
)
    requires
        spec_valid_header_name(name),
        spec_lower_bytes(name) == name,
        forall|k: int| 0 <= k < values.len() ==> spec_wire_safe_value(#[trigger] values[k]),
        spec_parse_header_lines_rem(rest) == Some((ps, body)),
        rest.len() >= 2,
    ensures
        spec_parse_header_lines_rem(spec_render_values(name, values) + rest) == Some(
            (spec_flatten_values(name, values) + ps, body),
        ),
    decreases values.len(),
{
    if values.len() == 0 {
        assert(spec_render_values(name, values) + rest =~= rest);
        assert(spec_flatten_values(name, values) + ps =~= ps);
    } else {
        let v0 = values[0];
        let vb = spec_bytes_of_chars(v0);
        let line = name + seq![58u8, 32u8] + vb;
        let tail = spec_render_values(name, values.skip(1)) + rest;
        let s = spec_render_values(name, values) + rest;
        assert(s =~= line + seq![13u8, 10u8] + tail);
        lemma_rendered_line_no_cr(name, v0);
        lemma_take_line_frame(line, tail);
        assert(spec_take_line(s) == Some((line, tail)));
        assert(line.len() >= 1);
        assert(tail.len() < s.len());
        lemma_parse_rendered_line(name, v0);
        assert forall|k: int| 0 <= k < values.skip(1).len() implies spec_wire_safe_value(
            #[trigger] values.skip(1)[k],
        ) by {
            assert(values.skip(1)[k] == values[k + 1]);
        }
        lemma_parse_rem_values(name, values.skip(1), rest, ps, body);
        assert(spec_parse_header_lines_rem(s) == Some(
            (seq![(name, vb)] + (spec_flatten_values(name, values.skip(1)) + ps), body),
        ));
        assert(seq![(name, vb)] + (spec_flatten_values(name, values.skip(1)) + ps)
            =~= (seq![(name, vb)] + spec_flatten_values(name, values.skip(1))) + ps);
        assert(spec_flatten_values(name, values) =~= seq![(name, vb)] + spec_flatten_values(
            name,
            values.skip(1),
        ));
    }
}

/// Parsing the rendered lines of all entries, closed by the blank line,
/// yields the entries' flat pairs and leaves the body untouched.
proof fn lemma_parse_rem_entries(es: Seq<(Seq<char>, Seq<Seq<char>>)>, body: Seq<u8>)
    requires
        spec_wire_safe(es),
    ensures
        spec_parse_header_lines_rem(spec_render_entries(es) + seq![13u8, 10u8] + body) == Some(
            (spec_flatten_entries(es), body),
        ),
    decreases es.len(),
{
    if es.len() == 0 {
        let s = spec_render_entries(es) + seq![13u8, 10u8] + body;
        assert(s =~= Seq::<u8>::empty() + seq![13u8, 10u8] + body);
        lemma_take_line_frame(Seq::<u8>::empty(), body);
        assert(spec_take_line(s) == Some((Seq::<u8>::empty(), body)));
        assert(spec_flatten_entries(es) =~= Seq::<(Seq<u8>, Seq<u8>)>::empty());
    } else {
        let e0 = es[0];
        let name = spec_bytes_of_chars(e0.0);
        assert(spec_wire_safe_entry(e0));
        assert forall|i: int| 0 <= i < es.skip(1).len() implies spec_wire_safe_entry(
            #[trigger] es.skip(1)[i],
        ) by {
            assert(es.skip(1)[i] == es[i + 1]);
        }
        lemma_parse_rem_entries(es.skip(1), body);
        let rest = spec_render_entries(es.skip(1)) + seq![13u8, 10u8] + body;
        assert(rest.len() >= 2);
        lemma_parse_rem_values(
            name,
            e0.1,
            rest,
            spec_flatten_entries(es.skip(1)),
            body,
        );
        let s = spec_render_entries(es) + seq![13u8, 10u8] + body;
        assert(s =~= spec_render_values(name, e0.1) + rest);
        assert(spec_flatten_entries(es) =~= spec_flatten_values(name, e0.1)
            + spec_flatten_entries(es.skip(1)));
    }
}

/// The status line's content parses back to the status.
proof fn lemma_status_line_round_trip(status: u16)
    requires
        spec_valid_status(status),
    ensures
        ({
            let sl = spec_status_line(status);
            let content = sl.take(sl.len() - 2);
            &&& forall|j: int| 0 <= j < content.len() ==> content[j] != 13
            &&& sl =~= content + seq![13u8, 10u8]
            &&& spec_parse_status_line(content) == Some(status)
        }),
{
    lemma_reason_ascii(status);
    lemma_dec_digits_are_digits(status as nat);
    lemma_dec_round_trip(status as nat);
    let prefix = seq![72u8, 84u8, 84u8, 80u8, 47u8, 49u8, 46u8, 49u8, 32u8];
    let digits = spec_dec_digits(status as nat);
    let reason = spec_bytes_of_chars(spec_reason(status));
    let sl = spec_status_line(status);
    let content = prefix + digits + seq![32u8] + reason;
    assert(sl =~= content + seq![13u8, 10u8]);
    assert(sl.take(sl.len() - 2) =~= content);
    assert forall|j: int| 0 <= j < reason.len() implies 32 <= #[trigger] reason[j] <= 126 by {
        assert(32 <= (spec_reason(status)[j] as u32) <= 126);
        lemma_byte_char_below_128(reason[j]);
    }
    assert forall|j: int| 0 <= j < content.len() implies content[j] != 13 by {
        if j < prefix.len() {
            assert(content[j] == prefix[j]);
        } else if j < prefix.len() + digits.len() {
            assert(content[j] == digits[j - prefix.len()]);
            assert(crate::num::spec_is_dec_digit(digits[j - prefix.len()]));
        } else if j == prefix.len() + digits.len() {
            assert(content[j] == 32);
        } else {
            assert(content[j] == reason[j - prefix.len() - digits.len() - 1]);
        }
    }
    assert(content.take(9) =~= prefix);
    let after = content.skip(9);
    assert(after =~= digits + seq![32u8] + reason);
    assert forall|j: int| 0 <= j < digits.len() implies digits[j] != 32 by {
        assert(crate::num::spec_is_dec_digit(digits[j]));
    }
    lemma_find_byte_frame(digits, reason, 32);
    assert(spec_find_byte(after, 32) == digits.len());
    assert(after.take(digits.len() as int) =~= digits);
    assert(digits.len() >= 1);
    assert(spec_dec_val(digits) == status);
}

/// Wire safety survives a header insert when the new entry is wire safe.
proof fn lemma_insert_wire_safe(
    es: Seq<(Seq<char>, Seq<Seq<char>>)>,
    name: Seq<char>,
    value: Seq<char>,
)
    requires
        spec_wire_safe(es),
        spec_wire_safe_entry((name, seq![value])),
    ensures
        spec_wire_safe(spec_insert(es, name, value)),
{
    crate::headers::lemma_find_first(es, name);
    let f = spec_find(es, name);
    let out = spec_insert(es, name, value);
    assert forall|i: int| 0 <= i < out.len() implies spec_wire_safe_entry(#[trigger] out[i]) by {
        if f >= 0 {
            if i != f {
                assert(out[i] == es[i]);
            } else {
                assert(out[i] == (name, seq![value]));
            }
        } else {
            if i < es.len() {
                assert(out[i] == es[i]);
            } else {
                assert(out[i] == (name, seq![value]));
            }
        }
    }
}

/// Wire safety survives sorted insertion.
proof fn lemma_insert_sorted_wire_safe(
    e: (Seq<char>, Seq<Seq<char>>),
    s: Seq<(Seq<char>, Seq<Seq<char>>)>,
)
    requires
        spec_wire_safe_entry(e),
        spec_wire_safe(s),
    ensures
        spec_wire_safe(spec_insert_sorted(e, s)),
    decreases s.len(),
{
    if s.len() == 0 {
    } else if crate::encode::spec_lex_le(e.0, s[0].0) {
        let out = seq![e] + s;
        assert forall|i: int| 0 <= i < out.len() implies spec_wire_safe_entry(
            #[trigger] out[i],
        ) by {
            if i > 0 {
                assert(out[i] == s[i - 1]);
            }
        }
    } else {
        assert forall|i: int| 0 <= i < s.skip(1).len() implies spec_wire_safe_entry(
            #[trigger] s.skip(1)[i],
        ) by {
            assert(s.skip(1)[i] == s[i + 1]);
        }
        lemma_insert_sorted_wire_safe(e, s.skip(1));
        let inner = spec_insert_sorted(e, s.skip(1));
        let out = seq![s[0]] + inner;
        assert forall|i: int| 0 <= i < out.len() implies spec_wire_safe_entry(
            #[trigger] out[i],
        ) by {
            if i > 0 {
                assert(out[i] == inner[i - 1]);
            }
        }
    }
}

/// Wire safety survives sorting.
proof fn lemma_sort_wire_safe(s: Seq<(Seq<char>, Seq<Seq<char>>)>)
    requires
        spec_wire_safe(s),
    ensures
        spec_wire_safe(spec_sort(s)),
    decreases s.len(),
{
    if s.len() > 0 {
        assert forall|i: int| 0 <= i < s.drop_last().len() implies spec_wire_safe_entry(
            #[trigger] s.drop_last()[i],
        ) by {
            assert(s.drop_last()[i] == s[i]);
        }
        lemma_sort_wire_safe(s.drop_last());
        assert(spec_wire_safe_entry(s.last()));
        lemma_insert_sorted_wire_safe(s.last(), spec_sort(s.drop_last()));
    }
}

/// The digits of a number make a wire-safe header value.
proof fn lemma_digits_wire_safe(n: nat)
    ensures
        spec_wire_safe_value(crate::ascii::spec_chars_of_bytes(spec_dec_digits(n))),
{
    lemma_dec_digits_are_digits(n);
    let digits = spec_dec_digits(n);
    let chars = crate::ascii::spec_chars_of_bytes(digits);
    assert forall|j: int| 0 <= j < chars.len() implies '\0' <= #[trigger] chars[j]
        <= '\u{7f}' by {
        assert(crate::num::spec_is_dec_digit(digits[j]));
        lemma_byte_char_below_128(digits[j]);
    }
    assert(spec_bytes_of_chars(chars) =~= digits) by {
        assert forall|j: int| 0 <= j < chars.len() implies #[trigger] spec_bytes_of_chars(
            chars,
        )[j] == digits[j] by {
            assert(crate::num::spec_is_dec_digit(digits[j]));
            lemma_byte_char_below_128(digits[j]);
        }
    }
    assert forall|j: int| 0 <= j < digits.len() implies spec_value_byte(#[trigger] digits[j]) by {
        assert(crate::num::spec_is_dec_digit(digits[j]));
    }
    assert(digits.len() >= 1);
    assert(crate::num::spec_is_dec_digit(digits[0]));
    assert(crate::num::spec_is_dec_digit(digits.last()));
}

/// The HTTP date makes a wire-safe header value.
#[verifier::rlimit(100)]
#[verifier::spinoff_prover]
proof fn lemma_date_value_wire_safe(secs: int)
    requires
        secs >= 0,
    ensures
        spec_wire_safe_value(crate::ascii::spec_chars_of_bytes(spec_http_date(secs))),
{
    let date = spec_http_date(secs);
    let days = secs / 86400;
    let rem = secs % 86400;
    let w = (days + 4) % 7;
    let ymd = spec_civil(days);
    assert(0 <= w < 7);
    assert(0 <= rem < 86400);
    assert(1 <= ymd.1 <= 12 && 1 <= ymd.2 <= 31 && 0 <= ymd.0 <= 9999);
    let p1 = spec_day_name(w) + seq![44u8, 32u8];
    let p2 = p1 + spec_dec2(ymd.2);
    let p3 = p2 + seq![32u8];
    let p4 = p3 + spec_month_name(ymd.1);
    let p5 = p4 + seq![32u8];
    let p6 = p5 + spec_dec4(ymd.0);
    let p7 = p6 + seq![32u8];
    let p8 = p7 + spec_dec2(rem / 3600);
    let p9 = p8 + seq![58u8];
    let p10 = p9 + spec_dec2((rem % 3600) / 60);
    let p11 = p10 + seq![58u8];
    let p12 = p11 + spec_dec2(rem % 60);
    assert(date =~= p12 + seq![32u8, 71u8, 77u8, 84u8]);
    assert forall|j: int| 0 <= j < date.len() implies 32 <= #[trigger] date[j] <= 126 by {
        assert(date[j] == (p12 + seq![32u8, 71u8, 77u8, 84u8])[j]);
    }
    let chars = crate::ascii::spec_chars_of_bytes(date);
    assert forall|j: int| 0 <= j < chars.len() implies '\0' <= #[trigger] chars[j]
        <= '\u{7f}' by {
        lemma_byte_char_below_128(date[j]);
    }
    assert(spec_bytes_of_chars(chars) =~= date) by {
        assert forall|j: int| 0 <= j < chars.len() implies #[trigger] spec_bytes_of_chars(
            chars,
        )[j] == date[j] by {
            lemma_byte_char_below_128(date[j]);
        }
    }
    assert(date[0] == spec_day_name(w)[0]);
    assert(!spec_ws(date[0]));
    assert(date.last() == 84);
}

/// The header names the encoder synthesizes are wire safe.
proof fn lemma_synth_names_wire_safe()
    ensures
        vstd::utf8::is_ascii_chars("content-length"@),
        spec_valid_header_name(spec_bytes_of_chars("content-length"@)),
        spec_lower_bytes(spec_bytes_of_chars("content-length"@)) == spec_bytes_of_chars(
            "content-length"@,
        ),
        vstd::utf8::is_ascii_chars("date"@),
        spec_valid_header_name(spec_bytes_of_chars("date"@)),
        spec_lower_bytes(spec_bytes_of_chars("date"@)) == spec_bytes_of_chars("date"@),
{
    reveal_strlit("content-length");
    reveal_strlit("date");
    assert(vstd::utf8::is_ascii_chars("content-length"@));
    assert(vstd::utf8::is_ascii_chars("date"@));
    assert(spec_valid_header_name(spec_bytes_of_chars("content-length"@))) by {
        assert forall|j: int| 0 <= j < "content-length"@.len() implies spec_name_byte(
            #[trigger] spec_bytes_of_chars("content-length"@)[j],
        ) by {}
    }
    assert(spec_valid_header_name(spec_bytes_of_chars("date"@))) by {
        assert forall|j: int| 0 <= j < "date"@.len() implies spec_name_byte(
            #[trigger] spec_bytes_of_chars("date"@)[j],
        ) by {}
    }
    assert(spec_lower_bytes(spec_bytes_of_chars("content-length"@)) =~= spec_bytes_of_chars(
        "content-length"@,
    ));
    assert(spec_lower_bytes(spec_bytes_of_chars("date"@)) =~= spec_bytes_of_chars("date"@));
}

/// ASCII characters survive the byte round trip.
proof fn lemma_chars_bytes_roundtrip(x: Seq<char>)
    requires
        vstd::utf8::is_ascii_chars(x),
    ensures
        crate::ascii::spec_chars_of_bytes(spec_bytes_of_chars(x)) == x,
{
    broadcast use vstd::utf8::is_ascii_chars_nat_bound;

    assert forall|j: int| 0 <= j < x.len() implies #[trigger] crate::ascii::spec_chars_of_bytes(
        spec_bytes_of_chars(x),
    )[j] == x[j] by {
        assert((x.index(j) as nat) < 128);
        crate::ascii::lemma_ascii_char_roundtrip(x[j]);
    }
    assert(crate::ascii::spec_chars_of_bytes(spec_bytes_of_chars(x)) =~= x);
}

/// A name whose bytes are folded is folded as characters too.
proof fn lemma_name_chars_folded(x: Seq<char>)
    requires
        vstd::utf8::is_ascii_chars(x),
        spec_lower_bytes(spec_bytes_of_chars(x)) == spec_bytes_of_chars(x),
    ensures
        crate::ascii::spec_lower_chars(x) == x,
{
    broadcast use vstd::utf8::is_ascii_chars_nat_bound;

    let xb = spec_bytes_of_chars(x);
    assert forall|j: int| 0 <= j < x.len() implies #[trigger] crate::ascii::spec_lower_chars(
        x,
    )[j] == x[j] by {
        assert((x.index(j) as nat) < 128);
        crate::ascii::lemma_ascii_char_roundtrip(x[j]);
        assert(spec_lower_bytes(xb)[j] == xb[j]);
        assert(crate::ascii::spec_lower_byte(xb[j]) == xb[j]);
        crate::ascii::lemma_lower_char_byte(xb[j]);
        lemma_byte_char_below_128(xb[j]);
    }
    assert(crate::ascii::spec_lower_chars(x) =~= x);
}

/// Spreading one more entry extends the flat pairs at the end.
proof fn lemma_flatten_entries_snoc(es: Seq<(Seq<char>, Seq<Seq<char>>)>)
    requires
        es.len() >= 1,
    ensures
        spec_flatten_entries(es) == spec_flatten_entries(es.drop_last()) + spec_flatten_values(
            spec_bytes_of_chars(es.last().0),
            es.last().1,
        ),
    decreases es.len(),
{
    if es.len() == 1 {
        assert(es.drop_last() =~= Seq::<(Seq<char>, Seq<Seq<char>>)>::empty());
        assert(es[0] == es.last());
        assert(spec_flatten_entries(es.skip(1)) =~= Seq::<(Seq<u8>, Seq<u8>)>::empty());
        assert(spec_flatten_entries(es) =~= spec_flatten_entries(es.drop_last())
            + spec_flatten_values(spec_bytes_of_chars(es.last().0), es.last().1));
    } else {
        lemma_flatten_entries_snoc(es.skip(1));
        assert(es.skip(1).drop_last() =~= es.drop_last().skip(1));
        assert(es.skip(1).last() == es.last());
        assert(es.drop_last()[0] == es[0]);
        let head = spec_flatten_values(spec_bytes_of_chars(es[0].0), es[0].1);
        let tail_new = spec_flatten_values(spec_bytes_of_chars(es.last().0), es.last().1);
        assert(spec_flatten_entries(es) == head + (spec_flatten_entries(es.drop_last().skip(1))
            + tail_new));
        assert(spec_flatten_entries(es.drop_last()) == head + spec_flatten_entries(
            es.drop_last().skip(1),
        ));
        assert(head + (spec_flatten_entries(es.drop_last().skip(1)) + tail_new) =~= (head
            + spec_flatten_entries(es.drop_last().skip(1))) + tail_new);
    }
}

/// Spreading one more value extends the flat pairs at the end.
proof fn lemma_flatten_values_snoc(name: Seq<u8>, values: Seq<Seq<char>>)
    requires
        values.len() >= 1,
    ensures
        spec_flatten_values(name, values) == spec_flatten_values(name, values.drop_last()) + seq![
            (name, spec_bytes_of_chars(values.last())),
        ],
    decreases values.len(),
{
    if values.len() == 1 {
        assert(values.drop_last() =~= Seq::<Seq<char>>::empty());
        assert(values[0] == values.last());
        assert(spec_flatten_values(name, values.skip(1)) =~= Seq::<(Seq<u8>, Seq<u8>)>::empty());
        assert(spec_flatten_values(name, values) =~= spec_flatten_values(name, values.drop_last())
            + seq![(name, spec_bytes_of_chars(values.last()))]);
    } else {
        lemma_flatten_values_snoc(name, values.skip(1));
        assert(values.skip(1).drop_last() =~= values.drop_last().skip(1));
        assert(values.skip(1).last() == values.last());
        assert(values.drop_last()[0] == values[0]);
        let head = seq![(name, spec_bytes_of_chars(values[0]))];
        let tail_new = seq![(name, spec_bytes_of_chars(values.last()))];
        assert(spec_flatten_values(name, values) == head + (spec_flatten_values(
            name,
            values.drop_last().skip(1),
        ) + tail_new));
        assert(spec_flatten_values(name, values.drop_last()) == head + spec_flatten_values(
            name,
            values.drop_last().skip(1),
        ));
        assert(head + (spec_flatten_values(name, values.drop_last().skip(1)) + tail_new) =~= (head
            + spec_flatten_values(name, values.drop_last().skip(1))) + tail_new);
    }
}

/// Collecting the flat pairs of one entry onto a collection that does not
/// yet carry its name appends exactly that entry.
proof fn lemma_collect_one_entry(
    flat: Seq<(Seq<u8>, Seq<u8>)>,
    name: Seq<char>,
    values: Seq<Seq<char>>,
)
    requires
        vstd::utf8::is_ascii_chars(name),
        spec_lower_bytes(spec_bytes_of_chars(name)) == spec_bytes_of_chars(name),
        forall|k: int| 0 <= k < values.len() ==> vstd::utf8::is_ascii_chars(#[trigger] values[k]),
        values.len() >= 1,
        spec_find(crate::decode::spec_collect(flat), name) == -1,
    ensures
        crate::decode::spec_collect(flat + spec_flatten_values(spec_bytes_of_chars(name), values))
            == crate::decode::spec_collect(flat).push((name, values)),
    decreases values.len(),
{
    let nb = spec_bytes_of_chars(name);
    let base = crate::decode::spec_collect(flat);
    lemma_chars_bytes_roundtrip(name);
    lemma_name_chars_folded(name);
    crate::headers::lemma_find_first(base, name);
    if values.len() == 1 {
        let v = values[0];
        lemma_chars_bytes_roundtrip(v);
        let whole = flat + spec_flatten_values(nb, values);
        assert(values.skip(1).len() == 0);
        assert(spec_flatten_values(nb, values.skip(1)) =~= Seq::<(Seq<u8>, Seq<u8>)>::empty());
        assert(spec_flatten_values(nb, values) =~~= seq![(nb, spec_bytes_of_chars(v))]);
        assert(whole.last() == (nb, spec_bytes_of_chars(v)));
        assert(whole.drop_last() =~= flat);
        assert(crate::decode::spec_collect(whole) == crate::headers::spec_append(
            base,
            crate::ascii::spec_lower_chars(crate::ascii::spec_chars_of_bytes(nb)),
            crate::ascii::spec_chars_of_bytes(spec_bytes_of_chars(v)),
        ));
        assert(crate::ascii::spec_lower_chars(crate::ascii::spec_chars_of_bytes(nb)) == name);
        assert(crate::headers::spec_append(base, name, v) == base.push((name, seq![v])));
        assert(values =~= seq![v]);
    } else {
        let w = values.drop_last();
        let v = values.last();
        lemma_chars_bytes_roundtrip(v);
        assert forall|k: int| 0 <= k < w.len() implies vstd::utf8::is_ascii_chars(
            #[trigger] w[k],
        ) by {
            assert(w[k] == values[k]);
        }
        lemma_collect_one_entry(flat, name, w);
        lemma_flatten_values_snoc(nb, values);
        let whole = flat + spec_flatten_values(nb, values);
        let mid = flat + spec_flatten_values(nb, w);
        assert(whole =~= mid + seq![(nb, spec_bytes_of_chars(v))]);
        assert(whole.last() == (nb, spec_bytes_of_chars(v)));
        assert(whole.drop_last() =~= mid);
        let grown = base.push((name, w));
        assert(crate::decode::spec_collect(mid) == grown);
        assert(crate::decode::spec_collect(whole) == crate::headers::spec_append(
            grown,
            name,
            v,
        ));
        crate::headers::lemma_find_first(grown, name);
        let f = spec_find(grown, name);
        assert(grown[base.len() as int].0 == name);
        assert(f >= 0);
        assert(f == base.len()) by {
            if f < base.len() {
                assert(grown[f] == base[f]);
                assert(base[f].0 != name);
            }
        }
        assert(crate::headers::spec_append(grown, name, v) == grown.update(
            base.len() as int,
            (name, w.push(v)),
        ));
        assert(grown.update(base.len() as int, (name, w.push(v))) =~= base.push(
            (name, w.push(v)),
        ));
        assert(w.push(v) =~= values);
    }
}

/// Grouping the parsed header lines with the collection's own append
/// operation restores the entry list exactly, when no name occurs twice.
pub proof fn lemma_parsed_lines_regroup(es: Seq<(Seq<char>, Seq<Seq<char>>)>)
    requires
        spec_wire_safe(es),
        forall|i: int| 0 <= i < es.len() ==> (#[trigger] es[i]).1.len() >= 1,
        forall|i: int, j: int| 0 <= i < j < es.len() ==> (#[trigger] es[i]).0 != (#[trigger] es[j]).0,
    ensures
        crate::decode::spec_collect(spec_flatten_entries(es)) == es,
    decreases es.len(),
{
    if es.len() == 0 {
        assert(spec_flatten_entries(es) =~= Seq::<(Seq<u8>, Seq<u8>)>::empty());
        assert(crate::decode::spec_collect(spec_flatten_entries(es)) =~= es);
    } else {
        let prefix = es.drop_last();
        let last = es.last();
        assert forall|i: int| 0 <= i < prefix.len() implies spec_wire_safe_entry(
            #[trigger] prefix[i],
        ) && prefix[i].1.len() >= 1 by {
            assert(prefix[i] == es[i]);
        }
        assert forall|i: int, j: int| 0 <= i < j < prefix.len() implies (#[trigger] prefix[i]).0
            != (#[trigger] prefix[j]).0 by {
            assert(prefix[i] == es[i] && prefix[j] == es[j]);
        }
        lemma_parsed_lines_regroup(prefix);
        lemma_flatten_entries_snoc(es);
        assert(spec_wire_safe_entry(last));
        assert forall|k: int| 0 <= k < last.1.len() implies vstd::utf8::is_ascii_chars(
            #[trigger] last.1[k],
        ) by {
            assert(spec_wire_safe_value(last.1[k]));
        }
        assert(spec_find(crate::decode::spec_collect(spec_flatten_entries(prefix)), last.0)
            == -1) by {
            crate::headers::lemma_find_first(prefix, last.0);
            let f = spec_find(prefix, last.0);
            if f >= 0 {
                assert(prefix[f] == es[f]);
                assert(es[f].0 != es[es.len() - 1].0);
            }
        }
        lemma_collect_one_entry(spec_flatten_entries(prefix), last.0, last.1);
        assert(prefix.push((last.0, last.1)) =~= es);
    }
}

/// The response round trip: parsing the stream the encoder emits for a
/// response with a known-length body recovers the status, exactly the
/// finalized and sorted header lines — the response's own headers plus the
/// synthesized `Content-Length` and `Date` — and the body bytes, unchanged.
pub proof fn lemma_response_round_trip(
    status: u16,
    headers: Seq<(Seq<char>, Seq<Seq<char>>)>,
    body: Seq<u8>,
    date_secs: int,
)
    requires
        spec_valid_status(status),
        spec_wire_safe(headers),
        date_secs >= 0,
    ensures
        spec_parse_response(
            spec_encode_head(status, headers, true, body.len() as int, date_secs) + body,
        ) == Some(
            (
                status,
                spec_flatten_entries(
                    spec_sort(spec_finalized(headers, true, body.len() as int, date_secs)),
                ),
                body,
            ),
        ),
{
    let finalized = spec_finalized(headers, true, body.len() as int, date_secs);
    let sorted = spec_sort(finalized);
    let head = spec_encode_head(status, headers, true, body.len() as int, date_secs);
    let s = head + body;

    lemma_synth_names_wire_safe();
    lemma_digits_wire_safe(body.len());
    lemma_date_value_wire_safe(date_secs);
    let clname = "content-length"@;
    let clval = crate::ascii::spec_chars_of_bytes(spec_dec_digits(body.len()));
    assert(spec_wire_safe_entry((clname, seq![clval]))) by {
        assert forall|k: int| 0 <= k < seq![clval].len() implies spec_wire_safe_value(
            #[trigger] seq![clval][k],
        ) by {
            assert(seq![clval][k] == clval);
        }
    }
    lemma_insert_wire_safe(headers, clname, clval);
    let h1 = spec_insert(headers, clname, clval);
    let dval = crate::ascii::spec_chars_of_bytes(spec_http_date(date_secs));
    assert(spec_wire_safe_entry(("date"@, seq![dval]))) by {
        assert forall|k: int| 0 <= k < seq![dval].len() implies spec_wire_safe_value(
            #[trigger] seq![dval][k],
        ) by {
            assert(seq![dval][k] == dval);
        }
    }
    if spec_find(h1, "date"@) >= 0 {
        assert(finalized == h1);
    } else {
        lemma_insert_wire_safe(h1, "date"@, dval);
        assert(finalized == spec_insert(h1, "date"@, dval));
    }
    assert(spec_wire_safe(finalized));
    lemma_sort_wire_safe(finalized);

    lemma_status_line_round_trip(status);
    let sl = spec_status_line(status);
    let content = sl.take(sl.len() - 2);
    let tail = spec_render_entries(sorted) + seq![13u8, 10u8] + body;
    assert(s =~= content + seq![13u8, 10u8] + tail);
    lemma_take_line_frame(content, tail);
    assert(spec_take_line(s) == Some((content, tail)));
    lemma_parse_rem_entries(sorted, body);
}

} // verus!
