//! ASCII helpers shared by the codec and the header collection: lowercase
//! folding and the bridge between byte buffers and `String`s.

use vstd::prelude::*;

verus! {

use vstd::string::StringSliceAdditionalSpecFns;

/// All character codes below 128.
pub open spec fn spec_ascii_bytes(s: Seq<u8>) -> bool {
    forall|i: int| 0 <= i < s.len() ==> #[trigger] s[i] < 128
}

/// The characters with the same code points as the given bytes.
pub open spec fn spec_chars_of_bytes(s: Seq<u8>) -> Seq<char> {
    s.map_values(|b: u8| b as char)
}

/// The byte codes of the given characters (meaningful for ASCII text).
pub open spec fn spec_bytes_of_chars(s: Seq<char>) -> Seq<u8> {
    s.map_values(|c: char| c as u8)
}

/// Lowercase folding of one character.
pub open spec fn spec_lower_char(c: char) -> char {
    if 65 <= (c as u32) && (c as u32) <= 90 {
        ((c as u32 + 32) as u8) as char
    } else {
        c
    }
}

/// Lowercase folding of a whole character sequence.
pub open spec fn spec_lower_chars(s: Seq<char>) -> Seq<char> {
    s.map_values(|c: char| spec_lower_char(c))
}

/// Lowercase folding of one ASCII character code.
pub open spec fn spec_lower_byte(b: u8) -> u8 {
    if 65 <= b && b <= 90 {
        (b + 32) as u8
    } else {
        b
    }
}

/// Lowercase folding of a whole byte sequence.
pub open spec fn spec_lower_bytes(s: Seq<u8>) -> Seq<u8> {
    s.map_values(|b: u8| spec_lower_byte(b))
}

/// Lowercase-fold one byte.
pub fn lower_byte(b: u8) -> (r: u8)
    ensures
        r == spec_lower_byte(b),
{
    if 65 <= b && b <= 90 {
        b + 32
    } else {
        b
    }
}

/// Lowercase-fold every byte of a buffer.
pub fn lower_bytes(s: &[u8]) -> (r: Vec<u8>)
    ensures
        r@ == spec_lower_bytes(s@),
{
    let mut out: Vec<u8> = Vec::new();
    let mut i: usize = 0;
    while i < s.len()
        invariant
            i <= s@.len(),
            out@ == spec_lower_bytes(s@.take(i as int)),
        decreases s@.len() - i,
    {
        out.push(lower_byte(s[i]));
        i = i + 1;
        proof {
            assert(s@.take(i as int).map_values(|b: u8| spec_lower_byte(b)) =~= s@.take(
                i - 1,
            ).map_values(|b: u8| spec_lower_byte(b)).push(spec_lower_byte(s@[i - 1])));
        }
    }
    proof {
        assert(s@.take(s@.len() as int) =~= s@);
    }
    out
}

/// Turn a buffer of ASCII byte codes into the `String` with the same code
/// points.
///
/// Relies on `String::from_utf8`: bytes below 128 are valid UTF-8 and decode
/// to the characters with the same code points.
#[verifier::external_body]
pub fn ascii_to_string(v: Vec<u8>) -> (r: String)
    requires
        spec_ascii_bytes(v@),
    ensures
        r@ == spec_chars_of_bytes(v@),
        r@.len() == v@.len(),
{
    String::from_utf8(v).unwrap()
}

/// A byte below 128 casts to a character that orders below `'\u{7f}'`.
pub proof fn lemma_byte_char_below_128(b: u8)
    requires
        b < 128,
    ensures
        '\0' <= (b as char) <= '\u{7f}',
        ((b as char) as u8) == b,
        ((b as char) as u32) == b,
{
}

/// For ASCII characters, the byte-code round trip is the identity.
pub proof fn lemma_ascii_char_roundtrip(c: char)
    requires
        (c as u32) < 128,
    ensures
        c == ((c as u8) as char),
        (c as u8) < 128,
{
}

/// Folding a byte and folding its character agree.
pub proof fn lemma_lower_char_byte(b: u8)
    requires
        b < 128,
    ensures
        spec_lower_char(b as char) == ((spec_lower_byte(b)) as char),
{
    lemma_byte_char_below_128(b);
    if 65 <= b && b <= 90 {
        lemma_byte_char_below_128((b + 32) as u8);
    }
}

/// Folding the characters of already-folded ASCII bytes changes nothing.
pub proof fn lemma_lower_chars_of_folded(bytes: Seq<u8>)
    requires
        spec_ascii_bytes(bytes),
        spec_lower_bytes(bytes) == bytes,
    ensures
        spec_lower_chars(spec_chars_of_bytes(bytes)) =~= spec_chars_of_bytes(bytes),
{
    assert forall|i: int| 0 <= i < bytes.len() implies #[trigger] spec_lower_chars(
        spec_chars_of_bytes(bytes),
    )[i] == spec_chars_of_bytes(bytes)[i] by {
        assert(spec_lower_bytes(bytes)[i] == bytes[i]);
        assert(spec_lower_byte(bytes[i]) == bytes[i]);
        lemma_lower_char_byte(bytes[i]);
    }
}

/// The bytes of an ASCII string slice are exactly its characters' code
/// points.
pub proof fn lemma_ascii_str_bytes(s: &str)
    requires
        s.is_ascii(),
    ensures
        s.spec_bytes() =~= spec_bytes_of_chars(s@),
        spec_ascii_bytes(spec_bytes_of_chars(s@)),
        spec_chars_of_bytes(spec_bytes_of_chars(s@)) =~= s@,
{
    broadcast use vstd::string::is_ascii_spec_bytes;

    broadcast use vstd::utf8::is_ascii_chars_nat_bound;

    assert(s.spec_bytes() =~= Seq::new(s@.len(), |i: int| s@.index(i) as u8));
    assert forall|i: int| 0 <= i < s@.len() implies #[trigger] spec_bytes_of_chars(s@)[i]
        < 128 by {
        assert((s@.index(i) as nat) < 128);
    }
    assert forall|i: int| 0 <= i < s@.len() implies #[trigger] spec_chars_of_bytes(
        spec_bytes_of_chars(s@),
    )[i] == s@[i] by {
        assert((s@.index(i) as nat) < 128);
        lemma_ascii_char_roundtrip(s@[i]);
    }
}

/// Lowercase-fold an ASCII string.
pub fn lower_string(s: &str) -> (r: String)
    requires
        s.is_ascii(),
    ensures
        r@ == spec_lower_chars(s@),
        r.is_ascii(),
{
    let bytes = s.as_bytes_vec();
    proof {
        lemma_ascii_str_bytes(s);
    }
    let lowered = lower_bytes(bytes.as_slice());
    proof {
        assert forall|i: int| 0 <= i < lowered@.len() implies #[trigger] lowered@[i] < 128 by {
            assert(lowered@[i] == spec_lower_byte(bytes@[i]));
            assert(bytes@[i] < 128);
        }
    }
    let r = ascii_to_string(lowered);
    proof {
        broadcast use vstd::utf8::is_ascii_chars_nat_bound;

        assert forall|i: int| 0 <= i < r@.len() implies #[trigger] r@[i] == spec_lower_chars(
            s@,
        )[i] by {
            assert(r@[i] == spec_lower_byte(s@[i] as u8) as char);
            assert((s@.index(i) as nat) < 128);
            lemma_ascii_char_roundtrip(s@[i]);
        }
        assert(r@ =~= spec_lower_chars(s@));
        assert forall|i: int| 0 <= i < r@.len() implies '\0' <= #[trigger] r@[i]
            <= '\u{7f}' by {
            assert(r@[i] == spec_chars_of_bytes(lowered@)[i]);
            assert(lowered@[i] < 128);
            lemma_byte_char_below_128(lowered@[i]);
        }
    }
    r
}

/// The ASCII string with the same code points as the given bytes, refused
/// when any byte is 128 or above.
pub fn bytes_to_string_checked(v: &[u8]) -> (r: Option<String>)
    ensures
        r matches Some(t) ==> spec_ascii_bytes(v@) && t@ == spec_chars_of_bytes(v@)
            && t.is_ascii(),
        spec_ascii_bytes(v@) ==> r is Some,
{
    let mut i: usize = 0;
    while i < v.len()
        invariant
            0 <= i <= v@.len(),
            forall|j: int| 0 <= j < i ==> #[trigger] v@[j] < 128,
        decreases v@.len() - i,
    {
        if v[i] >= 128 {
            return None;
        }
        i = i + 1;
    }
    let mut copy: Vec<u8> = Vec::new();
    let mut k: usize = 0;
    while k < v.len()
        invariant
            0 <= k <= v@.len(),
            copy@ == v@.take(k as int),
            spec_ascii_bytes(v@),
        decreases v@.len() - k,
    {
        copy.push(v[k]);
        proof {
            assert(v@.take(k + 1) =~= v@.take(k as int).push(v@[k as int]));
        }
        k = k + 1;
    }
    proof {
        assert(copy@ =~= v@);
    }
    let s = ascii_to_string(copy);
    proof {
        assert forall|i2: int| 0 <= i2 < s@.len() implies '\0' <= #[trigger] s@[i2]
            <= '\u{7f}' by {
            assert(s@[i2] == spec_chars_of_bytes(v@)[i2]);
            assert(v@[i2] < 128);
            lemma_byte_char_below_128(v@[i2]);
        }
    }
    Some(s)
}

/// The byte codes of an ASCII string, as a fresh buffer.
pub fn string_to_bytes(s: &str) -> (r: Vec<u8>)
    requires
        s.is_ascii(),
    ensures
        r@ == spec_bytes_of_chars(s@),
        spec_ascii_bytes(r@),
{
    let r = s.as_bytes_vec();
    proof {
        lemma_ascii_str_bytes(s);
    }
    r
}

} // verus!
