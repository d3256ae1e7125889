//! CRLF-terminated line framing, shared by the head parser and the chunked
//! transfer codec.

use vstd::prelude::*;

verus! {

/// The index of the first carriage return in `s`, or `-1`.
pub open spec fn spec_find_cr(s: Seq<u8>) -> int
    decreases s.len(),
{
    if s.len() == 0 {
        -1
    } else if s[0] == 13 {
        0
    } else {
        let r = spec_find_cr(s.skip(1));
        if r < 0 {
            -1
        } else {
            r + 1
        }
    }
}

/// `spec_find_cr` finds the first carriage return, and `-1` means there is
/// none.
pub proof fn lemma_find_cr(s: Seq<u8>)
    ensures
        -1 <= spec_find_cr(s) < s.len(),
        spec_find_cr(s) >= 0 ==> s[spec_find_cr(s)] == 13,
        forall|j: int|
            0 <= j < s.len() && (j < spec_find_cr(s) || spec_find_cr(s) == -1) ==> s[j] != 13,
    decreases s.len(),
{
    if s.len() > 0 && s[0] != 13 {
        lemma_find_cr(s.skip(1));
        assert forall|j: int|
            0 <= j < s.len() && (j < spec_find_cr(s) || spec_find_cr(s) == -1) implies s[j]
            != 13 by {
            if j > 0 {
                assert(s.skip(1)[j - 1] == s[j]);
            }
        }
    }
}

/// In `a + [13, 10] + b`, when `a` holds no carriage return, the first one
/// stands exactly at the end of `a`.
pub proof fn lemma_find_cr_frame(a: Seq<u8>, b: Seq<u8>)
    requires
        forall|j: int| 0 <= j < a.len() ==> a[j] != 13,
    ensures
        spec_find_cr(a + seq![13u8, 10u8] + b) == a.len(),
{
    let s = a + seq![13u8, 10u8] + b;
    lemma_find_cr(s);
    let f = spec_find_cr(s);
    assert(s[a.len() as int] == 13);
    if f == -1 {
        assert(s[a.len() as int] != 13);
    } else if f < a.len() {
        assert(s[f] == a[f]);
        assert(a[f] != 13);
    } else if f > a.len() {
        assert(s[a.len() as int] != 13);
    }
}

/// The index of the first occurrence of `b` in `s`, or `-1`.
pub open spec fn spec_find_byte(s: Seq<u8>, b: u8) -> int
    decreases s.len(),
{
    if s.len() == 0 {
        -1
    } else if s[0] == b {
        0
    } else {
        let r = spec_find_byte(s.skip(1), b);
        if r < 0 {
            -1
        } else {
            r + 1
        }
    }
}

/// `spec_find_byte` finds the first occurrence, and `-1` means there is
/// none.
pub proof fn lemma_find_byte(s: Seq<u8>, b: u8)
    ensures
        -1 <= spec_find_byte(s, b) < s.len(),
        spec_find_byte(s, b) >= 0 ==> s[spec_find_byte(s, b)] == b,
        forall|j: int|
            0 <= j < s.len() && (j < spec_find_byte(s, b) || spec_find_byte(s, b) == -1) ==> s[j]
                != b,
    decreases s.len(),
{
    if s.len() > 0 && s[0] != b {
        lemma_find_byte(s.skip(1), b);
        assert forall|j: int|
            0 <= j < s.len() && (j < spec_find_byte(s, b) || spec_find_byte(s, b) == -1) implies
            s[j] != b by {
            if j > 0 {
                assert(s.skip(1)[j - 1] == s[j]);
            }
        }
    }
}

/// Find the first occurrence of `b` in `s`.
pub fn find_byte(s: &[u8], b: u8) -> (r: Option<usize>)
    ensures
        (match r {
            Some(i) => i < s@.len() && i == spec_find_byte(s@, b),
            None => spec_find_byte(s@, b) == -1,
        }),
{
    proof {
        lemma_find_byte(s@, b);
    }
    let mut i: usize = 0;
    while i < s.len()
        invariant
            0 <= i <= s@.len(),
            forall|j: int| 0 <= j < i ==> s@[j] != b,
            -1 <= spec_find_byte(s@, b) < s@.len(),
            spec_find_byte(s@, b) >= 0 ==> s@[spec_find_byte(s@, b)] == b,
            forall|j: int|
                0 <= j < s@.len() && (j < spec_find_byte(s@, b) || spec_find_byte(s@, b) == -1)
                    ==> s@[j] != b,
        decreases s@.len() - i,
    {
        if s[i] == b {
            proof {
                let f = spec_find_byte(s@, b);
                if f == -1 || f > i {
                    assert(s@[i as int] != b);
                } else if f < i {
                    assert(s@[f] != b);
                }
            }
            return Some(i);
        }
        i = i + 1;
    }
    proof {
        let f = spec_find_byte(s@, b);
        if f >= 0 {
            assert(s@[f] != b);
        }
    }
    None
}

/// In `a + [x] + b`, when `a` holds no `x`, the first occurrence of `x`
/// stands exactly at the end of `a`.
pub proof fn lemma_find_byte_frame(a: Seq<u8>, b: Seq<u8>, x: u8)
    requires
        forall|j: int| 0 <= j < a.len() ==> a[j] != x,
    ensures
        spec_find_byte(a + seq![x] + b, x) == a.len(),
{
    let s = a + seq![x] + b;
    lemma_find_byte(s, x);
    let f = spec_find_byte(s, x);
    assert(s[a.len() as int] == x);
    if f == -1 {
        assert(s[a.len() as int] != x);
    } else if f < a.len() {
        assert(s[f] == a[f]);
        assert(a[f] != x);
    } else if f > a.len() {
        assert(s[a.len() as int] != x);
    }
}

/// Whether `s` begins with `p`.
pub open spec fn spec_starts_with(s: Seq<u8>, p: Seq<u8>) -> bool {
    s.len() >= p.len() && s.take(p.len() as int) == p
}

/// Whether two byte buffers hold the same bytes.
pub fn bytes_eq(a: &[u8], b: &[u8]) -> (r: bool)
    ensures
        r == (a@ == b@),
{
    if a.len() != b.len() {
        proof {
            assert(a@ != b@);
        }
        return false;
    }
    let mut i: usize = 0;
    while i < a.len()
        invariant
            0 <= i <= a@.len(),
            a@.len() == b@.len(),
            forall|j: int| 0 <= j < i ==> a@[j] == b@[j],
        decreases a@.len() - i,
    {
        if a[i] != b[i] {
            return false;
        }
        i = i + 1;
    }
    proof {
        assert(a@ =~= b@);
    }
    true
}

/// One CRLF-terminated line: its content and what follows it.
pub open spec fn spec_take_line(s: Seq<u8>) -> Option<(Seq<u8>, Seq<u8>)> {
    let i = spec_find_cr(s);
    if 0 <= i && i + 2 <= s.len() && s[i + 1] == 10 {
        Some((s.take(i), s.skip(i + 2)))
    } else {
        None
    }
}

/// Taking a line off `a + [13, 10] + b` yields `a` and `b`, when `a` holds
/// no carriage return.
pub proof fn lemma_take_line_frame(a: Seq<u8>, b: Seq<u8>)
    requires
        forall|j: int| 0 <= j < a.len() ==> a[j] != 13,
    ensures
        spec_take_line(a + seq![13u8, 10u8] + b) == Some((a, b)),
{
    let s = a + seq![13u8, 10u8] + b;
    lemma_find_cr_frame(a, b);
    assert(s[a.len() as int + 1] == 10);
    assert(s.take(a.len() as int) =~= a);
    assert(s.skip(a.len() as int + 2) =~= b);
}

/// Find the first carriage return at or after `from`.
pub fn find_cr_from(s: &[u8], from: usize) -> (r: Option<usize>)
    requires
        from <= s@.len(),
    ensures
        (match r {
            Some(i) => from <= i < s@.len() && i - from == spec_find_cr(s@.skip(from as int)),
            None => spec_find_cr(s@.skip(from as int)) == -1,
        }),
{
    let ghost t = s@.skip(from as int);
    proof {
        lemma_find_cr(t);
    }
    let mut i: usize = from;
    while i < s.len()
        invariant
            from <= i <= s@.len(),
            t == s@.skip(from as int),
            forall|j: int| 0 <= j < i - from ==> t[j] != 13,
            -1 <= spec_find_cr(t) < t.len(),
            spec_find_cr(t) >= 0 ==> t[spec_find_cr(t)] == 13,
            forall|j: int|
                0 <= j < t.len() && (j < spec_find_cr(t) || spec_find_cr(t) == -1) ==> t[j] != 13,
        decreases s@.len() - i,
    {
        if s[i] == 13 {
            proof {
                assert(t[i - from] == 13);
                let f = spec_find_cr(t);
                if f == -1 {
                    assert(t[i - from] != 13);
                } else if f < i - from {
                    assert(t[f] != 13);
                } else if f > i - from {
                    assert(t[i - from] != 13);
                }
            }
            return Some(i);
        }
        proof {
            assert(t[i - from] == s@[i as int]);
        }
        i = i + 1;
    }
    proof {
        let f = spec_find_cr(t);
        if f >= 0 {
            assert(t[f] != 13);
        }
    }
    None
}

/// Take one CRLF-terminated line starting at `from`: the index just past
/// the line content, and the index just past the CRLF.
pub fn take_line_from(s: &[u8], from: usize) -> (r: Option<(usize, usize)>)
    requires
        from <= s@.len(),
    ensures
        (match r {
            Some((end, rest)) => {
                &&& from <= end
                &&& end + 2 == rest
                &&& rest <= s@.len()
                &&& spec_take_line(s@.skip(from as int)) == Some(
                    (
                        s@.subrange(from as int, end as int),
                        s@.skip(rest as int),
                    ),
                )
            },
            None => spec_take_line(s@.skip(from as int)) is None,
        }),
{
    let ghost t = s@.skip(from as int);
    match find_cr_from(s, from) {
        Some(i) => {
            let n = s.len();
            if i + 1 < n && s[i + 1] == 10 {
                proof {
                    assert(t[i - from + 1] == s@[i + 1]);
                    assert(t.take(i - from) =~= s@.subrange(from as int, i as int));
                    assert(t.skip(i - from + 2) =~= s@.skip(i + 2));
                }
                Some((i, i + 2))
            } else {
                proof {
                    let f = spec_find_cr(t);
                    assert(f == i - from);
                    if f + 2 <= t.len() {
                        assert(t[f + 1] == s@[i + 1]);
                    }
                }
                None
            }
        },
        None => None,
    }
}

} // verus!
