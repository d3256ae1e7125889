//! An ordered, multi-valued header collection with case-insensitive names.
//!
//! Names are stored lowercase-folded; entries keep their insertion order, and
//! the values of one name keep the order in which they were appended.

use vstd::prelude::*;

use crate::ascii;
use crate::ascii::{lower_string, spec_lower_chars};

verus! {

/// One header name together with all of its values, in order.
#[derive(Debug, Clone)]
pub struct HeaderEntry {
    pub name: String,
    pub values: Vec<String>,
}

impl View for HeaderEntry {
    type V = (Seq<char>, Seq<Seq<char>>);

    open spec fn view(&self) -> (Seq<char>, Seq<Seq<char>>) {
        (self.name@, self.values.deep_view())
    }
}

/// The ordered header collection.
#[derive(Debug, Clone)]
pub struct Headers {
    pub entries: Vec<HeaderEntry>,
}

impl View for Headers {
    type V = Seq<(Seq<char>, Seq<Seq<char>>)>;

    open spec fn view(&self) -> Seq<(Seq<char>, Seq<Seq<char>>)> {
        Seq::new(self.entries@.len(), |i: int| self.entries@[i]@)
    }
}

/// The index of the first entry named `name`, or `-1`.
pub open spec fn spec_find(s: Seq<(Seq<char>, Seq<Seq<char>>)>, name: Seq<char>) -> int
    decreases s.len(),
{
    if s.len() == 0 {
        -1
    } else if s[0].0 == name {
        0
    } else {
        let r = spec_find(s.skip(1), name);
        if r < 0 {
            -1
        } else {
            r + 1
        }
    }
}

/// `spec_find` returns the index of the first entry with the given name, and
/// `-1` exactly when no entry has it.
pub proof fn lemma_find_first(s: Seq<(Seq<char>, Seq<Seq<char>>)>, name: Seq<char>)
    ensures
        -1 <= spec_find(s, name) < s.len(),
        spec_find(s, name) >= 0 ==> s[spec_find(s, name)].0 == name,
        forall|j: int|
            0 <= j < s.len() && (j < spec_find(s, name) || spec_find(s, name) == -1)
                ==> (#[trigger] s[j]).0 != name,
    decreases s.len(),
{
    if s.len() > 0 && s[0].0 != name {
        lemma_find_first(s.skip(1), name);
        assert forall|j: int|
            0 <= j < s.len() && (j < spec_find(s, name) || spec_find(s, name) == -1) implies (
        #[trigger] s[j]).0 != name by {
            if j > 0 {
                assert(s.skip(1)[j - 1] == s[j]);
            }
        }
    }
}

/// What the collection looks like after `insert`: the first entry with the
/// name replaced by the single new value, or a new entry at the end.
pub open spec fn spec_insert(
    s: Seq<(Seq<char>, Seq<Seq<char>>)>,
    name: Seq<char>,
    value: Seq<char>,
) -> Seq<(Seq<char>, Seq<Seq<char>>)> {
    let f = spec_find(s, name);
    if f >= 0 {
        s.update(f, (name, seq![value]))
    } else {
        s.push((name, seq![value]))
    }
}

/// What the collection looks like after `append`: the value is added to the
/// first entry with the name, or a new entry is created at the end.
pub open spec fn spec_append(
    s: Seq<(Seq<char>, Seq<Seq<char>>)>,
    name: Seq<char>,
    value: Seq<char>,
) -> Seq<(Seq<char>, Seq<Seq<char>>)> {
    let f = spec_find(s, name);
    if f >= 0 {
        s.update(f, (name, s[f].1.push(value)))
    } else {
        s.push((name, seq![value]))
    }
}

/// One well-formed header entry: a nonempty, ASCII, lowercase-folded name
/// with ASCII values.
pub open spec fn wf_entry(e: (Seq<char>, Seq<Seq<char>>)) -> bool {
    &&& e.0.len() >= 1
    &&& vstd::utf8::is_ascii_chars(e.0)
    &&& spec_lower_chars(e.0) == e.0
    &&& forall|k: int| 0 <= k < e.1.len() ==> vstd::utf8::is_ascii_chars(#[trigger] e.1[k])
}

impl Headers {
    /// Every entry is well formed and no name occurs twice.
    pub open spec fn wf(self) -> bool {
        &&& forall|i: int| 0 <= i < self@.len() ==> wf_entry(#[trigger] self@[i])
        &&& forall|i: int, j: int|
            0 <= i < j < self@.len() ==> (#[trigger] self@[i]).0 != (#[trigger] self@[j]).0
    }

    /// An empty collection.
    pub fn new() -> (r: Headers)
        ensures
            r@ =~= Seq::<(Seq<char>, Seq<Seq<char>>)>::empty(),
            r.wf(),
    {
        Headers { entries: Vec::new() }
    }

    /// The index of the first entry whose name equals the lowercase folding
    /// of `name`, if any.
    fn find(&self, name: &str) -> (r: Option<usize>)
        requires
            name.is_ascii(),
        ensures
            (match r {
                Some(i) => i < self@.len() && i == spec_find(self@, spec_lower_chars(name@)),
                None => spec_find(self@, spec_lower_chars(name@)) == -1,
            }),
    {
        let key = lower_string(name);
        let ghost k = spec_lower_chars(name@);
        let mut i: usize = 0;
        while i < self.entries.len()
            invariant
                0 <= i <= self.entries@.len(),
                self@.len() == self.entries@.len(),
                key@ == k,
                k == spec_lower_chars(name@),
                forall|j: int| 0 <= j < i ==> (#[trigger] self@[j]).0 != k,
            decreases self.entries@.len() - i,
        {
            if self.entries[i].name == key {
                proof {
                    lemma_find_first(self@, k);
                    assert(self@[i as int].0 == k);
                    let f = spec_find(self@, k);
                    if f == -1 {
                        assert(self@[i as int].0 != k);
                    } else if f < i {
                        assert(self@[f].0 != k);
                    } else if f > i {
                        assert(self@[i as int].0 != k);
                    }
                    assert(f == i);
                    assert(i < self@.len());
                    assert(i == spec_find(self@, spec_lower_chars(name@)));
                }
                return Some(i);
            }
            proof {
                assert(self@[i as int].0 != k);
            }
            i = i + 1;
        }
        proof {
            lemma_find_first(self@, k);
            let f = spec_find(self@, k);
            if f >= 0 {
                assert(self@[f].0 != k);
            }
        }
        None
    }

    /// The values stored under `name`, if any entry carries it.
    pub fn header(&self, name: &str) -> (r: Option<&Vec<String>>)
        requires
            name.is_ascii(),
        ensures
            (match r {
                Some(vs) => {
                    let f = spec_find(self@, spec_lower_chars(name@));
                    f >= 0 && vs.deep_view() == self@[f].1
                },
                None => spec_find(self@, spec_lower_chars(name@)) == -1,
            }),
    {
        match self.find(name) {
            Some(i) => Some(&self.entries[i].values),
            None => None,
        }
    }

    /// True when some entry carries `name`.
    pub fn contains(&self, name: &str) -> (r: bool)
        requires
            name.is_ascii(),
        ensures
            r == (spec_find(self@, spec_lower_chars(name@)) >= 0),
    {
        self.find(name).is_some()
    }

    /// Replace all values of `name` with the single `value`, or add a new
    /// entry at the end.
    pub fn insert(&mut self, name: &str, value: &str)
        requires
            name.is_ascii(),
            name@.len() >= 1,
            value.is_ascii(),
            old(self).wf(),
        ensures
            final(self)@ == spec_insert(old(self)@, spec_lower_chars(name@), value@),
            final(self).wf(),
    {
        let key = lower_string(name);
        let ghost k = spec_lower_chars(name@);
        proof {
            lemma_lower_chars_ascii(name@);
            lemma_lower_chars_idempotent(name@);
        }
        let mut values: Vec<String> = Vec::new();
        values.push(String::from_str(value));
        assert(values.deep_view() =~= seq![value@]);
        match self.find(name) {
            Some(i) => {
                self.entries[i] = HeaderEntry { name: key, values };
                proof {
                    lemma_find_first(old(self)@, k);
                    assert(old(self)@[i as int].0 == k);
                    assert(final(self)@ =~= old(self)@.update(i as int, (k, seq![value@])));
                    assert(final(self)@ == spec_insert(old(self)@, k, value@));
                    assert(wf_entry((k, seq![value@])));
                    assert forall|a: int| 0 <= a < final(self)@.len() implies wf_entry(
                        #[trigger] final(self)@[a],
                    ) by {
                        if a != i {
                            assert(final(self)@[a] == old(self)@[a]);
                        }
                    }
                }
            },
            None => {
                self.entries.push(HeaderEntry { name: key, values });
                proof {
                    lemma_find_first(old(self)@, k);
                    assert(final(self)@ =~= old(self)@.push((k, seq![value@])));
                    assert(final(self)@ == spec_insert(old(self)@, k, value@));
                    assert(wf_entry((k, seq![value@])));
                    assert forall|a: int| 0 <= a < final(self)@.len() implies wf_entry(
                        #[trigger] final(self)@[a],
                    ) by {
                        if a < old(self)@.len() {
                            assert(final(self)@[a] == old(self)@[a]);
                        }
                    }
                    assert forall|a: int, b: int| 0 <= a < b < final(self)@.len() implies (
                    #[trigger] final(self)@[a]).0 != (#[trigger] final(self)@[b]).0 by {
                        if b == old(self)@.len() {
                            assert(old(self)@[a].0 != k);
                        }
                    }
                }
            },
        }
    }

    /// Add `value` under `name`, keeping any values already there.
    pub fn append(&mut self, name: &str, value: &str)
        requires
            name.is_ascii(),
            name@.len() >= 1,
            value.is_ascii(),
            old(self).wf(),
        ensures
            final(self)@ == spec_append(old(self)@, spec_lower_chars(name@), value@),
            final(self).wf(),
    {
        let key = lower_string(name);
        let ghost k = spec_lower_chars(name@);
        proof {
            lemma_lower_chars_ascii(name@);
            lemma_lower_chars_idempotent(name@);
        }
        match self.find(name) {
            Some(i) => {
                self.entries[i].values.push(String::from_str(value));
                proof {
                    lemma_find_first(old(self)@, k);
                    assert(old(self)@[i as int].0 == k);
                    assert(final(self).entries@[i as int].values.deep_view() =~= old(
                        self,
                    )@[i as int].1.push(value@));
                    assert(final(self)@ =~= old(self)@.update(
                        i as int,
                        (old(self)@[i as int].0, old(self)@[i as int].1.push(value@)),
                    ));
                    assert(final(self)@ == spec_append(old(self)@, k, value@));
                    assert(wf_entry((k, old(self)@[i as int].1.push(value@))));
                    assert forall|a: int| 0 <= a < final(self)@.len() implies wf_entry(
                        #[trigger] final(self)@[a],
                    ) by {
                        if a != i {
                            assert(final(self)@[a] == old(self)@[a]);
                        }
                    }
                }
            },
            None => {
                let mut values: Vec<String> = Vec::new();
                values.push(String::from_str(value));
                assert(values.deep_view() =~= seq![value@]);
                self.entries.push(HeaderEntry { name: key, values });
                proof {
                    lemma_find_first(old(self)@, k);
                    assert(final(self)@ =~= old(self)@.push((k, seq![value@])));
                    assert(final(self)@ == spec_append(old(self)@, k, value@));
                    assert(wf_entry((k, seq![value@])));
                    assert forall|a: int| 0 <= a < final(self)@.len() implies wf_entry(
                        #[trigger] final(self)@[a],
                    ) by {
                        if a < old(self)@.len() {
                            assert(final(self)@[a] == old(self)@[a]);
                        }
                    }
                    assert forall|a: int, b: int| 0 <= a < b < final(self)@.len() implies (
                    #[trigger] final(self)@[a]).0 != (#[trigger] final(self)@[b]).0 by {
                        if b == old(self)@.len() {
                            assert(old(self)@[a].0 != k);
                        }
                    }
                }
            },
        }
    }

    /// Remove the entry named `name` and hand its values back.
    pub fn remove(&mut self, name: &str) -> (r: Option<Vec<String>>)
        requires
            name.is_ascii(),
            old(self).wf(),
        ensures
            ({
                let f = spec_find(old(self)@, spec_lower_chars(name@));
                match r {
                    Some(vs) => f >= 0 && vs.deep_view() == old(self)@[f].1 && final(self)@ == old(
                        self,
                    )@.remove(f),
                    None => f == -1 && final(self)@ == old(self)@,
                }
            }),
            final(self).wf(),
    {
        let ghost k = spec_lower_chars(name@);
        match self.find(name) {
            Some(i) => {
                let entry = self.entries.remove(i);
                proof {
                    assert(final(self)@ =~= old(self)@.remove(i as int));
                    assert forall|a: int| 0 <= a < final(self)@.len() implies wf_entry(
                        #[trigger] final(self)@[a],
                    ) by {
                        if a < i {
                            assert(final(self)@[a] == old(self)@[a]);
                        } else {
                            assert(final(self)@[a] == old(self)@[a + 1]);
                        }
                    }
                    assert forall|a: int, b: int| 0 <= a < b < final(self)@.len() implies (
                    #[trigger] final(self)@[a]).0 != (#[trigger] final(self)@[b]).0 by {
                        let a0: int = if a < i { a } else { a + 1 };
                        let b0: int = if b < i { b } else { b + 1 };
                        assert(final(self)@[a] == old(self)@[a0]);
                        assert(final(self)@[b] == old(self)@[b0]);
                        assert(old(self)@[a0].0 != old(self)@[b0].0);
                    }
                }
                Some(entry.values)
            },
            None => None,
        }
    }

    /// How many names are present.
    pub fn len(&self) -> (r: usize)
        ensures
            r == self@.len(),
    {
        self.entries.len()
    }

    /// The names, in insertion order.
    pub fn names(&self) -> (r: Vec<String>)
        ensures
            r.deep_view() =~= Seq::new(self@.len(), |i: int| self@[i].0),
    {
        let mut out: Vec<String> = Vec::new();
        let mut i: usize = 0;
        while i < self.entries.len()
            invariant
                0 <= i <= self.entries@.len(),
                self@.len() == self.entries@.len(),
                out.deep_view() =~= Seq::new(i as nat, |j: int| self@[j].0),
            decreases self.entries@.len() - i,
        {
            let ghost prev = out.deep_view();
            out.push(self.entries[i].name.clone());
            i = i + 1;
            proof {
                assert(prev == Seq::new((i - 1) as nat, |j: int| self@[j].0));
                assert(prev.len() == i - 1);
                assert(out@.len() == i);
                assert forall|j: int| 0 <= j < i implies out.deep_view()[j] == self@[j].0 by {
                    if j < i - 1 {
                        assert(out.deep_view()[j] == prev[j]);
                    } else {
                        assert(out@[j]@ == self.entries@[j].name@);
                    }
                }
                assert(out.deep_view() =~= Seq::new(i as nat, |j: int| self@[j].0));
            }
        }
        out
    }
}

/// Lowercase folding keeps a sequence ASCII.
pub proof fn lemma_lower_chars_ascii(s: Seq<char>)
    requires
        vstd::utf8::is_ascii_chars(s),
    ensures
        vstd::utf8::is_ascii_chars(spec_lower_chars(s)),
{
    broadcast use vstd::utf8::is_ascii_chars_nat_bound;

    assert forall|i: int| 0 <= i < spec_lower_chars(s).len() implies '\0'
        <= #[trigger] spec_lower_chars(s)[i] <= '\u{7f}' by {
        assert((s.index(i) as nat) < 128);
        if 65 <= (s[i] as u32) && (s[i] as u32) <= 90 {
            ascii::lemma_byte_char_below_128(((s[i] as u32) + 32) as u8);
        }
    }
}

/// Lowercase folding is idempotent on ASCII text.
pub proof fn lemma_lower_chars_idempotent(s: Seq<char>)
    requires
        vstd::utf8::is_ascii_chars(s),
    ensures
        spec_lower_chars(spec_lower_chars(s)) =~= spec_lower_chars(s),
{
    broadcast use vstd::utf8::is_ascii_chars_nat_bound;

    assert forall|i: int| 0 <= i < s.len() implies #[trigger] spec_lower_chars(
        spec_lower_chars(s),
    )[i] == spec_lower_chars(s)[i] by {
        assert((s.index(i) as nat) < 128);
        let c = s[i];
        if 65 <= (c as u32) && (c as u32) <= 90 {
            ascii::lemma_byte_char_below_128(((c as u32) + 32) as u8);
        }
    }
}

} // verus!
