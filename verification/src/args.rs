//! One argument of the command line.
use vstd::prelude::*;
use crate::board::notation::chars_of;

verus! {

/// One argument: `--key`, `--key=value`, or a bare value.
pub struct Argument {
    pub key: Option<String>,
    pub value: Option<String>,
}

/// The characters of a text that may be missing.
pub open spec fn text_of(s: Option<String>) -> Option<Seq<char>> {
    match s {
        Some(t) => Some(t@),
        None => None,
    }
}

/// Whether `s` starts with two dashes.
pub open spec fn has_dashes(s: Seq<char>) -> bool {
    s.len() >= 2 && s[0] == '-' && s[1] == '-'
}

/// The first index from `i` on that holds `=`, or the length.
pub open spec fn next_equals(s: Seq<char>, i: int) -> int
    decreases s.len() - i,
{
    if 0 <= i < s.len() && s[i] != '=' {
        next_equals(s, i + 1)
    } else {
        i
    }
}

/// The key of the argument `s`: what stands between the two dashes and the
/// first `=`, or the end; none where `s` does not start with two dashes.
pub open spec fn key_of(s: Seq<char>) -> Option<Seq<char>> {
    if has_dashes(s) {
        Some(s.subrange(2, next_equals(s, 2)))
    } else {
        None
    }
}

/// The value of the argument `s`: all of `s` where it does not start with
/// two dashes; else what stands between the first `=` and the next, or the
/// end; none where there is no `=`.
pub open spec fn value_of(s: Seq<char>) -> Option<Seq<char>> {
    if !has_dashes(s) {
        Some(s)
    } else if next_equals(s, 2) >= s.len() {
        None
    } else {
        Some(s.subrange(next_equals(s, 2) + 1, next_equals(s, next_equals(s, 2) + 1)))
    }
}

/// The first index from `i` on that holds `=`, or the length.
fn find_equals(chars: &Vec<char>, i: usize) -> (j: usize)
    requires
        i <= chars@.len(),
    ensures
        j == next_equals(chars@, i as int),
        i <= j <= chars@.len(),
{
    let mut j = i;
    while j < chars.len() && chars[j] != '='
        invariant
            i <= j <= chars@.len(),
            next_equals(chars@, j as int) == next_equals(chars@, i as int),
        decreases chars@.len() - j,
    {
        j += 1;
    }
    j
}

/// The characters of `chars` from `from` up to `to`, as a string.
fn copy_range(chars: &Vec<char>, from: usize, to: usize) -> (s: String)
    requires
        from <= to <= chars@.len(),
    ensures
        s@ == chars@.subrange(from as int, to as int),
{
    let mut out = String::new();
    let mut k = from;
    while k < to
        invariant
            from <= k <= to,
            to <= chars@.len(),
            out@ == chars@.subrange(from as int, k as int),
        decreases to - k,
    {
        out.push(chars[k]);
        proof {
            assert(out@ =~= chars@.subrange(from as int, k + 1));
        }
        k += 1;
    }
    out
}

impl Argument {
    /// The key of the argument, where it has one.
    pub open spec fn key_text(&self) -> Option<Seq<char>> {
        text_of(self.key)
    }

    /// The value of the argument, where it has one.
    pub open spec fn value_text(&self) -> Option<Seq<char>> {
        text_of(self.value)
    }

    /// Takes the argument `text` apart into its key and its value.
    pub fn new(text: &String) -> (r: Self)
        ensures
            r.key_text() == key_of(text@),
            r.value_text() == value_of(text@),
    {
        let chars = chars_of(text.as_str());
        let n = chars.len();
        if n < 2 || chars[0] != '-' || chars[1] != '-' {
            let whole = copy_range(&chars, 0, n);
            proof {
                assert(chars@.subrange(0, n as int) =~= chars@);
            }
            return Self { key: None, value: Some(whole) };
        }
        let e = find_equals(&chars, 2);
        let key = copy_range(&chars, 2, e);
        if e >= n {
            return Self { key: Some(key), value: None };
        }
        let f = find_equals(&chars, e + 1);
        let value = copy_range(&chars, e + 1, f);
        Self { key: Some(key), value: Some(value) }
    }
}

} // verus!
