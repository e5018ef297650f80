//! Character-level helpers shared by the parsers and formatters.

use vstd::prelude::*;

verus! {

/// `String::push`: appends one `char` to the end of the string (std's
/// documentation: "Appends the given char to the end of this String").
#[verifier::external_body]
pub(crate) fn push_char(s: &mut String, c: char)
    ensures
        final(s)@ == old(s)@.push(c),
{
    s.push(c);
}

/// The characters of a string slice, in order.
pub fn chars_of(s: &str) -> (r: Vec<char>)
    ensures
        r@ == s@,
{
    let n = s.unicode_len();
    let mut out: Vec<char> = Vec::new();
    let mut i: usize = 0;
    while i < n
        invariant
            n == s@.len(),
            i <= n,
            out@ == s@.take(i as int),
        decreases n - i,
    {
        out.push(s.get_char(i));
        i = i + 1;
        assert(out@ =~= s@.take(i as int));
    }
    assert(s@.take(n as int) =~= s@);
    out
}

/// Builds a `String` from the characters `v[from..to]`.
pub fn string_of(v: &Vec<char>, from: usize, to: usize) -> (r: String)
    requires
        from <= to <= v@.len(),
    ensures
        r@ == v@.subrange(from as int, to as int),
{
    let mut out = String::new();
    let mut i: usize = from;
    while i < to
        invariant
            from <= i <= to,
            to <= v@.len(),
            out@ == v@.subrange(from as int, i as int),
        decreases to - i,
    {
        push_char(&mut out, v[i]);
        i = i + 1;
        assert(out@ =~= v@.subrange(from as int, i as int));
    }
    out
}

/// Compares two string slices character by character.
pub fn str_eq(a: &str, b: &str) -> (r: bool)
    ensures
        r == (a@ == b@),
{
    let n = a.unicode_len();
    let m = b.unicode_len();
    if n != m {
        return false;
    }
    let mut i: usize = 0;
    while i < n
        invariant
            n == a@.len(),
            m == b@.len(),
            n == m,
            i <= n,
            forall|j: int| 0 <= j < i ==> a@[j] == b@[j],
        decreases n - i,
    {
        if a.get_char(i) != b.get_char(i) {
            return false;
        }
        i = i + 1;
    }
    assert(a@ =~= b@);
    true
}

/// Whether `v[from..]` starts with the characters of `prefix`.
pub fn has_prefix_at(v: &Vec<char>, from: usize, prefix: &Vec<char>) -> (r: bool)
    requires
        from <= v@.len(),
    ensures
        r == (v@.len() - from >= prefix@.len() && v@.subrange(
            from as int,
            from + prefix@.len(),
        ) == prefix@),
{
    if v.len() - from < prefix.len() {
        return false;
    }
    let mut i: usize = 0;
    while i < prefix.len()
        invariant
            from <= v@.len(),
            v@.len() == v.len(),
            v@.len() - from >= prefix@.len(),
            i <= prefix@.len(),
            forall|j: int| 0 <= j < i ==> v@[from + j] == prefix@[j],
        decreases prefix@.len() - i,
    {
        assert(from + i < v@.len());
        if v[from + i] != prefix[i] {
            assert(v@.subrange(from as int, from + prefix@.len())[i as int] != prefix@[i as int]);
            return false;
        }
        i = i + 1;
    }
    assert(v@.subrange(from as int, from + prefix@.len()) =~= prefix@);
    true
}

} // verus!
