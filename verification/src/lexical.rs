//! Digits, numbers and field splitting over character sequences.

use vstd::prelude::*;

verus! {

pub open spec fn is_dec_digit(c: char) -> bool {
    '0' <= c && c <= '9'
}

pub open spec fn dec_digit_value(c: char) -> nat {
    (c as nat - '0' as nat) as nat
}

pub open spec fn is_hex_digit(c: char) -> bool {
    ('0' <= c && c <= '9') || ('a' <= c && c <= 'f') || ('A' <= c && c <= 'F')
}

pub open spec fn hex_digit_value(c: char) -> nat {
    if '0' <= c && c <= '9' {
        (c as nat - '0' as nat) as nat
    } else if 'a' <= c && c <= 'f' {
        (c as nat - 'a' as nat + 10) as nat
    } else {
        (c as nat - 'A' as nat + 10) as nat
    }
}

pub open spec fn all_dec_digits(s: Seq<char>) -> bool {
    forall|i: int| 0 <= i < s.len() ==> is_dec_digit(#[trigger] s[i])
}

pub open spec fn all_hex_digits(s: Seq<char>) -> bool {
    forall|i: int| 0 <= i < s.len() ==> is_hex_digit(#[trigger] s[i])
}

/// The number that a string of decimal digits denotes (most significant first).
pub open spec fn dec_value(s: Seq<char>) -> nat
    decreases s.len(),
{
    if s.len() == 0 {
        0
    } else {
        dec_value(s.drop_last()) * 10 + dec_digit_value(s.last())
    }
}

/// The number that a string of hexadecimal digits denotes.
pub open spec fn hex_value(s: Seq<char>) -> nat
    decreases s.len(),
{
    if s.len() == 0 {
        0
    } else {
        hex_value(s.drop_last()) * 16 + hex_digit_value(s.last())
    }
}

/// `s` cut at every `sep`: the fields between separators, empty ones included.
/// A string with no separator is one field; the empty string is one empty field.
pub open spec fn split_on(s: Seq<char>, sep: char) -> Seq<Seq<char>>
    decreases s.len(),
{
    if s.len() == 0 {
        seq![Seq::<char>::empty()]
    } else {
        let before = split_on(s.drop_last(), sep);
        if s.last() == sep {
            before.push(Seq::<char>::empty())
        } else {
            before.update(before.len() - 1, before.last().push(s.last()))
        }
    }
}

/// The text of a field range of `v`.
pub open spec fn range_text(v: Seq<char>, r: (usize, usize)) -> Seq<char> {
    v.subrange(r.0 as int, r.1 as int)
}

/// The fields of `v[lo..hi]` cut at `sep`, as index ranges into `v`.
pub fn split_ranges(v: &Vec<char>, lo: usize, hi: usize, sep: char) -> (r: Vec<(usize, usize)>)
    requires
        lo <= hi <= v@.len(),
    ensures
        r@.len() == split_on(v@.subrange(lo as int, hi as int), sep).len(),
        forall|k: int|
            0 <= k < r@.len() ==> lo <= (#[trigger] r@[k]).0 <= r@[k].1 <= hi && range_text(
                v@,
                r@[k],
            ) == split_on(v@.subrange(lo as int, hi as int), sep)[k],
{
    let mut done: Vec<(usize, usize)> = Vec::new();
    let mut start: usize = lo;
    let mut i: usize = lo;
    while i < hi
        invariant
            lo <= start <= i <= hi,
            hi <= v@.len(),
            split_on(v@.subrange(lo as int, i as int), sep).len() == done@.len() + 1,
            forall|k: int|
                0 <= k < done@.len() ==> lo <= (#[trigger] done@[k]).0 <= done@[k].1 <= i
                    && range_text(v@, done@[k]) == split_on(v@.subrange(lo as int, i as int), sep)[k],
            split_on(v@.subrange(lo as int, i as int), sep)[done@.len() as int] == v@.subrange(
                start as int,
                i as int,
            ),
        decreases hi - i,
    {
        let ghost before = split_on(v@.subrange(lo as int, i as int), sep);
        let ghost sub = v@.subrange(lo as int, (i + 1) as int);
        assert(sub.drop_last() =~= v@.subrange(lo as int, i as int));
        assert(sub.last() == v@[i as int]);
        if v[i] == sep {
            done.push((start, i));
            start = i + 1;
            assert(v@.subrange(start as int, (i + 1) as int) =~= Seq::<char>::empty());
        } else {
            assert(v@.subrange(start as int, (i + 1) as int) =~= v@.subrange(
                start as int,
                i as int,
            ).push(v@[i as int]));
        }
        i = i + 1;
    }
    done.push((start, hi));
    done
}

/// Whether every character of `v[lo..hi]` is a decimal digit.
pub fn dec_digits_in(v: &Vec<char>, lo: usize, hi: usize) -> (r: bool)
    requires
        lo <= hi <= v@.len(),
    ensures
        r == all_dec_digits(v@.subrange(lo as int, hi as int)),
{
    let mut i: usize = lo;
    while i < hi
        invariant
            lo <= i <= hi,
            hi <= v@.len(),
            forall|j: int| lo <= j < i ==> is_dec_digit(#[trigger] v@[j]),
        decreases hi - i,
    {
        if !('0' <= v[i] && v[i] <= '9') {
            assert(!is_dec_digit(v@.subrange(lo as int, hi as int)[i - lo]));
            return false;
        }
        i = i + 1;
    }
    assert forall|j: int| 0 <= j < hi - lo implies is_dec_digit(
        #[trigger] v@.subrange(lo as int, hi as int)[j],
    ) by {
        assert(v@.subrange(lo as int, hi as int)[j] == v@[lo + j]);
    }
    true
}

proof fn lemma_dec_value_step(s: Seq<char>, i: int)
    requires
        0 <= i < s.len(),
    ensures
        dec_value(s.take(i + 1)) == dec_value(s.take(i)) * 10 + dec_digit_value(s[i]),
{
    assert(s.take(i + 1).drop_last() =~= s.take(i));
}

proof fn lemma_hex_value_step(s: Seq<char>, i: int)
    requires
        0 <= i < s.len(),
    ensures
        hex_value(s.take(i + 1)) == hex_value(s.take(i)) * 16 + hex_digit_value(s[i]),
{
    assert(s.take(i + 1).drop_last() =~= s.take(i));
}

/// Decimal values only grow as digits are appended.
pub proof fn lemma_dec_value_prefix_le(s: Seq<char>, i: int)
    requires
        0 <= i <= s.len(),
    ensures
        dec_value(s.take(i)) <= dec_value(s),
    decreases s.len() - i,
{
    if i < s.len() {
        lemma_dec_value_step(s, i);
        lemma_dec_value_prefix_le(s, i + 1);
    } else {
        assert(s.take(i) =~= s);
    }
}

/// The decimal value of `v[lo..hi]` when it is at most `limit`; `None` when it
/// is larger. Requires all characters to be decimal digits.
pub fn dec_value_upto(v: &Vec<char>, lo: usize, hi: usize, limit: u32) -> (r: Option<u32>)
    requires
        lo <= hi <= v@.len(),
        all_dec_digits(v@.subrange(lo as int, hi as int)),
        limit < 0x1000_0000,
    ensures
        match r {
            Some(n) => n == dec_value(v@.subrange(lo as int, hi as int)) && n <= limit,
            None => dec_value(v@.subrange(lo as int, hi as int)) > limit,
        },
{
    let ghost s = v@.subrange(lo as int, hi as int);
    let mut acc: u32 = 0;
    let mut i: usize = lo;
    while i < hi
        invariant
            lo <= i <= hi,
            hi <= v@.len(),
            s == v@.subrange(lo as int, hi as int),
            all_dec_digits(s),
            limit < 0x1000_0000,
            acc <= limit,
            acc == dec_value(s.take(i - lo)),
        decreases hi - i,
    {
        let c = v[i];
        assert(s[i - lo] == c);
        assert(is_dec_digit(s[i - lo]));
        proof {
            lemma_dec_value_step(s, i - lo);
        }
        let d = (c as u32) - ('0' as u32);
        let next = acc * 10 + d;
        assert(i + 1 - lo == (i - lo) + 1);
        if next > limit {
            proof {
                lemma_dec_value_prefix_le(s, (i - lo) + 1);
            }
            return None;
        }
        acc = next;
        i = i + 1;
    }
    assert(s.take(hi - lo) =~= s);
    Some(acc)
}

/// The hexadecimal value of `v[lo..hi]`, at most four digits long.
pub fn hex_value_of(v: &Vec<char>, lo: usize, hi: usize) -> (r: u16)
    requires
        lo <= hi <= v@.len(),
        hi - lo <= 4,
        all_hex_digits(v@.subrange(lo as int, hi as int)),
    ensures
        r == hex_value(v@.subrange(lo as int, hi as int)),
{
    let ghost s = v@.subrange(lo as int, hi as int);
    let mut acc: u32 = 0;
    let mut i: usize = lo;
    while i < hi
        invariant
            lo <= i <= hi,
            hi <= v@.len(),
            hi - lo <= 4,
            s == v@.subrange(lo as int, hi as int),
            all_hex_digits(s),
            acc == hex_value(s.take(i - lo)),
            acc < pow16(i - lo),
        decreases hi - i,
    {
        let c = v[i];
        assert(s[i - lo] == c);
        assert(is_hex_digit(s[i - lo]));
        proof {
            lemma_hex_value_step(s, i - lo);
        }
        let d: u32 = if '0' <= c && c <= '9' {
            (c as u32) - ('0' as u32)
        } else if 'a' <= c && c <= 'f' {
            (c as u32) - ('a' as u32) + 10
        } else {
            (c as u32) - ('A' as u32) + 10
        };
        assert(d < 16);
        assert(pow16(i - lo) <= 4096) by {
            assert(pow16(0) == 1);
            assert(pow16(1) == 16);
            assert(pow16(2) == 256);
            assert(pow16(3) == 4096);
        }
        assert(acc * 16 + d < pow16(i - lo) * 16) by (nonlinear_arith)
            requires
                acc < pow16(i - lo),
                d < 16,
        ;
        acc = acc * 16 + d;
        assert(i + 1 - lo == (i - lo) + 1);
        i = i + 1;
    }
    assert(s.take(hi - lo) =~= s);
    assert(pow16(hi - lo) <= 65536) by {
        assert(pow16(0) == 1);
        assert(pow16(1) == 16);
        assert(pow16(2) == 256);
        assert(pow16(3) == 4096);
        assert(pow16(4) == 65536);
    }
    acc as u16
}

pub open spec fn pow16(n: int) -> nat
    decreases n,
{
    if n <= 0 {
        1
    } else {
        16 * pow16(n - 1)
    }
}

/// Whether every character of `v[lo..hi]` is a hexadecimal digit.
pub fn hex_digits_in(v: &Vec<char>, lo: usize, hi: usize) -> (r: bool)
    requires
        lo <= hi <= v@.len(),
    ensures
        r == all_hex_digits(v@.subrange(lo as int, hi as int)),
{
    let mut i: usize = lo;
    while i < hi
        invariant
            lo <= i <= hi,
            hi <= v@.len(),
            forall|j: int| lo <= j < i ==> is_hex_digit(#[trigger] v@[j]),
        decreases hi - i,
    {
        let c = v[i];
        if !(('0' <= c && c <= '9') || ('a' <= c && c <= 'f') || ('A' <= c && c <= 'F')) {
            assert(!is_hex_digit(v@.subrange(lo as int, hi as int)[i - lo]));
            return false;
        }
        i = i + 1;
    }
    assert forall|j: int| 0 <= j < hi - lo implies is_hex_digit(
        #[trigger] v@.subrange(lo as int, hi as int)[j],
    ) by {
        assert(v@.subrange(lo as int, hi as int)[j] == v@[lo + j]);
    }
    true
}

} // verus!

verus! {

/// A string with no separator in it is a single field.
pub proof fn lemma_split_on_without_sep(x: Seq<char>, sep: char)
    requires
        forall|k: int| 0 <= k < x.len() ==> #[trigger] x[k] != sep,
    ensures
        split_on(x, sep) == seq![x],
    decreases x.len(),
{
    if x.len() > 0 {
        let y = x.drop_last();
        assert forall|k: int| 0 <= k < y.len() implies #[trigger] y[k] != sep by {
            assert(y[k] == x[k]);
        }
        lemma_split_on_without_sep(y, sep);
        assert(x.last() != sep);
        assert(y.push(x.last()) =~= x);
        assert(seq![y].update(0, y.push(x.last())) =~= seq![x]);
    } else {
        assert(x =~= Seq::<char>::empty());
    }
}

/// Cutting at a separator between `a` and `b` gives the fields of `a` followed
/// by the fields of `b`.
pub proof fn lemma_split_on_concat(a: Seq<char>, b: Seq<char>, sep: char)
    ensures
        split_on(a + seq![sep] + b, sep) == split_on(a, sep) + split_on(b, sep),
    decreases b.len(),
{
    let s = a + seq![sep] + b;
    if b.len() == 0 {
        assert(s.drop_last() =~= a);
        assert(s.last() == sep);
        assert(split_on(b, sep) =~= seq![Seq::<char>::empty()]);
        assert(split_on(a, sep).push(Seq::<char>::empty()) =~= split_on(a, sep) + split_on(b, sep));
    } else {
        let b0 = b.drop_last();
        lemma_split_on_concat(a, b0, sep);
        assert(s.drop_last() =~= a + seq![sep] + b0);
        assert(s.last() == b.last());
        lemma_split_on_len(b0, sep);
        if b.last() == sep {
            assert((split_on(a, sep) + split_on(b0, sep)).push(Seq::<char>::empty()) =~= split_on(
                a,
                sep,
            ) + split_on(b, sep));
        } else {
            let fa = split_on(a, sep);
            let fb = split_on(b0, sep);
            let joined = fa + fb;
            assert(joined.last() == fb.last());
            assert(joined.update(joined.len() - 1, joined.last().push(b.last())) =~= fa + fb.update(
                fb.len() - 1,
                fb.last().push(b.last()),
            ));
        }
    }
}

/// There is always at least one field.
pub proof fn lemma_split_on_len(s: Seq<char>, sep: char)
    ensures
        split_on(s, sep).len() >= 1,
    decreases s.len(),
{
    if s.len() > 0 {
        lemma_split_on_len(s.drop_last(), sep);
    }
}

} // verus!
