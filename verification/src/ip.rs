//! IP addresses for `--host`: the library's own address type, its textual
//! grammar (the one `std`'s `IpAddr::from_str` accepts) and its display form.

use vstd::prelude::*;

use crate::lexical::{
    all_dec_digits, all_hex_digits, dec_digit_value, dec_digits_in, dec_value, dec_value_upto,
    hex_digit_value, hex_digits_in, hex_value, hex_value_of, is_dec_digit, is_hex_digit,
    lemma_split_on_concat, lemma_split_on_len, lemma_split_on_without_sep, range_text, split_on,
    split_ranges,
};

verus! {

/// An IPv4 address: four octets, most significant first.
#[derive(Debug, Clone, Copy, PartialEq, Eq)]
pub struct Ipv4Addr {
    pub a: u8,
    pub b: u8,
    pub c: u8,
    pub d: u8,
}

/// An IPv6 address: eight 16-bit segments, most significant first.
#[derive(Debug, Clone, Copy, PartialEq, Eq)]
pub struct Ipv6Addr {
    pub s0: u16,
    pub s1: u16,
    pub s2: u16,
    pub s3: u16,
    pub s4: u16,
    pub s5: u16,
    pub s6: u16,
    pub s7: u16,
}

/// An IP address of either family.
#[derive(Debug, Clone, Copy, PartialEq, Eq)]
pub enum IpAddr {
    V4(Ipv4Addr),
    V6(Ipv6Addr),
}

/// `127.0.0.1`.
pub open spec fn localhost_v4_spec() -> IpAddr {
    IpAddr::V4(Ipv4Addr { a: 127, b: 0, c: 0, d: 1 })
}

/// `0.0.0.0`.
pub open spec fn unspecified_v4_spec() -> IpAddr {
    IpAddr::V4(Ipv4Addr { a: 0, b: 0, c: 0, d: 0 })
}

/// `127.0.0.1`.
pub fn localhost_v4() -> (r: IpAddr)
    ensures
        r == localhost_v4_spec(),
{
    IpAddr::V4(Ipv4Addr { a: 127, b: 0, c: 0, d: 1 })
}

/// `0.0.0.0`.
pub fn unspecified_v4() -> (r: IpAddr)
    ensures
        r == unspecified_v4_spec(),
{
    IpAddr::V4(Ipv4Addr { a: 0, b: 0, c: 0, d: 0 })
}

impl Ipv4Addr {
    pub open spec fn octets_spec(self) -> Seq<u8> {
        seq![self.a, self.b, self.c, self.d]
    }

    pub fn new(a: u8, b: u8, c: u8, d: u8) -> (r: Self)
        ensures
            r.octets_spec() == seq![a, b, c, d],
    {
        Ipv4Addr { a, b, c, d }
    }

    pub fn octets(&self) -> (r: [u8; 4])
        ensures
            r@ == self.octets_spec(),
    {
        let r = [self.a, self.b, self.c, self.d];
        assert(r@ =~= self.octets_spec());
        r
    }
}

impl Ipv6Addr {
    pub open spec fn segments_spec(self) -> Seq<u16> {
        seq![self.s0, self.s1, self.s2, self.s3, self.s4, self.s5, self.s6, self.s7]
    }

    pub fn new(s0: u16, s1: u16, s2: u16, s3: u16, s4: u16, s5: u16, s6: u16, s7: u16) -> (r:
        Self)
        ensures
            r.segments_spec() == seq![s0, s1, s2, s3, s4, s5, s6, s7],
    {
        Ipv6Addr { s0, s1, s2, s3, s4, s5, s6, s7 }
    }

    pub fn segments(&self) -> (r: [u16; 8])
        ensures
            r@ == self.segments_spec(),
    {
        let r = [self.s0, self.s1, self.s2, self.s3, self.s4, self.s5, self.s6, self.s7];
        assert(r@ =~= self.segments_spec());
        r
    }
}

/// An IPv4 octet field: one to three decimal digits, no leading zero unless
/// the field is `0` itself, value at most 255.
pub open spec fn dec_octet_spec(t: Seq<char>) -> Option<u8> {
    if 1 <= t.len() <= 3 && all_dec_digits(t) && (t.len() > 1 ==> t[0] != '0') && dec_value(t)
        <= 255 {
        Some(dec_value(t) as u8)
    } else {
        None
    }
}

/// An IPv6 group field: one to four hexadecimal digits, either case.
pub open spec fn hex_group_spec(t: Seq<char>) -> Option<u16> {
    if 1 <= t.len() <= 4 && all_hex_digits(t) {
        Some(hex_value(t) as u16)
    } else {
        None
    }
}

/// Dotted-quad IPv4 text: exactly four octet fields separated by `.`.
pub open spec fn ipv4_octets_spec(s: Seq<char>) -> Option<Seq<u8>> {
    let f = split_on(s, '.');
    if f.len() == 4 && dec_octet_spec(f[0]) is Some && dec_octet_spec(f[1]) is Some
        && dec_octet_spec(f[2]) is Some && dec_octet_spec(f[3]) is Some {
        Some(
            seq![
                dec_octet_spec(f[0])->0,
                dec_octet_spec(f[1])->0,
                dec_octet_spec(f[2])->0,
                dec_octet_spec(f[3])->0,
            ],
        )
    } else {
        None
    }
}

/// The segments of fields that are all hexadecimal groups.
pub open spec fn hex_groups_spec(f: Seq<Seq<char>>) -> Option<Seq<u16>>
    decreases f.len(),
{
    if f.len() == 0 {
        Some(Seq::<u16>::empty())
    } else {
        match (hex_groups_spec(f.drop_last()), hex_group_spec(f.last())) {
            (Some(g), Some(x)) => Some(g.push(x)),
            _ => None,
        }
    }
}

/// The segments of fields that are hexadecimal groups, except that the last
/// may instead be dotted-quad IPv4 text, which fills two segments.
pub open spec fn groups_with_v4_spec(f: Seq<Seq<char>>) -> Option<Seq<u16>> {
    if f.len() == 0 {
        Some(Seq::<u16>::empty())
    } else {
        match hex_groups_spec(f.drop_last()) {
            None => None,
            Some(g) => match hex_group_spec(f.last()) {
                Some(x) => Some(g.push(x)),
                None => match ipv4_octets_spec(f.last()) {
                    Some(o) => Some(
                        g.push((o[0] as u16 * 256 + o[1] as u16) as u16).push(
                            (o[2] as u16 * 256 + o[3] as u16) as u16,
                        ),
                    ),
                    None => None,
                },
            },
        }
    }
}

/// The index of the first `::` in `s` at or after `from`, if any.
pub open spec fn double_colon_from(s: Seq<char>, from: int) -> Option<int>
    decreases s.len() - from,
{
    if from < 0 || from + 1 >= s.len() {
        None
    } else if s[from] == ':' && s[from + 1] == ':' {
        Some(from)
    } else {
        double_colon_from(s, from + 1)
    }
}

/// `n` zero segments.
pub open spec fn zeros(n: nat) -> Seq<u16> {
    Seq::new(n, |i: int| 0u16)
}

/// IPv6 text: either eight fields (the last two may be one dotted quad), or a
/// head and a tail around the first `::`, which stands for the one or more
/// zero segments the head and tail leave out.
pub open spec fn ipv6_segments_spec(s: Seq<char>) -> Option<Seq<u16>> {
    match double_colon_from(s, 0) {
        None => match groups_with_v4_spec(split_on(s, ':')) {
            Some(g) => if g.len() == 8 {
                Some(g)
            } else {
                None
            },
            None => None,
        },
        Some(k) => {
            let head = s.take(k);
            let tail = s.skip(k + 2);
            let hg = if head.len() == 0 {
                Some(Seq::<u16>::empty())
            } else {
                hex_groups_spec(split_on(head, ':'))
            };
            let tg = if tail.len() == 0 {
                Some(Seq::<u16>::empty())
            } else {
                groups_with_v4_spec(split_on(tail, ':'))
            };
            match (hg, tg) {
                (Some(h), Some(t)) => if h.len() + t.len() <= 7 {
                    Some(h + zeros((8 - h.len() - t.len()) as nat) + t)
                } else {
                    None
                },
                _ => None,
            }
        },
    }
}

/// The address that `s` is text for: dotted-quad IPv4 text gives an IPv4
/// address, otherwise IPv6 text gives an IPv6 address; other text gives none.
pub open spec fn ip_from_text(s: Seq<char>) -> Option<IpAddr> {
    match ipv4_octets_spec(s) {
        Some(o) => Some(IpAddr::V4(Ipv4Addr { a: o[0], b: o[1], c: o[2], d: o[3] })),
        None => match ipv6_segments_spec(s) {
            Some(g) => Some(
                IpAddr::V6(
                    Ipv6Addr {
                        s0: g[0],
                        s1: g[1],
                        s2: g[2],
                        s3: g[3],
                        s4: g[4],
                        s5: g[5],
                        s6: g[6],
                        s7: g[7],
                    },
                ),
            ),
            None => None,
        },
    }
}

/// An IPv4 octet field of `v[lo..hi]`.
fn parse_dec_octet(v: &Vec<char>, lo: usize, hi: usize) -> (r: Option<u8>)
    requires
        lo <= hi <= v@.len(),
    ensures
        r == dec_octet_spec(v@.subrange(lo as int, hi as int)),
{
    let ghost t = v@.subrange(lo as int, hi as int);
    if hi - lo < 1 || hi - lo > 3 {
        return None;
    }
    if !dec_digits_in(v, lo, hi) {
        return None;
    }
    if hi - lo > 1 && v[lo] == '0' {
        assert(t[0] == v@[lo as int]);
        return None;
    }
    assert(hi - lo > 1 ==> t[0] == v@[lo as int]);
    match dec_value_upto(v, lo, hi, 255) {
        Some(n) => Some(n as u8),
        None => None,
    }
}

/// An IPv6 group field of `v[lo..hi]`.
fn parse_hex_group(v: &Vec<char>, lo: usize, hi: usize) -> (r: Option<u16>)
    requires
        lo <= hi <= v@.len(),
    ensures
        r == hex_group_spec(v@.subrange(lo as int, hi as int)),
{
    if hi - lo < 1 || hi - lo > 4 {
        return None;
    }
    if !hex_digits_in(v, lo, hi) {
        return None;
    }
    Some(hex_value_of(v, lo, hi))
}

/// Dotted-quad IPv4 text in `v[lo..hi]`.
fn parse_ipv4_in(v: &Vec<char>, lo: usize, hi: usize) -> (r: Option<[u8; 4]>)
    requires
        lo <= hi <= v@.len(),
    ensures
        match r {
            Some(o) => ipv4_octets_spec(v@.subrange(lo as int, hi as int)) == Some(o@),
            None => ipv4_octets_spec(v@.subrange(lo as int, hi as int)) is None,
        },
{
    let f = split_ranges(v, lo, hi, '.');
    if f.len() != 4 {
        return None;
    }
    let (l0, h0) = f[0];
    let (l1, h1) = f[1];
    let (l2, h2) = f[2];
    let (l3, h3) = f[3];
    let a = match parse_dec_octet(v, l0, h0) {
        Some(x) => x,
        None => return None,
    };
    let b = match parse_dec_octet(v, l1, h1) {
        Some(x) => x,
        None => return None,
    };
    let c = match parse_dec_octet(v, l2, h2) {
        Some(x) => x,
        None => return None,
    };
    let d = match parse_dec_octet(v, l3, h3) {
        Some(x) => x,
        None => return None,
    };
    let o = [a, b, c, d];
    assert(o@ =~= seq![a, b, c, d]);
    Some(o)
}

/// Hexadecimal groups in the first `to` fields `f` of `v`.
fn parse_hex_groups(v: &Vec<char>, f: &Vec<(usize, usize)>, to: usize, Ghost(fields): Ghost<
    Seq<Seq<char>>,
>) -> (r: Option<Vec<u16>>)
    requires
        to <= f@.len(),
        fields.len() == f@.len(),
        forall|k: int|
            0 <= k < f@.len() ==> (#[trigger] f@[k]).0 <= f@[k].1 <= v@.len() && range_text(
                v@,
                f@[k],
            ) == fields[k],
    ensures
        match r {
            Some(g) => hex_groups_spec(fields.take(to as int)) == Some(g@),
            None => hex_groups_spec(fields.take(to as int)) is None,
        },
{
    let mut out: Vec<u16> = Vec::new();
    let mut i: usize = 0;
    assert(fields.take(0) =~= Seq::<Seq<char>>::empty());
    while i < to
        invariant
            i <= to <= f@.len(),
            fields.len() == f@.len(),
            forall|k: int|
                0 <= k < f@.len() ==> (#[trigger] f@[k]).0 <= f@[k].1 <= v@.len() && range_text(
                    v@,
                    f@[k],
                ) == fields[k],
            hex_groups_spec(fields.take(i as int)) == Some(out@),
        decreases to - i,
    {
        assert(fields.take(i + 1).drop_last() =~= fields.take(i as int));
        assert(fields.take(i + 1).last() == fields[i as int]);
        let (l, h) = f[i];
        assert(range_text(v@, f@[i as int]) == fields[i as int]);
        match parse_hex_group(v, l, h) {
            Some(x) => {
                out.push(x);
            },
            None => {
                proof {
                    lemma_hex_groups_none_extends(fields, i + 1, to as int);
                }
                return None;
            },
        }
        i = i + 1;
    }
    Some(out)
}

/// Once a prefix of fields fails to be groups, every longer prefix fails too.
proof fn lemma_hex_groups_none_extends(f: Seq<Seq<char>>, i: int, j: int)
    requires
        0 <= i <= j <= f.len(),
        hex_groups_spec(f.take(i)) is None,
    ensures
        hex_groups_spec(f.take(j)) is None,
    decreases j - i,
{
    if i < j {
        assert(f.take(i + 1).drop_last() =~= f.take(i));
        lemma_hex_groups_none_extends(f, i + 1, j);
    }
}

/// Hexadecimal groups, the last of which may be a dotted quad, in the fields
/// `f` of `v`.
fn parse_groups_with_v4(v: &Vec<char>, f: &Vec<(usize, usize)>, Ghost(fields): Ghost<
    Seq<Seq<char>>,
>) -> (r: Option<Vec<u16>>)
    requires
        fields.len() == f@.len(),
        forall|k: int|
            0 <= k < f@.len() ==> (#[trigger] f@[k]).0 <= f@[k].1 <= v@.len() && range_text(
                v@,
                f@[k],
            ) == fields[k],
    ensures
        match r {
            Some(g) => groups_with_v4_spec(fields) == Some(g@),
            None => groups_with_v4_spec(fields) is None,
        },
{
    let n = f.len();
    if n == 0 {
        return Some(Vec::new());
    }
    assert(fields.take(n - 1) =~= fields.drop_last());
    let mut g = match parse_hex_groups(v, f, n - 1, Ghost(fields)) {
        Some(g) => g,
        None => return None,
    };
    let (l, h) = f[n - 1];
    assert(range_text(v@, f@[n - 1]) == fields.last());
    match parse_hex_group(v, l, h) {
        Some(x) => {
            g.push(x);
            Some(g)
        },
        None => match parse_ipv4_in(v, l, h) {
            Some(o) => {
                let hi: u16 = (o[0] as u16) * 256 + (o[1] as u16);
                let lo: u16 = (o[2] as u16) * 256 + (o[3] as u16);
                g.push(hi);
                g.push(lo);
                Some(g)
            },
            None => None,
        },
    }
}

/// The index of the first `::` in `v`.
fn find_double_colon(v: &Vec<char>) -> (r: Option<usize>)
    ensures
        match r {
            Some(k) => double_colon_from(v@, 0) == Some(k as int) && k + 1 < v@.len(),
            None => double_colon_from(v@, 0) is None,
        },
{
    if v.len() < 2 {
        return None;
    }
    let mut i: usize = 0;
    while i < v.len() - 1
        invariant
            v@.len() == v.len(),
            v@.len() >= 2,
            double_colon_from(v@, 0) == double_colon_from(v@, i as int),
        decreases v@.len() - i,
    {
        if v[i] == ':' && v[i + 1] == ':' {
            return Some(i);
        }
        i = i + 1;
    }
    None
}

/// `h`, then the zero segments that bring the total to eight, then `t`.
fn fill_zeros(h: Vec<u16>, t: &Vec<u16>) -> (r: Vec<u16>)
    requires
        h@.len() + t@.len() <= 7,
    ensures
        r@ == h@ + zeros((8 - h@.len() - t@.len()) as nat) + t@,
        r@.len() == 8,
{
    let mut out = h;
    let gap = 8 - out.len() - t.len();
    let ghost hv = out@;
    let mut z: usize = 0;
    while z < gap
        invariant
            z <= gap,
            out@ == hv + zeros(z as nat),
        decreases gap - z,
    {
        out.push(0);
        z = z + 1;
        assert(out@ =~= hv + zeros(z as nat));
    }
    let ghost mid = out@;
    let mut j: usize = 0;
    while j < t.len()
        invariant
            j <= t@.len(),
            out@ == mid + t@.take(j as int),
        decreases t@.len() - j,
    {
        out.push(t[j]);
        j = j + 1;
        assert(out@ =~= mid + t@.take(j as int));
    }
    assert(t@.take(t@.len() as int) =~= t@);
    out
}

/// The head groups of compressed IPv6 text, before its first `::` at `k`.
fn parse_head(v: &Vec<char>, k: usize) -> (r: Option<Vec<u16>>)
    requires
        k <= v@.len(),
    ensures
        ({
            let head = v@.take(k as int);
            let hg = if head.len() == 0 {
                Some(Seq::<u16>::empty())
            } else {
                hex_groups_spec(split_on(head, ':'))
            };
            match r {
                Some(g) => hg == Some(g@),
                None => hg is None,
            }
        }),
{
    let ghost head = v@.take(k as int);
    if k == 0 {
        assert(head.len() == 0);
        return Some(Vec::new());
    }
    assert(v@.subrange(0, k as int) =~= head);
    let fh = split_ranges(v, 0, k, ':');
    assert(split_on(head, ':').take(fh@.len() as int) =~= split_on(head, ':'));
    parse_hex_groups(v, &fh, fh.len(), Ghost(split_on(head, ':')))
}

/// The tail groups of compressed IPv6 text, after its first `::` at `k`.
fn parse_tail(v: &Vec<char>, k: usize) -> (r: Option<Vec<u16>>)
    requires
        k + 2 <= v@.len(),
    ensures
        ({
            let tail = v@.skip(k + 2);
            let tg = if tail.len() == 0 {
                Some(Seq::<u16>::empty())
            } else {
                groups_with_v4_spec(split_on(tail, ':'))
            };
            match r {
                Some(g) => tg == Some(g@),
                None => tg is None,
            }
        }),
{
    let n = v.len();
    let ghost tail = v@.skip(k + 2);
    if k + 2 == n {
        assert(tail.len() == 0);
        return Some(Vec::new());
    }
    assert(v@.subrange(k + 2, n as int) =~= tail);
    let ft = split_ranges(v, k + 2, n, ':');
    parse_groups_with_v4(v, &ft, Ghost(split_on(tail, ':')))
}

/// IPv6 text in `v`.
fn parse_ipv6(v: &Vec<char>) -> (r: Option<[u16; 8]>)
    ensures
        match r {
            Some(g) => ipv6_segments_spec(v@) == Some(g@),
            None => ipv6_segments_spec(v@) is None,
        },
{
    let n = v.len();
    let groups: Vec<u16> = match find_double_colon(v) {
        None => {
            assert(v@.subrange(0, n as int) =~= v@);
            let f = split_ranges(v, 0, n, ':');
            match parse_groups_with_v4(v, &f, Ghost(split_on(v@, ':'))) {
                Some(g) => {
                    if g.len() != 8 {
                        return None;
                    }
                    g
                },
                None => return None,
            }
        },
        Some(k) => {
            let h = match parse_head(v, k) {
                Some(g) => g,
                None => return None,
            };
            let t = match parse_tail(v, k) {
                Some(g) => g,
                None => return None,
            };
            if h.len() > 7 || t.len() > 7 - h.len() {
                return None;
            }
            fill_zeros(h, &t)
        },
    };
    let r = [
        groups[0],
        groups[1],
        groups[2],
        groups[3],
        groups[4],
        groups[5],
        groups[6],
        groups[7],
    ];
    assert(r@ =~= groups@);
    Some(r)
}

/// Parses an IP address as `std`'s `IpAddr::from_str` does: dotted-quad IPv4
/// text first, otherwise IPv6 text.
pub fn parse_ip(s: &str) -> (r: Option<IpAddr>)
    ensures
        r == ip_from_text(s@),
{
    let v = crate::text::chars_of(s);
    let n = v.len();
    assert(v@.subrange(0, n as int) =~= v@);
    match parse_ipv4_in(&v, 0, n) {
        Some(o) => {
            let a = Ipv4Addr { a: o[0], b: o[1], c: o[2], d: o[3] };
            Some(IpAddr::V4(a))
        },
        None => match parse_ipv6(&v) {
            Some(g) => {
                let a = Ipv6Addr {
                    s0: g[0],
                    s1: g[1],
                    s2: g[2],
                    s3: g[3],
                    s4: g[4],
                    s5: g[5],
                    s6: g[6],
                    s7: g[7],
                };
                Some(IpAddr::V6(a))
            },
            None => None,
        },
    }
}

} // verus!

verus! {

/// The character of a digit value below 16: `0`-`9`, then `a`-`f`.
pub open spec fn digit_char(d: nat) -> char {
    if d < 10 {
        ((48 + d) as u8) as char
    } else {
        ((87 + d) as u8) as char
    }
}

/// `n` in `base` (10 or 16), most significant digit first, no leading zeros.
pub open spec fn digits_text(n: nat, base: nat) -> Seq<char>
    decreases n,
{
    if base < 2 || n < base {
        seq![digit_char(n)]
    } else {
        proof {
            assert(n / base < n) by (nonlinear_arith)
                requires
                    base >= 2,
                    n >= base,
            ;
        }
        digits_text(n / base, base).push(digit_char(n % base))
    }
}

/// Dotted-quad text of four octets.
pub open spec fn ipv4_text(o: Seq<u8>) -> Seq<char> {
    digits_text(o[0] as nat, 10) + seq!['.'] + digits_text(o[1] as nat, 10) + seq!['.']
        + digits_text(o[2] as nat, 10) + seq!['.'] + digits_text(o[3] as nat, 10)
}

/// Segments in lowercase hexadecimal, separated by `:`.
pub open spec fn hex_join(g: Seq<u16>) -> Seq<char>
    decreases g.len(),
{
    if g.len() == 0 {
        Seq::<char>::empty()
    } else if g.len() == 1 {
        digits_text(g[0] as nat, 16)
    } else {
        hex_join(g.drop_last()) + seq![':'] + digits_text(g.last() as nat, 16)
    }
}

/// How many zero segments follow from index `i` on.
pub open spec fn zero_run(g: Seq<u16>, i: int) -> nat
    decreases g.len() - i,
{
    if 0 <= i < g.len() && g[i] == 0 {
        1 + zero_run(g, i + 1)
    } else {
        0
    }
}

/// `[start, start + len)` is the first of the longest runs of zero segments
/// (`len` is 0 when no segment is zero).
pub open spec fn is_first_longest_zero_run(g: Seq<u16>, start: int, len: nat) -> bool {
    &&& 0 <= start <= g.len()
    &&& len == zero_run(g, start)
    &&& forall|j: int| 0 <= j < g.len() ==> #[trigger] zero_run(g, j) <= len
    &&& forall|j: int| 0 <= j < start ==> #[trigger] zero_run(g, j) < len
}

/// Whether the segments are an IPv4-mapped address, `::ffff:a.b.c.d`.
pub open spec fn is_v4_mapped(g: Seq<u16>) -> bool {
    g[0] == 0 && g[1] == 0 && g[2] == 0 && g[3] == 0 && g[4] == 0 && g[5] == 0xffff
}

/// The text of eight segments, as `Ipv6Addr`'s `Display` writes it: an
/// IPv4-mapped address as `::ffff:` and its dotted quad; otherwise the first
/// longest run of two or more zero segments as `::`, the rest in lowercase
/// hexadecimal without leading zeros.
pub open spec fn ipv6_text(g: Seq<u16>) -> Seq<char> {
    if is_v4_mapped(g) {
        seq![':', ':', 'f', 'f', 'f', 'f', ':'] + ipv4_text(
            seq![(g[6] / 256) as u8, (g[6] % 256) as u8, (g[7] / 256) as u8, (g[7] % 256) as u8],
        )
    } else {
        let (start, len) = choose|start: int, len: nat| is_first_longest_zero_run(g, start, len);
        if len > 1 {
            hex_join(g.take(start)) + seq![':', ':'] + hex_join(g.skip(start + len))
        } else {
            hex_join(g)
        }
    }
}

impl IpAddr {
    /// The address as text, the way `IpAddr`'s `Display` writes it.
    pub open spec fn text(self) -> Seq<char> {
        match self {
            IpAddr::V4(a) => ipv4_text(a.octets_spec()),
            IpAddr::V6(a) => ipv6_text(a.segments_spec()),
        }
    }

    /// `0.0.0.0` or `::`.
    pub open spec fn is_unspecified_spec(self) -> bool {
        match self {
            IpAddr::V4(a) => a.a == 0 && a.b == 0 && a.c == 0 && a.d == 0,
            IpAddr::V6(a) => a.segments_spec() == zeros(8),
        }
    }

    /// `127.0.0.0/8` or `::1`.
    pub open spec fn is_loopback_spec(self) -> bool {
        match self {
            IpAddr::V4(a) => a.a == 127,
            IpAddr::V6(a) => a.segments_spec() == seq![0u16, 0, 0, 0, 0, 0, 0, 1],
        }
    }

    pub fn is_unspecified(&self) -> (r: bool)
        ensures
            r == self.is_unspecified_spec(),
    {
        match self {
            IpAddr::V4(a) => a.a == 0 && a.b == 0 && a.c == 0 && a.d == 0,
            IpAddr::V6(a) => {
                let r = a.s0 == 0 && a.s1 == 0 && a.s2 == 0 && a.s3 == 0 && a.s4 == 0 && a.s5 == 0
                    && a.s6 == 0 && a.s7 == 0;
                assert(r ==> a.segments_spec() =~= zeros(8));
                assert(a.segments_spec() == zeros(8) ==> a.segments_spec()[7] == 0u16);
                r
            },
        }
    }

    pub fn is_loopback(&self) -> (r: bool)
        ensures
            r == self.is_loopback_spec(),
    {
        match self {
            IpAddr::V4(a) => a.a == 127,
            IpAddr::V6(a) => {
                let r = a.s0 == 0 && a.s1 == 0 && a.s2 == 0 && a.s3 == 0 && a.s4 == 0 && a.s5 == 0
                    && a.s6 == 0 && a.s7 == 1;
                assert(r ==> a.segments_spec() =~= seq![0u16, 0, 0, 0, 0, 0, 0, 1]);
                r
            },
        }
    }

    /// The address as text.
    pub fn to_text(&self) -> (r: String)
        ensures
            r@ == self.text(),
    {
        let mut s = String::new();
        match self {
            IpAddr::V4(a) => {
                push_ipv4(&mut s, a.a, a.b, a.c, a.d);
                assert(seq![a.a, a.b, a.c, a.d] =~= a.octets_spec());
            },
            IpAddr::V6(a) => {
                let g = a.segments();
                push_ipv6(&mut s, &g);
            },
        }
        s
    }
}

/// Appends the digits of `n` in `base` (10 or 16).
pub(crate) fn push_digits(s: &mut String, n: u32, base: u32)
    requires
        base == 10 || base == 16,
    ensures
        final(s)@ == old(s)@ + digits_text(n as nat, base as nat),
    decreases n,
{
    if n >= base {
        push_digits(s, n / base, base);
    }
    let d = n % base;
    let c = if d < 10 {
        (48 + d as u8) as char
    } else {
        (87 + d as u8) as char
    };
    crate::text::push_char(s, c);
    proof {
        assert(d as nat == (n as nat) % (base as nat));
        assert(c == digit_char(d as nat));
        if n >= base {
            assert(digits_text(n as nat, base as nat) == digits_text(
                (n / base) as nat,
                base as nat,
            ).push(digit_char((n % base) as nat)));
        }
    }
    assert(final(s)@ =~= old(s)@ + digits_text(n as nat, base as nat));
}

fn push_ipv4(s: &mut String, a: u8, b: u8, c: u8, d: u8)
    ensures
        final(s)@ == old(s)@ + ipv4_text(seq![a, b, c, d]),
{
    push_digits(s, a as u32, 10);
    crate::text::push_char(s, '.');
    push_digits(s, b as u32, 10);
    crate::text::push_char(s, '.');
    push_digits(s, c as u32, 10);
    crate::text::push_char(s, '.');
    push_digits(s, d as u32, 10);
    assert(final(s)@ =~= old(s)@ + ipv4_text(seq![a, b, c, d]));
}

/// Appends `g[from..to]` in hexadecimal, separated by `:`.
fn push_hex_join(s: &mut String, g: &[u16; 8], from: usize, to: usize)
    requires
        from <= to <= 8,
    ensures
        final(s)@ == old(s)@ + hex_join(g@.subrange(from as int, to as int)),
{
    let mut i: usize = from;
    while i < to
        invariant
            from <= i <= to <= 8,
            g@.len() == 8,
            s@ == old(s)@ + hex_join(g@.subrange(from as int, i as int)),
        decreases to - i,
    {
        let ghost before = s@;
        if i > from {
            crate::text::push_char(s, ':');
        }
        push_digits(s, g[i] as u32, 16);
        proof {
            let sub = g@.subrange(from as int, (i + 1) as int);
            assert(sub.drop_last() =~= g@.subrange(from as int, i as int));
            assert(sub.last() == g@[i as int]);
            if i == from {
                assert(g@.subrange(from as int, i as int).len() == 0);
            }
        }
        i = i + 1;
        assert(s@ =~= old(s)@ + hex_join(g@.subrange(from as int, i as int)));
    }
}

/// The first of the longest runs of zero segments.
fn first_longest_zero_run(g: &[u16; 8]) -> (r: (usize, usize))
    ensures
        r.0 + r.1 <= 8,
        is_first_longest_zero_run(g@, r.0 as int, r.1 as nat),
{
    let mut best_start: usize = 0;
    let mut best_len: usize = run_at(g, 0);
    let mut j: usize = 1;
    while j < 8
        invariant
            1 <= j <= 8,
            g@.len() == 8,
            best_start < j,
            best_len <= 8,
            best_len == zero_run(g@, best_start as int),
            forall|k: int| 0 <= k < j ==> #[trigger] zero_run(g@, k) <= best_len,
            forall|k: int| 0 <= k < best_start ==> #[trigger] zero_run(g@, k) < best_len,
        decreases 8 - j,
    {
        let len = run_at(g, j);
        if len > best_len {
            best_start = j;
            best_len = len;
        }
        j = j + 1;
    }
    proof {
        lemma_zero_run_bound(g@, best_start as int);
    }
    (best_start, best_len)
}

proof fn lemma_zero_run_bound(g: Seq<u16>, i: int)
    requires
        0 <= i <= g.len(),
    ensures
        zero_run(g, i) <= g.len() - i,
    decreases g.len() - i,
{
    if i < g.len() {
        lemma_zero_run_bound(g, i + 1);
    }
}

/// How many zero segments follow from index `j` on.
fn run_at(g: &[u16; 8], j: usize) -> (r: usize)
    requires
        j <= 8,
    ensures
        r == zero_run(g@, j as int),
        r <= 8,
{
    proof {
        lemma_zero_run_bound(g@, j as int);
    }
    let mut k: usize = j;
    while k < 8 && g[k] == 0
        invariant
            j <= k <= 8,
            g@.len() == 8,
            forall|m: int| j <= m < k ==> g@[m] == 0,
            zero_run(g@, j as int) == (k - j) + zero_run(g@, k as int),
        decreases 8 - k,
    {
        k = k + 1;
    }
    k - j
}

/// Two first-longest runs of the same segments are the same run.
proof fn lemma_first_longest_unique(g: Seq<u16>, s1: int, l1: nat, s2: int, l2: nat)
    requires
        is_first_longest_zero_run(g, s1, l1),
        is_first_longest_zero_run(g, s2, l2),
        g.len() > 0,
    ensures
        s1 == s2 && l1 == l2,
{
    if s1 < g.len() {
        assert(zero_run(g, s1) <= l2);
    }
    if s2 < g.len() {
        assert(zero_run(g, s2) <= l1);
    }
    if s1 == g.len() {
        assert(zero_run(g, s1) == 0);
    }
    if s2 == g.len() {
        assert(zero_run(g, s2) == 0);
    }
    assert(l1 == l2);
    if s1 < s2 {
        assert(zero_run(g, s1) < l2);
    }
    if s2 < s1 {
        assert(zero_run(g, s2) < l1);
    }
}

fn push_ipv6(s: &mut String, g: &[u16; 8])
    ensures
        final(s)@ == old(s)@ + ipv6_text(g@),
{
    if g[0] == 0 && g[1] == 0 && g[2] == 0 && g[3] == 0 && g[4] == 0 && g[5] == 0xffff {
        crate::text::push_char(s, ':');
        crate::text::push_char(s, ':');
        crate::text::push_char(s, 'f');
        crate::text::push_char(s, 'f');
        crate::text::push_char(s, 'f');
        crate::text::push_char(s, 'f');
        crate::text::push_char(s, ':');
        let ghost mid = s@;
        let a = (g[6] / 256) as u8;
        let b = (g[6] % 256) as u8;
        let c = (g[7] / 256) as u8;
        let d = (g[7] % 256) as u8;
        push_ipv4(s, a, b, c, d);
        assert(final(s)@ =~= old(s)@ + ipv6_text(g@));
    } else {
        let (start, len) = first_longest_zero_run(g);
        proof {
            let pair = choose|st: int, ln: nat| is_first_longest_zero_run(g@, st, ln);
            assert(is_first_longest_zero_run(g@, start as int, len as nat));
            lemma_first_longest_unique(g@, pair.0, pair.1, start as int, len as nat);
        }
        if len > 1 {
            push_hex_join(s, g, 0, start);
            crate::text::push_char(s, ':');
            crate::text::push_char(s, ':');
            let ghost mid = s@;
            push_hex_join(s, g, start + len, 8);
            assert(g@.subrange(0, start as int) =~= g@.take(start as int));
            assert(g@.subrange((start + len) as int, 8) =~= g@.skip((start + len) as int));
        } else {
            push_hex_join(s, g, 0, 8);
            assert(g@.subrange(0, 8) =~= g@);
        }
        assert(final(s)@ =~= old(s)@ + ipv6_text(g@));
    }
}

} // verus!

verus! {

proof fn lemma_digit_char(d: nat)
    requires
        d < 16,
    ensures
        is_hex_digit(digit_char(d)),
        hex_digit_value(digit_char(d)) == d,
        d < 10 ==> is_dec_digit(digit_char(d)) && dec_digit_value(digit_char(d)) == d,
        digit_char(d) != ':',
        digit_char(d) != '.',
        d != 0 ==> digit_char(d) != '0',
{
}

/// The digits of `n` in base 10 or 16: what they are made of and what they
/// denote.
pub proof fn lemma_digits_text(n: nat, base: nat)
    requires
        base == 10 || base == 16,
    ensures
        digits_text(n, base).len() >= 1,
        forall|k: int|
            0 <= k < digits_text(n, base).len() ==> {
                let c = #[trigger] digits_text(n, base)[k];
                &&& is_hex_digit(c)
                &&& (base == 10 ==> is_dec_digit(c))
                &&& c != ':'
                &&& c != '.'
            },
        base == 10 ==> dec_value(digits_text(n, base)) == n,
        base == 16 ==> hex_value(digits_text(n, base)) == n,
        n >= 1 ==> digits_text(n, base)[0] != '0',
        n < base ==> digits_text(n, base).len() == 1,
        n >= base ==> digits_text(n, base).len() == digits_text(n / base, base).len() + 1,
    decreases n,
{
    let t = digits_text(n, base);
    if n < base {
        lemma_digit_char(n);
        assert(t.drop_last() =~= Seq::<char>::empty());
        assert(t.last() == digit_char(n));
        assert(dec_value(t) == dec_value(t.drop_last()) * 10 + dec_digit_value(t.last()));
        assert(hex_value(t) == hex_value(t.drop_last()) * 16 + hex_digit_value(t.last()));
    } else {
        assert(n / base < n) by (nonlinear_arith)
            requires
                base >= 2,
                n >= base,
        ;
        assert(n / base >= 1) by (nonlinear_arith)
            requires
                base >= 2,
                n >= base,
        ;
        lemma_digits_text(n / base, base);
        let d = n % base;
        assert(d < base) by (nonlinear_arith)
            requires
                base >= 2,
                d == n % base,
        ;
        lemma_digit_char(d);
        let prefix = digits_text(n / base, base);
        assert(t == prefix.push(digit_char(d)));
        assert(t.drop_last() =~= prefix);
        assert(n == (n / base) * base + d) by (nonlinear_arith)
            requires
                base >= 2,
                d == n % base,
        ;
        assert forall|k: int| 0 <= k < t.len() implies {
            let c = #[trigger] t[k];
            &&& is_hex_digit(c)
            &&& (base == 10 ==> is_dec_digit(c))
            &&& c != ':'
            &&& c != '.'
        } by {
            if k < prefix.len() {
                assert(t[k] == prefix[k]);
            } else {
                assert(t[k] == digit_char(d));
            }
        }
        assert(t[0] == prefix[0]);
        assert(t.last() == digit_char(d));
        if base == 10 {
            assert(dec_value(t) == dec_value(prefix) * 10 + dec_digit_value(t.last()));
            assert(n == (n / 10) * 10 + d);
        } else {
            assert(hex_value(t) == hex_value(prefix) * 16 + hex_digit_value(t.last()));
            assert(n == (n / 16) * 16 + d);
        }
    }
}

/// A value below 256 has at most three decimal digits.
proof fn lemma_dec_octet_len(n: nat)
    requires
        n <= 255,
    ensures
        digits_text(n, 10).len() <= 3,
{
    lemma_digits_text(n, 10);
    if n >= 10 {
        lemma_digits_text(n / 10, 10);
        if n / 10 >= 10 {
            lemma_digits_text(n / 100, 10);
            assert((n / 10) / 10 == n / 100);
        }
    }
}

/// A value below 65536 has at most four hexadecimal digits.
proof fn lemma_hex_group_len(n: nat)
    requires
        n < 65536,
    ensures
        digits_text(n, 16).len() <= 4,
{
    lemma_digits_text(n, 16);
    if n >= 16 {
        lemma_digits_text(n / 16, 16);
        if n / 16 >= 16 {
            lemma_digits_text(n / 256, 16);
            assert((n / 16) / 16 == n / 256);
            if n / 256 >= 16 {
                lemma_digits_text(n / 4096, 16);
                assert((n / 256) / 16 == n / 4096);
            }
        }
    }
}

/// The decimal text of an octet reads back as that octet.
proof fn lemma_dec_octet_roundtrip(n: u8)
    ensures
        dec_octet_spec(digits_text(n as nat, 10)) == Some(n),
{
    lemma_digits_text(n as nat, 10);
    lemma_dec_octet_len(n as nat);
    let t = digits_text(n as nat, 10);
    assert(all_dec_digits(t));
    if t.len() > 1 {
        assert(n as nat >= 10);
    }
}

/// The hexadecimal text of a segment reads back as that segment.
proof fn lemma_hex_group_roundtrip(n: u16)
    ensures
        hex_group_spec(digits_text(n as nat, 16)) == Some(n),
{
    lemma_digits_text(n as nat, 16);
    lemma_hex_group_len(n as nat);
    assert(all_hex_digits(digits_text(n as nat, 16)));
}

} // verus!

verus! {

/// Text made of digit characters holds no separator.
proof fn lemma_digits_have_no_sep(n: nat, base: nat)
    requires
        base == 10 || base == 16,
    ensures
        forall|k: int|
            0 <= k < digits_text(n, base).len() ==> #[trigger] digits_text(n, base)[k] != '.'
                && digits_text(n, base)[k] != ':',
        split_on(digits_text(n, base), '.') == seq![digits_text(n, base)],
        split_on(digits_text(n, base), ':') == seq![digits_text(n, base)],
{
    lemma_digits_text(n, base);
    lemma_split_on_without_sep(digits_text(n, base), '.');
    lemma_split_on_without_sep(digits_text(n, base), ':');
}

/// The fields of dotted-quad text are the four decimal texts.
proof fn lemma_ipv4_text_fields(o: Seq<u8>)
    requires
        o.len() == 4,
    ensures
        split_on(ipv4_text(o), '.') == seq![
            digits_text(o[0] as nat, 10),
            digits_text(o[1] as nat, 10),
            digits_text(o[2] as nat, 10),
            digits_text(o[3] as nat, 10),
        ],
{
    let d0 = digits_text(o[0] as nat, 10);
    let d1 = digits_text(o[1] as nat, 10);
    let d2 = digits_text(o[2] as nat, 10);
    let d3 = digits_text(o[3] as nat, 10);
    lemma_digits_have_no_sep(o[0] as nat, 10);
    lemma_digits_have_no_sep(o[1] as nat, 10);
    lemma_digits_have_no_sep(o[2] as nat, 10);
    lemma_digits_have_no_sep(o[3] as nat, 10);
    lemma_split_on_concat(d0, d1, '.');
    lemma_split_on_concat(d0 + seq!['.'] + d1, d2, '.');
    lemma_split_on_concat(d0 + seq!['.'] + d1 + seq!['.'] + d2, d3, '.');
    assert(split_on(ipv4_text(o), '.') =~= seq![d0, d1, d2, d3]);
}

/// Dotted-quad text reads back as the octets it was written from.
pub proof fn ipv4_text_parses_back(o: Seq<u8>)
    requires
        o.len() == 4,
    ensures
        ipv4_octets_spec(ipv4_text(o)) == Some(o),
{
    lemma_ipv4_text_fields(o);
    lemma_dec_octet_roundtrip(o[0]);
    lemma_dec_octet_roundtrip(o[1]);
    lemma_dec_octet_roundtrip(o[2]);
    lemma_dec_octet_roundtrip(o[3]);
    let f = split_on(ipv4_text(o), '.');
    assert(f[0] == digits_text(o[0] as nat, 10));
    assert(seq![
        dec_octet_spec(f[0])->0,
        dec_octet_spec(f[1])->0,
        dec_octet_spec(f[2])->0,
        dec_octet_spec(f[3])->0,
    ] =~= o);
}

} // verus!

verus! {

/// The hexadecimal texts of each segment.
spec fn hex_texts(g: Seq<u16>) -> Seq<Seq<char>> {
    Seq::new(g.len(), |i: int| digits_text(g[i] as nat, 16))
}

/// Whether `s` has no `::` anywhere.
spec fn no_double_colon(s: Seq<char>) -> bool {
    forall|k: int| 0 <= k && k + 1 < s.len() ==> !(#[trigger] s[k] == ':' && s[k + 1] == ':')
}

/// What `hex_join` writes: hex digits and single colons, cut back into the
/// segment texts at the colons.
proof fn lemma_hex_join(g: Seq<u16>)
    ensures
        forall|k: int|
            0 <= k < hex_join(g).len() ==> is_hex_digit(#[trigger] hex_join(g)[k]) || hex_join(
                g,
            )[k] == ':',
        forall|k: int| 0 <= k < hex_join(g).len() ==> #[trigger] hex_join(g)[k] != '.',
        no_double_colon(hex_join(g)),
        g.len() == 0 ==> hex_join(g).len() == 0,
        g.len() >= 1 ==> hex_join(g).len() >= 1 && hex_join(g)[0] != ':' && hex_join(g).last()
            != ':',
        g.len() >= 1 ==> split_on(hex_join(g), ':') == hex_texts(g),
    decreases g.len(),
{
    let s = hex_join(g);
    if g.len() == 0 {
    } else if g.len() == 1 {
        lemma_digits_have_no_sep(g[0] as nat, 16);
        lemma_digits_text(g[0] as nat, 16);
        assert(hex_texts(g) =~= seq![digits_text(g[0] as nat, 16)]);
        assert forall|k: int| 0 <= k && k + 1 < s.len() implies !(#[trigger] s[k] == ':' && s[k
            + 1] == ':') by {}
    } else {
        let p = g.drop_last();
        let hp = hex_join(p);
        let d = digits_text(g.last() as nat, 16);
        lemma_hex_join(p);
        lemma_digits_have_no_sep(g.last() as nat, 16);
        lemma_digits_text(g.last() as nat, 16);
        assert(s == hp + seq![':'] + d);
        assert forall|k: int| 0 <= k < s.len() implies is_hex_digit(#[trigger] s[k]) || s[k]
            == ':' by {
            if k < hp.len() {
                assert(s[k] == hp[k]);
            } else if k > hp.len() {
                assert(s[k] == d[k - hp.len() - 1]);
            }
        }
        assert forall|k: int| 0 <= k < s.len() implies #[trigger] s[k] != '.' by {
            if k < hp.len() {
                assert(s[k] == hp[k]);
            } else if k > hp.len() {
                assert(s[k] == d[k - hp.len() - 1]);
            }
        }
        assert forall|k: int| 0 <= k && k + 1 < s.len() implies !(#[trigger] s[k] == ':' && s[k
            + 1] == ':') by {
            if k + 1 < hp.len() {
                assert(s[k] == hp[k] && s[k + 1] == hp[k + 1]);
            } else if k + 1 == hp.len() {
                assert(s[k] == hp.last());
            } else if k == hp.len() {
                assert(s[k + 1] == d[0]);
            } else {
                assert(s[k] == d[k - hp.len() - 1]);
            }
        }
        assert(s[0] == hp[0]);
        assert(s.last() == d.last());
        lemma_split_on_concat(hp, d, ':');
        assert(hex_texts(g) =~= hex_texts(p) + seq![d]);
    }
}

/// The segment texts read back as the segments.
proof fn lemma_hex_texts_groups(g: Seq<u16>)
    ensures
        hex_groups_spec(hex_texts(g)) == Some(g),
    decreases g.len(),
{
    if g.len() > 0 {
        lemma_hex_texts_groups(g.drop_last());
        assert(hex_texts(g).drop_last() =~= hex_texts(g.drop_last()));
        lemma_hex_group_roundtrip(g.last());
        assert(g.drop_last().push(g.last()) =~= g);
    } else {
        assert(g =~= Seq::<u16>::empty());
    }
}

/// The same segments, when the last field may also be a dotted quad.
proof fn lemma_hex_texts_groups_with_v4(g: Seq<u16>)
    ensures
        groups_with_v4_spec(hex_texts(g)) == Some(g),
{
    if g.len() > 0 {
        lemma_hex_texts_groups(g.drop_last());
        assert(hex_texts(g).drop_last() =~= hex_texts(g.drop_last()));
        lemma_hex_group_roundtrip(g.last());
        assert(g.drop_last().push(g.last()) =~= g);
    } else {
        assert(g =~= Seq::<u16>::empty());
    }
}

/// The first `::` from `from` on is at `k` when none comes before it.
proof fn lemma_double_colon_at(s: Seq<char>, from: int, k: int)
    requires
        0 <= from <= k,
        k + 1 < s.len(),
        s[k] == ':' && s[k + 1] == ':',
        forall|j: int| from <= j < k ==> !(#[trigger] s[j] == ':' && s[j + 1] == ':'),
    ensures
        double_colon_from(s, from) == Some(k),
    decreases k - from,
{
    if from < k {
        lemma_double_colon_at(s, from + 1, k);
    }
}

/// There is no `::` from `from` on.
proof fn lemma_double_colon_none(s: Seq<char>, from: int)
    requires
        0 <= from,
        no_double_colon(s),
    ensures
        double_colon_from(s, from) is None,
    decreases s.len() - from,
{
    if from + 1 < s.len() {
        lemma_double_colon_none(s, from + 1);
    }
}

} // verus!

verus! {

/// A run of zeros lies inside the segments and holds only zeros.
proof fn lemma_zero_run_zeros(g: Seq<u16>, i: int)
    requires
        0 <= i,
    ensures
        i + zero_run(g, i) <= g.len() || zero_run(g, i) == 0,
        forall|k: int| i <= k < i + zero_run(g, i) ==> #[trigger] g[k] == 0,
    decreases g.len() - i,
{
    if 0 <= i < g.len() && g[i] == 0 {
        lemma_zero_run_zeros(g, i + 1);
    }
}

/// The first longest run among the runs starting at indices `0..=j`.
spec fn best_run_upto(g: Seq<u16>, j: int) -> (int, nat)
    decreases j,
{
    if j <= 0 {
        (0, zero_run(g, 0))
    } else {
        let (s, l) = best_run_upto(g, j - 1);
        if zero_run(g, j) > l {
            (j, zero_run(g, j))
        } else {
            (s, l)
        }
    }
}

proof fn lemma_best_run_upto(g: Seq<u16>, j: int)
    requires
        0 <= j,
    ensures
        ({
            let (s, l) = best_run_upto(g, j);
            &&& 0 <= s <= j
            &&& l == zero_run(g, s)
            &&& forall|k: int| 0 <= k <= j ==> #[trigger] zero_run(g, k) <= l
            &&& forall|k: int| 0 <= k < s ==> #[trigger] zero_run(g, k) < l
        }),
    decreases j,
{
    if j > 0 {
        lemma_best_run_upto(g, j - 1);
    }
}

/// Every sequence of segments has a first longest run of zeros.
proof fn lemma_first_longest_exists(g: Seq<u16>)
    requires
        g.len() > 0,
    ensures
        exists|start: int, len: nat| is_first_longest_zero_run(g, start, len),
{
    lemma_best_run_upto(g, g.len() - 1);
    let (s, l) = best_run_upto(g, g.len() - 1);
    assert(is_first_longest_zero_run(g, s, l));
}

/// Text without `.` is not dotted-quad text.
proof fn lemma_not_ipv4_without_dot(s: Seq<char>)
    requires
        forall|k: int| 0 <= k < s.len() ==> #[trigger] s[k] != '.',
    ensures
        ipv4_octets_spec(s) is None,
{
    lemma_split_on_without_sep(s, '.');
}

/// The first field of a split is where the text starts.
proof fn lemma_split_on_first(s: Seq<char>, sep: char)
    ensures
        split_on(s, sep)[0].len() <= s.len(),
        s.take(split_on(s, sep)[0].len() as int) == split_on(s, sep)[0],
    decreases s.len(),
{
    lemma_split_on_len(s, sep);
    if s.len() > 0 {
        let p = s.drop_last();
        lemma_split_on_first(p, sep);
        lemma_split_on_len(p, sep);
        let fp = split_on(p, sep);
        if s.last() == sep {
            assert(split_on(s, sep)[0] == fp[0]);
            assert(s.take(fp[0].len() as int) =~= p.take(fp[0].len() as int));
        } else if fp.len() == 1 {
            assert(split_on(s, sep)[0] == fp[0].push(s.last()));
            assert(fp[0] == p) by {
                assert(p.take(fp[0].len() as int) == fp[0]);
                lemma_split_on_first_whole(p, sep);
            }
            assert(s.take(fp[0].len() + 1 as int) =~= fp[0].push(s.last()));
        } else {
            assert(split_on(s, sep)[0] == fp[0]);
            assert(s.take(fp[0].len() as int) =~= p.take(fp[0].len() as int));
        }
    } else {
        assert(split_on(s, sep)[0] =~= Seq::<char>::empty());
    }
}

/// With a single field, the field is the whole text.
proof fn lemma_split_on_first_whole(s: Seq<char>, sep: char)
    requires
        split_on(s, sep).len() == 1,
    ensures
        split_on(s, sep)[0] == s,
    decreases s.len(),
{
    if s.len() > 0 {
        let p = s.drop_last();
        lemma_split_on_len(p, sep);
        assert(s.last() != sep);
        lemma_split_on_first_whole(p, sep);
        assert(p.push(s.last()) =~= s);
    } else {
        assert(split_on(s, sep)[0] =~= s);
    }
}

/// Dotted-quad text starts with a decimal digit.
proof fn lemma_ipv4_starts_with_digit(s: Seq<char>)
    requires
        ipv4_octets_spec(s) is Some,
    ensures
        s.len() > 0 && is_dec_digit(s[0]),
{
    lemma_split_on_first(s, '.');
    let f0 = split_on(s, '.')[0];
    assert(f0.len() >= 1);
    assert(s.take(f0.len() as int)[0] == s[0]);
    assert(is_dec_digit(f0[0]));
}

} // verus!

verus! {

/// Dotted-quad text holds no `:` and is not a hexadecimal group.
proof fn lemma_ipv4_text_chars(o: Seq<u8>)
    requires
        o.len() == 4,
    ensures
        forall|k: int| 0 <= k < ipv4_text(o).len() ==> #[trigger] ipv4_text(o)[k] != ':',
        hex_group_spec(ipv4_text(o)) is None,
{
    let d0 = digits_text(o[0] as nat, 10);
    let d1 = digits_text(o[1] as nat, 10);
    let d2 = digits_text(o[2] as nat, 10);
    let d3 = digits_text(o[3] as nat, 10);
    lemma_digits_have_no_sep(o[0] as nat, 10);
    lemma_digits_have_no_sep(o[1] as nat, 10);
    lemma_digits_have_no_sep(o[2] as nat, 10);
    lemma_digits_have_no_sep(o[3] as nat, 10);
    let t = ipv4_text(o);
    let a1 = d0 + seq!['.'];
    let a2 = a1 + d1;
    let a3 = a2 + seq!['.'];
    let a4 = a3 + d2;
    let a5 = a4 + seq!['.'];
    assert(t == a5 + d3);
    assert forall|k: int| 0 <= k < t.len() implies #[trigger] t[k] != ':' by {
        if k >= a5.len() {
            assert(t[k] == d3[k - a5.len()]);
        } else if k >= a4.len() {
        } else if k >= a3.len() {
            assert(t[k] == d2[k - a3.len()]);
        } else if k >= a2.len() {
        } else if k >= a1.len() {
            assert(t[k] == d1[k - a1.len()]);
        } else if k >= d0.len() {
        } else {
            assert(t[k] == d0[k]);
        }
    }
    assert(t[d0.len() as int] == '.');
    assert(!is_hex_digit(t[d0.len() as int]));
}

/// `ffff` reads as the segment 0xffff.
proof fn lemma_ffff()
    ensures
        hex_group_spec(seq!['f', 'f', 'f', 'f']) == Some(0xffffu16),
{
    let f4 = seq!['f', 'f', 'f', 'f'];
    assert(f4.drop_last() =~= seq!['f', 'f', 'f']);
    assert(seq!['f', 'f', 'f'].drop_last() =~= seq!['f', 'f']);
    assert(seq!['f', 'f'].drop_last() =~= seq!['f']);
    assert(seq!['f'].drop_last() =~= Seq::<char>::empty());
    assert(('f' as nat) == 102);
    assert(('a' as nat) == 97);
    assert(hex_digit_value('f') == 15);
    assert(seq!['f'].last() == 'f');
    assert(hex_value(Seq::<char>::empty()) == 0);
    assert(hex_value(seq!['f']) == hex_value(seq!['f'].drop_last()) * 16 + hex_digit_value(
        seq!['f'].last(),
    ));
    assert(hex_value(seq!['f']) == 15);
    assert(hex_value(seq!['f', 'f']) == 255);
    assert(hex_value(seq!['f', 'f', 'f']) == 4095);
    assert(hex_value(f4) == 65535);
    assert(all_hex_digits(f4));
}

/// The text of an IPv4-mapped address reads back as the same segments, and is
/// not dotted-quad text.
proof fn lemma_ipv6_mapped_roundtrip(g: Seq<u16>)
    requires
        g.len() == 8,
        is_v4_mapped(g),
    ensures
        ipv6_segments_spec(ipv6_text(g)) == Some(g),
        ipv4_octets_spec(ipv6_text(g)) is None,
{
    let o = seq![(g[6] / 256) as u8, (g[6] % 256) as u8, (g[7] / 256) as u8, (g[7] % 256) as u8];
    let v4 = ipv4_text(o);
    let prefix = seq![':', ':', 'f', 'f', 'f', 'f', ':'];
    let text = prefix + v4;
    assert(ipv6_text(g) == text);
    if ipv4_octets_spec(text) is Some {
        lemma_ipv4_starts_with_digit(text);
        assert(text[0] == ':');
    }
    assert(double_colon_from(text, 0) == Some(0int));
    let ffff = seq!['f', 'f', 'f', 'f'];
    let tail = text.skip(2);
    assert(tail =~= ffff + seq![':'] + v4);
    assert(text.take(0) =~= Seq::<char>::empty());
    lemma_ipv4_text_chars(o);
    lemma_split_on_without_sep(v4, ':');
    lemma_split_on_without_sep(ffff, ':');
    lemma_split_on_concat(ffff, v4, ':');
    let f = split_on(tail, ':');
    assert(f =~= seq![ffff, v4]);
    lemma_ffff();
    assert(f.drop_last() =~= seq![ffff]);
    assert(seq![ffff].drop_last() =~= Seq::<Seq<char>>::empty());
    assert(hex_groups_spec(Seq::<Seq<char>>::empty()) == Some(Seq::<u16>::empty()));
    assert(seq![ffff].last() == ffff);
    assert(Seq::<u16>::empty().push(0xffffu16) =~= seq![0xffffu16]);
    assert(hex_groups_spec(seq![ffff]) == Some(seq![0xffffu16]));
    ipv4_text_parses_back(o);
    let hi = (o[0] as u16 * 256 + o[1] as u16) as u16;
    let lo = (o[2] as u16 * 256 + o[3] as u16) as u16;
    assert(hi == g[6]);
    assert(lo == g[7]);
    let t = seq![0xffffu16].push(hi).push(lo);
    assert(groups_with_v4_spec(f) == Some(t));
    assert(Seq::<u16>::empty() + zeros(5) + t =~= g);
}

/// The text of any other address reads back as the same segments, and is not
/// dotted-quad text.
proof fn lemma_ipv6_plain_roundtrip(g: Seq<u16>)
    requires
        g.len() == 8,
        !is_v4_mapped(g),
    ensures
        ipv6_segments_spec(ipv6_text(g)) == Some(g),
        ipv4_octets_spec(ipv6_text(g)) is None,
{
    lemma_first_longest_exists(g);
    let (start, len) = choose|start: int, len: nat| is_first_longest_zero_run(g, start, len);
    assert(is_first_longest_zero_run(g, start, len));
    lemma_zero_run_zeros(g, start);
    let text = ipv6_text(g);
    if len > 1 {
        let h = g.take(start);
        let t = g.skip(start + len);
        let hh = hex_join(h);
        let ht = hex_join(t);
        lemma_hex_join(h);
        lemma_hex_join(t);
        assert(text == hh + seq![':', ':'] + ht);
        assert forall|k: int| 0 <= k < text.len() implies #[trigger] text[k] != '.' by {
            if k < hh.len() {
                assert(text[k] == hh[k]);
            } else if k >= hh.len() + 2 {
                assert(text[k] == ht[k - hh.len() - 2]);
            }
        }
        lemma_not_ipv4_without_dot(text);
        let k0 = hh.len() as int;
        assert forall|j: int| 0 <= j < k0 implies !(#[trigger] text[j] == ':' && text[j + 1]
            == ':') by {
            if j + 1 < k0 {
                assert(text[j] == hh[j] && text[j + 1] == hh[j + 1]);
            } else {
                assert(text[j] == hh.last());
            }
        }
        lemma_double_colon_at(text, 0, k0);
        assert(text.take(k0) =~= hh);
        assert(text.skip(k0 + 2) =~= ht);
        if h.len() > 0 {
            lemma_hex_texts_groups(h);
        }
        if t.len() > 0 {
            lemma_hex_texts_groups_with_v4(t);
        }
        assert(h + zeros((8 - h.len() - t.len()) as nat) + t =~= g);
    } else {
        lemma_hex_join(g);
        assert(text == hex_join(g));
        lemma_not_ipv4_without_dot(text);
        lemma_double_colon_none(text, 0);
        lemma_hex_texts_groups_with_v4(g);
    }
}

/// The text written for an address parses back to that same address: what the
/// server prints for a host can be given to `--host` again.
pub proof fn text_parses_back(a: IpAddr)
    ensures
        ip_from_text(a.text()) == Some(a),
{
    match a {
        IpAddr::V4(v) => {
            ipv4_text_parses_back(v.octets_spec());
        },
        IpAddr::V6(v) => {
            let g = v.segments_spec();
            if is_v4_mapped(g) {
                lemma_ipv6_mapped_roundtrip(g);
            } else {
                lemma_ipv6_plain_roundtrip(g);
            }
        },
    }
}

} // verus!

verus! {

/// Fields joined with single `:` between them.
pub open spec fn colon_join(t: Seq<Seq<char>>) -> Seq<char>
    decreases t.len(),
{
    if t.len() == 0 {
        Seq::<char>::empty()
    } else if t.len() == 1 {
        t[0]
    } else {
        colon_join(t.drop_last()) + seq![':'] + t.last()
    }
}

/// A field of one to four hexadecimal digits, either case, leading zeros
/// allowed.
pub open spec fn is_hex_field(t: Seq<char>) -> bool {
    1 <= t.len() <= 4 && all_hex_digits(t)
}

proof fn lemma_hex_value_bound(s: Seq<char>)
    requires
        all_hex_digits(s),
    ensures
        hex_value(s) < crate::lexical::pow16(s.len() as int),
    decreases s.len(),
{
    if s.len() > 0 {
        let p = s.drop_last();
        assert(all_hex_digits(p)) by {
            assert forall|k: int| 0 <= k < p.len() implies is_hex_digit(#[trigger] p[k]) by {
                assert(p[k] == s[k]);
            }
        }
        lemma_hex_value_bound(p);
        assert(is_hex_digit(s[s.len() - 1]));
        assert(hex_digit_value(s.last()) < 16);
        let a = hex_value(p);
        let b = crate::lexical::pow16(p.len() as int);
        let d = hex_digit_value(s.last());
        assert(a * 16 + d < b * 16) by (nonlinear_arith)
            requires
                a < b,
                d < 16,
        ;
        assert(crate::lexical::pow16(s.len() as int) == 16 * b);
    }
}

/// A hex field's value fits a segment.
proof fn lemma_hex_field_value(t: Seq<char>)
    requires
        is_hex_field(t),
    ensures
        hex_value(t) < 65536,
        hex_group_spec(t) == Some(hex_value(t) as u16),
{
    lemma_hex_value_bound(t);
    assert(crate::lexical::pow16(0) == 1);
    assert(crate::lexical::pow16(1) == 16);
    assert(crate::lexical::pow16(2) == 256);
    assert(crate::lexical::pow16(3) == 4096);
    assert(crate::lexical::pow16(4) == 65536);
}

/// Fields that are hexadecimal groups read as their values.
proof fn lemma_hex_fields_groups(t: Seq<Seq<char>>)
    requires
        forall|i: int| 0 <= i < t.len() ==> is_hex_field(#[trigger] t[i]),
    ensures
        hex_groups_spec(t) == Some(Seq::new(t.len(), |i: int| hex_value(t[i]) as u16)),
    decreases t.len(),
{
    if t.len() > 0 {
        let p = t.drop_last();
        assert forall|i: int| 0 <= i < p.len() implies is_hex_field(#[trigger] p[i]) by {
            assert(p[i] == t[i]);
        }
        lemma_hex_fields_groups(p);
        lemma_hex_field_value(t.last());
        assert(Seq::new(p.len(), |i: int| hex_value(p[i]) as u16).push(hex_value(t.last()) as u16)
            =~= Seq::new(t.len(), |i: int| hex_value(t[i]) as u16));
    } else {
        assert(Seq::new(t.len(), |i: int| hex_value(t[i]) as u16) =~= Seq::<u16>::empty());
    }
}

/// Joining hexadecimal fields with `:` gives text of hex digits and single
/// colons that cuts back into the same fields.
proof fn lemma_colon_join(t: Seq<Seq<char>>)
    requires
        t.len() >= 1,
        forall|i: int| 0 <= i < t.len() ==> is_hex_field(#[trigger] t[i]),
    ensures
        split_on(colon_join(t), ':') == t,
        no_double_colon(colon_join(t)),
        forall|k: int| 0 <= k < colon_join(t).len() ==> #[trigger] colon_join(t)[k] != '.',
        colon_join(t).len() >= 1,
        colon_join(t).last() != ':',
    decreases t.len(),
{
    let s = colon_join(t);
    let x = t.last();
    assert(is_hex_field(x));
    assert forall|k: int| 0 <= k < x.len() implies #[trigger] x[k] != ':' && x[k] != '.' by {
        assert(is_hex_digit(x[k]));
    }
    if t.len() == 1 {
        lemma_split_on_without_sep(x, ':');
        assert(t =~= seq![x]);
        assert forall|k: int| 0 <= k && k + 1 < s.len() implies !(#[trigger] s[k] == ':' && s[k
            + 1] == ':') by {}
    } else {
        let p = t.drop_last();
        assert forall|i: int| 0 <= i < p.len() implies is_hex_field(#[trigger] p[i]) by {
            assert(p[i] == t[i]);
        }
        lemma_colon_join(p);
        let hp = colon_join(p);
        assert(s == hp + seq![':'] + x);
        lemma_split_on_without_sep(x, ':');
        lemma_split_on_concat(hp, x, ':');
        assert(p + seq![x] =~= t);
        assert forall|k: int| 0 <= k < s.len() implies #[trigger] s[k] != '.' by {
            if k < hp.len() {
                assert(s[k] == hp[k]);
            } else if k > hp.len() {
                assert(s[k] == x[k - hp.len() - 1]);
            }
        }
        assert forall|k: int| 0 <= k && k + 1 < s.len() implies !(#[trigger] s[k] == ':' && s[k
            + 1] == ':') by {
            if k + 1 < hp.len() {
                assert(s[k] == hp[k] && s[k + 1] == hp[k + 1]);
            } else if k + 1 == hp.len() {
                assert(s[k] == hp.last());
            } else if k == hp.len() {
                assert(s[k + 1] == x[0]);
            } else {
                assert(s[k] == x[k - hp.len() - 1]);
            }
        }
        assert(s.last() == x.last());
    }
}

/// Any eight hexadecimal fields of one to four digits (either case, leading
/// zeros allowed) joined with `:` are IPv6 text for the address whose segments
/// are their values, in order.
pub proof fn eight_hex_fields_parse(t: Seq<Seq<char>>)
    requires
        t.len() == 8,
        forall|i: int| 0 <= i < 8 ==> is_hex_field(#[trigger] t[i]),
    ensures
        ip_from_text(colon_join(t)) matches Some(IpAddr::V6(a)) && forall|i: int|
            0 <= i < 8 ==> a.segments_spec()[i] == hex_value(#[trigger] t[i]),
{
    let s = colon_join(t);
    lemma_colon_join(t);
    lemma_not_ipv4_without_dot(s);
    lemma_double_colon_none(s, 0);
    lemma_hex_fields_groups(t);
    let g = Seq::new(t.len(), |i: int| hex_value(t[i]) as u16);
    assert(t.drop_last().len() == 7);
    assert forall|i: int| 0 <= i < t.drop_last().len() implies is_hex_field(
        #[trigger] t.drop_last()[i],
    ) by {
        assert(t.drop_last()[i] == t[i]);
    }
    lemma_hex_fields_groups(t.drop_last());
    lemma_hex_field_value(t.last());
    assert(Seq::new(7, |i: int| hex_value(t.drop_last()[i]) as u16).push(
        hex_value(t.last()) as u16,
    ) =~= g);
    assert(groups_with_v4_spec(t) == Some(g));
    assert(ipv6_segments_spec(s) == Some(g));
    assert forall|i: int| 0 <= i < 8 implies g[i] == hex_value(#[trigger] t[i]) by {
        lemma_hex_field_value(t[i]);
    }
}

} // verus!
