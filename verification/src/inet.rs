//! Internet addresses and ports written as text: the forms `Ipv4Addr`,
//! `Ipv6Addr` and `u16` accept from a string.
//!
//! - A port is decimal digits, after an optional `+`, with a value of at
//!   most 65535.
//! - An IPv4 address is four decimal octets between dots; an octet has one
//!   to three digits, no leading zero, and a value of at most 255.
//! - An IPv6 address is eight groups of one to four hex digits between
//!   colons; the last two groups may be written as an IPv4 address, and one
//!   `::` may stand for one or more groups of zeros.
use vstd::prelude::*;

verus! {

// ---------------------------------------------------------------------------
// Characters and pieces
// ---------------------------------------------------------------------------

/// The pieces of `t` between the separators `sep`, as `str::split` gives
/// them.
pub open spec fn split_on(t: Seq<char>, sep: char) -> Seq<Seq<char>>
    decreases t.len(),
{
    if t.len() == 0 {
        seq![Seq::empty()]
    } else {
        let init = split_on(t.drop_last(), sep);
        if t.last() == sep {
            init.push(Seq::empty())
        } else {
            init.update(init.len() - 1, init.last().push(t.last()))
        }
    }
}

/// There is always at least one piece.
pub proof fn lemma_split_on_len(t: Seq<char>, sep: char)
    ensures
        split_on(t, sep).len() >= 1,
    decreases t.len(),
{
    if t.len() > 0 {
        lemma_split_on_len(t.drop_last(), sep);
    }
}

/// The texts of some character vectors.
pub open spec fn char_seqs(v: Seq<Vec<char>>) -> Seq<Seq<char>> {
    v.map_values(|x: Vec<char>| x@)
}

/// The characters of `s`.
pub fn chars_of(s: &str) -> (r: Vec<char>)
    ensures
        r@ == s@,
{
    broadcast use vstd::string::axiom_spec_iter;
    let mut out: Vec<char> = Vec::new();
    for c in it: s.chars()
        invariant
            it.seq() == s@,
            out@ == s@.take(it.index() as int),
    {
        proof { assert(s@.take(it.index() as int + 1) =~= out@.push(c)); }
        out.push(c);
    }
    proof { assert(s@.take(s@.len() as int) =~= s@); }
    out
}

/// Splits the characters `v[lo..hi]` at `sep`.
pub fn split_chars(v: &Vec<char>, lo: usize, hi: usize, sep: char) -> (r: Vec<Vec<char>>)
    requires
        lo <= hi <= v@.len(),
    ensures
        char_seqs(r@) == split_on(v@.subrange(lo as int, hi as int), sep),
{
    let mut pieces: Vec<Vec<char>> = Vec::new();
    let mut current: Vec<char> = Vec::new();
    let mut i: usize = lo;
    proof { assert(char_seqs(pieces@).push(current@) =~= split_on(v@.subrange(lo as int, lo as int), sep)); }
    while i < hi
        invariant
            lo <= i <= hi,
            hi <= v@.len(),
            char_seqs(pieces@).push(current@) == split_on(v@.subrange(lo as int, i as int), sep),
        decreases hi - i,
    {
        let c = v[i];
        let ghost t = v@.subrange(lo as int, i + 1);
        let ghost before = char_seqs(pieces@);
        let ghost cur = current@;
        proof {
            assert(t.drop_last() =~= v@.subrange(lo as int, i as int));
            assert(t.last() == c);
        }
        if c == sep {
            pieces.push(current);
            current = Vec::new();
            proof {
                assert(char_seqs(pieces@) =~= before.push(cur));
                assert(char_seqs(pieces@).push(current@) =~= before.push(cur).push(Seq::empty()));
            }
        } else {
            current.push(c);
            proof {
                assert(char_seqs(pieces@) =~= before);
                assert(before.push(cur).update(before.len() as int, cur.push(c)) =~= before.push(current@));
            }
        }
        i = i + 1;
    }
    let ghost before = char_seqs(pieces@);
    let ghost cur = current@;
    pieces.push(current);
    proof { assert(char_seqs(pieces@) =~= before.push(cur)); }
    pieces
}

// ---------------------------------------------------------------------------
// Numbers
// ---------------------------------------------------------------------------

/// Whether `c` is a decimal digit.
pub open spec fn is_digit(c: char) -> bool {
    48 <= (c as u32) && (c as u32) <= 57
}

/// Whether every character of `d` is a decimal digit.
pub open spec fn all_digits(d: Seq<char>) -> bool {
    forall|i: int| 0 <= i < d.len() ==> is_digit(#[trigger] d[i])
}

/// The value of decimal digits.
pub open spec fn decimal_value(d: Seq<char>) -> int
    decreases d.len(),
{
    if d.len() == 0 {
        0
    } else {
        decimal_value(d.drop_last()) * 10 + ((d.last() as u32) as int - 48)
    }
}

/// The value of a hex digit, if `c` is one.
pub open spec fn hex_digit(c: char) -> Option<int> {
    let u = c as u32;
    if 48 <= u && u <= 57 {
        Some(u - 48)
    } else if 97 <= u && u <= 102 {
        Some(u - 87)
    } else if 65 <= u && u <= 70 {
        Some(u - 55)
    } else {
        None
    }
}

/// Whether every character of `d` is a hex digit.
pub open spec fn all_hex(d: Seq<char>) -> bool {
    forall|i: int| 0 <= i < d.len() ==> (#[trigger] hex_digit(d[i])) is Some
}

/// The value of hex digits.
pub open spec fn hex_value(d: Seq<char>) -> int
    decreases d.len(),
{
    if d.len() == 0 {
        0
    } else {
        hex_value(d.drop_last()) * 16 + hex_digit(d.last()).unwrap()
    }
}

/// Ten or sixteen to a power of at most four.
pub open spec fn small_pow(base: int, i: int) -> int {
    if i <= 0 {
        1
    } else if i == 1 {
        base
    } else if i == 2 {
        base * base
    } else if i == 3 {
        base * base * base
    } else {
        base * base * base * base
    }
}

/// More digits never make a smaller value.
proof fn lemma_decimal_grows(d: Seq<char>, k: int)
    requires
        all_digits(d),
        0 <= k <= d.len(),
    ensures
        0 <= decimal_value(d.take(k)) <= decimal_value(d),
    decreases d.len(),
{
    if d.len() > 0 {
        assert(is_digit(d[d.len() - 1]));
        assert(all_digits(d.drop_last())) by {
            assert forall|i: int| 0 <= i < d.drop_last().len() implies is_digit(#[trigger] d.drop_last()[i]) by {
                assert(d.drop_last()[i] == d[i]);
            }
        }
        if k == d.len() {
            assert(d.take(k) =~= d);
            lemma_decimal_grows(d.drop_last(), 0);
        } else {
            assert(d.take(k) =~= d.drop_last().take(k));
            lemma_decimal_grows(d.drop_last(), k);
        }
    } else {
        assert(d.take(k) =~= d);
    }
}

/// The digits of a port: the text after a leading `+`, if there is one.
pub open spec fn port_digits(t: Seq<char>) -> Seq<char> {
    if t.len() > 0 && t[0] == '+' {
        t.skip(1)
    } else {
        t
    }
}

/// The port `t` names: `u16::from_str`.
pub open spec fn port_parse(t: Seq<char>) -> Option<u16> {
    let d = port_digits(t);
    if d.len() > 0 && all_digits(d) && decimal_value(d) <= 65535 {
        Some(decimal_value(d) as u16)
    } else {
        None
    }
}

/// One octet of an IPv4 address: one to three digits, no leading zero, at
/// most 255.
pub open spec fn octet_parse(p: Seq<char>) -> Option<u8> {
    if 1 <= p.len() <= 3 && all_digits(p) && !(p.len() > 1 && p[0] == '0') && decimal_value(p) <= 255 {
        Some(decimal_value(p) as u8)
    } else {
        None
    }
}

/// One group of an IPv6 address: one to four hex digits.
pub open spec fn hex_group_parse(p: Seq<char>) -> Option<u16> {
    if 1 <= p.len() <= 4 && all_hex(p) {
        Some(hex_value(p) as u16)
    } else {
        None
    }
}

/// Reads a port: `u16::from_str`.
pub fn parse_port(p: &Vec<char>) -> (r: Option<u16>)
    ensures
        r == port_parse(p@),
{
    let n = p.len();
    let start: usize = if n > 0 && p[0] == '+' {
        1
    } else {
        0
    };
    let ghost d = p@.subrange(start as int, n as int);
    proof {
        if n > 0 && p@[0] == '+' {
            assert(p@.skip(1) =~= d);
        } else {
            assert(p@ =~= d);
        }
    }
    if start == n {
        return None;
    }
    let mut v: u32 = 0;
    let mut big = false;
    let mut i: usize = start;
    proof { assert(p@.subrange(start as int, start as int) =~= Seq::<char>::empty()); }
    while i < n
        invariant
            start <= i <= n,
            n == p@.len(),
            d == p@.subrange(start as int, n as int),
            d == port_digits(p@),
            all_digits(p@.subrange(start as int, i as int)),
            !big ==> v == decimal_value(p@.subrange(start as int, i as int)) && v <= 65535,
            big ==> decimal_value(p@.subrange(start as int, i as int)) > 65535,
        decreases n - i,
    {
        let c = p[i];
        let cu = c as u32;
        if cu < 48 || cu > 57 {
            proof {
                assert(d[i - start] == c);
                assert(!is_digit(d[i - start]));
            }
            return None;
        }
        let ghost s0 = p@.subrange(start as int, i as int);
        let ghost s1 = p@.subrange(start as int, i + 1);
        proof {
            assert(s1.drop_last() =~= s0);
            assert(s1.last() == c);
            assert(all_digits(s1)) by {
                assert forall|j: int| 0 <= j < s1.len() implies is_digit(#[trigger] s1[j]) by {
                    if j < s0.len() {
                        assert(s1[j] == s0[j]);
                    }
                }
            }
        }
        if !big {
            v = v * 10 + (cu - 48);
            if v > 65535 {
                big = true;
            }
        }
        i = i + 1;
    }
    proof {
        assert(p@.subrange(start as int, i as int) =~= d);
        if big {
            lemma_decimal_grows(d, d.len() as int);
        }
    }
    if big {
        None
    } else {
        Some(v as u16)
    }
}

/// Reads an octet of an IPv4 address.
fn parse_octet(p: &Vec<char>) -> (r: Option<u8>)
    ensures
        r == octet_parse(p@),
{
    let n = p.len();
    if n == 0 || n > 3 {
        return None;
    }
    let mut v: u32 = 0;
    let mut i: usize = 0;
    proof { assert(p@.take(0) =~= Seq::<char>::empty()); }
    while i < n
        invariant
            i <= n <= 3,
            n == p@.len(),
            all_digits(p@.take(i as int)),
            v == decimal_value(p@.take(i as int)),
            v < small_pow(10, i as int),
        decreases n - i,
    {
        let c = p[i];
        let cu = c as u32;
        if cu < 48 || cu > 57 {
            proof { assert(!is_digit(p@[i as int])); }
            return None;
        }
        let ghost s0 = p@.take(i as int);
        let ghost s1 = p@.take(i + 1);
        proof {
            assert(s1.drop_last() =~= s0);
            assert(s1.last() == c);
            assert(all_digits(s1)) by {
                assert forall|j: int| 0 <= j < s1.len() implies is_digit(#[trigger] s1[j]) by {
                    if j < s0.len() {
                        assert(s1[j] == s0[j]);
                    }
                }
            }
        }
        v = v * 10 + (cu - 48);
        i = i + 1;
    }
    proof { assert(p@.take(n as int) =~= p@); }
    if n > 1 && p[0] == '0' {
        return None;
    }
    if v > 255 {
        None
    } else {
        Some(v as u8)
    }
}

/// The value of a hex digit.
fn hex_digit_of(c: char) -> (r: Option<u32>)
    ensures
        match hex_digit(c) {
            Some(x) => r == Some(x as u32),
            None => r is None,
        },
{
    let u = c as u32;
    if 48 <= u && u <= 57 {
        Some(u - 48)
    } else if 97 <= u && u <= 102 {
        Some(u - 87)
    } else if 65 <= u && u <= 70 {
        Some(u - 55)
    } else {
        None
    }
}

/// Reads a group of an IPv6 address.
fn parse_hex_group(p: &Vec<char>) -> (r: Option<u16>)
    ensures
        r == hex_group_parse(p@),
{
    let n = p.len();
    if n == 0 || n > 4 {
        return None;
    }
    let mut v: u32 = 0;
    let mut i: usize = 0;
    proof { assert(p@.take(0) =~= Seq::<char>::empty()); }
    while i < n
        invariant
            i <= n <= 4,
            n == p@.len(),
            all_hex(p@.take(i as int)),
            v == hex_value(p@.take(i as int)),
            v < small_pow(16, i as int),
        decreases n - i,
    {
        let c = p[i];
        let d = match hex_digit_of(c) {
            Some(d) => d,
            None => {
                proof { assert(hex_digit(p@[i as int]) is None); }
                return None;
            },
        };
        let ghost s0 = p@.take(i as int);
        let ghost s1 = p@.take(i + 1);
        proof {
            assert(s1.drop_last() =~= s0);
            assert(s1.last() == c);
            assert(all_hex(s1)) by {
                assert forall|j: int| 0 <= j < s1.len() implies (#[trigger] hex_digit(s1[j])) is Some by {
                    if j < s0.len() {
                        assert(s1[j] == s0[j]);
                    }
                }
            }
        }
        v = v * 16 + d;
        i = i + 1;
    }
    proof { assert(p@.take(n as int) =~= p@); }
    Some(v as u16)
}

// ---------------------------------------------------------------------------
// IPv4
// ---------------------------------------------------------------------------

/// The four bytes of the IPv4 address `t`: `Ipv4Addr::from_str`.
pub open spec fn ipv4_parse(t: Seq<char>) -> Option<Seq<u8>> {
    let ps = split_on(t, '.');
    if ps.len() != 4 {
        None
    } else {
        match (octet_parse(ps[0]), octet_parse(ps[1]), octet_parse(ps[2]), octet_parse(ps[3])) {
            (Some(a), Some(b), Some(c), Some(d)) => Some(seq![a, b, c, d]),
            _ => None,
        }
    }
}

/// Reads an IPv4 address.
pub fn parse_ipv4(t: &Vec<char>) -> (r: Option<[u8; 4]>)
    ensures
        match ipv4_parse(t@) {
            Some(b) => r matches Some(a) && a@ == b,
            None => r is None,
        },
{
    let ps = split_chars(t, 0, t.len(), '.');
    proof { assert(t@.subrange(0, t@.len() as int) =~= t@); }
    if ps.len() != 4 {
        return None;
    }
    proof {
        assert(char_seqs(ps@)[0] == ps@[0]@);
        assert(char_seqs(ps@)[1] == ps@[1]@);
        assert(char_seqs(ps@)[2] == ps@[2]@);
        assert(char_seqs(ps@)[3] == ps@[3]@);
    }
    let a = match parse_octet(&ps[0]) {
        Some(x) => x,
        None => return None,
    };
    let b = match parse_octet(&ps[1]) {
        Some(x) => x,
        None => return None,
    };
    let c = match parse_octet(&ps[2]) {
        Some(x) => x,
        None => return None,
    };
    let d = match parse_octet(&ps[3]) {
        Some(x) => x,
        None => return None,
    };
    let out = [a, b, c, d];
    proof { assert(out@ =~= seq![a, b, c, d]); }
    Some(out)
}

// ---------------------------------------------------------------------------
// IPv6
// ---------------------------------------------------------------------------

/// The first place `k` (from `from` on) where `t` has `::`.
pub open spec fn double_colon_from(t: Seq<char>, from: int) -> Option<int>
    decreases t.len() - from,
{
    if from < 0 || from + 1 >= t.len() {
        None
    } else if t[from] == ':' && t[from + 1] == ':' {
        Some(from)
    } else {
        double_colon_from(t, from + 1)
    }
}

/// The groups of some pieces, each one to four hex digits.
pub open spec fn hex_groups(ps: Seq<Seq<char>>) -> Option<Seq<u16>>
    decreases ps.len(),
{
    if ps.len() == 0 {
        Some(Seq::empty())
    } else {
        match (hex_groups(ps.drop_last()), hex_group_parse(ps.last())) {
            (Some(g), Some(x)) => Some(g.push(x)),
            _ => None,
        }
    }
}

/// The two groups an IPv4 address stands for.
pub open spec fn v4_groups(b: Seq<u8>) -> Seq<u16> {
    seq![(b[0] as int * 256 + b[1] as int) as u16, (b[2] as int * 256 + b[3] as int) as u16]
}

/// The groups of the pieces that end an address: hex groups, the last of
/// which may be an IPv4 address standing for two groups.
pub open spec fn tail_groups(ps: Seq<Seq<char>>) -> Option<Seq<u16>> {
    match ipv4_parse(ps.last()) {
        Some(b) => match hex_groups(ps.drop_last()) {
            Some(g) => Some(g + v4_groups(b)),
            None => None,
        },
        None => hex_groups(ps),
    }
}

/// The eight groups of the IPv6 address `t`.
pub open spec fn ipv6_groups(t: Seq<char>) -> Option<Seq<u16>> {
    match double_colon_from(t, 0) {
        Some(k) => {
            let head = t.take(k);
            let tail = t.skip(k + 2);
            let hg = if head.len() == 0 {
                Some(Seq::<u16>::empty())
            } else {
                hex_groups(split_on(head, ':'))
            };
            let tg = if tail.len() == 0 {
                Some(Seq::<u16>::empty())
            } else {
                tail_groups(split_on(tail, ':'))
            };
            match (hg, tg) {
                (Some(h), Some(g)) => if h.len() + g.len() <= 7 {
                    Some(h + Seq::new((8 - h.len() - g.len()) as nat, |i: int| 0u16) + g)
                } else {
                    None
                },
                _ => None,
            }
        },
        None => match tail_groups(split_on(t, ':')) {
            Some(g) => if g.len() == 8 {
                Some(g)
            } else {
                None
            },
            None => None,
        },
    }
}

/// The sixteen bytes of eight groups, each group high byte first.
pub open spec fn groups_bytes(g: Seq<u16>) -> Seq<u8> {
    Seq::new(16, |i: int| if i % 2 == 0 { (g[i / 2] >> 8u16) as u8 } else { (g[i / 2] & 0xffu16) as u8 })
}

/// The sixteen bytes of the IPv6 address `t`: `Ipv6Addr::from_str`.
pub open spec fn ipv6_parse(t: Seq<char>) -> Option<Seq<u8>> {
    match ipv6_groups(t) {
        Some(g) => Some(groups_bytes(g)),
        None => None,
    }
}

/// Once a prefix of the pieces is not all groups, no longer prefix is.
proof fn lemma_hex_groups_none(s: Seq<Seq<char>>, j: int, m: int)
    requires
        0 <= j <= m <= s.len(),
        hex_groups(s.take(j)) is None,
    ensures
        hex_groups(s.take(m)) is None,
    decreases m - j,
{
    if m > j {
        lemma_hex_groups_none(s, j, m - 1);
        assert(s.take(m).drop_last() =~= s.take(m - 1));
    }
}

/// A `::` found from `from` on lies from `from` on, within `t`.
proof fn lemma_double_colon_range(t: Seq<char>, from: int)
    ensures
        double_colon_from(t, from) matches Some(k) ==> from <= k && k + 1 < t.len() && t[k] == ':' && t[k + 1] == ':',
    decreases t.len() - from,
{
    if !(from < 0 || from + 1 >= t.len()) && !(t[from] == ':' && t[from + 1] == ':') {
        lemma_double_colon_range(t, from + 1);
    }
}

/// The groups of the first `n` pieces.
fn hex_groups_of(ps: &Vec<Vec<char>>, n: usize) -> (r: Option<Vec<u16>>)
    requires
        n <= ps@.len(),
    ensures
        match hex_groups(char_seqs(ps@).take(n as int)) {
            Some(g) => r matches Some(v) && v@ == g,
            None => r is None,
        },
{
    let mut out: Vec<u16> = Vec::new();
    let mut i: usize = 0;
    proof { assert(char_seqs(ps@).take(0) =~= Seq::<Seq<char>>::empty()); }
    while i < n
        invariant
            i <= n <= ps@.len(),
            hex_groups(char_seqs(ps@).take(i as int)) == Some(out@),
        decreases n - i,
    {
        let ghost s1 = char_seqs(ps@).take(i + 1);
        proof {
            assert(s1.drop_last() =~= char_seqs(ps@).take(i as int));
            assert(s1.last() == ps@[i as int]@);
        }
        match parse_hex_group(&ps[i]) {
            Some(g) => out.push(g),
            None => {
                proof {
                    assert(hex_groups(s1) is None);
                    lemma_hex_groups_none(char_seqs(ps@), i + 1, n as int);
                }
                return None;
            },
        }
        i = i + 1;
    }
    Some(out)
}

/// The groups of pieces that end an address.
fn tail_groups_of(ps: &Vec<Vec<char>>) -> (r: Option<Vec<u16>>)
    requires
        ps@.len() >= 1,
    ensures
        match tail_groups(char_seqs(ps@)) {
            Some(g) => r matches Some(v) && v@ == g,
            None => r is None,
        },
{
    let n = ps.len();
    let ghost s = char_seqs(ps@);
    proof {
        assert(s.last() == ps@[n - 1]@);
        assert(s.take(n - 1) =~= s.drop_last());
        assert(s.take(n as int) =~= s);
    }
    match parse_ipv4(&ps[n - 1]) {
        Some(b) => match hex_groups_of(ps, n - 1) {
            Some(g) => {
                let mut g = g;
                let ghost g0 = g@;
                g.push((b[0] as u16) * 256 + (b[1] as u16));
                g.push((b[2] as u16) * 256 + (b[3] as u16));
                proof { assert(g@ =~= g0 + v4_groups(b@)); }
                Some(g)
            },
            None => None,
        },
        None => hex_groups_of(ps, n),
    }
}

/// Where `t` first has `::`.
fn find_double_colon(t: &Vec<char>) -> (r: Option<usize>)
    ensures
        match double_colon_from(t@, 0) {
            Some(k) => 0 <= k && k + 1 < t@.len() && r == Some(k as usize),
            None => r is None,
        },
{
    proof { lemma_double_colon_range(t@, 0); }
    let n = t.len();
    let mut k: usize = 0;
    while n > 0 && k < n - 1
        invariant
            k <= n,
            n == t@.len(),
            double_colon_from(t@, 0) == double_colon_from(t@, k as int),
        decreases n - k,
    {
        if t[k] == ':' && t[k + 1] == ':' {
            return Some(k);
        }
        k = k + 1;
    }
    None
}

/// The bytes of eight groups.
fn bytes_of_groups(g: &Vec<u16>) -> (r: [u8; 16])
    requires
        g@.len() == 8,
    ensures
        r@ == groups_bytes(g@),
{
    let mut out = [0u8; 16];
    let mut i: usize = 0;
    while i < 8
        invariant
            i <= 8,
            g@.len() == 8,
            out@.len() == 16,
            forall|j: int| 0 <= j < 2 * i ==> out@[j] == #[trigger] groups_bytes(g@)[j],
        decreases 8 - i,
    {
        let x = g[i];
        out[2 * i] = (x >> 8u16) as u8;
        out[2 * i + 1] = (x & 0xffu16) as u8;
        proof {
            assert((2 * i) as int % 2 == 0 && (2 * i) as int / 2 == i);
            assert((2 * i + 1) as int % 2 == 1 && (2 * i + 1) as int / 2 == i);
        }
        i = i + 1;
    }
    proof { assert(out@ =~= groups_bytes(g@)); }
    out
}

/// Reads an IPv6 address.
pub fn parse_ipv6(t: &Vec<char>) -> (r: Option<[u8; 16]>)
    ensures
        match ipv6_parse(t@) {
            Some(b) => r matches Some(a) && a@ == b,
            None => r is None,
        },
{
    let n = t.len();
    match find_double_colon(t) {
        Some(k) => {
            proof {
                assert(t@.subrange(0, k as int) =~= t@.take(k as int));
                assert(t@.subrange(k + 2, n as int) =~= t@.skip(k + 2));
            }
            let head = if k == 0 {
                Vec::new()
            } else {
                let ps = split_chars(t, 0, k, ':');
                proof { assert(char_seqs(ps@).take(ps@.len() as int) =~= char_seqs(ps@)); }
                match hex_groups_of(&ps, ps.len()) {
                    Some(g) => g,
                    None => return None,
                }
            };
            let tail = if k + 2 == n {
                Vec::new()
            } else {
                let ps = split_chars(t, k + 2, n, ':');
                proof { lemma_split_on_len(t@.skip(k + 2), ':'); }
                match tail_groups_of(&ps) {
                    Some(g) => g,
                    None => return None,
                }
            };
            if head.len() > 7 || tail.len() > 7 - head.len() {
                return None;
            }
            let mut g = head;
            let ghost h = g@;
            let zeros: usize = 8 - g.len() - tail.len();
            let mut j: usize = 0;
            while j < zeros
                invariant
                    j <= zeros,
                    g@ == h + Seq::new(j as nat, |i: int| 0u16),
                decreases zeros - j,
            {
                g.push(0);
                proof { assert(g@ =~= h + Seq::new((j + 1) as nat, |i: int| 0u16)); }
                j = j + 1;
            }
            let ghost gz = g@;
            let mut tail = tail;
            g.append(&mut tail);
            proof { assert(g@.len() == 8); }
            Some(bytes_of_groups(&g))
        },
        None => {
            let ps = split_chars(t, 0, n, ':');
            proof {
                assert(t@.subrange(0, n as int) =~= t@);
                lemma_split_on_len(t@, ':');
            }
            match tail_groups_of(&ps) {
                Some(g) => if g.len() == 8 {
                    Some(bytes_of_groups(&g))
                } else {
                    None
                },
                None => None,
            }
        },
    }
}

} // verus!
