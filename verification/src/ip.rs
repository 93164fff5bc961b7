//! The host field: a textual IP address, either dotted-decimal (four
//! octets) or colon-hex (eight 16-bit groups, with an optional single
//! `::` standing for one or more zero groups, and optionally a
//! trailing dotted quad standing for the last two groups, as in
//! `::ffff:192.0.2.1`).

use vstd::prelude::*;
use vstd::string::*;
use crate::numbers::{
    all_digits, all_hex_digits, digits_of_uint, digits_val, hex_val, is_digit, is_hex_digit,
    lemma_digits_val_nonneg, lemma_hex_val_bound, parse_usize_text, valid_uint_text,
};
use crate::text::{find_at, lemma_find_at, lemma_find_at_is, scan_find};

verus! {

broadcast use vstd::utf8::char_u32_cast;

/// An IP address, version 4 or 6, held as plain integers.
#[derive(Debug, Clone, Copy, PartialEq, Eq, Structural)]
pub enum IpAddr {
    V4 { a: u8, b: u8, c: u8, d: u8 },
    V6 { s0: u16, s1: u16, s2: u16, s3: u16, s4: u16, s5: u16, s6: u16, s7: u16 },
}

/// `s` split at every occurrence of `sep`; an empty `s` yields one empty
/// piece, as `sep` never occurs in it.
pub open spec fn split_on(s: Seq<char>, sep: char) -> Seq<Seq<char>>
    decreases s.len(),
{
    let i = find_at(s, sep);
    if 0 <= i < s.len() {
        seq![s.take(i)] + split_on(s.skip(i + 1), sep)
    } else {
        seq![s]
    }
}

/// A split has at least one piece.
proof fn lemma_split_on_len(s: Seq<char>, sep: char)
    ensures
        split_on(s, sep).len() >= 1,
    decreases s.len(),
{
    let i = find_at(s, sep);
    if 0 <= i < s.len() {
        lemma_split_on_len(s.skip(i + 1), sep);
    }
}

/// One dotted-decimal octet: one to three digits, no leading zero, value
/// at most 255.
pub open spec fn valid_octet(g: Seq<char>) -> bool {
    &&& 1 <= g.len() <= 3
    &&& all_digits(g)
    &&& g.len() > 1 ==> g[0] != '0'
    &&& digits_val(g) <= 255
}

pub open spec fn all_octets_valid(gs: Seq<Seq<char>>) -> bool {
    forall|k: int| 0 <= k < gs.len() ==> valid_octet(gs[k])
}

/// Dotted-decimal IPv4 text: exactly four valid octets.
pub open spec fn valid_ipv4_text(s: Seq<char>) -> bool {
    split_on(s, '.').len() == 4 && all_octets_valid(split_on(s, '.'))
}

pub open spec fn spec_ipv4_of(s: Seq<char>) -> IpAddr {
    let gs = split_on(s, '.');
    IpAddr::V4 {
        a: digits_val(gs[0]) as u8,
        b: digits_val(gs[1]) as u8,
        c: digits_val(gs[2]) as u8,
        d: digits_val(gs[3]) as u8,
    }
}

/// One colon-hex group: one to four hexadecimal digits.
pub open spec fn valid_h16(g: Seq<char>) -> bool {
    1 <= g.len() <= 4 && all_hex_digits(g)
}

pub open spec fn all_h16_valid(gs: Seq<Seq<char>>) -> bool {
    forall|k: int| 0 <= k < gs.len() ==> valid_h16(gs[k])
}

/// The two 16-bit group values that a trailing dotted quad stands for.
pub open spec fn quad_groups(g: Seq<char>) -> Seq<int> {
    let q = split_on(g, '.');
    seq![
        256 * digits_val(q[0]) + digits_val(q[1]),
        256 * digits_val(q[2]) + digits_val(q[3]),
    ]
}

/// The colon-separated pieces that may end an address: every piece a
/// hex group, except that the last may be a dotted quad.
pub open spec fn tail_ok(gs: Seq<Seq<char>>) -> bool
    decreases gs.len(),
{
    if gs.len() == 0 {
        true
    } else if gs.len() == 1 {
        valid_h16(gs[0]) || valid_ipv4_text(gs[0])
    } else {
        valid_h16(gs[0]) && tail_ok(gs.skip(1))
    }
}

/// The group values of such pieces; a trailing dotted quad counts as
/// two groups.
pub open spec fn tail_vals(gs: Seq<Seq<char>>) -> Seq<int>
    decreases gs.len(),
{
    if gs.len() == 0 {
        seq![]
    } else if gs.len() == 1 {
        if valid_ipv4_text(gs[0]) {
            quad_groups(gs[0])
        } else {
            seq![hex_val(gs[0])]
        }
    } else {
        seq![hex_val(gs[0])] + tail_vals(gs.skip(1))
    }
}

/// Index of the first `::` in `s`, or `s.len()` if there is none.
pub open spec fn dc_at(s: Seq<char>) -> int
    decreases s.len(),
{
    if s.len() < 2 {
        s.len() as int
    } else if s[0] == ':' && s[1] == ':' {
        0
    } else {
        1 + dc_at(s.skip(1))
    }
}

/// One side of a `::`: zero groups when empty, else its colon-split.
pub open spec fn side_groups(s: Seq<char>) -> Seq<Seq<char>> {
    if s.len() == 0 {
        seq![]
    } else {
        split_on(s, ':')
    }
}

pub open spec fn groups_hex_vals(gs: Seq<Seq<char>>) -> Seq<int> {
    gs.map_values(|g: Seq<char>| hex_val(g))
}

/// Colon-hex IPv6 text: either exactly eight groups and no `::`, or a
/// single `::` with at most seven groups around it, standing for the
/// missing (at least one) zero groups. The last group may be written
/// as a dotted quad carrying the final 32 bits.
pub open spec fn valid_ipv6_text(s: Seq<char>) -> bool {
    let i = dc_at(s);
    if i == s.len() {
        tail_ok(split_on(s, ':')) && tail_vals(split_on(s, ':')).len() == 8
    } else {
        let h = side_groups(s.take(i));
        let t = side_groups(s.skip(i + 2));
        all_h16_valid(h) && tail_ok(t) && h.len() + tail_vals(t).len() <= 7
    }
}

/// The eight group values of valid IPv6 text.
pub open spec fn ipv6_segs(s: Seq<char>) -> Seq<int> {
    let i = dc_at(s);
    if i == s.len() {
        tail_vals(split_on(s, ':'))
    } else {
        let h = groups_hex_vals(side_groups(s.take(i)));
        let t = tail_vals(side_groups(s.skip(i + 2)));
        h + Seq::new((8 - h.len() - t.len()) as nat, |k: int| 0int) + t
    }
}

pub open spec fn spec_ipv6_of(s: Seq<char>) -> IpAddr {
    let vs = ipv6_segs(s);
    IpAddr::V6 {
        s0: vs[0] as u16,
        s1: vs[1] as u16,
        s2: vs[2] as u16,
        s3: vs[3] as u16,
        s4: vs[4] as u16,
        s5: vs[5] as u16,
        s6: vs[6] as u16,
        s7: vs[7] as u16,
    }
}

/// What parsing the host field's token yields: dotted-decimal is tried
/// first, then colon-hex; the two grammars share no text.
pub open spec fn spec_parse_ip(s: Seq<char>) -> Option<IpAddr> {
    if valid_ipv4_text(s) {
        Some(spec_ipv4_of(s))
    } else if valid_ipv6_text(s) {
        Some(spec_ipv6_of(s))
    } else {
        None
    }
}

pub proof fn lemma_dc_at(s: Seq<char>)
    ensures
        0 <= dc_at(s) <= s.len(),
        dc_at(s) < s.len() ==> dc_at(s) + 1 < s.len() && s[dc_at(s)] == ':' && s[dc_at(s) + 1]
            == ':',
        forall|j: int|
            0 <= j < dc_at(s) && j + 1 < s.len() ==> !(#[trigger] s[j] == ':' && s[j + 1] == ':'),
    decreases s.len(),
{
    if s.len() < 2 {
    } else if s[0] == ':' && s[1] == ':' {
    } else {
        lemma_dc_at(s.skip(1));
        assert forall|j: int|
            0 <= j < dc_at(s) && j + 1 < s.len() implies !(#[trigger] s[j] == ':' && s[j + 1]
            == ':') by {
            if j >= 1 {
                assert(s.skip(1)[j - 1] == s[j]);
                assert(s.skip(1)[j] == s[j + 1]);
            }
        }
        if dc_at(s) < s.len() {
            assert(s.skip(1)[dc_at(s) - 1] == s[dc_at(s)]);
            assert(s.skip(1)[dc_at(s)] == s[dc_at(s) + 1]);
        }
    }
}

pub proof fn lemma_dc_at_is(s: Seq<char>, i: int)
    requires
        0 <= i <= s.len(),
        i < s.len() ==> i + 1 < s.len() && s[i] == ':' && s[i + 1] == ':',
        forall|j: int|
            0 <= j < i && j + 1 < s.len() ==> !(#[trigger] s[j] == ':' && s[j + 1] == ':'),
    ensures
        dc_at(s) == i,
    decreases s.len(),
{
    if s.len() < 2 {
        if i < s.len() {
            assert(i + 1 < s.len());
            assert(false);
        }
    } else if s[0] == ':' && s[1] == ':' {
        assert(i == 0);
    } else {
        if i == 0 {
            assert(false);
        }
        assert forall|j: int|
            0 <= j < i - 1 && j + 1 < s.skip(1).len() implies !(#[trigger] s.skip(1)[j] == ':'
            && s.skip(1)[j + 1] == ':') by {
            assert(s.skip(1)[j] == s[j + 1]);
            assert(s.skip(1)[j + 1] == s[j + 2]);
        }
        if i - 1 < s.skip(1).len() {
            assert(s.skip(1)[i - 1] == s[i]);
            assert(s.skip(1)[i] == s[i + 1]);
        }
        lemma_dc_at_is(s.skip(1), i - 1);
    }
}

/// First `::` of `line`, or its length.
fn scan_dc(s: &str) -> (i: usize)
    ensures
        i as int == dc_at(s@),
        i <= s@.len(),
{
    let n = s.unicode_len();
    if n < 2 {
        proof {
            lemma_dc_at_is(s@, n as int);
        }
        return n;
    }
    let mut i: usize = 0;
    while i + 1 < n && !(s.get_char(i) == ':' && s.get_char(i + 1) == ':')
        invariant
            0 <= i <= n - 1,
            n == s@.len(),
            forall|j: int|
                0 <= j < i && j + 1 < s@.len() ==> !(#[trigger] s@[j] == ':' && s@[j + 1] == ':'),
        decreases n - i,
    {
        i = i + 1;
    }
    if i + 1 < n {
        proof {
            lemma_dc_at_is(s@, i as int);
        }
        i
    } else {
        proof {
            lemma_dc_at_is(s@, n as int);
        }
        n
    }
}

/// Parse one dotted-decimal octet.
fn parse_octet(s: &str) -> (r: Option<u8>)
    ensures
        r is Some <==> valid_octet(s@),
        r matches Some(v) ==> v as int == digits_val(s@),
{
    let n = s.unicode_len();
    if n < 1 || n > 3 {
        return None;
    }
    let c0 = s.get_char(0) as u32;
    if c0 < 48 || c0 > 57 {
        proof {
            assert(!is_digit(s@[0]));
        }
        return None;
    }
    if n > 1 && s.get_char(0) == '0' {
        return None;
    }
    proof {
        assert('+' as u32 == 43);
        assert('0' as u32 == 48);
        assert(s@[0] != '+');
        assert(digits_of_uint(s@) == s@);
        if valid_uint_text(s@) {
            lemma_digits_val_nonneg(digits_of_uint(s@));
        }
    }
    match parse_usize_text(s) {
        Some(v) => {
            if v <= 255 {
                Some(v as u8)
            } else {
                None
            }
        },
        None => None,
    }
}

/// Parse one colon-hex group.
fn parse_h16(s: &str) -> (r: Option<u16>)
    ensures
        r is Some <==> valid_h16(s@),
        r matches Some(v) ==> v as int == hex_val(s@),
{
    let n = s.unicode_len();
    if n < 1 || n > 4 {
        return None;
    }
    let mut i: usize = 0;
    let mut acc: u32 = 0;
    while i < n
        invariant
            0 <= i <= n <= 4,
            n == s@.len(),
            all_hex_digits(s@.take(i as int)),
            acc as int == hex_val(s@.take(i as int)),
            acc < 65536,
        decreases n - i,
    {
        let c = s.get_char(i);
        let v = c as u32;
        let dv: u32;
        if v >= 48 && v <= 57 {
            dv = v - 48;
        } else if v >= 97 && v <= 102 {
            dv = v - 87;
        } else if v >= 65 && v <= 70 {
            dv = v - 55;
        } else {
            proof {
                assert(s@.take(n as int) =~= s@);
                assert(!is_hex_digit(s@[i as int]));
            }
            return None;
        }
        proof {
            lemma_hex_val_bound(s@.take(i as int));
            assert(s@.take(i + 1).drop_last() =~= s@.take(i as int));
            assert(s@.take(i + 1).last() == s@[i as int]);
        }
        acc = acc * 16 + dv;
        i = i + 1;
        proof {
            lemma_hex_val_bound(s@.take(i as int));
        }
    }
    proof {
        assert(s@.take(n as int) =~= s@);
    }
    Some(acc as u16)
}

/// Parse the colon-separated pieces of one side of an IPv6 address.
fn parse_h16_groups(s: &str) -> (r: Option<Vec<u16>>)
    ensures
        ({
            let gs = split_on(s@, ':');
            match r {
                Some(v) => {
                    &&& all_h16_valid(gs)
                    &&& v@.len() == gs.len()
                    &&& forall|k: int| 0 <= k < gs.len() ==> v@[k] as int == hex_val(gs[k])
                },
                None => !all_h16_valid(gs),
            }
        }),
    decreases s@.len(),
{
    let n = s.unicode_len();
    let i = scan_find(s, 0, ':');
    proof {
        assert(s@.skip(0) =~= s@);
        lemma_find_at(s@, ':');
    }
    let ghost gs = split_on(s@, ':');
    let tok = s.substring_char(0, i);
    match parse_h16(tok) {
        None => {
            proof {
                if i < n {
                    assert(gs[0] == s@.take(i as int));
                } else {
                    assert(gs =~= seq![s@]);
                    assert(s@.take(i as int) =~= s@);
                }
                assert(!valid_h16(gs[0]));
            }
            None
        },
        Some(v) => {
            if i == n {
                proof {
                    assert(gs =~= seq![s@]);
                    assert(s@.take(i as int) =~= s@);
                }
                let mut out: Vec<u16> = Vec::new();
                out.push(v);
                Some(out)
            } else {
                let rest = s.substring_char(i + 1, n);
                proof {
                    assert(rest@ == s@.skip(i + 1));
                    assert(gs == seq![s@.take(i as int)] + split_on(rest@, ':'));
                }
                match parse_h16_groups(rest) {
                    None => {
                        proof {
                            let rgs = split_on(rest@, ':');
                            if all_h16_valid(gs) {
                                assert forall|k: int| 0 <= k < rgs.len() implies valid_h16(
                                    rgs[k],
                                ) by {
                                    assert(rgs[k] == gs[k + 1]);
                                }
                            }
                        }
                        None
                    },
                    Some(w) => {
                        let mut w = w;
                        w.insert(0, v);
                        proof {
                            let rgs = split_on(rest@, ':');
                            assert(gs[0] == s@.take(i as int));
                            assert forall|k: int| 0 <= k < gs.len() implies valid_h16(gs[k])
                                && w@[k] as int == hex_val(gs[k]) by {
                                if k >= 1 {
                                    assert(gs[k] == rgs[k - 1]);
                                    assert(w@[k] == w@.subrange(1, w@.len() as int)[k - 1]);
                                }
                            }
                        }
                        Some(w)
                    },
                }
            }
        },
    }
}

/// Parse a colon-separated side of an IPv6 address into its group
/// values; the empty side has none.
fn parse_h16_side(s: &str) -> (r: Option<Vec<u16>>)
    ensures
        ({
            let gs = side_groups(s@);
            match r {
                Some(v) => {
                    &&& all_h16_valid(gs)
                    &&& v@.len() == gs.len()
                    &&& forall|k: int| 0 <= k < gs.len() ==> v@[k] as int == hex_val(gs[k])
                },
                None => !all_h16_valid(gs),
            }
        }),
{
    let n = s.unicode_len();
    if n == 0 {
        let v: Vec<u16> = Vec::new();
        return Some(v);
    }
    parse_h16_groups(s)
}

/// Parse the dot-separated octets of dotted-decimal text.
fn parse_v4_groups(s: &str) -> (r: Option<Vec<u8>>)
    ensures
        ({
            let gs = split_on(s@, '.');
            match r {
                Some(v) => {
                    &&& all_octets_valid(gs)
                    &&& v@.len() == gs.len()
                    &&& forall|k: int| 0 <= k < gs.len() ==> v@[k] as int == digits_val(gs[k])
                },
                None => !all_octets_valid(gs),
            }
        }),
    decreases s@.len(),
{
    let n = s.unicode_len();
    let i = scan_find(s, 0, '.');
    proof {
        assert(s@.skip(0) =~= s@);
        lemma_find_at(s@, '.');
    }
    let ghost gs = split_on(s@, '.');
    let tok = s.substring_char(0, i);
    match parse_octet(tok) {
        None => {
            proof {
                if i < n {
                    assert(gs[0] == s@.take(i as int));
                } else {
                    assert(gs =~= seq![s@]);
                    assert(s@.take(i as int) =~= s@);
                }
                assert(!valid_octet(gs[0]));
            }
            None
        },
        Some(v) => {
            if i == n {
                proof {
                    assert(gs =~= seq![s@]);
                    assert(s@.take(i as int) =~= s@);
                }
                let mut out: Vec<u8> = Vec::new();
                out.push(v);
                Some(out)
            } else {
                let rest = s.substring_char(i + 1, n);
                proof {
                    assert(rest@ == s@.skip(i + 1));
                    assert(gs == seq![s@.take(i as int)] + split_on(rest@, '.'));
                }
                match parse_v4_groups(rest) {
                    None => {
                        proof {
                            let rgs = split_on(rest@, '.');
                            if all_octets_valid(gs) {
                                assert forall|k: int| 0 <= k < rgs.len() implies valid_octet(
                                    rgs[k],
                                ) by {
                                    assert(rgs[k] == gs[k + 1]);
                                }
                            }
                        }
                        None
                    },
                    Some(w) => {
                        let mut w = w;
                        w.insert(0, v);
                        proof {
                            let rgs = split_on(rest@, '.');
                            assert(gs[0] == s@.take(i as int));
                            assert forall|k: int| 0 <= k < gs.len() implies valid_octet(gs[k])
                                && w@[k] as int == digits_val(gs[k]) by {
                                if k >= 1 {
                                    assert(gs[k] == rgs[k - 1]);
                                    assert(w@[k] == w@.subrange(1, w@.len() as int)[k - 1]);
                                }
                            }
                        }
                        Some(w)
                    },
                }
            }
        },
    }
}

fn parse_v4(s: &str) -> (r: Option<IpAddr>)
    ensures
        r is Some <==> valid_ipv4_text(s@),
        r matches Some(ip) ==> ip == spec_ipv4_of(s@),
{
    match parse_v4_groups(s) {
        None => None,
        Some(v) => {
            if v.len() == 4 {
                proof {
                    let gs = split_on(s@, '.');
                    assert forall|k: int| 0 <= k < 4 implies 0 <= digits_val(#[trigger] gs[k])
                        <= 255 by {
                        lemma_digits_val_nonneg(gs[k]);
                    }
                }
                Some(IpAddr::V4 { a: v[0], b: v[1], c: v[2], d: v[3] })
            } else {
                None
            }
        },
    }
}

/// A hex group holds no dot, so it is never dotted-quad text.
proof fn lemma_h16_not_quad(g: Seq<char>)
    requires
        valid_h16(g),
    ensures
        !valid_ipv4_text(g),
{
    assert forall|j: int| 0 <= j < g.len() implies g[j] != '.' by {
        assert(is_hex_digit(g[j]));
        assert('.' as u32 == 46);
    }
    lemma_find_at_is(g, '.', g.len() as int);
    assert(split_on(g, '.') =~= seq![g]);
}

/// Parse the colon-separated pieces that end an address: hex groups,
/// with a dotted quad allowed as the last piece.
fn parse_tail_groups(s: &str) -> (r: Option<Vec<u16>>)
    ensures
        ({
            let gs = split_on(s@, ':');
            match r {
                Some(v) => {
                    &&& tail_ok(gs)
                    &&& v@.len() == tail_vals(gs).len()
                    &&& forall|k: int| 0 <= k < v@.len() ==> v@[k] as int == tail_vals(gs)[k]
                },
                None => !tail_ok(gs),
            }
        }),
    decreases s@.len(),
{
    let n = s.unicode_len();
    let i = scan_find(s, 0, ':');
    proof {
        assert(s@.skip(0) =~= s@);
        lemma_find_at(s@, ':');
    }
    let ghost gs = split_on(s@, ':');
    let tok = s.substring_char(0, i);
    if i == n {
        proof {
            assert(gs =~= seq![s@]);
            assert(s@.take(i as int) =~= s@);
        }
        match parse_h16(tok) {
            Some(v) => {
                proof {
                    lemma_h16_not_quad(s@);
                }
                let mut out: Vec<u16> = Vec::new();
                out.push(v);
                Some(out)
            },
            None => {
                match parse_v4_groups(tok) {
                    Some(q) => {
                        if q.len() == 4 {
                            proof {
                                let qs = split_on(s@, '.');
                                assert forall|k: int| 0 <= k < 4 implies 0 <= digits_val(
                                    #[trigger] qs[k],
                                ) <= 255 by {
                                    lemma_digits_val_nonneg(qs[k]);
                                }
                            }
                            let hi = (q[0] as u16) * 256 + (q[1] as u16);
                            let lo = (q[2] as u16) * 256 + (q[3] as u16);
                            let mut out: Vec<u16> = Vec::new();
                            out.push(hi);
                            out.push(lo);
                            Some(out)
                        } else {
                            None
                        }
                    },
                    None => None,
                }
            },
        }
    } else {
        proof {
            lemma_split_on_len(s@.skip(i + 1), ':');
            assert(gs == seq![s@.take(i as int)] + split_on(s@.skip(i + 1), ':'));
            assert(gs.len() >= 2);
        }
        match parse_h16(tok) {
            None => {
                proof {
                    assert(gs[0] == s@.take(i as int));
                }
                None
            },
            Some(v) => {
                let rest = s.substring_char(i + 1, n);
                proof {
                    assert(rest@ == s@.skip(i + 1));
                    assert(gs == seq![s@.take(i as int)] + split_on(rest@, ':'));
                    lemma_split_on_len(rest@, ':');
                    assert(gs.len() >= 2);
                }
                match parse_tail_groups(rest) {
                    None => {
                        proof {
                            assert(split_on(rest@, ':') =~= gs.skip(1));
                        }
                        None
                    },
                    Some(w) => {
                        let mut w = w;
                        w.insert(0, v);
                        proof {
                            let rgs = split_on(rest@, ':');
                            assert(rgs =~= gs.skip(1));
                            assert(gs[0] == s@.take(i as int));
                            assert(tail_vals(gs) == seq![hex_val(gs[0])] + tail_vals(
                                gs.skip(1),
                            ));
                            assert forall|k: int| 0 <= k < w@.len() implies w@[k] as int
                                == tail_vals(gs)[k] by {
                                if k >= 1 {
                                    assert(w@[k] == w@.subrange(1, w@.len() as int)[k - 1]);
                                    assert(tail_vals(gs)[k] == tail_vals(rgs)[k - 1]);
                                } else {
                                    assert(tail_vals(gs)[0] == hex_val(gs[0]));
                                }
                            }
                        }
                        Some(w)
                    },
                }
            },
        }
    }
}

/// Parse one side of a `::` as an address tail; the empty side has no
/// groups.
fn parse_tail_side(s: &str) -> (r: Option<Vec<u16>>)
    ensures
        ({
            let gs = side_groups(s@);
            match r {
                Some(v) => {
                    &&& tail_ok(gs)
                    &&& v@.len() == tail_vals(gs).len()
                    &&& forall|k: int| 0 <= k < v@.len() ==> v@[k] as int == tail_vals(gs)[k]
                },
                None => !tail_ok(gs),
            }
        }),
{
    let n = s.unicode_len();
    if n == 0 {
        let v: Vec<u16> = Vec::new();
        return Some(v);
    }
    parse_tail_groups(s)
}

fn parse_v6(s: &str) -> (r: Option<IpAddr>)
    ensures
        r is Some <==> valid_ipv6_text(s@),
        r matches Some(ip) ==> ip == spec_ipv6_of(s@),
{
    let n = s.unicode_len();
    let dc = scan_dc(s);
    proof {
        lemma_dc_at(s@);
    }
    if dc == n {
        match parse_tail_groups(s) {
            None => None,
            Some(v) => {
                if v.len() == 8 {
                    proof {
                        let vs = ipv6_segs(s@);
                        assert(forall|k: int| 0 <= k < 8 ==> #[trigger] vs[k] == v@[k] as int);
                    }
                    Some(
                        IpAddr::V6 {
                            s0: v[0],
                            s1: v[1],
                            s2: v[2],
                            s3: v[3],
                            s4: v[4],
                            s5: v[5],
                            s6: v[6],
                            s7: v[7],
                        },
                    )
                } else {
                    None
                }
            },
        }
    } else {
        let head = s.substring_char(0, dc);
        let tail = s.substring_char(dc + 2, n);
        proof {
            assert(head@ == s@.take(dc as int));
            assert(tail@ == s@.skip(dc + 2));
        }
        let hr = parse_h16_side(head);
        let tr = parse_tail_side(tail);
        match (hr, tr) {
            (Some(h), Some(t)) => {
                if h.len() <= 7 && t.len() <= 7 - h.len() {
                    let miss = 8 - h.len() - t.len();
                    let ghost hseq = h@;
                    let ghost tseq = t@;
                    let mut segs = h;
                    let ghost hlen = hseq.len() as int;
                    let mut z: usize = 0;
                    while z < miss
                        invariant
                            0 <= z <= miss,
                            hlen == hseq.len(),
                            segs@.len() == hlen + z,
                            forall|k: int| 0 <= k < hlen ==> #[trigger] segs@[k] == hseq[k],
                            forall|k: int| hlen <= k < segs@.len() ==> #[trigger] segs@[k]
                                == 0u16,
                        decreases miss - z,
                    {
                        let ghost before = segs@;
                        segs.push(0);
                        proof {
                            assert forall|k: int| 0 <= k < before.len() implies
                                #[trigger] segs@[k] == before[k] by {
                                assert(segs@[k] == before.push(0u16)[k]);
                            }
                            assert(segs@[before.len() as int] == 0u16);
                        }
                        z = z + 1;
                    }
                    let mut j: usize = 0;
                    while j < t.len()
                        invariant
                            0 <= j <= tseq.len(),
                            tseq == t@,
                            hlen == hseq.len(),
                            segs@.len() == hlen + miss + j,
                            forall|k: int| 0 <= k < hlen ==> #[trigger] segs@[k] == hseq[k],
                            forall|k: int| hlen <= k < hlen + miss ==> #[trigger] segs@[k]
                                == 0u16,
                            forall|k: int| 0 <= k < j ==> #[trigger] segs@[hlen + miss + k]
                                == tseq[k],
                        decreases tseq.len() - j,
                    {
                        let x = t[j];
                        let ghost before = segs@;
                        segs.push(x);
                        proof {
                            assert forall|k: int| 0 <= k < before.len() implies
                                #[trigger] segs@[k] == before[k] by {
                                assert(segs@[k] == before.push(x)[k]);
                            }
                            assert(segs@[before.len() as int] == x);
                            assert forall|k: int| 0 <= k < j + 1 implies
                                #[trigger] segs@[hlen + miss + k] == tseq[k] by {
                                if k < j {
                                    assert(segs@[hlen + miss + k] == before[hlen + miss + k]);
                                }
                            }
                        }
                        j = j + 1;
                    }
                    proof {
                        let vs = ipv6_segs(s@);
                        let hv = groups_hex_vals(side_groups(s@.take(dc_at(s@))));
                        let tv = tail_vals(side_groups(s@.skip(dc_at(s@) + 2)));
                        let zv = Seq::new((8 - hv.len() - tv.len()) as nat, |k: int| 0int);
                        assert(head@ == s@.take(dc_at(s@)));
                        assert(tail@ == s@.skip(dc_at(s@) + 2));
                        assert(hv.len() == hlen);
                        assert(tv.len() == tseq.len());
                        assert(zv.len() == miss);
                        assert(vs == hv + zv + tv);
                        assert(segs@.len() == 8);
                        assert forall|k: int| 0 <= k < 8 implies #[trigger] vs[k]
                            == segs@[k] as int by {
                            if k < hlen {
                                assert(vs[k] == hv[k]);
                                assert(hv[k] == hex_val(side_groups(head@)[k]));
                                assert(segs@[k] == hseq[k]);
                            } else if k < hlen + miss {
                                assert(vs[k] == zv[k - hlen]);
                            } else {
                                let k2 = k - hlen - miss;
                                assert(vs[k] == tv[k2]);
                                assert(tseq[k2] as int == tv[k2]);
                                assert(segs@[hlen + miss + k2] == tseq[k2]);
                            }
                        }
                    }
                    Some(
                        IpAddr::V6 {
                            s0: segs[0],
                            s1: segs[1],
                            s2: segs[2],
                            s3: segs[3],
                            s4: segs[4],
                            s5: segs[5],
                            s6: segs[6],
                            s7: segs[7],
                        },
                    )
                } else {
                    None
                }
            },
            _ => None,
        }
    }
}

/// Parse the host field's token as an IP address.
pub fn parse_ip(s: &str) -> (r: Option<IpAddr>)
    ensures
        r == spec_parse_ip(s@),
{
    match parse_v4(s) {
        Some(ip) => Some(ip),
        None => match parse_v6(s) {
            Some(ip) => Some(ip),
            None => None,
        },
    }
}

} // verus!
