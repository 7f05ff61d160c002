//! Textual IP addresses.
//!
//! A request path names an address in the standard textual syntax: a
//! dotted-quad for IPv4 (`192.168.1.1`) or colon-separated hexadecimal
//! groups for IPv6 (`2001:db8::1`), with an optional embedded IPv4 tail
//! and a single `::` compression, no port and no brackets.
//!
//! The grammar is stated by spec functions that read a character sequence
//! left to right, and the executable parser is proved to return exactly
//! what they describe.

use vstd::prelude::*;

verus! {

/// A parsed IP address: four octets, or eight 16-bit groups.
#[derive(Clone, Copy, PartialEq, Eq, Structural, Debug)]
pub enum IpAddress {
    V4(u8, u8, u8, u8),
    V6(u16, u16, u16, u16, u16, u16, u16, u16),
}

/// A decimal digit.
pub open spec fn is_dec_digit(c: char) -> bool {
    '0' <= c && c <= '9'
}

/// The value of a decimal digit.
pub open spec fn dec_digit_val(c: char) -> int {
    c as int - '0' as int
}

/// A hexadecimal digit, either case.
pub open spec fn is_hex_digit(c: char) -> bool {
    ('0' <= c && c <= '9') || ('a' <= c && c <= 'f') || ('A' <= c && c <= 'F')
}

/// The value of a hexadecimal digit.
pub open spec fn hex_digit_val(c: char) -> int {
    if '0' <= c && c <= '9' {
        c as int - '0' as int
    } else if 'a' <= c && c <= 'f' {
        c as int - 'a' as int + 10
    } else {
        c as int - 'A' as int + 10
    }
}

/// Where the run of decimal digits starting at `i` ends.
pub open spec fn dec_run_end(s: Seq<char>, i: int) -> int
    recommends 0 <= i <= s.len(),
    decreases s.len() - i when 0 <= i <= s.len()
{
    if i < s.len() && is_dec_digit(s[i]) {
        dec_run_end(s, i + 1)
    } else {
        i
    }
}

/// Where the run of hexadecimal digits starting at `i` ends.
pub open spec fn hex_run_end(s: Seq<char>, i: int) -> int
    recommends 0 <= i <= s.len(),
    decreases s.len() - i when 0 <= i <= s.len()
{
    if i < s.len() && is_hex_digit(s[i]) {
        hex_run_end(s, i + 1)
    } else {
        i
    }
}

/// The number written in decimal by `s[i..j]`, folded left to right.
pub open spec fn dec_value(s: Seq<char>, i: int, j: int) -> int
    recommends 0 <= i <= j <= s.len(),
    decreases j - i when i <= j
{
    if i >= j {
        0
    } else {
        dec_value(s, i, j - 1) * 10 + dec_digit_val(s[j - 1])
    }
}

/// The number written in hexadecimal by `s[i..j]`, folded left to right.
pub open spec fn hex_value(s: Seq<char>, i: int, j: int) -> int
    recommends 0 <= i <= j <= s.len(),
    decreases j - i when i <= j
{
    if i >= j {
        0
    } else {
        hex_value(s, i, j - 1) * 16 + hex_digit_val(s[j - 1])
    }
}

proof fn lemma_dec_run_end_bounds(s: Seq<char>, i: int)
    requires 0 <= i <= s.len(),
    ensures
        i <= dec_run_end(s, i) <= s.len(),
        forall|k: int| i <= k < dec_run_end(s, i) ==> is_dec_digit(s[k]),
    decreases s.len() - i
{
    if i < s.len() && is_dec_digit(s[i]) {
        lemma_dec_run_end_bounds(s, i + 1);
    }
}

proof fn lemma_hex_run_end_bounds(s: Seq<char>, i: int)
    requires 0 <= i <= s.len(),
    ensures
        i <= hex_run_end(s, i) <= s.len(),
        forall|k: int| i <= k < hex_run_end(s, i) ==> is_hex_digit(s[k]),
    decreases s.len() - i
{
    if i < s.len() && is_hex_digit(s[i]) {
        lemma_hex_run_end_bounds(s, i + 1);
    }
}

/// At most three decimal digits stay under 1000.
proof fn lemma_dec_value_bound(s: Seq<char>, i: int, j: int)
    requires
        0 <= i <= j <= s.len(),
        j - i <= 3,
        forall|k: int| i <= k < j ==> is_dec_digit(s[k]),
    ensures
        0 <= dec_value(s, i, j) < 1000,
    decreases j - i
{
    if i < j {
        lemma_dec_value_bound(s, i, j - 1);
        assert(dec_value(s, i, j - 1) < 100) by {
            lemma_dec_value_small(s, i, j - 1);
        }
    }
}

/// At most two digits give a value under 100; at most one, under 10.
proof fn lemma_dec_value_small(s: Seq<char>, i: int, j: int)
    requires
        0 <= i <= j <= s.len(),
        j - i <= 2,
        forall|k: int| i <= k < j ==> is_dec_digit(s[k]),
    ensures
        0 <= dec_value(s, i, j) < 100,
    decreases j - i
{
    if i < j {
        lemma_dec_value_small(s, i, j - 1);
        assert(dec_value(s, i, j - 1) < 10) by {
            if i < j - 1 {
                lemma_dec_value_small(s, i, j - 2);
            }
        }
    }
}

/// Each hexadecimal digit multiplies the bound by sixteen: at most
/// `digits` of them stay under `pow16(digits)`.
proof fn lemma_hex_value_bound(s: Seq<char>, i: int, j: int, digits: int)
    requires
        0 <= i <= j <= s.len(),
        j - i <= digits <= 4,
        forall|k: int| i <= k < j ==> is_hex_digit(s[k]),
    ensures
        0 <= hex_value(s, i, j) < pow16(digits),
    decreases j - i
{
    if i < j {
        lemma_hex_value_bound(s, i, j - 1, digits - 1);
    } else {
        lemma_pow16_pos(digits);
    }
}

/// Four hexadecimal digits at most keep the value inside a 16-bit word.
proof fn lemma_hex_value_u16(s: Seq<char>, i: int, j: int)
    requires
        0 <= i <= j <= s.len(),
        j - i <= 4,
        forall|k: int| i <= k < j ==> is_hex_digit(s[k]),
    ensures
        0 <= hex_value(s, i, j) < 65536,
{
    lemma_hex_value_bound(s, i, j, 4);
    assert(pow16(0) == 1);
    assert(pow16(1) == 16);
    assert(pow16(2) == 256);
    assert(pow16(3) == 4096);
    assert(pow16(4) == 65536);
}

proof fn lemma_pow16_pos(n: int)
    requires n >= 0,
    ensures pow16(n) >= 1,
    decreases n
{
    if n > 0 {
        lemma_pow16_pos(n - 1);
    }
}

/// Powers of sixteen, for the hexadecimal bound.
pub open spec fn pow16(n: int) -> int
    decreases n when n >= 0
{
    if n <= 0 {
        1
    } else {
        16 * pow16(n - 1)
    }
}

/// One dotted-quad octet read at `i`: the whole digit run is taken; it
/// must be one to three digits, without a leading zero unless it is
/// exactly `0`, and its value must fit in a byte. Returns the value and
/// the position just past the run.
pub open spec fn spec_octet(s: Seq<char>, i: int) -> Option<(u8, int)>
    recommends 0 <= i <= s.len(),
{
    let j = dec_run_end(s, i);
    if j == i || j - i > 3 {
        None
    } else if s[i] == '0' && j - i > 1 {
        None
    } else if dec_value(s, i, j) > 255 {
        None
    } else {
        Some((dec_value(s, i, j) as u8, j))
    }
}

/// A dotted quad read at `i`: four octets separated by single dots.
pub open spec fn spec_ipv4(s: Seq<char>, i: int) -> Option<((u8, u8, u8, u8), int)>
    recommends 0 <= i <= s.len(),
{
    match spec_octet(s, i) {
        None => None,
        Some((a, p1)) => if p1 < s.len() && s[p1] == '.' {
            match spec_octet(s, p1 + 1) {
                None => None,
                Some((b, p2)) => if p2 < s.len() && s[p2] == '.' {
                    match spec_octet(s, p2 + 1) {
                        None => None,
                        Some((c, p3)) => if p3 < s.len() && s[p3] == '.' {
                            match spec_octet(s, p3 + 1) {
                                None => None,
                                Some((d, p4)) => Some(((a, b, c, d), p4)),
                            }
                        } else {
                            None
                        },
                    }
                } else {
                    None
                },
            }
        } else {
            None
        },
    }
}

/// One hexadecimal group read at `i`: the whole run of hexadecimal
/// digits is taken and must be one to four digits long. Leading zeros
/// are allowed.
pub open spec fn spec_hex_group(s: Seq<char>, i: int) -> Option<(u16, int)>
    recommends 0 <= i <= s.len(),
{
    let j = hex_run_end(s, i);
    if j == i || j - i > 4 {
        None
    } else {
        Some((hex_value(s, i, j) as u16, j))
    }
}

/// A hexadecimal group at `pos`, preceded by a `:` separator unless it
/// is the first item of its run. Nothing is consumed on failure.
pub open spec fn spec_sep_hex_group(s: Seq<char>, pos: int, first: bool) -> Option<(u16, int)>
    recommends 0 <= pos <= s.len(),
{
    if first {
        spec_hex_group(s, pos)
    } else if pos < s.len() && s[pos] == ':' {
        spec_hex_group(s, pos + 1)
    } else {
        None
    }
}

/// An embedded dotted quad at `pos`, preceded by a `:` separator unless
/// it is the first item of its run. Nothing is consumed on failure.
pub open spec fn spec_sep_ipv4(s: Seq<char>, pos: int, first: bool) -> Option<((u8, u8, u8, u8), int)>
    recommends 0 <= pos <= s.len(),
{
    if first {
        spec_ipv4(s, pos)
    } else if pos < s.len() && s[pos] == ':' {
        spec_ipv4(s, pos + 1)
    } else {
        None
    }
}

/// The two 16-bit groups that an embedded dotted quad stands for.
pub open spec fn quad_high(oct: (u8, u8, u8, u8)) -> u16 {
    (oct.0 as int * 256 + oct.1 as int) as u16
}

/// The low half of an embedded dotted quad.
pub open spec fn quad_low(oct: (u8, u8, u8, u8)) -> u16 {
    (oct.2 as int * 256 + oct.3 as int) as u16
}

/// A run of colon-separated 16-bit groups read at `pos`, filling at most
/// `remaining` group slots. At any slot with at least two slots left, an
/// embedded dotted quad is tried first; it fills two slots and ends the
/// run. Returns the groups, the position reached, and whether the run
/// ended in an embedded dotted quad.
pub open spec fn spec_read_groups(s: Seq<char>, pos: int, first: bool, remaining: int)
    -> (Seq<u16>, int, bool)
    recommends 0 <= pos <= s.len(),
    decreases remaining when remaining >= 0
{
    if remaining <= 0 {
        (Seq::<u16>::empty(), pos, false)
    } else {
        let ip4 = if remaining >= 2 {
            spec_sep_ipv4(s, pos, first)
        } else {
            None::<((u8, u8, u8, u8), int)>
        };
        match ip4 {
            Some((oct, p2)) => (seq![quad_high(oct), quad_low(oct)], p2, true),
            None => match spec_sep_hex_group(s, pos, first) {
                Some((g, p2)) => {
                    let rest = spec_read_groups(s, p2, false, remaining - 1);
                    (seq![g] + rest.0, rest.1, rest.2)
                },
                None => (Seq::<u16>::empty(), pos, false),
            },
        }
    }
}

/// An IPv6 address read at `i`: up to eight groups; if fewer than eight
/// are read, a `::` must follow, standing for at least one zero group,
/// and a tail run fills slots from the right. An embedded dotted quad is
/// only legal at the end, never before the `::`.
pub open spec fn spec_ipv6(s: Seq<char>, i: int) -> Option<(Seq<u16>, int)>
    recommends 0 <= i <= s.len(),
{
    let head = spec_read_groups(s, i, true, 8);
    if head.0.len() == 8 {
        Some((head.0, head.1))
    } else if head.2 {
        None
    } else if head.1 + 2 <= s.len() && s[head.1] == ':' && s[head.1 + 1] == ':' {
        let tail = spec_read_groups(s, head.1 + 2, true, 8 - head.0.len() - 1);
        let zeros = Seq::new((8 - head.0.len() - tail.0.len()) as nat, |k: int| 0u16);
        Some((head.0 + zeros + tail.0, tail.1))
    } else {
        None
    }
}

/// The whole string as an IP address: a dotted quad if one starts the
/// string (its text must then reach the end), otherwise an IPv6 address
/// reaching the end.
pub open spec fn spec_parse_ip(s: Seq<char>) -> Option<IpAddress> {
    match spec_ipv4(s, 0) {
        Some((oct, p)) => if p == s.len() {
            Some(IpAddress::V4(oct.0, oct.1, oct.2, oct.3))
        } else {
            None
        },
        None => match spec_ipv6(s, 0) {
            Some((gs, p)) => if p == s.len() && gs.len() == 8 {
                Some(IpAddress::V6(gs[0], gs[1], gs[2], gs[3], gs[4], gs[5], gs[6], gs[7]))
            } else {
                None
            },
            None => None,
        },
    }
}

fn dec_digit(c: char) -> (b: bool)
    ensures b == is_dec_digit(c),
{
    '0' <= c && c <= '9'
}

fn hex_digit(c: char) -> (b: bool)
    ensures b == is_hex_digit(c),
{
    ('0' <= c && c <= '9') || ('a' <= c && c <= 'f') || ('A' <= c && c <= 'F')
}

fn hex_digit_value(c: char) -> (r: u32)
    requires is_hex_digit(c),
    ensures r as int == hex_digit_val(c),
{
    if '0' <= c && c <= '9' {
        c as u32 - 48
    } else if 'a' <= c && c <= 'f' {
        c as u32 - 87
    } else {
        c as u32 - 55
    }
}

fn dec_run_end_at(v: &Vec<char>, i: usize) -> (r: usize)
    requires i <= v.len(),
    ensures
        r as int == dec_run_end(v@, i as int),
        i <= r <= v.len(),
    decreases v.len() - i
{
    if i < v.len() && dec_digit(v[i]) {
        dec_run_end_at(v, i + 1)
    } else {
        i
    }
}

fn hex_run_end_at(v: &Vec<char>, i: usize) -> (r: usize)
    requires i <= v.len(),
    ensures
        r as int == hex_run_end(v@, i as int),
        i <= r <= v.len(),
    decreases v.len() - i
{
    if i < v.len() && hex_digit(v[i]) {
        hex_run_end_at(v, i + 1)
    } else {
        i
    }
}

fn dec_value_at(v: &Vec<char>, i: usize, j: usize) -> (r: u32)
    requires
        i <= j <= v.len(),
        j - i <= 3,
        forall|k: int| i <= k < j ==> is_dec_digit(v@[k]),
    ensures r as int == dec_value(v@, i as int, j as int),
{
    let mut k = i;
    let mut acc: u32 = 0;
    while k < j
        invariant
            i <= k <= j <= v.len(),
            j - i <= 3,
            forall|m: int| i <= m < j ==> is_dec_digit(v@[m]),
            acc as int == dec_value(v@, i as int, k as int),
            acc < 1000,
        decreases j - k
    {
        proof {
            lemma_dec_value_bound(v@, i as int, k + 1);
        }
        acc = acc * 10 + (v[k] as u32 - 48);
        k = k + 1;
    }
    acc
}

fn hex_value_at(v: &Vec<char>, i: usize, j: usize) -> (r: u32)
    requires
        i <= j <= v.len(),
        j - i <= 4,
        forall|k: int| i <= k < j ==> is_hex_digit(v@[k]),
    ensures r as int == hex_value(v@, i as int, j as int),
{
    let mut k = i;
    let mut acc: u32 = 0;
    while k < j
        invariant
            i <= k <= j <= v.len(),
            j - i <= 4,
            forall|m: int| i <= m < j ==> is_hex_digit(v@[m]),
            acc as int == hex_value(v@, i as int, k as int),
            acc < 65536,
        decreases j - k
    {
        proof {
            lemma_hex_value_u16(v@, i as int, k + 1);
        }
        let d = hex_digit_value(v[k]);
        acc = acc * 16 + d;
        k = k + 1;
    }
    acc
}

fn parse_octet(v: &Vec<char>, i: usize) -> (r: Option<(u8, usize)>)
    requires i <= v.len(),
    ensures
        match r {
            Some(t) => spec_octet(v@, i as int) == Some((t.0, t.1 as int)) && i < t.1 <= v.len(),
            None => spec_octet(v@, i as int) is None,
        },
{
    let j = dec_run_end_at(v, i);
    proof {
        lemma_dec_run_end_bounds(v@, i as int);
    }
    if j == i || j - i > 3 {
        return None;
    }
    if v[i] == '0' && j - i > 1 {
        return None;
    }
    proof {
        lemma_dec_value_bound(v@, i as int, j as int);
    }
    let val = dec_value_at(v, i, j);
    if val > 255 {
        return None;
    }
    Some((val as u8, j))
}

fn parse_ipv4_at(v: &Vec<char>, i: usize) -> (r: Option<((u8, u8, u8, u8), usize)>)
    requires i <= v.len(),
    ensures
        match r {
            Some(t) => spec_ipv4(v@, i as int) == Some((t.0, t.1 as int)) && i < t.1 <= v.len(),
            None => spec_ipv4(v@, i as int) is None,
        },
{
    let first = parse_octet(v, i);
    match first {
        None => None,
        Some((a, p1)) => {
            if !(p1 < v.len() && v[p1] == '.') {
                return None;
            }
            match parse_octet(v, p1 + 1) {
                None => None,
                Some((b, p2)) => {
                    if !(p2 < v.len() && v[p2] == '.') {
                        return None;
                    }
                    match parse_octet(v, p2 + 1) {
                        None => None,
                        Some((c, p3)) => {
                            if !(p3 < v.len() && v[p3] == '.') {
                                return None;
                            }
                            match parse_octet(v, p3 + 1) {
                                None => None,
                                Some((d, p4)) => Some(((a, b, c, d), p4)),
                            }
                        },
                    }
                },
            }
        },
    }
}

fn parse_hex_group(v: &Vec<char>, i: usize) -> (r: Option<(u16, usize)>)
    requires i <= v.len(),
    ensures
        match r {
            Some(t) => spec_hex_group(v@, i as int) == Some((t.0, t.1 as int)) && i < t.1 <= v.len(),
            None => spec_hex_group(v@, i as int) is None,
        },
{
    let j = hex_run_end_at(v, i);
    proof {
        lemma_hex_run_end_bounds(v@, i as int);
    }
    if j == i || j - i > 4 {
        return None;
    }
    proof {
        lemma_hex_value_u16(v@, i as int, j as int);
    }
    let val = hex_value_at(v, i, j);
    Some((val as u16, j))
}

fn parse_sep_hex_group(v: &Vec<char>, pos: usize, first: bool) -> (r: Option<(u16, usize)>)
    requires pos <= v.len(),
    ensures
        match r {
            Some(t) => spec_sep_hex_group(v@, pos as int, first) == Some((t.0, t.1 as int))
                && pos < t.1 <= v.len(),
            None => spec_sep_hex_group(v@, pos as int, first) is None,
        },
{
    if first {
        parse_hex_group(v, pos)
    } else if pos < v.len() && v[pos] == ':' {
        parse_hex_group(v, pos + 1)
    } else {
        None
    }
}

fn parse_sep_ipv4(v: &Vec<char>, pos: usize, first: bool) -> (r: Option<((u8, u8, u8, u8), usize)>)
    requires pos <= v.len(),
    ensures
        match r {
            Some(t) => spec_sep_ipv4(v@, pos as int, first) == Some((t.0, t.1 as int))
                && pos < t.1 <= v.len(),
            None => spec_sep_ipv4(v@, pos as int, first) is None,
        },
{
    if first {
        parse_ipv4_at(v, pos)
    } else if pos < v.len() && v[pos] == ':' {
        parse_ipv4_at(v, pos + 1)
    } else {
        None
    }
}

fn read_groups(v: &Vec<char>, pos: usize, first: bool, remaining: usize)
    -> (r: (Vec<u16>, usize, bool))
    requires
        pos <= v.len(),
        remaining <= 8,
    ensures
        ({
            let sp = spec_read_groups(v@, pos as int, first, remaining as int);
            r.0@ == sp.0 && r.1 as int == sp.1 && r.2 == sp.2
        }),
        pos <= r.1 <= v.len(),
        r.0.len() <= remaining,
    decreases remaining
{
    if remaining == 0 {
        return (Vec::new(), pos, false);
    }
    if remaining >= 2 {
        if let Some((oct, p2)) = parse_sep_ipv4(v, pos, first) {
            let hi = (oct.0 as u16) * 256 + (oct.1 as u16);
            let lo = (oct.2 as u16) * 256 + (oct.3 as u16);
            let mut g: Vec<u16> = Vec::new();
            g.push(hi);
            g.push(lo);
            proof {
                assert(g@ =~= seq![quad_high(oct), quad_low(oct)]);
            }
            return (g, p2, true);
        }
    }
    match parse_sep_hex_group(v, pos, first) {
        Some((gv, p2)) => {
            let (mut rv, rp, rb) = read_groups(v, p2, false, remaining - 1);
            let mut groups: Vec<u16> = Vec::new();
            groups.push(gv);
            groups.append(&mut rv);
            proof {
                assert(groups@ =~= seq![gv]
                    + spec_read_groups(v@, p2 as int, false, remaining - 1).0);
            }
            (groups, rp, rb)
        },
        None => (Vec::new(), pos, false),
    }
}

fn parse_ipv6_at(v: &Vec<char>, i: usize) -> (r: Option<(Vec<u16>, usize)>)
    requires i <= v.len(),
    ensures
        match r {
            Some(t) => spec_ipv6(v@, i as int) == Some((t.0@, t.1 as int))
                && t.1 <= v.len() && t.0.len() == 8,
            None => spec_ipv6(v@, i as int) is None,
        },
{
    let (head, p, head4) = read_groups(v, i, true, 8);
    if head.len() == 8 {
        return Some((head, p));
    }
    if head4 {
        return None;
    }
    if v.len() - p >= 2 && v[p] == ':' && v[p + 1] == ':' {
        let hlen = head.len();
        let (mut tail, p2, _) = read_groups(v, p + 2, true, 8 - hlen - 1);
        let ghost head_seq = head@;
        let ghost tail_seq = tail@;
        let zeros = 8 - hlen - tail.len();
        let mut groups = head;
        let mut z: usize = 0;
        while z < zeros
            invariant
                z <= zeros,
                groups@ == head_seq + Seq::new(z as nat, |k: int| 0u16),
            decreases zeros - z
        {
            groups.push(0u16);
            proof {
                assert(groups@ =~= head_seq + Seq::new((z + 1) as nat, |k: int| 0u16));
            }
            z = z + 1;
        }
        groups.append(&mut tail);
        proof {
            assert(groups@ =~= head_seq
                + Seq::new((8 - head_seq.len() - tail_seq.len()) as nat, |k: int| 0u16)
                + tail_seq);
        }
        Some((groups, p2))
    } else {
        None
    }
}

pub(crate) fn parse_ip_chars(v: &Vec<char>) -> (r: Option<IpAddress>)
    ensures r == spec_parse_ip(v@),
{
    match parse_ipv4_at(v, 0) {
        Some((oct, p)) => {
            if p == v.len() {
                Some(IpAddress::V4(oct.0, oct.1, oct.2, oct.3))
            } else {
                None
            }
        },
        None => {
            match parse_ipv6_at(v, 0) {
                Some((gs, p)) => {
                    if p == v.len() && gs.len() == 8 {
                        Some(IpAddress::V6(gs[0], gs[1], gs[2], gs[3], gs[4], gs[5], gs[6],
                            gs[7]))
                    } else {
                        None
                    }
                },
                None => None,
            }
        },
    }
}

pub(crate) fn chars_of(s: &str) -> (v: Vec<char>)
    ensures v@ == s@,
{
    let n = s.unicode_len();
    let mut v: Vec<char> = Vec::new();
    let mut i: usize = 0;
    while i < n
        invariant
            i <= n,
            n == s@.len(),
            v@.len() == i,
            forall|k: int| 0 <= k < i ==> v@[k] == s@[k],
        decreases n - i
    {
        v.push(s.get_char(i));
        i = i + 1;
    }
    proof {
        assert(v@ =~= s@);
    }
    v
}

/// Parses the whole string as an IPv4 or IPv6 address in the standard
/// textual syntax, exactly as the grammar spec functions describe it.
pub fn parse_ip(s: &str) -> (r: Option<IpAddress>)
    ensures r == spec_parse_ip(s@),
{
    let v = chars_of(s);
    parse_ip_chars(&v)
}

} // verus!
