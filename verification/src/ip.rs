//! Textual IP addresses and prefixes: the grammar the service accepts, the
//! reserved-address rules, and the canonical text forms it answers with.
//! An address is held as plain numbers, so every rule about it is a
//! statement the verifier can check.

use vstd::prelude::*;
use crate::cloning::push_char;

verus! {

// ---------------------------------------------------------------------------
// Digits and numbers
// ---------------------------------------------------------------------------

pub open spec fn is_digit(c: char) -> bool {
    48 <= c as int && c as int <= 57
}

pub open spec fn digit_val(c: char) -> int {
    c as int - 48
}

pub open spec fn all_digits(s: Seq<char>) -> bool {
    forall|i: int| 0 <= i < s.len() ==> is_digit(#[trigger] s[i])
}

/// The number a run of decimal digits denotes.
pub open spec fn dec_val(s: Seq<char>) -> int
    decreases s.len(),
{
    if s.len() == 0 {
        0
    } else {
        dec_val(s.drop_last()) * 10 + digit_val(s.last())
    }
}

/// One octet of a dotted quad: one to three digits, no leading zero, at
/// most 255.
pub open spec fn valid_octet(s: Seq<char>) -> bool {
    1 <= s.len() <= 3 && all_digits(s) && (s.len() > 1 ==> s[0] != '0') && dec_val(s) <= 255
}

pub open spec fn is_hex_digit(c: char) -> bool {
    (48 <= c as int && c as int <= 57) || (97 <= c as int && c as int <= 102) || (65 <= c as int
        && c as int <= 70)
}

pub open spec fn hex_digit_val(c: char) -> int {
    if 48 <= c as int && c as int <= 57 {
        c as int - 48
    } else if 97 <= c as int && c as int <= 102 {
        c as int - 87
    } else {
        c as int - 55
    }
}

pub open spec fn all_hex_digits(s: Seq<char>) -> bool {
    forall|i: int| 0 <= i < s.len() ==> is_hex_digit(#[trigger] s[i])
}

pub open spec fn hex_val(s: Seq<char>) -> int
    decreases s.len(),
{
    if s.len() == 0 {
        0
    } else {
        hex_val(s.drop_last()) * 16 + hex_digit_val(s.last())
    }
}

/// One group of an IPv6 address: one to four hex digits.
pub open spec fn valid_group(s: Seq<char>) -> bool {
    1 <= s.len() <= 4 && all_hex_digits(s)
}

/// Where `c` first occurs, or a negative number.
pub open spec fn find_char(s: Seq<char>, c: char) -> int
    decreases s.len(),
{
    if s.len() == 0 {
        -1
    } else if s[0] == c {
        0
    } else {
        let r = find_char(s.skip(1), c);
        if r < 0 {
            -1
        } else {
            r + 1
        }
    }
}

/// Where "::" first occurs, or a negative number.
pub open spec fn find_double_colon(s: Seq<char>) -> int
    decreases s.len(),
{
    if s.len() < 2 {
        -1
    } else if s[0] == ':' && s[1] == ':' {
        0
    } else {
        let r = find_double_colon(s.skip(1));
        if r < 0 {
            -1
        } else {
            r + 1
        }
    }
}

// ---------------------------------------------------------------------------
// The address grammar
// ---------------------------------------------------------------------------

/// A dotted quad, read as `parts` dot-separated octets.
pub open spec fn parse_v4_parts(s: Seq<char>, parts: int) -> Option<Seq<u8>>
    decreases parts,
{
    if parts <= 1 {
        if valid_octet(s) {
            Some(seq![dec_val(s) as u8])
        } else {
            None
        }
    } else {
        let i = find_char(s, '.');
        if i < 0 {
            None
        } else if i + 1 > s.len() || !valid_octet(s.take(i)) {
            None
        } else {
            match parse_v4_parts(s.skip(i + 1), parts - 1) {
                None => None,
                Some(r) => Some(seq![dec_val(s.take(i)) as u8] + r),
            }
        }
    }
}

pub open spec fn parse_ipv4(s: Seq<char>) -> Option<Seq<u8>> {
    parse_v4_parts(s, 4)
}

/// Colon-separated nonempty hex groups; the empty string is zero groups.
pub open spec fn parse_groups(s: Seq<char>) -> Option<Seq<u16>>
    decreases s.len(),
{
    if s.len() == 0 {
        Some(Seq::empty())
    } else {
        let i = find_char(s, ':');
        if i < 0 {
            if valid_group(s) {
                Some(seq![hex_val(s) as u16])
            } else {
                None
            }
        } else if i + 1 >= s.len() || !valid_group(s.take(i)) {
            None
        } else {
            match parse_groups(s.skip(i + 1)) {
                None => None,
                Some(r) => Some(seq![hex_val(s.take(i)) as u16] + r),
            }
        }
    }
}

pub open spec fn zero_groups(n: int) -> Seq<u16> {
    Seq::new(n as nat, |i: int| 0u16)
}

/// An IPv6 address: eight groups, or two runs joined by one "::".
pub open spec fn parse_ipv6(s: Seq<char>) -> Option<Seq<u16>> {
    let i = find_double_colon(s);
    if i < 0 {
        match parse_groups(s) {
            None => None,
            Some(g) => if g.len() == 8 {
                Some(g)
            } else {
                None
            },
        }
    } else {
        let left = s.take(i);
        let right = s.skip(i + 2);
        if find_double_colon(right) >= 0 {
            None
        } else {
            match (parse_groups(left), parse_groups(right)) {
                (Some(a), Some(b)) => if a.len() + b.len() <= 7 {
                    Some(a + zero_groups(8 - a.len() - b.len()) + b)
                } else {
                    None
                },
                _ => None,
            }
        }
    }
}

// ---------------------------------------------------------------------------
// Reserved addresses
// ---------------------------------------------------------------------------

/// Loopback, private, link-local, broadcast, documentation and zero-net
/// IPv4 addresses.
pub open spec fn reserved_v4(o: Seq<u8>) -> bool {
    &&& o.len() == 4
    &&& (o[0] == 127 || o[0] == 10 || (o[0] == 172 && 16 <= o[1] && o[1] <= 31) || (o[0] == 192
        && o[1] == 168) || (o[0] == 169 && o[1] == 254) || (o[0] == 255 && o[1] == 255 && o[2]
        == 255 && o[3] == 255) || (o[0] == 192 && o[1] == 0 && o[2] == 2) || (o[0] == 198 && o[1]
        == 51 && o[2] == 100) || (o[0] == 203 && o[1] == 0 && o[2] == 113) || o[0] == 0)
}

/// Loopback, unspecified, unique-local, multicast and link-local IPv6
/// addresses.
pub open spec fn reserved_v6(g: Seq<u16>) -> bool {
    &&& g.len() == 8
    &&& ((g[0] == 0 && g[1] == 0 && g[2] == 0 && g[3] == 0 && g[4] == 0 && g[5] == 0 && g[6] == 0
        && (g[7] == 0 || g[7] == 1)) || (g[0] & 0xfe00) == 0xfc00 || (g[0] & 0xff00) == 0xff00 || (
    g[0] & 0xffc0) == 0xfe80)
}

/// Whether the text is a single address of either family that the
/// reserved rules exclude from lookups.
pub open spec fn spec_is_reserved(s: Seq<char>) -> bool {
    if parse_ipv4(s) is Some {
        reserved_v4(parse_ipv4(s)->Some_0)
    } else if parse_ipv6(s) is Some {
        reserved_v6(parse_ipv6(s)->Some_0)
    } else {
        false
    }
}

// ---------------------------------------------------------------------------
// Executable twins
// ---------------------------------------------------------------------------

pub fn chars_of(s: &str) -> (v: Vec<char>)
    ensures
        v@ == s@,
{
    let n = s.unicode_len();
    let mut v: Vec<char> = Vec::new();
    let mut i: usize = 0;
    while i < n
        invariant
            n == s@.len(),
            i <= n,
            v@ == s@.take(i as int),
        decreases n - i,
    {
        v.push(s.get_char(i));
        assert(v@ =~= s@.take(i + 1));
        i = i + 1;
    }
    assert(s@.take(n as int) =~= s@);
    v
}

pub fn find_char_from_pub(v: &Vec<char>, from: usize, c: char) -> (r: Option<usize>)
    requires
        from <= v@.len(),
    ensures
        ({
            let f = find_char(v@.skip(from as int), c);
            match r {
                Some(i) => from <= i < v@.len() && f == i - from && v@[i as int] == c,
                None => f < 0,
            }
        }),
    decreases v@.len() - from,
{
    if from >= v.len() {
        None
    } else if v[from] == c {
        assert(v@.skip(from as int)[0] == v@[from as int]);
        Some(from)
    } else {
        proof {
            assert(v@.skip(from as int)[0] == v@[from as int]);
            assert(v@.skip(from as int).skip(1) =~= v@.skip(from + 1));
        }
        find_char_from_pub(v, from + 1, c)
    }
}

fn find_double_colon_from(v: &Vec<char>, from: usize) -> (r: Option<usize>)
    requires
        from <= v@.len(),
    ensures
        ({
            let f = find_double_colon(v@.skip(from as int));
            match r {
                Some(i) => from <= i && i + 1 < v@.len() && f == i - from,
                None => f < 0,
            }
        }),
    decreases v@.len() - from,
{
    if v.len() - from < 2 {
        None
    } else if v[from] == ':' && v[from + 1] == ':' {
        proof {
            assert(v@.skip(from as int)[0] == v@[from as int]);
            assert(v@.skip(from as int)[1] == v@[from + 1]);
        }
        Some(from)
    } else {
        proof {
            assert(v@.skip(from as int)[0] == v@[from as int]);
            if from + 1 < v@.len() {
                assert(v@.skip(from as int)[1] == v@[from + 1]);
            }
            assert(v@.skip(from as int).skip(1) =~= v@.skip(from + 1));
        }
        find_double_colon_from(v, from + 1)
    }
}

fn is_digit_exec(c: char) -> (r: bool)
    ensures
        r == is_digit(c),
{
    let x = c as u32;
    48 <= x && x <= 57
}

fn is_hex_digit_exec(c: char) -> (r: bool)
    ensures
        r == is_hex_digit(c),
{
    let x = c as u32;
    (48 <= x && x <= 57) || (97 <= x && x <= 102) || (65 <= x && x <= 70)
}

/// Reads one octet from `v[from..to]`.
fn parse_octet_range(v: &Vec<char>, from: usize, to: usize) -> (r: Option<u8>)
    requires
        from <= to <= v@.len(),
    ensures
        ({
            let s = v@.subrange(from as int, to as int);
            match r {
                Some(x) => valid_octet(s) && x == dec_val(s),
                None => !valid_octet(s),
            }
        }),
{
    let ghost s = v@.subrange(from as int, to as int);
    let len = to - from;
    if len < 1 || len > 3 {
        return None;
    }
    let mut i: usize = 0;
    while i < len
        invariant
            from + len <= v@.len(),
            to == from + len,
            i <= len,
            s == v@.subrange(from as int, to as int),
            forall|j: int| 0 <= j < i ==> is_digit(#[trigger] s[j]),
        decreases len - i,
    {
        assert(s[i as int] == v@[from + i]);
        if !is_digit_exec(v[from + i]) {
            return None;
        }
        i = i + 1;
    }
    assert(all_digits(s));
    if len > 1 && v[from] == '0' {
        assert(s[0] == v@[from as int]);
        return None;
    }
    let ghost s1 = s.take(1);
    let ghost s2 = s.take(2);
    proof {
        assert(s[0] == v@[from as int]);
        assert(is_digit(s[0]));
    }
    let d0 = (v[from] as u32) - 48;
    proof {
        assert(s1.drop_last() =~= s.take(0));
        assert(s.take(0) =~= Seq::<char>::empty());
        assert(dec_val(Seq::<char>::empty()) == 0);
        assert(s1.last() == v@[from as int]);
        assert(dec_val(s1) == digit_val(v@[from as int]));
    }
    assert(d0 == digit_val(s[0]));
    let val: u32 = if len == 1 {
        proof {
            assert(s =~= s1);
        }
        d0
    } else if len == 2 {
        proof {
            assert(s[1] == v@[from + 1]);
            assert(is_digit(s[1]));
        }
        let d1 = (v[from + 1] as u32) - 48;
        proof {
            assert(d1 == digit_val(s[1]));
            assert(s2.drop_last() =~= s1);
            assert(s2.last() == s[1]);
            assert(dec_val(s2) == dec_val(s1) * 10 + digit_val(s[1]));
            assert(s =~= s2);
        }
        d0 * 10 + d1
    } else {
        proof {
            assert(s[1] == v@[from + 1]);
            assert(is_digit(s[1]));
            assert(s[2] == v@[from + 2]);
            assert(is_digit(s[2]));
        }
        let d1 = (v[from + 1] as u32) - 48;
        let d2 = (v[from + 2] as u32) - 48;
        proof {
            assert(d1 == digit_val(s[1]));
            assert(d2 == digit_val(s[2]));
            assert(s2.drop_last() =~= s1);
            assert(s2.last() == s[1]);
            assert(dec_val(s2) == dec_val(s1) * 10 + digit_val(s[1]));
            assert(s.drop_last() =~= s2);
            assert(s.last() == s[2]);
            assert(dec_val(s) == dec_val(s2) * 10 + digit_val(s[2]));
        }
        d0 * 100 + d1 * 10 + d2
    };
    assert(val == dec_val(s));
    if val > 255 {
        None
    } else {
        Some(val as u8)
    }
}

/// Reads one hex group from `v[from..to]`.
fn parse_group_range(v: &Vec<char>, from: usize, to: usize) -> (r: Option<u16>)
    requires
        from <= to <= v@.len(),
    ensures
        ({
            let s = v@.subrange(from as int, to as int);
            match r {
                Some(x) => valid_group(s) && x == hex_val(s),
                None => !valid_group(s),
            }
        }),
{
    let ghost s = v@.subrange(from as int, to as int);
    let len = to - from;
    if len < 1 || len > 4 {
        return None;
    }
    let mut i: usize = 0;
    let mut val: u32 = 0;
    proof {
        assert(s.take(0) =~= Seq::<char>::empty());
        assert(hex_val(Seq::<char>::empty()) == 0);
    }
    while i < len
        invariant
            from + len <= v@.len(),
            to == from + len,
            len <= 4,
            i <= len,
            s == v@.subrange(from as int, to as int),
            forall|j: int| 0 <= j < i ==> is_hex_digit(#[trigger] s[j]),
            val == hex_val(s.take(i as int)),
            i == 0 ==> val < 1,
            i == 1 ==> val < 16,
            i == 2 ==> val < 256,
            i == 3 ==> val < 4096,
            i == 4 ==> val < 65536,
        decreases len - i,
    {
        assert(s[i as int] == v@[from + i]);
        let c = v[from + i];
        if !is_hex_digit_exec(c) {
            return None;
        }
        let x = c as u32;
        let d: u32 = if 48 <= x && x <= 57 {
            x - 48
        } else if 97 <= x && x <= 102 {
            x - 87
        } else {
            x - 55
        };
        assert(d == hex_digit_val(s[i as int]) && d < 16);
        proof {
            let t = s.take(i + 1);
            assert(t.drop_last() =~= s.take(i as int));
            assert(t.last() == s[i as int]);
        }
        val = val * 16 + d;
        i = i + 1;
    }
    assert(s.take(len as int) =~= s);
    assert(all_hex_digits(s));
    Some(val as u16)
}

/// A dotted quad always has one octet per part.
pub proof fn lemma_parse_v4_len(s: Seq<char>, parts: int)
    requires
        parts >= 1,
    ensures
        parse_v4_parts(s, parts) matches Some(o) ==> o.len() == parts,
    decreases parts,
{
    if parts > 1 {
        let i = find_char(s, '.');
        if i >= 0 && i + 1 <= s.len() && valid_octet(s.take(i)) {
            lemma_parse_v4_len(s.skip(i + 1), parts - 1);
        }
    }
}

/// A parsed IPv6 address always has eight groups.
pub proof fn lemma_parse_v6_len(s: Seq<char>)
    ensures
        parse_ipv6(s) matches Some(g) ==> g.len() == 8,
{
}

pub fn find_char_range_pub(v: &Vec<char>, from: usize, to: usize, c: char) -> (r: Option<usize>)
    requires
        from <= to <= v@.len(),
    ensures
        ({
            let f = find_char(v@.subrange(from as int, to as int), c);
            match r {
                Some(i) => from <= i < to && f == i - from && v@[i as int] == c,
                None => f < 0,
            }
        }),
    decreases to - from,
{
    let ghost s = v@.subrange(from as int, to as int);
    if from >= to {
        None
    } else if v[from] == c {
        assert(s[0] == v@[from as int]);
        Some(from)
    } else {
        proof {
            assert(s[0] == v@[from as int]);
            assert(s.skip(1) =~= v@.subrange(from + 1, to as int));
        }
        find_char_range_pub(v, from + 1, to, c)
    }
}

/// Reads `parts` dot-separated octets from `v[from..]`.
fn parse_v4_exec(v: &Vec<char>, from: usize, parts: u8) -> (r: Option<Vec<u8>>)
    requires
        from <= v@.len(),
        parts >= 1,
    ensures
        ({
            let f = parse_v4_parts(v@.skip(from as int), parts as int);
            match r {
                Some(o) => f == Some(o@),
                None => f is None,
            }
        }),
    decreases parts,
{
    let ghost s = v@.skip(from as int);
    let n = v.len();
    if parts == 1 {
        proof {
            assert(s =~= v@.subrange(from as int, v@.len() as int));
        }
        match parse_octet_range(v, from, n) {
            None => None,
            Some(x) => {
                let mut o: Vec<u8> = Vec::new();
                o.push(x);
                assert(o@ =~= seq![dec_val(s) as u8]);
                Some(o)
            },
        }
    } else {
        match find_char_from_pub(v, from, '.') {
            None => None,
            Some(i) => {
                proof {
                    assert(v@.subrange(from as int, i as int) =~= s.take(i - from));
                }
                match parse_octet_range(v, from, i) {
                    None => None,
                    Some(x) => {
                        proof {
                            assert(v@.skip(i + 1) =~= s.skip(i - from + 1));
                        }
                        match parse_v4_exec(v, i + 1, parts - 1) {
                            None => None,
                            Some(rest) => {
                                let mut o = rest;
                                o.insert(0, x);
                                proof {
                                    let ghost ss = s.take(i - from);
                                    assert(o@ =~= seq![dec_val(ss) as u8] + o@.skip(1));
                                }
                                Some(o)
                            },
                        }
                    },
                }
            },
        }
    }
}

/// Reads colon-separated hex groups from `v[from..to]`.
fn parse_groups_range(v: &Vec<char>, from: usize, to: usize) -> (r: Option<Vec<u16>>)
    requires
        from <= to <= v@.len(),
    ensures
        ({
            let f = parse_groups(v@.subrange(from as int, to as int));
            match r {
                Some(g) => f == Some(g@),
                None => f is None,
            }
        }),
    decreases to - from,
{
    let ghost s = v@.subrange(from as int, to as int);
    if from == to {
        let o: Vec<u16> = Vec::new();
        assert(o@ =~= Seq::<u16>::empty());
        Some(o)
    } else {
        match find_char_range_pub(v, from, to, ':') {
            None => {
                match parse_group_range(v, from, to) {
                    None => None,
                    Some(x) => {
                        let mut o: Vec<u16> = Vec::new();
                        o.push(x);
                        assert(o@ =~= seq![hex_val(s) as u16]);
                        Some(o)
                    },
                }
            },
            Some(i) => {
                if i + 1 >= to {
                    return None;
                }
                proof {
                    assert(v@.subrange(from as int, i as int) =~= s.take(i - from));
                }
                match parse_group_range(v, from, i) {
                    None => None,
                    Some(x) => {
                        proof {
                            assert(v@.subrange(i + 1, to as int) =~= s.skip(i - from + 1));
                        }
                        match parse_groups_range(v, i + 1, to) {
                            None => None,
                            Some(rest) => {
                                let mut o = rest;
                                o.insert(0, x);
                                proof {
                                    let ghost ss = s.take(i - from);
                                    assert(o@ =~= seq![hex_val(ss) as u16] + o@.skip(1));
                                }
                                Some(o)
                            },
                        }
                    },
                }
            },
        }
    }
}

/// Reads a whole IPv6 address from `v[from..]`.
fn parse_v6_exec(v: &Vec<char>, from: usize) -> (r: Option<Vec<u16>>)
    requires
        from <= v@.len(),
    ensures
        ({
            let f = parse_ipv6(v@.skip(from as int));
            match r {
                Some(g) => f == Some(g@) && g@.len() == 8,
                None => f is None,
            }
        }),
{
    let ghost s = v@.skip(from as int);
    let n = v.len();
    proof {
        lemma_parse_v6_len(s);
    }
    match find_double_colon_from(v, from) {
        None => {
            proof {
                assert(s =~= v@.subrange(from as int, v@.len() as int));
            }
            match parse_groups_range(v, from, n) {
                None => None,
                Some(g) => {
                    if g.len() == 8 {
                        Some(g)
                    } else {
                        None
                    }
                },
            }
        },
        Some(i) => {
            match find_double_colon_from(v, i + 2) {
                Some(_) => {
                    proof {
                        assert(s.skip(i - from + 2) =~= v@.skip(i + 2));
                    }
                    None
                },
                None => {
                    proof {
                        assert(s.skip(i - from + 2) =~= v@.skip(i + 2));
                        assert(s.take(i - from) =~= v@.subrange(from as int, i as int));
                        assert(v@.skip(i + 2) =~= v@.subrange(i + 2, v@.len() as int));
                    }
                    let a = match parse_groups_range(v, from, i) {
                        None => {
                            return None;
                        },
                        Some(a) => a,
                    };
                    let b = match parse_groups_range(v, i + 2, n) {
                        None => {
                            return None;
                        },
                        Some(b) => b,
                    };
                    let la = a.len();
                    let lb = b.len();
                    if la > 7 || lb > 7 - la {
                        return None;
                    }
                    let zeros = 8 - la - lb;
                    let mut g = a;
                    let mut k: usize = 0;
                    let ghost av = g@;
                    while k < zeros
                        invariant
                            k <= zeros,
                            g@ == av + zero_groups(k as int),
                        decreases zeros - k,
                    {
                        g.push(0u16);
                        assert(g@ =~= av + zero_groups(k + 1));
                        k = k + 1;
                    }
                    let mut j: usize = 0;
                    let ghost azv = g@;
                    while j < b.len()
                        invariant
                            j <= b@.len(),
                            g@ == azv + b@.take(j as int),
                        decreases b@.len() - j,
                    {
                        let x = b[j];
                        g.push(x);
                        assert(g@ =~= azv + b@.take(j + 1));
                        j = j + 1;
                    }
                    proof {
                        assert(b@.take(b@.len() as int) =~= b@);
                        assert(g@ =~= av + zero_groups(zeros as int) + b@);
                    }
                    Some(g)
                },
            }
        },
    }
}

/// Whether the text names a single reserved address of either family.
pub fn is_reserved_ip(s: &str) -> (r: bool)
    ensures
        r == spec_is_reserved(s@),
{
    let v = chars_of(s);
    proof {
        assert(v@.skip(0) =~= v@);
        lemma_parse_v4_len(v@, 4);
    }
    match parse_v4_exec(&v, 0, 4) {
        Some(o) => {
            o[0] == 127 || o[0] == 10 || (o[0] == 172 && 16 <= o[1] && o[1] <= 31) || (o[0] == 192
                && o[1] == 168) || (o[0] == 169 && o[1] == 254) || (o[0] == 255 && o[1] == 255
                && o[2] == 255 && o[3] == 255) || (o[0] == 192 && o[1] == 0 && o[2] == 2) || (o[0]
                == 198 && o[1] == 51 && o[2] == 100) || (o[0] == 203 && o[1] == 0 && o[2] == 113)
                || o[0] == 0
        },
        None => match parse_v6_exec(&v, 0) {
            Some(g) => {
                (g[0] == 0 && g[1] == 0 && g[2] == 0 && g[3] == 0 && g[4] == 0 && g[5] == 0 && g[6]
                    == 0 && (g[7] == 0 || g[7] == 1)) || (g[0] & 0xfe00) == 0xfc00 || (g[0]
                    & 0xff00) == 0xff00 || (g[0] & 0xffc0) == 0xfe80
            },
            None => false,
        },
    }
}

// ---------------------------------------------------------------------------
// Canonical text forms
// ---------------------------------------------------------------------------

/// The decimal digits of `n`, most significant first.
pub open spec fn dec_str(n: int) -> Seq<char>
    decreases n,
{
    if n < 10 {
        seq![((48 + if n >= 0 { n % 10 } else { 0 }) as u8) as char]
    } else {
        dec_str(n / 10).push(((48 + n % 10) as u8) as char)
    }
}

/// The lowercase hex digits of `n`, most significant first.
pub open spec fn hex_str(n: int) -> Seq<char>
    decreases n,
{
    let d = if n >= 0 { n % 16 } else { 0 };
    let c = ((if d < 10 { 48 + d } else { 87 + d }) as u8) as char;
    if n < 16 {
        seq![c]
    } else {
        hex_str(n / 16).push(c)
    }
}

/// The dotted form of four octets.
pub open spec fn v4_string(o: Seq<u8>) -> Seq<char> {
    dec_str(o[0] as int) + seq!['.'] + dec_str(o[1] as int) + seq!['.'] + dec_str(o[2] as int)
        + seq!['.'] + dec_str(o[3] as int)
}

/// The full eight-group form of an IPv6 address, lowercase, without
/// zero-run compression.
pub open spec fn v6_string(g: Seq<u16>) -> Seq<char> {
    hex_str(g[0] as int) + seq![':'] + hex_str(g[1] as int) + seq![':'] + hex_str(g[2] as int)
        + seq![':'] + hex_str(g[3] as int) + seq![':'] + hex_str(g[4] as int) + seq![':']
        + hex_str(g[5] as int) + seq![':'] + hex_str(g[6] as int) + seq![':'] + hex_str(
        g[7] as int,
    )
}

fn push_dec(out: &mut String, n: u32)
    ensures
        final(out)@ == old(out)@ + dec_str(n as int),
    decreases n,
{
    if n < 10 {
        push_char(out, (48 + n as u8) as char);
        assert(out@ =~= old(out)@ + dec_str(n as int));
    } else {
        push_dec(out, n / 10);
        let d = (n % 10) as u8;
        push_char(out, (48 + d) as char);
        assert(out@ =~= old(out)@ + dec_str(n as int));
    }
}

fn push_hex(out: &mut String, n: u32)
    ensures
        final(out)@ == old(out)@ + hex_str(n as int),
    decreases n,
{
    let d = (n % 16) as u8;
    let c = if d < 10 {
        (48 + d) as char
    } else {
        (87 + d) as char
    };
    if n < 16 {
        push_char(out, c);
        assert(out@ =~= old(out)@ + hex_str(n as int));
    } else {
        push_hex(out, n / 16);
        push_char(out, c);
        assert(out@ =~= old(out)@ + hex_str(n as int));
    }
}

/// Writes the dotted form of four octets.
pub fn format_v4(o0: u8, o1: u8, o2: u8, o3: u8) -> (r: String)
    ensures
        r@ == v4_string(seq![o0, o1, o2, o3]),
{
    let mut out = String::new();
    push_dec(&mut out, o0 as u32);
    push_char(&mut out, '.');
    push_dec(&mut out, o1 as u32);
    push_char(&mut out, '.');
    push_dec(&mut out, o2 as u32);
    push_char(&mut out, '.');
    push_dec(&mut out, o3 as u32);
    proof {
        let o = seq![o0, o1, o2, o3];
        assert(o[0] == o0 && o[1] == o1 && o[2] == o2 && o[3] == o3);
        assert(out@ =~= v4_string(o));
    }
    out
}

/// Writes the full-form text of eight groups.
pub fn format_v6(g: &Vec<u16>) -> (r: String)
    requires
        g@.len() == 8,
    ensures
        r@ == v6_string(g@),
{
    let mut out = String::new();
    push_hex(&mut out, g[0] as u32);
    push_char(&mut out, ':');
    push_hex(&mut out, g[1] as u32);
    push_char(&mut out, ':');
    push_hex(&mut out, g[2] as u32);
    push_char(&mut out, ':');
    push_hex(&mut out, g[3] as u32);
    push_char(&mut out, ':');
    push_hex(&mut out, g[4] as u32);
    push_char(&mut out, ':');
    push_hex(&mut out, g[5] as u32);
    push_char(&mut out, ':');
    push_hex(&mut out, g[6] as u32);
    push_char(&mut out, ':');
    push_hex(&mut out, g[7] as u32);
    assert(out@ =~= v6_string(g@));
    out
}


/// Where `c` first occurs in the whole text.
pub fn find_char_pub(v: &Vec<char>, c: char) -> (r: Option<usize>)
    ensures
        ({
            let f = find_char(v@, c);
            match r {
                Some(i) => i < v@.len() && f == i && v@[i as int] == c,
                None => f < 0,
            }
        }),
{
    proof {
        assert(v@.skip(0) =~= v@);
    }
    find_char_from_pub(v, 0, c)
}

/// Copies `v[from..to]` out as its own vector.
pub fn slice_chars(v: &Vec<char>, from: usize, to: usize) -> (r: Vec<char>)
    requires
        from <= to <= v@.len(),
    ensures
        r@ == v@.subrange(from as int, to as int),
{
    let mut r: Vec<char> = Vec::new();
    let mut i: usize = from;
    while i < to
        invariant
            from <= i <= to <= v@.len(),
            r@ == v@.subrange(from as int, i as int),
        decreases to - i,
    {
        let c = v[i];
        r.push(c);
        assert(r@ =~= v@.subrange(from as int, i + 1));
        i = i + 1;
    }
    r
}

/// Reads a whole dotted quad.
pub fn parse_v4_vec(v: &Vec<char>) -> (r: Option<Vec<u8>>)
    ensures
        ({
            let f = parse_ipv4(v@);
            match r {
                Some(o) => f == Some(o@) && o@.len() == 4,
                None => f is None,
            }
        }),
{
    proof {
        assert(v@.skip(0) =~= v@);
        lemma_parse_v4_len(v@, 4);
    }
    parse_v4_exec(v, 0, 4)
}

/// Reads a whole IPv6 address.
pub fn parse_v6_vec(v: &Vec<char>) -> (r: Option<Vec<u16>>)
    ensures
        ({
            let f = parse_ipv6(v@);
            match r {
                Some(g) => f == Some(g@) && g@.len() == 8,
                None => f is None,
            }
        }),
{
    proof {
        assert(v@.skip(0) =~= v@);
    }
    parse_v6_exec(v, 0)
}

/// Reads a prefix length: one to three decimal digits, leading zeros
/// allowed.
pub fn parse_prefix_len(v: &Vec<char>, from: usize, to: usize) -> (r: Option<u32>)
    requires
        from <= to <= v@.len(),
    ensures
        ({
            let s = v@.subrange(from as int, to as int);
            match r {
                Some(p) => 1 <= s.len() <= 3 && all_digits(s) && p == dec_val(s),
                None => !(1 <= s.len() <= 3 && all_digits(s)),
            }
        }),
{
    let ghost s = v@.subrange(from as int, to as int);
    let len = to - from;
    if len < 1 || len > 3 {
        return None;
    }
    let mut i: usize = 0;
    let mut val: u32 = 0;
    proof {
        assert(s.take(0) =~= Seq::<char>::empty());
        assert(dec_val(Seq::<char>::empty()) == 0);
    }
    while i < len
        invariant
            from + len <= v@.len(),
            to == from + len,
            len <= 3,
            i <= len,
            s == v@.subrange(from as int, to as int),
            forall|j: int| 0 <= j < i ==> is_digit(#[trigger] s[j]),
            val == dec_val(s.take(i as int)),
            i == 0 ==> val < 1,
            i == 1 ==> val < 10,
            i == 2 ==> val < 100,
            i == 3 ==> val < 1000,
        decreases len - i,
    {
        assert(s[i as int] == v@[from + i]);
        let c = v[from + i];
        if !is_digit_exec(c) {
            return None;
        }
        let d = (c as u32) - 48;
        assert(d == digit_val(s[i as int]) && d < 10);
        proof {
            let t = s.take(i + 1);
            assert(t.drop_last() =~= s.take(i as int));
            assert(t.last() == s[i as int]);
        }
        val = val * 10 + d;
        i = i + 1;
    }
    assert(s.take(len as int) =~= s);
    assert(all_digits(s));
    Some(val)
}


} // verus!
