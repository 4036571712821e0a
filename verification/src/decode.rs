//! Reading the snapshot wire format back.  Each `take_*` function consumes
//! one value at a byte offset; its contract is two-sided: it succeeds
//! exactly when the deterministic `has_*_at` predicate holds, and what it
//! returns is the deterministic `dec_*_at` function of the bytes.  The
//! `lemma_*_round` lemmas close the loop: bytes written by the encoders
//! satisfy the predicates and decode to the original value.

use vstd::prelude::*;
use crate::cloning::push_char;
use crate::codec::{
    enc_bgp_api, enc_bgptools, enc_bgptools_head, enc_char, enc_chars, enc_ip_head, enc_ip_info,
    enc_meta, enc_meta_items, enc_meta_list, enc_opt_bgp_api, enc_opt_bgptools, enc_opt_str,
    enc_opt_str_list, enc_opt_u32, enc_opt_vrps_list, enc_opt_whois, enc_rpki, enc_rpki_items,
    enc_rpki_list, enc_str, enc_str_items, enc_str_list, enc_u32, enc_u64, enc_upstream,
    enc_upstream_items, enc_upstream_list, enc_vrps, enc_vrps_items, enc_vrps_list, enc_whois,
    enc_whois_head, enc_entry_pair, enc_entry_items, enc_entry_list, enc_snapshot,
};
use crate::bgp_api::{BgpApiMeta, BgpApiMetaView, BgpApiResult, BgpApiResultView};
use crate::bgptools::{BgpToolsInfo, BgpToolsInfoView, BgpToolsUpstream, BgpToolsUpstreamView};
use crate::record::{Entry, EntryView, IpInfo, IpInfoView};
use crate::rpki::{RpkiValidity, RpkiValidityView, RpkiVrps, RpkiVrpsView};
use crate::whois::{WhoisInfo, WhoisInfoView};

verus! {

pub open spec fn combine_u64(
    b0: u8,
    b1: u8,
    b2: u8,
    b3: u8,
    b4: u8,
    b5: u8,
    b6: u8,
    b7: u8,
) -> u64 {
    (b0 as u64) | ((b1 as u64) << 8) | ((b2 as u64) << 16) | ((b3 as u64) << 24) | ((b4
        as u64) << 32) | ((b5 as u64) << 40) | ((b6 as u64) << 48) | ((b7 as u64) << 56)
}

pub open spec fn combine_u32(b0: u8, b1: u8, b2: u8, b3: u8) -> u32 {
    (b0 as u32) | ((b1 as u32) << 8) | ((b2 as u32) << 16) | ((b3 as u32) << 24)
}

pub open spec fn has_u64_at(b: Seq<u8>, pos: int) -> bool {
    0 <= pos && pos + 8 <= b.len()
}

pub open spec fn dec_u64_at(b: Seq<u8>, pos: int) -> u64 {
    combine_u64(
        b[pos],
        b[pos + 1],
        b[pos + 2],
        b[pos + 3],
        b[pos + 4],
        b[pos + 5],
        b[pos + 6],
        b[pos + 7],
    )
}

/// Decoding the eight bytes an integer was encoded as gives it back.
pub proof fn lemma_combine_enc_u64(x: u64)
    ensures
        combine_u64(
            (x & 0xff) as u8,
            ((x >> 8) & 0xff) as u8,
            ((x >> 16) & 0xff) as u8,
            ((x >> 24) & 0xff) as u8,
            ((x >> 32) & 0xff) as u8,
            ((x >> 40) & 0xff) as u8,
            ((x >> 48) & 0xff) as u8,
            ((x >> 56) & 0xff) as u8,
        ) == x,
{
    assert(((x & 0xff) as u8 as u64) | ((((x >> 8) & 0xff) as u8 as u64) << 8) | ((((x >> 16)
        & 0xff) as u8 as u64) << 16) | ((((x >> 24) & 0xff) as u8 as u64) << 24) | ((((x >> 32)
        & 0xff) as u8 as u64) << 32) | ((((x >> 40) & 0xff) as u8 as u64) << 40) | ((((x >> 48)
        & 0xff) as u8 as u64) << 48) | ((((x >> 56) & 0xff) as u8 as u64) << 56) == x)
        by (bit_vector);
}

pub proof fn lemma_combine_enc_u32(x: u32)
    ensures
        combine_u32(
            (x & 0xff) as u8,
            ((x >> 8) & 0xff) as u8,
            ((x >> 16) & 0xff) as u8,
            ((x >> 24) & 0xff) as u8,
        ) == x,
{
    assert(((x & 0xff) as u8 as u32) | ((((x >> 8) & 0xff) as u8 as u32) << 8) | ((((x >> 16)
        & 0xff) as u8 as u32) << 16) | ((((x >> 24) & 0xff) as u8 as u32) << 24) == x)
        by (bit_vector);
}

/// Bytes that carry `enc_u64(x)` at `pos` decode to `x`.
#[verifier::rlimit(100)]
pub proof fn lemma_u64_round(b: Seq<u8>, pos: int, x: u64)
    requires
        0 <= pos,
        pos + 8 <= b.len(),
        b.subrange(pos, pos + 8) == enc_u64(x),
    ensures
        has_u64_at(b, pos),
        dec_u64_at(b, pos) == x,
{
    let e = enc_u64(x);
    assert forall|k: int| 0 <= k < 8 implies b[pos + k] == e[k] by {
        assert(b.subrange(pos, pos + 8)[k] == b[pos + k]);
    }
    lemma_combine_enc_u64(x);
}

pub open spec fn has_u32_at(b: Seq<u8>, pos: int) -> bool {
    0 <= pos && pos + 4 <= b.len()
}

pub open spec fn dec_u32_at(b: Seq<u8>, pos: int) -> u32 {
    combine_u32(b[pos], b[pos + 1], b[pos + 2], b[pos + 3])
}

/// Bytes that carry `enc_u32(x)` at `pos` decode to `x`.
#[verifier::rlimit(100)]
pub proof fn lemma_u32_round(b: Seq<u8>, pos: int, x: u32)
    requires
        0 <= pos,
        pos + 4 <= b.len(),
        b.subrange(pos, pos + 4) == enc_u32(x),
    ensures
        has_u32_at(b, pos),
        dec_u32_at(b, pos) == x,
{
    let e = enc_u32(x);
    assert forall|k: int| 0 <= k < 4 implies b[pos + k] == e[k] by {
        assert(b.subrange(pos, pos + 4)[k] == b[pos + k]);
    }
    lemma_combine_enc_u32(x);
}

#[verifier::rlimit(100)]
pub fn take_u32(b: &Vec<u8>, pos: usize) -> (r: Option<(u32, usize)>)
    ensures
        r is Some <==> has_u32_at(b@, pos as int),
        match r {
            Some((x, end)) => x == dec_u32_at(b@, pos as int) && end == pos + 4,
            None => true,
        },
{
    if pos <= b.len() && b.len() - pos >= 4 {
        let x = (b[pos] as u32) | ((b[pos + 1] as u32) << 8) | ((b[pos + 2] as u32) << 16) | ((b[pos
            + 3] as u32) << 24);
        Some((x, pos + 4))
    } else {
        None
    }
}

/// A code point the encoder can have written: a Unicode scalar value.
pub open spec fn is_scalar_code(x: u32) -> bool {
    x < 0xD800 || (0xE000 <= x && x <= 0x10FFFF)
}

/// Relies on char::from_u32 of std: it returns `Some` exactly for Unicode
/// scalar values, and then the character with that code.
#[verifier::external_body]
fn char_from_u32(x: u32) -> (r: Option<char>)
    ensures
        r is Some <==> is_scalar_code(x),
        match r {
            Some(c) => c == x as char,
            None => true,
        },
{
    char::from_u32(x)
}

pub open spec fn has_char_at(b: Seq<u8>, pos: int) -> bool {
    has_u32_at(b, pos) && is_scalar_code(dec_u32_at(b, pos))
}

pub open spec fn dec_char_at(b: Seq<u8>, pos: int) -> char {
    dec_u32_at(b, pos) as char
}

/// Bytes that carry `enc_char(c)` at `pos` decode to `c`.
#[verifier::rlimit(100)]
pub proof fn lemma_char_round(b: Seq<u8>, pos: int, c: char)
    requires
        0 <= pos,
        pos + 4 <= b.len(),
        b.subrange(pos, pos + 4) == enc_char(c),
    ensures
        has_char_at(b, pos),
        dec_char_at(b, pos) == c,
{
    lemma_u32_round(b, pos, c as u32);
}

#[verifier::rlimit(100)]
pub fn take_char(b: &Vec<u8>, pos: usize) -> (r: Option<(char, usize)>)
    ensures
        r is Some <==> has_char_at(b@, pos as int),
        match r {
            Some((c, end)) => c == dec_char_at(b@, pos as int) && end == pos + 4,
            None => true,
        },
{
    match take_u32(b, pos) {
        None => None,
        Some((x, end)) => match char_from_u32(x) {
            None => None,
            Some(c) => Some((c, end)),
        },
    }
}

#[verifier::rlimit(100)]
pub fn take_u64(b: &Vec<u8>, pos: usize) -> (r: Option<(u64, usize)>)
    ensures
        r is Some <==> has_u64_at(b@, pos as int),
        match r {
            Some((x, end)) => x == dec_u64_at(b@, pos as int) && end == pos + 8,
            None => true,
        },
{
    if pos <= b.len() && b.len() - pos >= 8 {
        let x = (b[pos] as u64) | ((b[pos + 1] as u64) << 8) | ((b[pos + 2] as u64) << 16) | ((b[pos
            + 3] as u64) << 24) | ((b[pos + 4] as u64) << 32) | ((b[pos + 5] as u64) << 40) | ((b[pos
            + 6] as u64) << 48) | ((b[pos + 7] as u64) << 56);
        Some((x, pos + 8))
    } else {
        None
    }
}

// ---------------------------------------------------------------------------
// Strings
// ---------------------------------------------------------------------------

/// Splitting a decoded concatenation: if the bytes at `pos` carry `x + y`,
/// each half sits at its own range.
pub proof fn lemma_subrange_split(b: Seq<u8>, pos: int, x: Seq<u8>, y: Seq<u8>)
    requires
        0 <= pos,
        pos + x.len() + y.len() <= b.len(),
        b.subrange(pos, pos + x.len() + y.len()) == x + y,
    ensures
        b.subrange(pos, pos + x.len()) == x,
        b.subrange(pos + x.len(), pos + x.len() + y.len()) == y,
{
    let w = b.subrange(pos, pos + x.len() + y.len());
    assert forall|k: int| 0 <= k < x.len() implies b.subrange(pos, pos + x.len())[k] == x[k] by {
        assert(w[k] == (x + y)[k]);
    }
    assert(b.subrange(pos, pos + x.len()) =~= x);
    assert forall|k: int| 0 <= k < y.len() implies b.subrange(
        pos + x.len(),
        pos + x.len() + y.len(),
    )[k] == y[k] by {
        assert(w[x.len() + k] == (x + y)[x.len() + k]);
    }
    assert(b.subrange(pos + x.len(), pos + x.len() + y.len()) =~= y);
}

pub proof fn lemma_enc_chars_len(s: Seq<char>)
    ensures
        enc_chars(s).len() == 4 * s.len(),
    decreases s.len(),
{
    if s.len() > 0 {
        lemma_enc_chars_len(s.drop_last());
    }
}

/// The character encoding unfolds from the front as well.
#[verifier::rlimit(100)]
pub proof fn lemma_enc_chars_front(s: Seq<char>)
    requires
        s.len() > 0,
    ensures
        enc_chars(s) == enc_char(s[0]) + enc_chars(s.skip(1)),
    decreases s.len(),
{
    if s.len() == 1 {
        assert(s.drop_last().len() == 0);
        assert(s.skip(1).len() == 0);
        assert(enc_chars(s.drop_last()) =~= Seq::empty());
        assert(enc_chars(s.skip(1)) =~= Seq::empty());
        assert(s.last() == s[0]);
        assert(enc_chars(s) =~= enc_char(s[0]) + enc_chars(s.skip(1)));
    } else {
        lemma_enc_chars_front(s.drop_last());
        assert(s.drop_last()[0] == s[0]);
        assert(s.skip(1).len() > 0);
        assert(enc_chars(s.skip(1)) == enc_chars(s.skip(1).drop_last()) + enc_char(
            s.skip(1).last(),
        ));
        assert(s.skip(1).drop_last() =~= s.drop_last().skip(1));
        assert(s.skip(1).last() == s.last());
        assert(enc_chars(s) =~= enc_char(s[0]) + enc_chars(s.skip(1)));
    }
}

pub open spec fn has_chars_at(b: Seq<u8>, pos: int, n: int) -> bool
    decreases n,
{
    if n <= 0 {
        true
    } else {
        has_char_at(b, pos) && has_chars_at(b, pos + 4, n - 1)
    }
}

pub open spec fn dec_chars_at(b: Seq<u8>, pos: int, n: int) -> Seq<char>
    decreases n,
{
    if n <= 0 {
        Seq::empty()
    } else {
        seq![dec_char_at(b, pos)] + dec_chars_at(b, pos + 4, n - 1)
    }
}

/// A run of decoded characters extends at its back end.
pub proof fn lemma_dec_chars_snoc(b: Seq<u8>, pos: int, n: int)
    requires
        n >= 0,
    ensures
        dec_chars_at(b, pos, n + 1) == dec_chars_at(b, pos, n).push(dec_char_at(b, pos + 4 * n)),
        has_chars_at(b, pos, n + 1) == (has_chars_at(b, pos, n) && has_char_at(b, pos + 4 * n)),
    decreases n,
{
    if n == 0 {
        assert(dec_chars_at(b, pos + 4, 0) =~= Seq::empty());
        assert(dec_chars_at(b, pos, 0) =~= Seq::empty());
        assert(has_chars_at(b, pos + 4, 0));
        assert(dec_chars_at(b, pos, 1) =~= dec_chars_at(b, pos, 0).push(dec_char_at(b, pos)));
    } else {
        lemma_dec_chars_snoc(b, pos + 4, n - 1);
        assert(pos + 4 + 4 * (n - 1) == pos + 4 * n);
        assert(dec_chars_at(b, pos, n + 1) =~= dec_chars_at(b, pos, n).push(
            dec_char_at(b, pos + 4 * n),
        ));
    }
}

#[verifier::rlimit(100)]
pub proof fn lemma_chars_round(b: Seq<u8>, pos: int, s: Seq<char>)
    requires
        0 <= pos,
        pos + 4 * s.len() <= b.len(),
        b.subrange(pos, pos + 4 * s.len()) == enc_chars(s),
    ensures
        has_chars_at(b, pos, s.len() as int),
        dec_chars_at(b, pos, s.len() as int) == s,
    decreases s.len(),
{
    if s.len() > 0 {
        lemma_enc_chars_front(s);
        lemma_enc_chars_len(s.skip(1));
        lemma_subrange_split(b, pos, enc_char(s[0]), enc_chars(s.skip(1)));
        lemma_char_round(b, pos, s[0]);
        lemma_chars_round(b, pos + 4, s.skip(1));
        assert(dec_chars_at(b, pos, s.len() as int) =~= s);
    } else {
        assert(dec_chars_at(b, pos, 0) =~= s);
    }
}

pub open spec fn has_str_at(b: Seq<u8>, pos: int) -> bool {
    has_u64_at(b, pos) && {
        let n = dec_u64_at(b, pos) as int;
        pos + 8 + 4 * n <= b.len() && has_chars_at(b, pos + 8, n)
    }
}

pub open spec fn str_end(b: Seq<u8>, pos: int) -> int {
    pos + 8 + 4 * (dec_u64_at(b, pos) as int)
}

pub open spec fn dec_str_at(b: Seq<u8>, pos: int) -> Seq<char> {
    dec_chars_at(b, pos + 8, dec_u64_at(b, pos) as int)
}

/// Bytes that carry `enc_str(t)` at `pos` decode to `t`.
#[verifier::rlimit(100)]
pub proof fn lemma_str_round(b: Seq<u8>, pos: int, t: Seq<char>)
    requires
        0 <= pos,
        t.len() <= u64::MAX,
        pos + enc_str(t).len() <= b.len(),
        b.subrange(pos, pos + enc_str(t).len()) == enc_str(t),
    ensures
        has_str_at(b, pos),
        dec_str_at(b, pos) == t,
        str_end(b, pos) == pos + enc_str(t).len(),
        enc_str(t).len() == 8 + 4 * t.len(),
{
    lemma_enc_chars_len(t);
    lemma_subrange_split(b, pos, enc_u64(t.len() as u64), enc_chars(t));
    lemma_u64_round(b, pos, t.len() as u64);
    lemma_chars_round(b, pos + 8, t);
}

#[verifier::rlimit(100)]
pub fn take_str(b: &Vec<u8>, pos: usize) -> (r: Option<(String, usize)>)
    ensures
        r is Some <==> has_str_at(b@, pos as int),
        match r {
            Some((s, end)) => s@ == dec_str_at(b@, pos as int) && end as int == str_end(
                b@,
                pos as int,
            ),
            None => true,
        },
{
    let (n64, p8) = match take_u64(b, pos) {
        None => {
            return None;
        },
        Some(v) => v,
    };
    if n64 > ((b.len() - p8) as u64) / 4 {
        return None;
    }
    let n = n64 as usize;
    let blen = b.len();
    assert(p8 + 4 * n <= blen);
    let mut s = String::new();
    let mut i: usize = 0;
    while i < n
        invariant
            n == dec_u64_at(b@, pos as int),
            p8 == pos + 8,
            blen == b@.len(),
            p8 + 4 * n <= blen,
            i <= n,
            has_chars_at(b@, p8 as int, i as int),
            s@ == dec_chars_at(b@, p8 as int, i as int),
        decreases n - i,
    {
        assert(4 * i < 4 * n);
        let q = p8 + 4 * i;
        match take_char(b, q) {
            None => {
                proof {
                    lemma_dec_chars_snoc(b@, p8 as int, i as int);
                    if has_str_at(b@, pos as int) {
                        lemma_has_chars_prefix(b@, p8 as int, (i + 1) as int, n as int);
                    }
                }
                return None;
            },
            Some((c, _)) => {
                push_char(&mut s, c);
                proof {
                    lemma_dec_chars_snoc(b@, p8 as int, i as int);
                }
            },
        }
        i = i + 1;
    }
    Some((s, p8 + 4 * n))
}

/// A valid run of characters keeps every shorter prefix valid.
pub proof fn lemma_has_chars_prefix(b: Seq<u8>, pos: int, m: int, n: int)
    requires
        0 <= m <= n,
        has_chars_at(b, pos, n),
    ensures
        has_chars_at(b, pos, m),
    decreases n,
{
    if m < n && n > 0 {
        if m == 0 {
        } else {
            lemma_has_chars_prefix(b, pos + 4, m - 1, n - 1);
        }
    }
}

// ---------------------------------------------------------------------------
// Optional values
// ---------------------------------------------------------------------------

/// A string that an encoder can have produced: its length fits the count
/// field.  Every string that exists in a running program satisfies this.
pub open spec fn bounded_str(s: Seq<char>) -> bool {
    s.len() <= u64::MAX
}

pub open spec fn bounded_opt_str(o: Option<Seq<char>>) -> bool {
    match o {
        None => true,
        Some(s) => bounded_str(s),
    }
}

pub open spec fn has_opt_str_at(b: Seq<u8>, pos: int) -> bool {
    0 <= pos && pos + 1 <= b.len() && (b[pos] == 0 || (b[pos] == 1 && has_str_at(b, pos + 1)))
}

pub open spec fn opt_str_end(b: Seq<u8>, pos: int) -> int {
    if b[pos] == 0 {
        pos + 1
    } else {
        str_end(b, pos + 1)
    }
}

pub open spec fn dec_opt_str_at(b: Seq<u8>, pos: int) -> Option<Seq<char>> {
    if b[pos] == 0 {
        None
    } else {
        Some(dec_str_at(b, pos + 1))
    }
}

#[verifier::rlimit(100)]
pub proof fn lemma_opt_str_round(b: Seq<u8>, pos: int, o: Option<Seq<char>>)
    requires
        0 <= pos,
        bounded_opt_str(o),
        pos + enc_opt_str(o).len() <= b.len(),
        b.subrange(pos, pos + enc_opt_str(o).len()) == enc_opt_str(o),
    ensures
        has_opt_str_at(b, pos),
        dec_opt_str_at(b, pos) == o,
        opt_str_end(b, pos) == pos + enc_opt_str(o).len(),
{
    match o {
        None => {
            assert(b[pos] == enc_opt_str(o)[0]) by {
                assert(b.subrange(pos, pos + 1)[0] == b[pos]);
            }
            assert(enc_opt_str(o)[0] == 0);
        },
        Some(t) => {
            assert(enc_opt_str(o) == seq![1u8] + enc_str(t));
            lemma_subrange_split(b, pos, seq![1u8], enc_str(t));
            assert(b[pos] == 1) by {
                assert(b.subrange(pos, pos + 1)[0] == b[pos]);
                assert(seq![1u8][0] == 1);
            }
            lemma_str_round(b, pos + 1, t);
        },
    }
}

#[verifier::rlimit(100)]
pub fn take_opt_str(b: &Vec<u8>, pos: usize) -> (r: Option<(Option<String>, usize)>)
    ensures
        r is Some <==> has_opt_str_at(b@, pos as int),
        match r {
            Some((o, end)) => o.deep_view() == dec_opt_str_at(b@, pos as int) && end
                as int == opt_str_end(b@, pos as int),
            None => true,
        },
{
    if pos >= b.len() {
        return None;
    }
    let tag = b[pos];
    if tag == 0 {
        Some((None, pos + 1))
    } else if tag == 1 {
        match take_str(b, pos + 1) {
            None => None,
            Some((s, end)) => Some((Some(s), end)),
        }
    } else {
        None
    }
}

pub open spec fn has_opt_u32_at(b: Seq<u8>, pos: int) -> bool {
    0 <= pos && pos + 1 <= b.len() && (b[pos] == 0 || (b[pos] == 1 && has_u32_at(b, pos + 1)))
}

pub open spec fn opt_u32_end(b: Seq<u8>, pos: int) -> int {
    if b[pos] == 0 {
        pos + 1
    } else {
        pos + 5
    }
}

pub open spec fn dec_opt_u32_at(b: Seq<u8>, pos: int) -> Option<u32> {
    if b[pos] == 0 {
        None
    } else {
        Some(dec_u32_at(b, pos + 1))
    }
}

#[verifier::rlimit(100)]
pub proof fn lemma_opt_u32_round(b: Seq<u8>, pos: int, o: Option<u32>)
    requires
        0 <= pos,
        pos + enc_opt_u32(o).len() <= b.len(),
        b.subrange(pos, pos + enc_opt_u32(o).len()) == enc_opt_u32(o),
    ensures
        has_opt_u32_at(b, pos),
        dec_opt_u32_at(b, pos) == o,
        opt_u32_end(b, pos) == pos + enc_opt_u32(o).len(),
{
    match o {
        None => {
            assert(b[pos] == enc_opt_u32(o)[0]) by {
                assert(b.subrange(pos, pos + 1)[0] == b[pos]);
            }
            assert(enc_opt_u32(o)[0] == 0);
        },
        Some(x) => {
            assert(enc_opt_u32(o) == seq![1u8] + enc_u32(x));
            lemma_subrange_split(b, pos, seq![1u8], enc_u32(x));
            assert(b[pos] == 1) by {
                assert(b.subrange(pos, pos + 1)[0] == b[pos]);
                assert(seq![1u8][0] == 1);
            }
            lemma_u32_round(b, pos + 1, x);
        },
    }
}

#[verifier::rlimit(100)]
pub fn take_opt_u32(b: &Vec<u8>, pos: usize) -> (r: Option<(Option<u32>, usize)>)
    ensures
        r is Some <==> has_opt_u32_at(b@, pos as int),
        match r {
            Some((o, end)) => o == dec_opt_u32_at(b@, pos as int) && end as int == opt_u32_end(
                b@,
                pos as int,
            ),
            None => true,
        },
{
    if pos >= b.len() {
        return None;
    }
    let tag = b[pos];
    if tag == 0 {
        Some((None, pos + 1))
    } else if tag == 1 {
        match take_u32(b, pos + 1) {
            None => None,
            Some((x, end)) => Some((Some(x), end)),
        }
    } else {
        None
    }
}

// ---------------------------------------------------------------------------
// Record structs and lists
// ---------------------------------------------------------------------------

pub open spec fn upstream_p1(b: Seq<u8>, pos: int) -> int {
    str_end(b, pos)
}

pub open spec fn has_upstream_at(b: Seq<u8>, pos: int) -> bool {
    has_str_at(b, pos) && has_opt_str_at(b, upstream_p1(b, pos))
}

pub open spec fn upstream_end(b: Seq<u8>, pos: int) -> int {
    opt_str_end(b, upstream_p1(b, pos))
}

pub open spec fn dec_upstream_at(b: Seq<u8>, pos: int) -> BgpToolsUpstreamView {
    BgpToolsUpstreamView {
        asn: dec_str_at(b, pos),
        name: dec_opt_str_at(b, upstream_p1(b, pos)),
    }
}

pub open spec fn bounded_upstream(v: BgpToolsUpstreamView) -> bool {
    bounded_str(v.asn) && bounded_opt_str(v.name)
}

#[verifier::rlimit(100)]
pub proof fn lemma_upstream_round(b: Seq<u8>, pos: int, v: BgpToolsUpstreamView)
    requires
        0 <= pos,
        bounded_upstream(v),
        pos + enc_upstream(v).len() <= b.len(),
        b.subrange(pos, pos + enc_upstream(v).len()) == enc_upstream(v),
    ensures
        has_upstream_at(b, pos),
        dec_upstream_at(b, pos) == v,
        upstream_end(b, pos) == pos + enc_upstream(v).len(),
{
    let e1 = enc_str(v.asn);
    let e2 = enc_opt_str(v.name);
    assert(enc_upstream(v) == e1 + e2);
    lemma_subrange_split(b, pos, e1, e2);
    let p0 = pos;
    lemma_str_round(b, p0, v.asn);
    let p1 = p0 + e1.len();
    assert(upstream_p1(b, pos) == p1);
    lemma_opt_str_round(b, p1, v.name);
    assert(dec_upstream_at(b, pos) == v);
}

#[verifier::rlimit(100)]
pub fn take_upstream(b: &Vec<u8>, pos: usize) -> (r: Option<(BgpToolsUpstream, usize)>)
    ensures
        r is Some <==> has_upstream_at(b@, pos as int),
        match r {
            Some((v, end)) => v.deep_view() == dec_upstream_at(b@, pos as int) && end
                as int == upstream_end(b@, pos as int),
            None => true,
        },
{
    let (asn, p1) = match take_str(b, pos) {
        None => {
            return None;
        },
        Some(v) => v,
    };
    let (name, p2) = match take_opt_str(b, p1) {
        None => {
            return None;
        },
        Some(v) => v,
    };
    let out = BgpToolsUpstream { asn, name };
    assert(out.deep_view() == dec_upstream_at(b@, pos as int));
    Some((out, p2))
}

pub open spec fn bounded_upstream_items(s: Seq<BgpToolsUpstreamView>) -> bool {
    s.len() <= u64::MAX && forall|i: int| 0 <= i < s.len() ==> bounded_upstream(#[trigger] s[i])
}

pub open spec fn has_upstream_items_at(b: Seq<u8>, pos: int, n: int) -> bool
    decreases n,
{
    if n <= 0 {
        true
    } else {
        has_upstream_at(b, pos) && has_upstream_items_at(b, upstream_end(b, pos), n - 1)
    }
}

pub open spec fn upstream_items_end(b: Seq<u8>, pos: int, n: int) -> int
    decreases n,
{
    if n <= 0 {
        pos
    } else {
        upstream_items_end(b, upstream_end(b, pos), n - 1)
    }
}

pub open spec fn dec_upstream_items_at(b: Seq<u8>, pos: int, n: int) -> Seq<BgpToolsUpstreamView>
    decreases n,
{
    if n <= 0 {
        Seq::empty()
    } else {
        seq![dec_upstream_at(b, pos)] + dec_upstream_items_at(b, upstream_end(b, pos), n - 1)
    }
}

#[verifier::rlimit(100)]
pub proof fn lemma_upstream_items_snoc(b: Seq<u8>, pos: int, n: int)
    requires
        n >= 0,
    ensures
        dec_upstream_items_at(b, pos, n + 1) == dec_upstream_items_at(b, pos, n).push(dec_upstream_at(b, upstream_items_end(b, pos, n))),
        has_upstream_items_at(b, pos, n + 1) == (has_upstream_items_at(b, pos, n) && has_upstream_at(b, upstream_items_end(b, pos, n))),
        upstream_items_end(b, pos, n + 1) == upstream_end(b, upstream_items_end(b, pos, n)),
    decreases n,
{
    if n == 0 {
        assert(upstream_items_end(b, pos, 0) == pos);
        assert(upstream_items_end(b, upstream_end(b, pos), 0) == upstream_end(b, pos));
        assert(has_upstream_items_at(b, upstream_end(b, pos), 0));
        assert(dec_upstream_items_at(b, upstream_end(b, pos), 0) =~= Seq::empty());
        assert(dec_upstream_items_at(b, pos, 0) =~= Seq::empty());
        assert(dec_upstream_items_at(b, pos, 1) =~= dec_upstream_items_at(b, pos, 0).push(dec_upstream_at(b, pos)));
    } else {
        lemma_upstream_items_snoc(b, upstream_end(b, pos), n - 1);
        assert(upstream_items_end(b, pos, n + 1) == upstream_items_end(b, upstream_end(b, pos), n));
        assert(upstream_items_end(b, pos, n) == upstream_items_end(b, upstream_end(b, pos), n - 1));
        assert(dec_upstream_items_at(b, pos, n + 1) =~= dec_upstream_items_at(b, pos, n).push(dec_upstream_at(b, upstream_items_end(b, pos, n))));
    }
}

pub proof fn lemma_has_upstream_items_prefix(b: Seq<u8>, pos: int, m: int, n: int)
    requires
        0 <= m <= n,
        has_upstream_items_at(b, pos, n),
    ensures
        has_upstream_items_at(b, pos, m),
        m < n ==> has_upstream_at(b, upstream_items_end(b, pos, m)),
    decreases n,
{
    if m == 0 {
    } else {
        lemma_has_upstream_items_prefix(b, upstream_end(b, pos), m - 1, n - 1);
    }
}

#[verifier::rlimit(100)]
pub proof fn lemma_enc_upstream_items_front(s: Seq<BgpToolsUpstreamView>)
    requires
        s.len() > 0,
    ensures
        enc_upstream_items(s) == enc_upstream(s[0]) + enc_upstream_items(s.skip(1)),
    decreases s.len(),
{
    if s.len() == 1 {
        assert(s.drop_last().len() == 0);
        assert(s.skip(1).len() == 0);
        assert(enc_upstream_items(s.drop_last()) =~= Seq::empty());
        assert(enc_upstream_items(s.skip(1)) =~= Seq::empty());
        assert(s.last() == s[0]);
        assert(enc_upstream_items(s) =~= enc_upstream(s[0]) + enc_upstream_items(s.skip(1)));
    } else {
        lemma_enc_upstream_items_front(s.drop_last());
        assert(s.drop_last()[0] == s[0]);
        assert(s.skip(1).len() > 0);
        assert(enc_upstream_items(s.skip(1)) == enc_upstream_items(s.skip(1).drop_last()) + enc_upstream(s.skip(1).last()));
        assert(s.skip(1).drop_last() =~= s.drop_last().skip(1));
        assert(s.skip(1).last() == s.last());
        assert(enc_upstream_items(s) =~= enc_upstream(s[0]) + enc_upstream_items(s.skip(1)));
    }
}

#[verifier::rlimit(100)]
pub proof fn lemma_upstream_items_round(b: Seq<u8>, pos: int, s: Seq<BgpToolsUpstreamView>)
    requires
        0 <= pos,
        bounded_upstream_items(s),
        pos + enc_upstream_items(s).len() <= b.len(),
        b.subrange(pos, pos + enc_upstream_items(s).len()) == enc_upstream_items(s),
    ensures
        has_upstream_items_at(b, pos, s.len() as int),
        dec_upstream_items_at(b, pos, s.len() as int) == s,
        upstream_items_end(b, pos, s.len() as int) == pos + enc_upstream_items(s).len(),
    decreases s.len(),
{
    if s.len() > 0 {
        lemma_enc_upstream_items_front(s);
        lemma_subrange_split(b, pos, enc_upstream(s[0]), enc_upstream_items(s.skip(1)));
        lemma_upstream_round(b, pos, s[0]);
        assert(bounded_upstream_items(s.skip(1))) by {
            assert(forall|i: int| 0 <= i < s.skip(1).len() ==> s.skip(1)[i] == s[i + 1]);
        }
        lemma_upstream_items_round(b, pos + enc_upstream(s[0]).len(), s.skip(1));
        assert(dec_upstream_items_at(b, pos, s.len() as int) =~= s);
    } else {
        assert(dec_upstream_items_at(b, pos, 0) =~= s);
    }
}

pub open spec fn has_upstream_list_at(b: Seq<u8>, pos: int) -> bool {
    has_u64_at(b, pos) && has_upstream_items_at(b, pos + 8, dec_u64_at(b, pos) as int)
}

pub open spec fn upstream_list_end(b: Seq<u8>, pos: int) -> int {
    upstream_items_end(b, pos + 8, dec_u64_at(b, pos) as int)
}

pub open spec fn dec_upstream_list_at(b: Seq<u8>, pos: int) -> Seq<BgpToolsUpstreamView> {
    dec_upstream_items_at(b, pos + 8, dec_u64_at(b, pos) as int)
}

#[verifier::rlimit(100)]
pub proof fn lemma_upstream_list_round(b: Seq<u8>, pos: int, s: Seq<BgpToolsUpstreamView>)
    requires
        0 <= pos,
        bounded_upstream_items(s),
        pos + enc_upstream_list(s).len() <= b.len(),
        b.subrange(pos, pos + enc_upstream_list(s).len()) == enc_upstream_list(s),
    ensures
        has_upstream_list_at(b, pos),
        dec_upstream_list_at(b, pos) == s,
        upstream_list_end(b, pos) == pos + enc_upstream_list(s).len(),
{
    lemma_subrange_split(b, pos, enc_u64(s.len() as u64), enc_upstream_items(s));
    lemma_u64_round(b, pos, s.len() as u64);
    lemma_upstream_items_round(b, pos + 8, s);
}

#[verifier::rlimit(100)]
pub fn take_upstream_list(b: &Vec<u8>, pos: usize) -> (r: Option<(Vec<BgpToolsUpstream>, usize)>)
    ensures
        r is Some <==> has_upstream_list_at(b@, pos as int),
        match r {
            Some((v, end)) => v.deep_view() == dec_upstream_list_at(b@, pos as int) && end
                as int == upstream_list_end(b@, pos as int),
            None => true,
        },
{
    let (n64, p0) = match take_u64(b, pos) {
        None => {
            return None;
        },
        Some(v) => v,
    };
    let mut out: Vec<BgpToolsUpstream> = Vec::new();
    let mut p = p0;
    let mut k: u64 = 0;
    while k < n64
        invariant
            n64 == dec_u64_at(b@, pos as int),
            p0 == pos + 8,
            k <= n64,
            has_upstream_items_at(b@, p0 as int, k as int),
            p as int == upstream_items_end(b@, p0 as int, k as int),
            out.deep_view() == dec_upstream_items_at(b@, p0 as int, k as int),
            out@.len() == k,
        decreases n64 - k,
    {
        proof {
            lemma_upstream_items_snoc(b@, p0 as int, k as int);
        }
        match take_upstream(b, p) {
            None => {
                proof {
                    if has_upstream_list_at(b@, pos as int) {
                        lemma_has_upstream_items_prefix(b@, p0 as int, k as int, n64 as int);
                    }
                }
                return None;
            },
            Some((x, e)) => {
                let ghost prev = out.deep_view();
                let ghost q = p as int;
                out.push(x);
                proof {
                    assert(out.deep_view() =~= prev.push(dec_upstream_at(b@, q))) by {
                        assert(forall|j: int|
                            0 <= j < out@.len() ==> out.deep_view()[j] == out@[j].deep_view());
                    }
                }
                p = e;
            },
        }
        k = k + 1;
    }
    Some((out, p))
}

pub open spec fn whois_p1(b: Seq<u8>, pos: int) -> int {
    opt_str_end(b, pos)
}

pub open spec fn whois_p2(b: Seq<u8>, pos: int) -> int {
    opt_str_end(b, whois_p1(b, pos))
}

pub open spec fn whois_p3(b: Seq<u8>, pos: int) -> int {
    opt_str_end(b, whois_p2(b, pos))
}

pub open spec fn whois_p4(b: Seq<u8>, pos: int) -> int {
    opt_str_end(b, whois_p3(b, pos))
}

pub open spec fn whois_p5(b: Seq<u8>, pos: int) -> int {
    opt_str_end(b, whois_p4(b, pos))
}

pub open spec fn whois_p6(b: Seq<u8>, pos: int) -> int {
    opt_str_end(b, whois_p5(b, pos))
}

pub open spec fn whois_p7(b: Seq<u8>, pos: int) -> int {
    opt_str_end(b, whois_p6(b, pos))
}

pub open spec fn whois_p8(b: Seq<u8>, pos: int) -> int {
    opt_str_end(b, whois_p7(b, pos))
}

pub open spec fn has_whois_at(b: Seq<u8>, pos: int) -> bool {
    has_opt_str_at(b, pos) && has_opt_str_at(b, whois_p1(b, pos)) && has_opt_str_at(b, whois_p2(b, pos)) && has_opt_str_at(b, whois_p3(b, pos)) && has_opt_str_at(b, whois_p4(b, pos)) && has_opt_str_at(b, whois_p5(b, pos)) && has_opt_str_at(b, whois_p6(b, pos)) && has_opt_str_at(b, whois_p7(b, pos)) && has_str_at(b, whois_p8(b, pos))
}

pub open spec fn whois_end(b: Seq<u8>, pos: int) -> int {
    str_end(b, whois_p8(b, pos))
}

pub open spec fn dec_whois_at(b: Seq<u8>, pos: int) -> WhoisInfoView {
    WhoisInfoView {
        country: dec_opt_str_at(b, pos),
        netname: dec_opt_str_at(b, whois_p1(b, pos)),
        descr: dec_opt_str_at(b, whois_p2(b, pos)),
        org: dec_opt_str_at(b, whois_p3(b, pos)),
        admin_c: dec_opt_str_at(b, whois_p4(b, pos)),
        tech_c: dec_opt_str_at(b, whois_p5(b, pos)),
        mnt_by: dec_opt_str_at(b, whois_p6(b, pos)),
        last_modified: dec_opt_str_at(b, whois_p7(b, pos)),
        raw_response: dec_str_at(b, whois_p8(b, pos)),
    }
}

pub open spec fn bounded_whois(v: WhoisInfoView) -> bool {
    bounded_opt_str(v.country) && bounded_opt_str(v.netname) && bounded_opt_str(v.descr) && bounded_opt_str(v.org) && bounded_opt_str(v.admin_c) && bounded_opt_str(v.tech_c) && bounded_opt_str(v.mnt_by) && bounded_opt_str(v.last_modified) && bounded_str(v.raw_response)
}

#[verifier::rlimit(100)]
pub proof fn lemma_whois_round(b: Seq<u8>, pos: int, v: WhoisInfoView)
    requires
        0 <= pos,
        bounded_whois(v),
        pos + enc_whois(v).len() <= b.len(),
        b.subrange(pos, pos + enc_whois(v).len()) == enc_whois(v),
    ensures
        has_whois_at(b, pos),
        dec_whois_at(b, pos) == v,
        whois_end(b, pos) == pos + enc_whois(v).len(),
{
    let e1 = enc_opt_str(v.country);
    let e2 = enc_opt_str(v.netname);
    let e3 = enc_opt_str(v.descr);
    let e4 = enc_opt_str(v.org);
    let e5 = enc_opt_str(v.admin_c);
    let e6 = enc_opt_str(v.tech_c);
    let e7 = enc_opt_str(v.mnt_by);
    let e8 = enc_opt_str(v.last_modified);
    let e9 = enc_str(v.raw_response);
    let h = enc_whois_head(v);
    assert(h == e1 + e2 + e3 + e4);
    assert(enc_whois(v) == h + e5 + e6 + e7 + e8 + e9);
    lemma_subrange_split(b, pos, h + e5 + e6 + e7 + e8, e9);
    lemma_subrange_split(b, pos, h + e5 + e6 + e7, e8);
    lemma_subrange_split(b, pos, h + e5 + e6, e7);
    lemma_subrange_split(b, pos, h + e5, e6);
    lemma_subrange_split(b, pos, h, e5);
    lemma_subrange_split(b, pos, e1 + e2 + e3, e4);
    lemma_subrange_split(b, pos, e1 + e2, e3);
    lemma_subrange_split(b, pos, e1, e2);
    let p0 = pos;
    lemma_opt_str_round(b, p0, v.country);
    let p1 = p0 + e1.len();
    assert(whois_p1(b, pos) == p1);
    lemma_opt_str_round(b, p1, v.netname);
    let p2 = p1 + e2.len();
    assert(whois_p2(b, pos) == p2);
    lemma_opt_str_round(b, p2, v.descr);
    let p3 = p2 + e3.len();
    assert(whois_p3(b, pos) == p3);
    lemma_opt_str_round(b, p3, v.org);
    let p4 = p3 + e4.len();
    assert(whois_p4(b, pos) == p4);
    lemma_opt_str_round(b, p4, v.admin_c);
    let p5 = p4 + e5.len();
    assert(whois_p5(b, pos) == p5);
    lemma_opt_str_round(b, p5, v.tech_c);
    let p6 = p5 + e6.len();
    assert(whois_p6(b, pos) == p6);
    lemma_opt_str_round(b, p6, v.mnt_by);
    let p7 = p6 + e7.len();
    assert(whois_p7(b, pos) == p7);
    lemma_opt_str_round(b, p7, v.last_modified);
    let p8 = p7 + e8.len();
    assert(whois_p8(b, pos) == p8);
    lemma_str_round(b, p8, v.raw_response);
    assert(dec_whois_at(b, pos) == v);
}

#[verifier::rlimit(100)]
pub fn take_whois(b: &Vec<u8>, pos: usize) -> (r: Option<(WhoisInfo, usize)>)
    ensures
        r is Some <==> has_whois_at(b@, pos as int),
        match r {
            Some((v, end)) => v.deep_view() == dec_whois_at(b@, pos as int) && end
                as int == whois_end(b@, pos as int),
            None => true,
        },
{
    let (country, p1) = match take_opt_str(b, pos) {
        None => {
            return None;
        },
        Some(v) => v,
    };
    let (netname, p2) = match take_opt_str(b, p1) {
        None => {
            return None;
        },
        Some(v) => v,
    };
    let (descr, p3) = match take_opt_str(b, p2) {
        None => {
            return None;
        },
        Some(v) => v,
    };
    let (org, p4) = match take_opt_str(b, p3) {
        None => {
            return None;
        },
        Some(v) => v,
    };
    let (admin_c, p5) = match take_opt_str(b, p4) {
        None => {
            return None;
        },
        Some(v) => v,
    };
    let (tech_c, p6) = match take_opt_str(b, p5) {
        None => {
            return None;
        },
        Some(v) => v,
    };
    let (mnt_by, p7) = match take_opt_str(b, p6) {
        None => {
            return None;
        },
        Some(v) => v,
    };
    let (last_modified, p8) = match take_opt_str(b, p7) {
        None => {
            return None;
        },
        Some(v) => v,
    };
    let (raw_response, p9) = match take_str(b, p8) {
        None => {
            return None;
        },
        Some(v) => v,
    };
    let out = WhoisInfo { country, netname, descr, org, admin_c, tech_c, mnt_by, last_modified, raw_response };
    assert(out.deep_view() == dec_whois_at(b@, pos as int));
    Some((out, p9))
}

pub open spec fn bounded_opt_whois(o: Option<WhoisInfoView>) -> bool {
    match o {
        None => true,
        Some(v) => bounded_whois(v),
    }
}

pub open spec fn has_opt_whois_at(b: Seq<u8>, pos: int) -> bool {
    0 <= pos && pos + 1 <= b.len() && (b[pos] == 0 || (b[pos] == 1 && has_whois_at(b, pos + 1)))
}

pub open spec fn opt_whois_end(b: Seq<u8>, pos: int) -> int {
    if b[pos] == 0 {
        pos + 1
    } else {
        whois_end(b, pos + 1)
    }
}

pub open spec fn dec_opt_whois_at(b: Seq<u8>, pos: int) -> Option<WhoisInfoView> {
    if b[pos] == 0 {
        None
    } else {
        Some(dec_whois_at(b, pos + 1))
    }
}

#[verifier::rlimit(100)]
pub proof fn lemma_opt_whois_round(b: Seq<u8>, pos: int, o: Option<WhoisInfoView>)
    requires
        0 <= pos,
        bounded_opt_whois(o),
        pos + enc_opt_whois(o).len() <= b.len(),
        b.subrange(pos, pos + enc_opt_whois(o).len()) == enc_opt_whois(o),
    ensures
        has_opt_whois_at(b, pos),
        dec_opt_whois_at(b, pos) == o,
        opt_whois_end(b, pos) == pos + enc_opt_whois(o).len(),
{
    match o {
        None => {
            assert(b[pos] == enc_opt_whois(o)[0]) by {
                assert(b.subrange(pos, pos + 1)[0] == b[pos]);
            }
            assert(enc_opt_whois(o)[0] == 0);
        },
        Some(v) => {
            assert(enc_opt_whois(o) == seq![1u8] + enc_whois(v));
            lemma_subrange_split(b, pos, seq![1u8], enc_whois(v));
            assert(b[pos] == 1) by {
                assert(b.subrange(pos, pos + 1)[0] == b[pos]);
                assert(seq![1u8][0] == 1);
            }
            lemma_whois_round(b, pos + 1, v);
        },
    }
}

#[verifier::rlimit(100)]
pub fn take_opt_whois(b: &Vec<u8>, pos: usize) -> (r: Option<(Option<WhoisInfo>, usize)>)
    ensures
        r is Some <==> has_opt_whois_at(b@, pos as int),
        match r {
            Some((o, end)) => o.deep_view() == dec_opt_whois_at(b@, pos as int) && end
                as int == opt_whois_end(b@, pos as int),
            None => true,
        },
{
    if pos >= b.len() {
        return None;
    }
    let tag = b[pos];
    if tag == 0 {
        Some((None, pos + 1))
    } else if tag == 1 {
        match take_whois(b, pos + 1) {
            None => None,
            Some((v, end)) => Some((Some(v), end)),
        }
    } else {
        None
    }
}


pub open spec fn bounded_str_items(s: Seq<Seq<char>>) -> bool {
    s.len() <= u64::MAX && forall|i: int| 0 <= i < s.len() ==> bounded_str(#[trigger] s[i])
}

pub open spec fn has_str_items_at(b: Seq<u8>, pos: int, n: int) -> bool
    decreases n,
{
    if n <= 0 {
        true
    } else {
        has_str_at(b, pos) && has_str_items_at(b, str_end(b, pos), n - 1)
    }
}

pub open spec fn str_items_end(b: Seq<u8>, pos: int, n: int) -> int
    decreases n,
{
    if n <= 0 {
        pos
    } else {
        str_items_end(b, str_end(b, pos), n - 1)
    }
}

pub open spec fn dec_str_items_at(b: Seq<u8>, pos: int, n: int) -> Seq<Seq<char>>
    decreases n,
{
    if n <= 0 {
        Seq::empty()
    } else {
        seq![dec_str_at(b, pos)] + dec_str_items_at(b, str_end(b, pos), n - 1)
    }
}

#[verifier::rlimit(100)]
pub proof fn lemma_str_items_snoc(b: Seq<u8>, pos: int, n: int)
    requires
        n >= 0,
    ensures
        dec_str_items_at(b, pos, n + 1) == dec_str_items_at(b, pos, n).push(dec_str_at(b, str_items_end(b, pos, n))),
        has_str_items_at(b, pos, n + 1) == (has_str_items_at(b, pos, n) && has_str_at(b, str_items_end(b, pos, n))),
        str_items_end(b, pos, n + 1) == str_end(b, str_items_end(b, pos, n)),
    decreases n,
{
    if n == 0 {
        assert(str_items_end(b, pos, 0) == pos);
        assert(str_items_end(b, str_end(b, pos), 0) == str_end(b, pos));
        assert(has_str_items_at(b, str_end(b, pos), 0));
        assert(dec_str_items_at(b, str_end(b, pos), 0) =~= Seq::empty());
        assert(dec_str_items_at(b, pos, 0) =~= Seq::empty());
        assert(dec_str_items_at(b, pos, 1) =~= dec_str_items_at(b, pos, 0).push(dec_str_at(b, pos)));
    } else {
        lemma_str_items_snoc(b, str_end(b, pos), n - 1);
        assert(str_items_end(b, pos, n + 1) == str_items_end(b, str_end(b, pos), n));
        assert(str_items_end(b, pos, n) == str_items_end(b, str_end(b, pos), n - 1));
        assert(dec_str_items_at(b, pos, n + 1) =~= dec_str_items_at(b, pos, n).push(dec_str_at(b, str_items_end(b, pos, n))));
    }
}

pub proof fn lemma_has_str_items_prefix(b: Seq<u8>, pos: int, m: int, n: int)
    requires
        0 <= m <= n,
        has_str_items_at(b, pos, n),
    ensures
        has_str_items_at(b, pos, m),
        m < n ==> has_str_at(b, str_items_end(b, pos, m)),
    decreases n,
{
    if m == 0 {
    } else {
        lemma_has_str_items_prefix(b, str_end(b, pos), m - 1, n - 1);
    }
}

#[verifier::rlimit(100)]
pub proof fn lemma_enc_str_items_front(s: Seq<Seq<char>>)
    requires
        s.len() > 0,
    ensures
        enc_str_items(s) == enc_str(s[0]) + enc_str_items(s.skip(1)),
    decreases s.len(),
{
    if s.len() == 1 {
        assert(s.drop_last().len() == 0);
        assert(s.skip(1).len() == 0);
        assert(enc_str_items(s.drop_last()) =~= Seq::empty());
        assert(enc_str_items(s.skip(1)) =~= Seq::empty());
        assert(s.last() == s[0]);
        assert(enc_str_items(s) =~= enc_str(s[0]) + enc_str_items(s.skip(1)));
    } else {
        lemma_enc_str_items_front(s.drop_last());
        assert(s.drop_last()[0] == s[0]);
        assert(s.skip(1).len() > 0);
        assert(enc_str_items(s.skip(1)) == enc_str_items(s.skip(1).drop_last()) + enc_str(s.skip(1).last()));
        assert(s.skip(1).drop_last() =~= s.drop_last().skip(1));
        assert(s.skip(1).last() == s.last());
        assert(enc_str_items(s) =~= enc_str(s[0]) + enc_str_items(s.skip(1)));
    }
}

#[verifier::rlimit(100)]
pub proof fn lemma_str_items_round(b: Seq<u8>, pos: int, s: Seq<Seq<char>>)
    requires
        0 <= pos,
        bounded_str_items(s),
        pos + enc_str_items(s).len() <= b.len(),
        b.subrange(pos, pos + enc_str_items(s).len()) == enc_str_items(s),
    ensures
        has_str_items_at(b, pos, s.len() as int),
        dec_str_items_at(b, pos, s.len() as int) == s,
        str_items_end(b, pos, s.len() as int) == pos + enc_str_items(s).len(),
    decreases s.len(),
{
    if s.len() > 0 {
        lemma_enc_str_items_front(s);
        lemma_subrange_split(b, pos, enc_str(s[0]), enc_str_items(s.skip(1)));
        lemma_str_round(b, pos, s[0]);
        assert(bounded_str_items(s.skip(1))) by {
            assert(forall|i: int| 0 <= i < s.skip(1).len() ==> s.skip(1)[i] == s[i + 1]);
        }
        lemma_str_items_round(b, pos + enc_str(s[0]).len(), s.skip(1));
        assert(dec_str_items_at(b, pos, s.len() as int) =~= s);
    } else {
        assert(dec_str_items_at(b, pos, 0) =~= s);
    }
}

pub open spec fn has_str_list_at(b: Seq<u8>, pos: int) -> bool {
    has_u64_at(b, pos) && has_str_items_at(b, pos + 8, dec_u64_at(b, pos) as int)
}

pub open spec fn str_list_end(b: Seq<u8>, pos: int) -> int {
    str_items_end(b, pos + 8, dec_u64_at(b, pos) as int)
}

pub open spec fn dec_str_list_at(b: Seq<u8>, pos: int) -> Seq<Seq<char>> {
    dec_str_items_at(b, pos + 8, dec_u64_at(b, pos) as int)
}

#[verifier::rlimit(100)]
pub proof fn lemma_str_list_round(b: Seq<u8>, pos: int, s: Seq<Seq<char>>)
    requires
        0 <= pos,
        bounded_str_items(s),
        pos + enc_str_list(s).len() <= b.len(),
        b.subrange(pos, pos + enc_str_list(s).len()) == enc_str_list(s),
    ensures
        has_str_list_at(b, pos),
        dec_str_list_at(b, pos) == s,
        str_list_end(b, pos) == pos + enc_str_list(s).len(),
{
    lemma_subrange_split(b, pos, enc_u64(s.len() as u64), enc_str_items(s));
    lemma_u64_round(b, pos, s.len() as u64);
    lemma_str_items_round(b, pos + 8, s);
}

#[verifier::rlimit(100)]
pub fn take_str_list(b: &Vec<u8>, pos: usize) -> (r: Option<(Vec<String>, usize)>)
    ensures
        r is Some <==> has_str_list_at(b@, pos as int),
        match r {
            Some((v, end)) => v.deep_view() == dec_str_list_at(b@, pos as int) && end
                as int == str_list_end(b@, pos as int),
            None => true,
        },
{
    let (n64, p0) = match take_u64(b, pos) {
        None => {
            return None;
        },
        Some(v) => v,
    };
    let mut out: Vec<String> = Vec::new();
    let mut p = p0;
    let mut k: u64 = 0;
    while k < n64
        invariant
            n64 == dec_u64_at(b@, pos as int),
            p0 == pos + 8,
            k <= n64,
            has_str_items_at(b@, p0 as int, k as int),
            p as int == str_items_end(b@, p0 as int, k as int),
            out.deep_view() == dec_str_items_at(b@, p0 as int, k as int),
            out@.len() == k,
        decreases n64 - k,
    {
        proof {
            lemma_str_items_snoc(b@, p0 as int, k as int);
        }
        match take_str(b, p) {
            None => {
                proof {
                    if has_str_list_at(b@, pos as int) {
                        lemma_has_str_items_prefix(b@, p0 as int, k as int, n64 as int);
                    }
                }
                return None;
            },
            Some((x, e)) => {
                let ghost prev = out.deep_view();
                let ghost q = p as int;
                out.push(x);
                proof {
                    assert(out.deep_view() =~= prev.push(dec_str_at(b@, q))) by {
                        assert(forall|j: int|
                            0 <= j < out@.len() ==> out.deep_view()[j] == out@[j].deep_view());
                    }
                }
                p = e;
            },
        }
        k = k + 1;
    }
    Some((out, p))
}

pub open spec fn bounded_opt_str_list(o: Option<Seq<Seq<char>>>) -> bool {
    match o {
        None => true,
        Some(v) => bounded_str_items(v),
    }
}

pub open spec fn has_opt_str_list_at(b: Seq<u8>, pos: int) -> bool {
    0 <= pos && pos + 1 <= b.len() && (b[pos] == 0 || (b[pos] == 1 && has_str_list_at(b, pos + 1)))
}

pub open spec fn opt_str_list_end(b: Seq<u8>, pos: int) -> int {
    if b[pos] == 0 {
        pos + 1
    } else {
        str_list_end(b, pos + 1)
    }
}

pub open spec fn dec_opt_str_list_at(b: Seq<u8>, pos: int) -> Option<Seq<Seq<char>>> {
    if b[pos] == 0 {
        None
    } else {
        Some(dec_str_list_at(b, pos + 1))
    }
}

#[verifier::rlimit(100)]
pub proof fn lemma_opt_str_list_round(b: Seq<u8>, pos: int, o: Option<Seq<Seq<char>>>)
    requires
        0 <= pos,
        bounded_opt_str_list(o),
        pos + enc_opt_str_list(o).len() <= b.len(),
        b.subrange(pos, pos + enc_opt_str_list(o).len()) == enc_opt_str_list(o),
    ensures
        has_opt_str_list_at(b, pos),
        dec_opt_str_list_at(b, pos) == o,
        opt_str_list_end(b, pos) == pos + enc_opt_str_list(o).len(),
{
    match o {
        None => {
            assert(b[pos] == enc_opt_str_list(o)[0]) by {
                assert(b.subrange(pos, pos + 1)[0] == b[pos]);
            }
            assert(enc_opt_str_list(o)[0] == 0);
        },
        Some(v) => {
            assert(enc_opt_str_list(o) == seq![1u8] + enc_str_list(v));
            lemma_subrange_split(b, pos, seq![1u8], enc_str_list(v));
            assert(b[pos] == 1) by {
                assert(b.subrange(pos, pos + 1)[0] == b[pos]);
                assert(seq![1u8][0] == 1);
            }
            lemma_str_list_round(b, pos + 1, v);
        },
    }
}

#[verifier::rlimit(100)]
pub fn take_opt_str_list(b: &Vec<u8>, pos: usize) -> (r: Option<(Option<Vec<String>>, usize)>)
    ensures
        r is Some <==> has_opt_str_list_at(b@, pos as int),
        match r {
            Some((o, end)) => o.deep_view() == dec_opt_str_list_at(b@, pos as int) && end
                as int == opt_str_list_end(b@, pos as int),
            None => true,
        },
{
    if pos >= b.len() {
        return None;
    }
    let tag = b[pos];
    if tag == 0 {
        Some((None, pos + 1))
    } else if tag == 1 {
        match take_str_list(b, pos + 1) {
            None => None,
            Some((v, end)) => Some((Some(v), end)),
        }
    } else {
        None
    }
}

pub open spec fn meta_p1(b: Seq<u8>, pos: int) -> int {
    opt_str_end(b, pos)
}

pub open spec fn meta_p2(b: Seq<u8>, pos: int) -> int {
    opt_str_end(b, meta_p1(b, pos))
}

pub open spec fn meta_p3(b: Seq<u8>, pos: int) -> int {
    opt_str_list_end(b, meta_p2(b, pos))
}

pub open spec fn has_meta_at(b: Seq<u8>, pos: int) -> bool {
    has_opt_str_at(b, pos) && has_opt_str_at(b, meta_p1(b, pos)) && has_opt_str_list_at(b, meta_p2(b, pos)) && has_opt_str_at(b, meta_p3(b, pos))
}

pub open spec fn meta_end(b: Seq<u8>, pos: int) -> int {
    opt_str_end(b, meta_p3(b, pos))
}

pub open spec fn dec_meta_at(b: Seq<u8>, pos: int) -> BgpApiMetaView {
    BgpApiMetaView {
        source_type: dec_opt_str_at(b, pos),
        source_id: dec_opt_str_at(b, meta_p1(b, pos)),
        origin_asns: dec_opt_str_list_at(b, meta_p2(b, pos)),
        meta_type: dec_opt_str_at(b, meta_p3(b, pos)),
    }
}

pub open spec fn bounded_meta(v: BgpApiMetaView) -> bool {
    bounded_opt_str(v.source_type) && bounded_opt_str(v.source_id) && bounded_opt_str_list(v.origin_asns) && bounded_opt_str(v.meta_type)
}

#[verifier::rlimit(100)]
pub proof fn lemma_meta_round(b: Seq<u8>, pos: int, v: BgpApiMetaView)
    requires
        0 <= pos,
        bounded_meta(v),
        pos + enc_meta(v).len() <= b.len(),
        b.subrange(pos, pos + enc_meta(v).len()) == enc_meta(v),
    ensures
        has_meta_at(b, pos),
        dec_meta_at(b, pos) == v,
        meta_end(b, pos) == pos + enc_meta(v).len(),
{
    let e1 = enc_opt_str(v.source_type);
    let e2 = enc_opt_str(v.source_id);
    let e3 = enc_opt_str_list(v.origin_asns);
    let e4 = enc_opt_str(v.meta_type);
    assert(enc_meta(v) == e1 + e2 + e3 + e4);
    lemma_subrange_split(b, pos, e1 + e2 + e3, e4);
    lemma_subrange_split(b, pos, e1 + e2, e3);
    lemma_subrange_split(b, pos, e1, e2);
    let p0 = pos;
    lemma_opt_str_round(b, p0, v.source_type);
    let p1 = p0 + e1.len();
    assert(meta_p1(b, pos) == p1);
    lemma_opt_str_round(b, p1, v.source_id);
    let p2 = p1 + e2.len();
    assert(meta_p2(b, pos) == p2);
    lemma_opt_str_list_round(b, p2, v.origin_asns);
    let p3 = p2 + e3.len();
    assert(meta_p3(b, pos) == p3);
    lemma_opt_str_round(b, p3, v.meta_type);
    assert(dec_meta_at(b, pos) == v);
}

#[verifier::rlimit(100)]
pub fn take_meta(b: &Vec<u8>, pos: usize) -> (r: Option<(BgpApiMeta, usize)>)
    ensures
        r is Some <==> has_meta_at(b@, pos as int),
        match r {
            Some((v, end)) => v.deep_view() == dec_meta_at(b@, pos as int) && end
                as int == meta_end(b@, pos as int),
            None => true,
        },
{
    let (source_type, p1) = match take_opt_str(b, pos) {
        None => {
            return None;
        },
        Some(v) => v,
    };
    let (source_id, p2) = match take_opt_str(b, p1) {
        None => {
            return None;
        },
        Some(v) => v,
    };
    let (origin_asns, p3) = match take_opt_str_list(b, p2) {
        None => {
            return None;
        },
        Some(v) => v,
    };
    let (meta_type, p4) = match take_opt_str(b, p3) {
        None => {
            return None;
        },
        Some(v) => v,
    };
    let out = BgpApiMeta { source_type, source_id, origin_asns, meta_type };
    assert(out.deep_view() == dec_meta_at(b@, pos as int));
    Some((out, p4))
}

pub open spec fn bounded_meta_items(s: Seq<BgpApiMetaView>) -> bool {
    s.len() <= u64::MAX && forall|i: int| 0 <= i < s.len() ==> bounded_meta(#[trigger] s[i])
}

pub open spec fn has_meta_items_at(b: Seq<u8>, pos: int, n: int) -> bool
    decreases n,
{
    if n <= 0 {
        true
    } else {
        has_meta_at(b, pos) && has_meta_items_at(b, meta_end(b, pos), n - 1)
    }
}

pub open spec fn meta_items_end(b: Seq<u8>, pos: int, n: int) -> int
    decreases n,
{
    if n <= 0 {
        pos
    } else {
        meta_items_end(b, meta_end(b, pos), n - 1)
    }
}

pub open spec fn dec_meta_items_at(b: Seq<u8>, pos: int, n: int) -> Seq<BgpApiMetaView>
    decreases n,
{
    if n <= 0 {
        Seq::empty()
    } else {
        seq![dec_meta_at(b, pos)] + dec_meta_items_at(b, meta_end(b, pos), n - 1)
    }
}

#[verifier::rlimit(100)]
pub proof fn lemma_meta_items_snoc(b: Seq<u8>, pos: int, n: int)
    requires
        n >= 0,
    ensures
        dec_meta_items_at(b, pos, n + 1) == dec_meta_items_at(b, pos, n).push(dec_meta_at(b, meta_items_end(b, pos, n))),
        has_meta_items_at(b, pos, n + 1) == (has_meta_items_at(b, pos, n) && has_meta_at(b, meta_items_end(b, pos, n))),
        meta_items_end(b, pos, n + 1) == meta_end(b, meta_items_end(b, pos, n)),
    decreases n,
{
    if n == 0 {
        assert(meta_items_end(b, pos, 0) == pos);
        assert(meta_items_end(b, meta_end(b, pos), 0) == meta_end(b, pos));
        assert(has_meta_items_at(b, meta_end(b, pos), 0));
        assert(dec_meta_items_at(b, meta_end(b, pos), 0) =~= Seq::empty());
        assert(dec_meta_items_at(b, pos, 0) =~= Seq::empty());
        assert(dec_meta_items_at(b, pos, 1) =~= dec_meta_items_at(b, pos, 0).push(dec_meta_at(b, pos)));
    } else {
        lemma_meta_items_snoc(b, meta_end(b, pos), n - 1);
        assert(meta_items_end(b, pos, n + 1) == meta_items_end(b, meta_end(b, pos), n));
        assert(meta_items_end(b, pos, n) == meta_items_end(b, meta_end(b, pos), n - 1));
        assert(dec_meta_items_at(b, pos, n + 1) =~= dec_meta_items_at(b, pos, n).push(dec_meta_at(b, meta_items_end(b, pos, n))));
    }
}

pub proof fn lemma_has_meta_items_prefix(b: Seq<u8>, pos: int, m: int, n: int)
    requires
        0 <= m <= n,
        has_meta_items_at(b, pos, n),
    ensures
        has_meta_items_at(b, pos, m),
        m < n ==> has_meta_at(b, meta_items_end(b, pos, m)),
    decreases n,
{
    if m == 0 {
    } else {
        lemma_has_meta_items_prefix(b, meta_end(b, pos), m - 1, n - 1);
    }
}

#[verifier::rlimit(100)]
pub proof fn lemma_enc_meta_items_front(s: Seq<BgpApiMetaView>)
    requires
        s.len() > 0,
    ensures
        enc_meta_items(s) == enc_meta(s[0]) + enc_meta_items(s.skip(1)),
    decreases s.len(),
{
    if s.len() == 1 {
        assert(s.drop_last().len() == 0);
        assert(s.skip(1).len() == 0);
        assert(enc_meta_items(s.drop_last()) =~= Seq::empty());
        assert(enc_meta_items(s.skip(1)) =~= Seq::empty());
        assert(s.last() == s[0]);
        assert(enc_meta_items(s) =~= enc_meta(s[0]) + enc_meta_items(s.skip(1)));
    } else {
        lemma_enc_meta_items_front(s.drop_last());
        assert(s.drop_last()[0] == s[0]);
        assert(s.skip(1).len() > 0);
        assert(enc_meta_items(s.skip(1)) == enc_meta_items(s.skip(1).drop_last()) + enc_meta(s.skip(1).last()));
        assert(s.skip(1).drop_last() =~= s.drop_last().skip(1));
        assert(s.skip(1).last() == s.last());
        assert(enc_meta_items(s) =~= enc_meta(s[0]) + enc_meta_items(s.skip(1)));
    }
}

#[verifier::rlimit(100)]
pub proof fn lemma_meta_items_round(b: Seq<u8>, pos: int, s: Seq<BgpApiMetaView>)
    requires
        0 <= pos,
        bounded_meta_items(s),
        pos + enc_meta_items(s).len() <= b.len(),
        b.subrange(pos, pos + enc_meta_items(s).len()) == enc_meta_items(s),
    ensures
        has_meta_items_at(b, pos, s.len() as int),
        dec_meta_items_at(b, pos, s.len() as int) == s,
        meta_items_end(b, pos, s.len() as int) == pos + enc_meta_items(s).len(),
    decreases s.len(),
{
    if s.len() > 0 {
        lemma_enc_meta_items_front(s);
        lemma_subrange_split(b, pos, enc_meta(s[0]), enc_meta_items(s.skip(1)));
        lemma_meta_round(b, pos, s[0]);
        assert(bounded_meta_items(s.skip(1))) by {
            assert(forall|i: int| 0 <= i < s.skip(1).len() ==> s.skip(1)[i] == s[i + 1]);
        }
        lemma_meta_items_round(b, pos + enc_meta(s[0]).len(), s.skip(1));
        assert(dec_meta_items_at(b, pos, s.len() as int) =~= s);
    } else {
        assert(dec_meta_items_at(b, pos, 0) =~= s);
    }
}

pub open spec fn has_meta_list_at(b: Seq<u8>, pos: int) -> bool {
    has_u64_at(b, pos) && has_meta_items_at(b, pos + 8, dec_u64_at(b, pos) as int)
}

pub open spec fn meta_list_end(b: Seq<u8>, pos: int) -> int {
    meta_items_end(b, pos + 8, dec_u64_at(b, pos) as int)
}

pub open spec fn dec_meta_list_at(b: Seq<u8>, pos: int) -> Seq<BgpApiMetaView> {
    dec_meta_items_at(b, pos + 8, dec_u64_at(b, pos) as int)
}

#[verifier::rlimit(100)]
pub proof fn lemma_meta_list_round(b: Seq<u8>, pos: int, s: Seq<BgpApiMetaView>)
    requires
        0 <= pos,
        bounded_meta_items(s),
        pos + enc_meta_list(s).len() <= b.len(),
        b.subrange(pos, pos + enc_meta_list(s).len()) == enc_meta_list(s),
    ensures
        has_meta_list_at(b, pos),
        dec_meta_list_at(b, pos) == s,
        meta_list_end(b, pos) == pos + enc_meta_list(s).len(),
{
    lemma_subrange_split(b, pos, enc_u64(s.len() as u64), enc_meta_items(s));
    lemma_u64_round(b, pos, s.len() as u64);
    lemma_meta_items_round(b, pos + 8, s);
}

#[verifier::rlimit(100)]
pub fn take_meta_list(b: &Vec<u8>, pos: usize) -> (r: Option<(Vec<BgpApiMeta>, usize)>)
    ensures
        r is Some <==> has_meta_list_at(b@, pos as int),
        match r {
            Some((v, end)) => v.deep_view() == dec_meta_list_at(b@, pos as int) && end
                as int == meta_list_end(b@, pos as int),
            None => true,
        },
{
    let (n64, p0) = match take_u64(b, pos) {
        None => {
            return None;
        },
        Some(v) => v,
    };
    let mut out: Vec<BgpApiMeta> = Vec::new();
    let mut p = p0;
    let mut k: u64 = 0;
    while k < n64
        invariant
            n64 == dec_u64_at(b@, pos as int),
            p0 == pos + 8,
            k <= n64,
            has_meta_items_at(b@, p0 as int, k as int),
            p as int == meta_items_end(b@, p0 as int, k as int),
            out.deep_view() == dec_meta_items_at(b@, p0 as int, k as int),
            out@.len() == k,
        decreases n64 - k,
    {
        proof {
            lemma_meta_items_snoc(b@, p0 as int, k as int);
        }
        match take_meta(b, p) {
            None => {
                proof {
                    if has_meta_list_at(b@, pos as int) {
                        lemma_has_meta_items_prefix(b@, p0 as int, k as int, n64 as int);
                    }
                }
                return None;
            },
            Some((x, e)) => {
                let ghost prev = out.deep_view();
                let ghost q = p as int;
                out.push(x);
                proof {
                    assert(out.deep_view() =~= prev.push(dec_meta_at(b@, q))) by {
                        assert(forall|j: int|
                            0 <= j < out@.len() ==> out.deep_view()[j] == out@[j].deep_view());
                    }
                }
                p = e;
            },
        }
        k = k + 1;
    }
    Some((out, p))
}

pub open spec fn bgp_api_p1(b: Seq<u8>, pos: int) -> int {
    str_end(b, pos)
}

pub open spec fn has_bgp_api_at(b: Seq<u8>, pos: int) -> bool {
    has_str_at(b, pos) && has_meta_list_at(b, bgp_api_p1(b, pos))
}

pub open spec fn bgp_api_end(b: Seq<u8>, pos: int) -> int {
    meta_list_end(b, bgp_api_p1(b, pos))
}

pub open spec fn dec_bgp_api_at(b: Seq<u8>, pos: int) -> BgpApiResultView {
    BgpApiResultView {
        prefix: dec_str_at(b, pos),
        meta: dec_meta_list_at(b, bgp_api_p1(b, pos)),
    }
}

pub open spec fn bounded_bgp_api(v: BgpApiResultView) -> bool {
    bounded_str(v.prefix) && bounded_meta_items(v.meta)
}

#[verifier::rlimit(100)]
pub proof fn lemma_bgp_api_round(b: Seq<u8>, pos: int, v: BgpApiResultView)
    requires
        0 <= pos,
        bounded_bgp_api(v),
        pos + enc_bgp_api(v).len() <= b.len(),
        b.subrange(pos, pos + enc_bgp_api(v).len()) == enc_bgp_api(v),
    ensures
        has_bgp_api_at(b, pos),
        dec_bgp_api_at(b, pos) == v,
        bgp_api_end(b, pos) == pos + enc_bgp_api(v).len(),
{
    let e1 = enc_str(v.prefix);
    let e2 = enc_meta_list(v.meta);
    assert(enc_bgp_api(v) == e1 + e2);
    lemma_subrange_split(b, pos, e1, e2);
    let p0 = pos;
    lemma_str_round(b, p0, v.prefix);
    let p1 = p0 + e1.len();
    assert(bgp_api_p1(b, pos) == p1);
    lemma_meta_list_round(b, p1, v.meta);
    assert(dec_bgp_api_at(b, pos) == v);
}

#[verifier::rlimit(100)]
pub fn take_bgp_api(b: &Vec<u8>, pos: usize) -> (r: Option<(BgpApiResult, usize)>)
    ensures
        r is Some <==> has_bgp_api_at(b@, pos as int),
        match r {
            Some((v, end)) => v.deep_view() == dec_bgp_api_at(b@, pos as int) && end
                as int == bgp_api_end(b@, pos as int),
            None => true,
        },
{
    let (prefix, p1) = match take_str(b, pos) {
        None => {
            return None;
        },
        Some(v) => v,
    };
    let (meta, p2) = match take_meta_list(b, p1) {
        None => {
            return None;
        },
        Some(v) => v,
    };
    let out = BgpApiResult { prefix, meta };
    assert(out.deep_view() == dec_bgp_api_at(b@, pos as int));
    Some((out, p2))
}

pub open spec fn bounded_opt_bgp_api(o: Option<BgpApiResultView>) -> bool {
    match o {
        None => true,
        Some(v) => bounded_bgp_api(v),
    }
}

pub open spec fn has_opt_bgp_api_at(b: Seq<u8>, pos: int) -> bool {
    0 <= pos && pos + 1 <= b.len() && (b[pos] == 0 || (b[pos] == 1 && has_bgp_api_at(b, pos + 1)))
}

pub open spec fn opt_bgp_api_end(b: Seq<u8>, pos: int) -> int {
    if b[pos] == 0 {
        pos + 1
    } else {
        bgp_api_end(b, pos + 1)
    }
}

pub open spec fn dec_opt_bgp_api_at(b: Seq<u8>, pos: int) -> Option<BgpApiResultView> {
    if b[pos] == 0 {
        None
    } else {
        Some(dec_bgp_api_at(b, pos + 1))
    }
}

#[verifier::rlimit(100)]
pub proof fn lemma_opt_bgp_api_round(b: Seq<u8>, pos: int, o: Option<BgpApiResultView>)
    requires
        0 <= pos,
        bounded_opt_bgp_api(o),
        pos + enc_opt_bgp_api(o).len() <= b.len(),
        b.subrange(pos, pos + enc_opt_bgp_api(o).len()) == enc_opt_bgp_api(o),
    ensures
        has_opt_bgp_api_at(b, pos),
        dec_opt_bgp_api_at(b, pos) == o,
        opt_bgp_api_end(b, pos) == pos + enc_opt_bgp_api(o).len(),
{
    match o {
        None => {
            assert(b[pos] == enc_opt_bgp_api(o)[0]) by {
                assert(b.subrange(pos, pos + 1)[0] == b[pos]);
            }
            assert(enc_opt_bgp_api(o)[0] == 0);
        },
        Some(v) => {
            assert(enc_opt_bgp_api(o) == seq![1u8] + enc_bgp_api(v));
            lemma_subrange_split(b, pos, seq![1u8], enc_bgp_api(v));
            assert(b[pos] == 1) by {
                assert(b.subrange(pos, pos + 1)[0] == b[pos]);
                assert(seq![1u8][0] == 1);
            }
            lemma_bgp_api_round(b, pos + 1, v);
        },
    }
}

#[verifier::rlimit(100)]
pub fn take_opt_bgp_api(b: &Vec<u8>, pos: usize) -> (r: Option<(Option<BgpApiResult>, usize)>)
    ensures
        r is Some <==> has_opt_bgp_api_at(b@, pos as int),
        match r {
            Some((o, end)) => o.deep_view() == dec_opt_bgp_api_at(b@, pos as int) && end
                as int == opt_bgp_api_end(b@, pos as int),
            None => true,
        },
{
    if pos >= b.len() {
        return None;
    }
    let tag = b[pos];
    if tag == 0 {
        Some((None, pos + 1))
    } else if tag == 1 {
        match take_bgp_api(b, pos + 1) {
            None => None,
            Some((v, end)) => Some((Some(v), end)),
        }
    } else {
        None
    }
}

pub open spec fn bgptools_p1(b: Seq<u8>, pos: int) -> int {
    opt_str_end(b, pos)
}

pub open spec fn bgptools_p2(b: Seq<u8>, pos: int) -> int {
    str_end(b, bgptools_p1(b, pos))
}

pub open spec fn bgptools_p3(b: Seq<u8>, pos: int) -> int {
    opt_str_end(b, bgptools_p2(b, pos))
}

pub open spec fn bgptools_p4(b: Seq<u8>, pos: int) -> int {
    opt_str_end(b, bgptools_p3(b, pos))
}

pub open spec fn bgptools_p5(b: Seq<u8>, pos: int) -> int {
    opt_str_end(b, bgptools_p4(b, pos))
}

pub open spec fn bgptools_p6(b: Seq<u8>, pos: int) -> int {
    opt_str_end(b, bgptools_p5(b, pos))
}

pub open spec fn bgptools_p7(b: Seq<u8>, pos: int) -> int {
    opt_str_end(b, bgptools_p6(b, pos))
}

pub open spec fn bgptools_p8(b: Seq<u8>, pos: int) -> int {
    upstream_list_end(b, bgptools_p7(b, pos))
}

pub open spec fn has_bgptools_at(b: Seq<u8>, pos: int) -> bool {
    has_opt_str_at(b, pos) && has_str_at(b, bgptools_p1(b, pos)) && has_opt_str_at(b, bgptools_p2(b, pos)) && has_opt_str_at(b, bgptools_p3(b, pos)) && has_opt_str_at(b, bgptools_p4(b, pos)) && has_opt_str_at(b, bgptools_p5(b, pos)) && has_opt_str_at(b, bgptools_p6(b, pos)) && has_upstream_list_at(b, bgptools_p7(b, pos)) && has_opt_str_at(b, bgptools_p8(b, pos))
}

pub open spec fn bgptools_end(b: Seq<u8>, pos: int) -> int {
    opt_str_end(b, bgptools_p8(b, pos))
}

pub open spec fn dec_bgptools_at(b: Seq<u8>, pos: int) -> BgpToolsInfoView {
    BgpToolsInfoView {
        asn: dec_opt_str_at(b, pos),
        ip: dec_str_at(b, bgptools_p1(b, pos)),
        prefix: dec_opt_str_at(b, bgptools_p2(b, pos)),
        country: dec_opt_str_at(b, bgptools_p3(b, pos)),
        registry: dec_opt_str_at(b, bgptools_p4(b, pos)),
        allocated: dec_opt_str_at(b, bgptools_p5(b, pos)),
        as_name: dec_opt_str_at(b, bgptools_p6(b, pos)),
        upstreams: dec_upstream_list_at(b, bgptools_p7(b, pos)),
        raw_response: dec_opt_str_at(b, bgptools_p8(b, pos)),
    }
}

pub open spec fn bounded_bgptools(v: BgpToolsInfoView) -> bool {
    bounded_opt_str(v.asn) && bounded_str(v.ip) && bounded_opt_str(v.prefix) && bounded_opt_str(v.country) && bounded_opt_str(v.registry) && bounded_opt_str(v.allocated) && bounded_opt_str(v.as_name) && bounded_upstream_items(v.upstreams) && bounded_opt_str(v.raw_response)
}

#[verifier::rlimit(100)]
pub proof fn lemma_bgptools_round(b: Seq<u8>, pos: int, v: BgpToolsInfoView)
    requires
        0 <= pos,
        bounded_bgptools(v),
        pos + enc_bgptools(v).len() <= b.len(),
        b.subrange(pos, pos + enc_bgptools(v).len()) == enc_bgptools(v),
    ensures
        has_bgptools_at(b, pos),
        dec_bgptools_at(b, pos) == v,
        bgptools_end(b, pos) == pos + enc_bgptools(v).len(),
{
    let e1 = enc_opt_str(v.asn);
    let e2 = enc_str(v.ip);
    let e3 = enc_opt_str(v.prefix);
    let e4 = enc_opt_str(v.country);
    let e5 = enc_opt_str(v.registry);
    let e6 = enc_opt_str(v.allocated);
    let e7 = enc_opt_str(v.as_name);
    let e8 = enc_upstream_list(v.upstreams);
    let e9 = enc_opt_str(v.raw_response);
    let h = enc_bgptools_head(v);
    assert(h == e1 + e2 + e3 + e4);
    assert(enc_bgptools(v) == h + e5 + e6 + e7 + e8 + e9);
    lemma_subrange_split(b, pos, h + e5 + e6 + e7 + e8, e9);
    lemma_subrange_split(b, pos, h + e5 + e6 + e7, e8);
    lemma_subrange_split(b, pos, h + e5 + e6, e7);
    lemma_subrange_split(b, pos, h + e5, e6);
    lemma_subrange_split(b, pos, h, e5);
    lemma_subrange_split(b, pos, e1 + e2 + e3, e4);
    lemma_subrange_split(b, pos, e1 + e2, e3);
    lemma_subrange_split(b, pos, e1, e2);
    let p0 = pos;
    lemma_opt_str_round(b, p0, v.asn);
    let p1 = p0 + e1.len();
    assert(bgptools_p1(b, pos) == p1);
    lemma_str_round(b, p1, v.ip);
    let p2 = p1 + e2.len();
    assert(bgptools_p2(b, pos) == p2);
    lemma_opt_str_round(b, p2, v.prefix);
    let p3 = p2 + e3.len();
    assert(bgptools_p3(b, pos) == p3);
    lemma_opt_str_round(b, p3, v.country);
    let p4 = p3 + e4.len();
    assert(bgptools_p4(b, pos) == p4);
    lemma_opt_str_round(b, p4, v.registry);
    let p5 = p4 + e5.len();
    assert(bgptools_p5(b, pos) == p5);
    lemma_opt_str_round(b, p5, v.allocated);
    let p6 = p5 + e6.len();
    assert(bgptools_p6(b, pos) == p6);
    lemma_opt_str_round(b, p6, v.as_name);
    let p7 = p6 + e7.len();
    assert(bgptools_p7(b, pos) == p7);
    lemma_upstream_list_round(b, p7, v.upstreams);
    let p8 = p7 + e8.len();
    assert(bgptools_p8(b, pos) == p8);
    lemma_opt_str_round(b, p8, v.raw_response);
    assert(dec_bgptools_at(b, pos) == v);
}

#[verifier::rlimit(100)]
pub fn take_bgptools(b: &Vec<u8>, pos: usize) -> (r: Option<(BgpToolsInfo, usize)>)
    ensures
        r is Some <==> has_bgptools_at(b@, pos as int),
        match r {
            Some((v, end)) => v.deep_view() == dec_bgptools_at(b@, pos as int) && end
                as int == bgptools_end(b@, pos as int),
            None => true,
        },
{
    let (asn, p1) = match take_opt_str(b, pos) {
        None => {
            return None;
        },
        Some(v) => v,
    };
    let (ip, p2) = match take_str(b, p1) {
        None => {
            return None;
        },
        Some(v) => v,
    };
    let (prefix, p3) = match take_opt_str(b, p2) {
        None => {
            return None;
        },
        Some(v) => v,
    };
    let (country, p4) = match take_opt_str(b, p3) {
        None => {
            return None;
        },
        Some(v) => v,
    };
    let (registry, p5) = match take_opt_str(b, p4) {
        None => {
            return None;
        },
        Some(v) => v,
    };
    let (allocated, p6) = match take_opt_str(b, p5) {
        None => {
            return None;
        },
        Some(v) => v,
    };
    let (as_name, p7) = match take_opt_str(b, p6) {
        None => {
            return None;
        },
        Some(v) => v,
    };
    let (upstreams, p8) = match take_upstream_list(b, p7) {
        None => {
            return None;
        },
        Some(v) => v,
    };
    let (raw_response, p9) = match take_opt_str(b, p8) {
        None => {
            return None;
        },
        Some(v) => v,
    };
    let out = BgpToolsInfo { asn, ip, prefix, country, registry, allocated, as_name, upstreams, raw_response };
    assert(out.deep_view() == dec_bgptools_at(b@, pos as int));
    Some((out, p9))
}

pub open spec fn bounded_opt_bgptools(o: Option<BgpToolsInfoView>) -> bool {
    match o {
        None => true,
        Some(v) => bounded_bgptools(v),
    }
}

pub open spec fn has_opt_bgptools_at(b: Seq<u8>, pos: int) -> bool {
    0 <= pos && pos + 1 <= b.len() && (b[pos] == 0 || (b[pos] == 1 && has_bgptools_at(b, pos + 1)))
}

pub open spec fn opt_bgptools_end(b: Seq<u8>, pos: int) -> int {
    if b[pos] == 0 {
        pos + 1
    } else {
        bgptools_end(b, pos + 1)
    }
}

pub open spec fn dec_opt_bgptools_at(b: Seq<u8>, pos: int) -> Option<BgpToolsInfoView> {
    if b[pos] == 0 {
        None
    } else {
        Some(dec_bgptools_at(b, pos + 1))
    }
}

#[verifier::rlimit(100)]
pub proof fn lemma_opt_bgptools_round(b: Seq<u8>, pos: int, o: Option<BgpToolsInfoView>)
    requires
        0 <= pos,
        bounded_opt_bgptools(o),
        pos + enc_opt_bgptools(o).len() <= b.len(),
        b.subrange(pos, pos + enc_opt_bgptools(o).len()) == enc_opt_bgptools(o),
    ensures
        has_opt_bgptools_at(b, pos),
        dec_opt_bgptools_at(b, pos) == o,
        opt_bgptools_end(b, pos) == pos + enc_opt_bgptools(o).len(),
{
    match o {
        None => {
            assert(b[pos] == enc_opt_bgptools(o)[0]) by {
                assert(b.subrange(pos, pos + 1)[0] == b[pos]);
            }
            assert(enc_opt_bgptools(o)[0] == 0);
        },
        Some(v) => {
            assert(enc_opt_bgptools(o) == seq![1u8] + enc_bgptools(v));
            lemma_subrange_split(b, pos, seq![1u8], enc_bgptools(v));
            assert(b[pos] == 1) by {
                assert(b.subrange(pos, pos + 1)[0] == b[pos]);
                assert(seq![1u8][0] == 1);
            }
            lemma_bgptools_round(b, pos + 1, v);
        },
    }
}

#[verifier::rlimit(100)]
pub fn take_opt_bgptools(b: &Vec<u8>, pos: usize) -> (r: Option<(Option<BgpToolsInfo>, usize)>)
    ensures
        r is Some <==> has_opt_bgptools_at(b@, pos as int),
        match r {
            Some((o, end)) => o.deep_view() == dec_opt_bgptools_at(b@, pos as int) && end
                as int == opt_bgptools_end(b@, pos as int),
            None => true,
        },
{
    if pos >= b.len() {
        return None;
    }
    let tag = b[pos];
    if tag == 0 {
        Some((None, pos + 1))
    } else if tag == 1 {
        match take_bgptools(b, pos + 1) {
            None => None,
            Some((v, end)) => Some((Some(v), end)),
        }
    } else {
        None
    }
}

pub open spec fn vrps_p1(b: Seq<u8>, pos: int) -> int {
    str_end(b, pos)
}

pub open spec fn vrps_p2(b: Seq<u8>, pos: int) -> int {
    str_end(b, vrps_p1(b, pos))
}

pub open spec fn has_vrps_at(b: Seq<u8>, pos: int) -> bool {
    has_str_at(b, pos) && has_str_at(b, vrps_p1(b, pos)) && has_opt_str_at(b, vrps_p2(b, pos))
}

pub open spec fn vrps_end(b: Seq<u8>, pos: int) -> int {
    opt_str_end(b, vrps_p2(b, pos))
}

pub open spec fn dec_vrps_at(b: Seq<u8>, pos: int) -> RpkiVrpsView {
    RpkiVrpsView {
        asn: dec_str_at(b, pos),
        prefix: dec_str_at(b, vrps_p1(b, pos)),
        max_length: dec_opt_str_at(b, vrps_p2(b, pos)),
    }
}

pub open spec fn bounded_vrps(v: RpkiVrpsView) -> bool {
    bounded_str(v.asn) && bounded_str(v.prefix) && bounded_opt_str(v.max_length)
}

#[verifier::rlimit(100)]
pub proof fn lemma_vrps_round(b: Seq<u8>, pos: int, v: RpkiVrpsView)
    requires
        0 <= pos,
        bounded_vrps(v),
        pos + enc_vrps(v).len() <= b.len(),
        b.subrange(pos, pos + enc_vrps(v).len()) == enc_vrps(v),
    ensures
        has_vrps_at(b, pos),
        dec_vrps_at(b, pos) == v,
        vrps_end(b, pos) == pos + enc_vrps(v).len(),
{
    let e1 = enc_str(v.asn);
    let e2 = enc_str(v.prefix);
    let e3 = enc_opt_str(v.max_length);
    assert(enc_vrps(v) == e1 + e2 + e3);
    lemma_subrange_split(b, pos, e1 + e2, e3);
    lemma_subrange_split(b, pos, e1, e2);
    let p0 = pos;
    lemma_str_round(b, p0, v.asn);
    let p1 = p0 + e1.len();
    assert(vrps_p1(b, pos) == p1);
    lemma_str_round(b, p1, v.prefix);
    let p2 = p1 + e2.len();
    assert(vrps_p2(b, pos) == p2);
    lemma_opt_str_round(b, p2, v.max_length);
    assert(dec_vrps_at(b, pos) == v);
}

#[verifier::rlimit(100)]
pub fn take_vrps(b: &Vec<u8>, pos: usize) -> (r: Option<(RpkiVrps, usize)>)
    ensures
        r is Some <==> has_vrps_at(b@, pos as int),
        match r {
            Some((v, end)) => v.deep_view() == dec_vrps_at(b@, pos as int) && end
                as int == vrps_end(b@, pos as int),
            None => true,
        },
{
    let (asn, p1) = match take_str(b, pos) {
        None => {
            return None;
        },
        Some(v) => v,
    };
    let (prefix, p2) = match take_str(b, p1) {
        None => {
            return None;
        },
        Some(v) => v,
    };
    let (max_length, p3) = match take_opt_str(b, p2) {
        None => {
            return None;
        },
        Some(v) => v,
    };
    let out = RpkiVrps { asn, prefix, max_length };
    assert(out.deep_view() == dec_vrps_at(b@, pos as int));
    Some((out, p3))
}

pub open spec fn bounded_vrps_items(s: Seq<RpkiVrpsView>) -> bool {
    s.len() <= u64::MAX && forall|i: int| 0 <= i < s.len() ==> bounded_vrps(#[trigger] s[i])
}

pub open spec fn has_vrps_items_at(b: Seq<u8>, pos: int, n: int) -> bool
    decreases n,
{
    if n <= 0 {
        true
    } else {
        has_vrps_at(b, pos) && has_vrps_items_at(b, vrps_end(b, pos), n - 1)
    }
}

pub open spec fn vrps_items_end(b: Seq<u8>, pos: int, n: int) -> int
    decreases n,
{
    if n <= 0 {
        pos
    } else {
        vrps_items_end(b, vrps_end(b, pos), n - 1)
    }
}

pub open spec fn dec_vrps_items_at(b: Seq<u8>, pos: int, n: int) -> Seq<RpkiVrpsView>
    decreases n,
{
    if n <= 0 {
        Seq::empty()
    } else {
        seq![dec_vrps_at(b, pos)] + dec_vrps_items_at(b, vrps_end(b, pos), n - 1)
    }
}

#[verifier::rlimit(100)]
pub proof fn lemma_vrps_items_snoc(b: Seq<u8>, pos: int, n: int)
    requires
        n >= 0,
    ensures
        dec_vrps_items_at(b, pos, n + 1) == dec_vrps_items_at(b, pos, n).push(dec_vrps_at(b, vrps_items_end(b, pos, n))),
        has_vrps_items_at(b, pos, n + 1) == (has_vrps_items_at(b, pos, n) && has_vrps_at(b, vrps_items_end(b, pos, n))),
        vrps_items_end(b, pos, n + 1) == vrps_end(b, vrps_items_end(b, pos, n)),
    decreases n,
{
    if n == 0 {
        assert(vrps_items_end(b, pos, 0) == pos);
        assert(vrps_items_end(b, vrps_end(b, pos), 0) == vrps_end(b, pos));
        assert(has_vrps_items_at(b, vrps_end(b, pos), 0));
        assert(dec_vrps_items_at(b, vrps_end(b, pos), 0) =~= Seq::empty());
        assert(dec_vrps_items_at(b, pos, 0) =~= Seq::empty());
        assert(dec_vrps_items_at(b, pos, 1) =~= dec_vrps_items_at(b, pos, 0).push(dec_vrps_at(b, pos)));
    } else {
        lemma_vrps_items_snoc(b, vrps_end(b, pos), n - 1);
        assert(vrps_items_end(b, pos, n + 1) == vrps_items_end(b, vrps_end(b, pos), n));
        assert(vrps_items_end(b, pos, n) == vrps_items_end(b, vrps_end(b, pos), n - 1));
        assert(dec_vrps_items_at(b, pos, n + 1) =~= dec_vrps_items_at(b, pos, n).push(dec_vrps_at(b, vrps_items_end(b, pos, n))));
    }
}

pub proof fn lemma_has_vrps_items_prefix(b: Seq<u8>, pos: int, m: int, n: int)
    requires
        0 <= m <= n,
        has_vrps_items_at(b, pos, n),
    ensures
        has_vrps_items_at(b, pos, m),
        m < n ==> has_vrps_at(b, vrps_items_end(b, pos, m)),
    decreases n,
{
    if m == 0 {
    } else {
        lemma_has_vrps_items_prefix(b, vrps_end(b, pos), m - 1, n - 1);
    }
}

#[verifier::rlimit(100)]
pub proof fn lemma_enc_vrps_items_front(s: Seq<RpkiVrpsView>)
    requires
        s.len() > 0,
    ensures
        enc_vrps_items(s) == enc_vrps(s[0]) + enc_vrps_items(s.skip(1)),
    decreases s.len(),
{
    if s.len() == 1 {
        assert(s.drop_last().len() == 0);
        assert(s.skip(1).len() == 0);
        assert(enc_vrps_items(s.drop_last()) =~= Seq::empty());
        assert(enc_vrps_items(s.skip(1)) =~= Seq::empty());
        assert(s.last() == s[0]);
        assert(enc_vrps_items(s) =~= enc_vrps(s[0]) + enc_vrps_items(s.skip(1)));
    } else {
        lemma_enc_vrps_items_front(s.drop_last());
        assert(s.drop_last()[0] == s[0]);
        assert(s.skip(1).len() > 0);
        assert(enc_vrps_items(s.skip(1)) == enc_vrps_items(s.skip(1).drop_last()) + enc_vrps(s.skip(1).last()));
        assert(s.skip(1).drop_last() =~= s.drop_last().skip(1));
        assert(s.skip(1).last() == s.last());
        assert(enc_vrps_items(s) =~= enc_vrps(s[0]) + enc_vrps_items(s.skip(1)));
    }
}

#[verifier::rlimit(100)]
pub proof fn lemma_vrps_items_round(b: Seq<u8>, pos: int, s: Seq<RpkiVrpsView>)
    requires
        0 <= pos,
        bounded_vrps_items(s),
        pos + enc_vrps_items(s).len() <= b.len(),
        b.subrange(pos, pos + enc_vrps_items(s).len()) == enc_vrps_items(s),
    ensures
        has_vrps_items_at(b, pos, s.len() as int),
        dec_vrps_items_at(b, pos, s.len() as int) == s,
        vrps_items_end(b, pos, s.len() as int) == pos + enc_vrps_items(s).len(),
    decreases s.len(),
{
    if s.len() > 0 {
        lemma_enc_vrps_items_front(s);
        lemma_subrange_split(b, pos, enc_vrps(s[0]), enc_vrps_items(s.skip(1)));
        lemma_vrps_round(b, pos, s[0]);
        assert(bounded_vrps_items(s.skip(1))) by {
            assert(forall|i: int| 0 <= i < s.skip(1).len() ==> s.skip(1)[i] == s[i + 1]);
        }
        lemma_vrps_items_round(b, pos + enc_vrps(s[0]).len(), s.skip(1));
        assert(dec_vrps_items_at(b, pos, s.len() as int) =~= s);
    } else {
        assert(dec_vrps_items_at(b, pos, 0) =~= s);
    }
}

pub open spec fn has_vrps_list_at(b: Seq<u8>, pos: int) -> bool {
    has_u64_at(b, pos) && has_vrps_items_at(b, pos + 8, dec_u64_at(b, pos) as int)
}

pub open spec fn vrps_list_end(b: Seq<u8>, pos: int) -> int {
    vrps_items_end(b, pos + 8, dec_u64_at(b, pos) as int)
}

pub open spec fn dec_vrps_list_at(b: Seq<u8>, pos: int) -> Seq<RpkiVrpsView> {
    dec_vrps_items_at(b, pos + 8, dec_u64_at(b, pos) as int)
}

#[verifier::rlimit(100)]
pub proof fn lemma_vrps_list_round(b: Seq<u8>, pos: int, s: Seq<RpkiVrpsView>)
    requires
        0 <= pos,
        bounded_vrps_items(s),
        pos + enc_vrps_list(s).len() <= b.len(),
        b.subrange(pos, pos + enc_vrps_list(s).len()) == enc_vrps_list(s),
    ensures
        has_vrps_list_at(b, pos),
        dec_vrps_list_at(b, pos) == s,
        vrps_list_end(b, pos) == pos + enc_vrps_list(s).len(),
{
    lemma_subrange_split(b, pos, enc_u64(s.len() as u64), enc_vrps_items(s));
    lemma_u64_round(b, pos, s.len() as u64);
    lemma_vrps_items_round(b, pos + 8, s);
}

#[verifier::rlimit(100)]
pub fn take_vrps_list(b: &Vec<u8>, pos: usize) -> (r: Option<(Vec<RpkiVrps>, usize)>)
    ensures
        r is Some <==> has_vrps_list_at(b@, pos as int),
        match r {
            Some((v, end)) => v.deep_view() == dec_vrps_list_at(b@, pos as int) && end
                as int == vrps_list_end(b@, pos as int),
            None => true,
        },
{
    let (n64, p0) = match take_u64(b, pos) {
        None => {
            return None;
        },
        Some(v) => v,
    };
    let mut out: Vec<RpkiVrps> = Vec::new();
    let mut p = p0;
    let mut k: u64 = 0;
    while k < n64
        invariant
            n64 == dec_u64_at(b@, pos as int),
            p0 == pos + 8,
            k <= n64,
            has_vrps_items_at(b@, p0 as int, k as int),
            p as int == vrps_items_end(b@, p0 as int, k as int),
            out.deep_view() == dec_vrps_items_at(b@, p0 as int, k as int),
            out@.len() == k,
        decreases n64 - k,
    {
        proof {
            lemma_vrps_items_snoc(b@, p0 as int, k as int);
        }
        match take_vrps(b, p) {
            None => {
                proof {
                    if has_vrps_list_at(b@, pos as int) {
                        lemma_has_vrps_items_prefix(b@, p0 as int, k as int, n64 as int);
                    }
                }
                return None;
            },
            Some((x, e)) => {
                let ghost prev = out.deep_view();
                let ghost q = p as int;
                out.push(x);
                proof {
                    assert(out.deep_view() =~= prev.push(dec_vrps_at(b@, q))) by {
                        assert(forall|j: int|
                            0 <= j < out@.len() ==> out.deep_view()[j] == out@[j].deep_view());
                    }
                }
                p = e;
            },
        }
        k = k + 1;
    }
    Some((out, p))
}

pub open spec fn bounded_opt_vrps_list(o: Option<Seq<RpkiVrpsView>>) -> bool {
    match o {
        None => true,
        Some(v) => bounded_vrps_items(v),
    }
}

pub open spec fn has_opt_vrps_list_at(b: Seq<u8>, pos: int) -> bool {
    0 <= pos && pos + 1 <= b.len() && (b[pos] == 0 || (b[pos] == 1 && has_vrps_list_at(b, pos + 1)))
}

pub open spec fn opt_vrps_list_end(b: Seq<u8>, pos: int) -> int {
    if b[pos] == 0 {
        pos + 1
    } else {
        vrps_list_end(b, pos + 1)
    }
}

pub open spec fn dec_opt_vrps_list_at(b: Seq<u8>, pos: int) -> Option<Seq<RpkiVrpsView>> {
    if b[pos] == 0 {
        None
    } else {
        Some(dec_vrps_list_at(b, pos + 1))
    }
}

#[verifier::rlimit(100)]
pub proof fn lemma_opt_vrps_list_round(b: Seq<u8>, pos: int, o: Option<Seq<RpkiVrpsView>>)
    requires
        0 <= pos,
        bounded_opt_vrps_list(o),
        pos + enc_opt_vrps_list(o).len() <= b.len(),
        b.subrange(pos, pos + enc_opt_vrps_list(o).len()) == enc_opt_vrps_list(o),
    ensures
        has_opt_vrps_list_at(b, pos),
        dec_opt_vrps_list_at(b, pos) == o,
        opt_vrps_list_end(b, pos) == pos + enc_opt_vrps_list(o).len(),
{
    match o {
        None => {
            assert(b[pos] == enc_opt_vrps_list(o)[0]) by {
                assert(b.subrange(pos, pos + 1)[0] == b[pos]);
            }
            assert(enc_opt_vrps_list(o)[0] == 0);
        },
        Some(v) => {
            assert(enc_opt_vrps_list(o) == seq![1u8] + enc_vrps_list(v));
            lemma_subrange_split(b, pos, seq![1u8], enc_vrps_list(v));
            assert(b[pos] == 1) by {
                assert(b.subrange(pos, pos + 1)[0] == b[pos]);
                assert(seq![1u8][0] == 1);
            }
            lemma_vrps_list_round(b, pos + 1, v);
        },
    }
}

#[verifier::rlimit(100)]
pub fn take_opt_vrps_list(b: &Vec<u8>, pos: usize) -> (r: Option<(Option<Vec<RpkiVrps>>, usize)>)
    ensures
        r is Some <==> has_opt_vrps_list_at(b@, pos as int),
        match r {
            Some((o, end)) => o.deep_view() == dec_opt_vrps_list_at(b@, pos as int) && end
                as int == opt_vrps_list_end(b@, pos as int),
            None => true,
        },
{
    if pos >= b.len() {
        return None;
    }
    let tag = b[pos];
    if tag == 0 {
        Some((None, pos + 1))
    } else if tag == 1 {
        match take_vrps_list(b, pos + 1) {
            None => None,
            Some((v, end)) => Some((Some(v), end)),
        }
    } else {
        None
    }
}

pub open spec fn rpki_p1(b: Seq<u8>, pos: int) -> int {
    str_end(b, pos)
}

pub open spec fn rpki_p2(b: Seq<u8>, pos: int) -> int {
    str_end(b, rpki_p1(b, pos))
}

pub open spec fn rpki_p3(b: Seq<u8>, pos: int) -> int {
    str_end(b, rpki_p2(b, pos))
}

pub open spec fn rpki_p4(b: Seq<u8>, pos: int) -> int {
    opt_str_end(b, rpki_p3(b, pos))
}

pub open spec fn has_rpki_at(b: Seq<u8>, pos: int) -> bool {
    has_str_at(b, pos) && has_str_at(b, rpki_p1(b, pos)) && has_str_at(b, rpki_p2(b, pos)) && has_opt_str_at(b, rpki_p3(b, pos)) && has_opt_vrps_list_at(b, rpki_p4(b, pos))
}

pub open spec fn rpki_end(b: Seq<u8>, pos: int) -> int {
    opt_vrps_list_end(b, rpki_p4(b, pos))
}

pub open spec fn dec_rpki_at(b: Seq<u8>, pos: int) -> RpkiValidityView {
    RpkiValidityView {
        asn: dec_str_at(b, pos),
        prefix: dec_str_at(b, rpki_p1(b, pos)),
        validity: dec_str_at(b, rpki_p2(b, pos)),
        reason: dec_opt_str_at(b, rpki_p3(b, pos)),
        vrps: dec_opt_vrps_list_at(b, rpki_p4(b, pos)),
    }
}

pub open spec fn bounded_rpki(v: RpkiValidityView) -> bool {
    bounded_str(v.asn) && bounded_str(v.prefix) && bounded_str(v.validity) && bounded_opt_str(v.reason) && bounded_opt_vrps_list(v.vrps)
}

#[verifier::rlimit(100)]
pub proof fn lemma_rpki_round(b: Seq<u8>, pos: int, v: RpkiValidityView)
    requires
        0 <= pos,
        bounded_rpki(v),
        pos + enc_rpki(v).len() <= b.len(),
        b.subrange(pos, pos + enc_rpki(v).len()) == enc_rpki(v),
    ensures
        has_rpki_at(b, pos),
        dec_rpki_at(b, pos) == v,
        rpki_end(b, pos) == pos + enc_rpki(v).len(),
{
    let e1 = enc_str(v.asn);
    let e2 = enc_str(v.prefix);
    let e3 = enc_str(v.validity);
    let e4 = enc_opt_str(v.reason);
    let e5 = enc_opt_vrps_list(v.vrps);
    assert(enc_rpki(v) == e1 + e2 + e3 + e4 + e5);
    lemma_subrange_split(b, pos, e1 + e2 + e3 + e4, e5);
    lemma_subrange_split(b, pos, e1 + e2 + e3, e4);
    lemma_subrange_split(b, pos, e1 + e2, e3);
    lemma_subrange_split(b, pos, e1, e2);
    let p0 = pos;
    lemma_str_round(b, p0, v.asn);
    let p1 = p0 + e1.len();
    assert(rpki_p1(b, pos) == p1);
    lemma_str_round(b, p1, v.prefix);
    let p2 = p1 + e2.len();
    assert(rpki_p2(b, pos) == p2);
    lemma_str_round(b, p2, v.validity);
    let p3 = p2 + e3.len();
    assert(rpki_p3(b, pos) == p3);
    lemma_opt_str_round(b, p3, v.reason);
    let p4 = p3 + e4.len();
    assert(rpki_p4(b, pos) == p4);
    lemma_opt_vrps_list_round(b, p4, v.vrps);
    assert(dec_rpki_at(b, pos) == v);
}

#[verifier::rlimit(100)]
pub fn take_rpki(b: &Vec<u8>, pos: usize) -> (r: Option<(RpkiValidity, usize)>)
    ensures
        r is Some <==> has_rpki_at(b@, pos as int),
        match r {
            Some((v, end)) => v.deep_view() == dec_rpki_at(b@, pos as int) && end
                as int == rpki_end(b@, pos as int),
            None => true,
        },
{
    let (asn, p1) = match take_str(b, pos) {
        None => {
            return None;
        },
        Some(v) => v,
    };
    let (prefix, p2) = match take_str(b, p1) {
        None => {
            return None;
        },
        Some(v) => v,
    };
    let (validity, p3) = match take_str(b, p2) {
        None => {
            return None;
        },
        Some(v) => v,
    };
    let (reason, p4) = match take_opt_str(b, p3) {
        None => {
            return None;
        },
        Some(v) => v,
    };
    let (vrps, p5) = match take_opt_vrps_list(b, p4) {
        None => {
            return None;
        },
        Some(v) => v,
    };
    let out = RpkiValidity { asn, prefix, validity, reason, vrps };
    assert(out.deep_view() == dec_rpki_at(b@, pos as int));
    Some((out, p5))
}

pub open spec fn bounded_rpki_items(s: Seq<RpkiValidityView>) -> bool {
    s.len() <= u64::MAX && forall|i: int| 0 <= i < s.len() ==> bounded_rpki(#[trigger] s[i])
}

pub open spec fn has_rpki_items_at(b: Seq<u8>, pos: int, n: int) -> bool
    decreases n,
{
    if n <= 0 {
        true
    } else {
        has_rpki_at(b, pos) && has_rpki_items_at(b, rpki_end(b, pos), n - 1)
    }
}

pub open spec fn rpki_items_end(b: Seq<u8>, pos: int, n: int) -> int
    decreases n,
{
    if n <= 0 {
        pos
    } else {
        rpki_items_end(b, rpki_end(b, pos), n - 1)
    }
}

pub open spec fn dec_rpki_items_at(b: Seq<u8>, pos: int, n: int) -> Seq<RpkiValidityView>
    decreases n,
{
    if n <= 0 {
        Seq::empty()
    } else {
        seq![dec_rpki_at(b, pos)] + dec_rpki_items_at(b, rpki_end(b, pos), n - 1)
    }
}

#[verifier::rlimit(100)]
pub proof fn lemma_rpki_items_snoc(b: Seq<u8>, pos: int, n: int)
    requires
        n >= 0,
    ensures
        dec_rpki_items_at(b, pos, n + 1) == dec_rpki_items_at(b, pos, n).push(dec_rpki_at(b, rpki_items_end(b, pos, n))),
        has_rpki_items_at(b, pos, n + 1) == (has_rpki_items_at(b, pos, n) && has_rpki_at(b, rpki_items_end(b, pos, n))),
        rpki_items_end(b, pos, n + 1) == rpki_end(b, rpki_items_end(b, pos, n)),
    decreases n,
{
    if n == 0 {
        assert(rpki_items_end(b, pos, 0) == pos);
        assert(rpki_items_end(b, rpki_end(b, pos), 0) == rpki_end(b, pos));
        assert(has_rpki_items_at(b, rpki_end(b, pos), 0));
        assert(dec_rpki_items_at(b, rpki_end(b, pos), 0) =~= Seq::empty());
        assert(dec_rpki_items_at(b, pos, 0) =~= Seq::empty());
        assert(dec_rpki_items_at(b, pos, 1) =~= dec_rpki_items_at(b, pos, 0).push(dec_rpki_at(b, pos)));
    } else {
        lemma_rpki_items_snoc(b, rpki_end(b, pos), n - 1);
        assert(rpki_items_end(b, pos, n + 1) == rpki_items_end(b, rpki_end(b, pos), n));
        assert(rpki_items_end(b, pos, n) == rpki_items_end(b, rpki_end(b, pos), n - 1));
        assert(dec_rpki_items_at(b, pos, n + 1) =~= dec_rpki_items_at(b, pos, n).push(dec_rpki_at(b, rpki_items_end(b, pos, n))));
    }
}

pub proof fn lemma_has_rpki_items_prefix(b: Seq<u8>, pos: int, m: int, n: int)
    requires
        0 <= m <= n,
        has_rpki_items_at(b, pos, n),
    ensures
        has_rpki_items_at(b, pos, m),
        m < n ==> has_rpki_at(b, rpki_items_end(b, pos, m)),
    decreases n,
{
    if m == 0 {
    } else {
        lemma_has_rpki_items_prefix(b, rpki_end(b, pos), m - 1, n - 1);
    }
}

#[verifier::rlimit(100)]
pub proof fn lemma_enc_rpki_items_front(s: Seq<RpkiValidityView>)
    requires
        s.len() > 0,
    ensures
        enc_rpki_items(s) == enc_rpki(s[0]) + enc_rpki_items(s.skip(1)),
    decreases s.len(),
{
    if s.len() == 1 {
        assert(s.drop_last().len() == 0);
        assert(s.skip(1).len() == 0);
        assert(enc_rpki_items(s.drop_last()) =~= Seq::empty());
        assert(enc_rpki_items(s.skip(1)) =~= Seq::empty());
        assert(s.last() == s[0]);
        assert(enc_rpki_items(s) =~= enc_rpki(s[0]) + enc_rpki_items(s.skip(1)));
    } else {
        lemma_enc_rpki_items_front(s.drop_last());
        assert(s.drop_last()[0] == s[0]);
        assert(s.skip(1).len() > 0);
        assert(enc_rpki_items(s.skip(1)) == enc_rpki_items(s.skip(1).drop_last()) + enc_rpki(s.skip(1).last()));
        assert(s.skip(1).drop_last() =~= s.drop_last().skip(1));
        assert(s.skip(1).last() == s.last());
        assert(enc_rpki_items(s) =~= enc_rpki(s[0]) + enc_rpki_items(s.skip(1)));
    }
}

#[verifier::rlimit(100)]
pub proof fn lemma_rpki_items_round(b: Seq<u8>, pos: int, s: Seq<RpkiValidityView>)
    requires
        0 <= pos,
        bounded_rpki_items(s),
        pos + enc_rpki_items(s).len() <= b.len(),
        b.subrange(pos, pos + enc_rpki_items(s).len()) == enc_rpki_items(s),
    ensures
        has_rpki_items_at(b, pos, s.len() as int),
        dec_rpki_items_at(b, pos, s.len() as int) == s,
        rpki_items_end(b, pos, s.len() as int) == pos + enc_rpki_items(s).len(),
    decreases s.len(),
{
    if s.len() > 0 {
        lemma_enc_rpki_items_front(s);
        lemma_subrange_split(b, pos, enc_rpki(s[0]), enc_rpki_items(s.skip(1)));
        lemma_rpki_round(b, pos, s[0]);
        assert(bounded_rpki_items(s.skip(1))) by {
            assert(forall|i: int| 0 <= i < s.skip(1).len() ==> s.skip(1)[i] == s[i + 1]);
        }
        lemma_rpki_items_round(b, pos + enc_rpki(s[0]).len(), s.skip(1));
        assert(dec_rpki_items_at(b, pos, s.len() as int) =~= s);
    } else {
        assert(dec_rpki_items_at(b, pos, 0) =~= s);
    }
}

pub open spec fn has_rpki_list_at(b: Seq<u8>, pos: int) -> bool {
    has_u64_at(b, pos) && has_rpki_items_at(b, pos + 8, dec_u64_at(b, pos) as int)
}

pub open spec fn rpki_list_end(b: Seq<u8>, pos: int) -> int {
    rpki_items_end(b, pos + 8, dec_u64_at(b, pos) as int)
}

pub open spec fn dec_rpki_list_at(b: Seq<u8>, pos: int) -> Seq<RpkiValidityView> {
    dec_rpki_items_at(b, pos + 8, dec_u64_at(b, pos) as int)
}

#[verifier::rlimit(100)]
pub proof fn lemma_rpki_list_round(b: Seq<u8>, pos: int, s: Seq<RpkiValidityView>)
    requires
        0 <= pos,
        bounded_rpki_items(s),
        pos + enc_rpki_list(s).len() <= b.len(),
        b.subrange(pos, pos + enc_rpki_list(s).len()) == enc_rpki_list(s),
    ensures
        has_rpki_list_at(b, pos),
        dec_rpki_list_at(b, pos) == s,
        rpki_list_end(b, pos) == pos + enc_rpki_list(s).len(),
{
    lemma_subrange_split(b, pos, enc_u64(s.len() as u64), enc_rpki_items(s));
    lemma_u64_round(b, pos, s.len() as u64);
    lemma_rpki_items_round(b, pos + 8, s);
}

#[verifier::rlimit(100)]
pub fn take_rpki_list(b: &Vec<u8>, pos: usize) -> (r: Option<(Vec<RpkiValidity>, usize)>)
    ensures
        r is Some <==> has_rpki_list_at(b@, pos as int),
        match r {
            Some((v, end)) => v.deep_view() == dec_rpki_list_at(b@, pos as int) && end
                as int == rpki_list_end(b@, pos as int),
            None => true,
        },
{
    let (n64, p0) = match take_u64(b, pos) {
        None => {
            return None;
        },
        Some(v) => v,
    };
    let mut out: Vec<RpkiValidity> = Vec::new();
    let mut p = p0;
    let mut k: u64 = 0;
    while k < n64
        invariant
            n64 == dec_u64_at(b@, pos as int),
            p0 == pos + 8,
            k <= n64,
            has_rpki_items_at(b@, p0 as int, k as int),
            p as int == rpki_items_end(b@, p0 as int, k as int),
            out.deep_view() == dec_rpki_items_at(b@, p0 as int, k as int),
            out@.len() == k,
        decreases n64 - k,
    {
        proof {
            lemma_rpki_items_snoc(b@, p0 as int, k as int);
        }
        match take_rpki(b, p) {
            None => {
                proof {
                    if has_rpki_list_at(b@, pos as int) {
                        lemma_has_rpki_items_prefix(b@, p0 as int, k as int, n64 as int);
                    }
                }
                return None;
            },
            Some((x, e)) => {
                let ghost prev = out.deep_view();
                let ghost q = p as int;
                out.push(x);
                proof {
                    assert(out.deep_view() =~= prev.push(dec_rpki_at(b@, q))) by {
                        assert(forall|j: int|
                            0 <= j < out@.len() ==> out.deep_view()[j] == out@[j].deep_view());
                    }
                }
                p = e;
            },
        }
        k = k + 1;
    }
    Some((out, p))
}

pub open spec fn ip_info_p1(b: Seq<u8>, pos: int) -> int {
    str_end(b, pos)
}

pub open spec fn ip_info_p2(b: Seq<u8>, pos: int) -> int {
    opt_str_end(b, ip_info_p1(b, pos))
}

pub open spec fn ip_info_p3(b: Seq<u8>, pos: int) -> int {
    opt_str_end(b, ip_info_p2(b, pos))
}

pub open spec fn ip_info_p4(b: Seq<u8>, pos: int) -> int {
    opt_str_end(b, ip_info_p3(b, pos))
}

pub open spec fn ip_info_p5(b: Seq<u8>, pos: int) -> int {
    opt_u32_end(b, ip_info_p4(b, pos))
}

pub open spec fn ip_info_p6(b: Seq<u8>, pos: int) -> int {
    opt_str_end(b, ip_info_p5(b, pos))
}

pub open spec fn ip_info_p7(b: Seq<u8>, pos: int) -> int {
    opt_whois_end(b, ip_info_p6(b, pos))
}

pub open spec fn ip_info_p8(b: Seq<u8>, pos: int) -> int {
    opt_bgptools_end(b, ip_info_p7(b, pos))
}

pub open spec fn ip_info_p9(b: Seq<u8>, pos: int) -> int {
    opt_bgp_api_end(b, ip_info_p8(b, pos))
}

#[verifier::opaque]
pub open spec fn has_ip_info_at(b: Seq<u8>, pos: int) -> bool {
    has_str_at(b, pos) && has_opt_str_at(b, ip_info_p1(b, pos)) && has_opt_str_at(b, ip_info_p2(b, pos)) && has_opt_str_at(b, ip_info_p3(b, pos)) && has_opt_u32_at(b, ip_info_p4(b, pos)) && has_opt_str_at(b, ip_info_p5(b, pos)) && has_opt_whois_at(b, ip_info_p6(b, pos)) && has_opt_bgptools_at(b, ip_info_p7(b, pos)) && has_opt_bgp_api_at(b, ip_info_p8(b, pos)) && has_rpki_list_at(b, ip_info_p9(b, pos))
}

#[verifier::opaque]
pub open spec fn ip_info_end(b: Seq<u8>, pos: int) -> int {
    rpki_list_end(b, ip_info_p9(b, pos))
}

#[verifier::opaque]
pub open spec fn dec_ip_info_at(b: Seq<u8>, pos: int) -> IpInfoView {
    IpInfoView {
        ip: dec_str_at(b, pos),
        ip_range: dec_opt_str_at(b, ip_info_p1(b, pos)),
        country: dec_opt_str_at(b, ip_info_p2(b, pos)),
        city: dec_opt_str_at(b, ip_info_p3(b, pos)),
        asn: dec_opt_u32_at(b, ip_info_p4(b, pos)),
        organization: dec_opt_str_at(b, ip_info_p5(b, pos)),
        whois_info: dec_opt_whois_at(b, ip_info_p6(b, pos)),
        bgp_info: dec_opt_bgptools_at(b, ip_info_p7(b, pos)),
        bgp_api_info: dec_opt_bgp_api_at(b, ip_info_p8(b, pos)),
        rpki_info_list: dec_rpki_list_at(b, ip_info_p9(b, pos)),
    }
}

#[verifier::opaque]
pub open spec fn bounded_ip_info(v: IpInfoView) -> bool {
    bounded_str(v.ip) && bounded_opt_str(v.ip_range) && bounded_opt_str(v.country) && bounded_opt_str(v.city) && bounded_opt_str(v.organization) && bounded_opt_whois(v.whois_info) && bounded_opt_bgptools(v.bgp_info) && bounded_opt_bgp_api(v.bgp_api_info) && bounded_rpki_items(v.rpki_info_list)
}

/// The plain geo fields at the front of a record.
#[verifier::rlimit(100)]
proof fn lemma_ip_head_round(b: Seq<u8>, pos: int, v: IpInfoView)
    requires
        0 <= pos,
        bounded_ip_info(v),
        pos + enc_ip_head(v).len() <= b.len(),
        b.subrange(pos, pos + enc_ip_head(v).len()) == enc_ip_head(v),
    ensures
        has_str_at(b, pos) && dec_str_at(b, pos) == v.ip,
        has_opt_str_at(b, ip_info_p1(b, pos)) && dec_opt_str_at(b, ip_info_p1(b, pos))
            == v.ip_range,
        has_opt_str_at(b, ip_info_p2(b, pos)) && dec_opt_str_at(b, ip_info_p2(b, pos))
            == v.country,
        has_opt_str_at(b, ip_info_p3(b, pos)) && dec_opt_str_at(b, ip_info_p3(b, pos)) == v.city,
        has_opt_u32_at(b, ip_info_p4(b, pos)) && dec_opt_u32_at(b, ip_info_p4(b, pos)) == v.asn,
        has_opt_str_at(b, ip_info_p5(b, pos)) && dec_opt_str_at(b, ip_info_p5(b, pos))
            == v.organization,
        ip_info_p6(b, pos) == pos + enc_ip_head(v).len(),
{
    reveal(bounded_ip_info);
    let e1 = enc_str(v.ip);
    let e2 = enc_opt_str(v.ip_range);
    let e3 = enc_opt_str(v.country);
    let e4 = enc_opt_str(v.city);
    let e5 = enc_opt_u32(v.asn);
    let e6 = enc_opt_str(v.organization);
    assert(enc_ip_head(v) == e1 + e2 + e3 + e4 + e5 + e6);
    lemma_subrange_split(b, pos, e1 + e2 + e3 + e4 + e5, e6);
    lemma_subrange_split(b, pos, e1 + e2 + e3 + e4, e5);
    lemma_subrange_split(b, pos, e1 + e2 + e3, e4);
    lemma_subrange_split(b, pos, e1 + e2, e3);
    lemma_subrange_split(b, pos, e1, e2);
    let p0 = pos;
    lemma_str_round(b, p0, v.ip);
    let p1 = p0 + e1.len();
    assert(ip_info_p1(b, pos) == p1);
    lemma_opt_str_round(b, p1, v.ip_range);
    let p2 = p1 + e2.len();
    assert(ip_info_p2(b, pos) == p2);
    lemma_opt_str_round(b, p2, v.country);
    let p3 = p2 + e3.len();
    assert(ip_info_p3(b, pos) == p3);
    lemma_opt_str_round(b, p3, v.city);
    let p4 = p3 + e4.len();
    assert(ip_info_p4(b, pos) == p4);
    lemma_opt_u32_round(b, p4, v.asn);
    let p5 = p4 + e5.len();
    assert(ip_info_p5(b, pos) == p5);
    lemma_opt_str_round(b, p5, v.organization);
    assert(ip_info_p6(b, pos) == p5 + e6.len());
}

#[verifier::rlimit(100)]
pub proof fn lemma_ip_info_round(b: Seq<u8>, pos: int, v: IpInfoView)
    requires
        0 <= pos,
        bounded_ip_info(v),
        pos + enc_ip_info(v).len() <= b.len(),
        b.subrange(pos, pos + enc_ip_info(v).len()) == enc_ip_info(v),
    ensures
        has_ip_info_at(b, pos),
        dec_ip_info_at(b, pos) == v,
        ip_info_end(b, pos) == pos + enc_ip_info(v).len(),
{
    reveal(has_ip_info_at);
    reveal(dec_ip_info_at);
    reveal(ip_info_end);
    reveal(enc_ip_info);
    reveal(bounded_ip_info);
    let h = enc_ip_head(v);
    let e7 = enc_opt_whois(v.whois_info);
    let e8 = enc_opt_bgptools(v.bgp_info);
    let e9 = enc_opt_bgp_api(v.bgp_api_info);
    let e10 = enc_rpki_list(v.rpki_info_list);
    assert(enc_ip_info(v) == h + e7 + e8 + e9 + e10);
    lemma_subrange_split(b, pos, h + e7 + e8 + e9, e10);
    lemma_subrange_split(b, pos, h + e7 + e8, e9);
    lemma_subrange_split(b, pos, h + e7, e8);
    lemma_subrange_split(b, pos, h, e7);
    lemma_ip_head_round(b, pos, v);
    let p6 = pos + h.len();
    assert(ip_info_p6(b, pos) == p6);
    lemma_opt_whois_round(b, p6, v.whois_info);
    let p7 = p6 + e7.len();
    assert(ip_info_p7(b, pos) == p7);
    lemma_opt_bgptools_round(b, p7, v.bgp_info);
    let p8 = p7 + e8.len();
    assert(ip_info_p8(b, pos) == p8);
    lemma_opt_bgp_api_round(b, p8, v.bgp_api_info);
    let p9 = p8 + e9.len();
    assert(ip_info_p9(b, pos) == p9);
    lemma_rpki_list_round(b, p9, v.rpki_info_list);
    assert(dec_ip_info_at(b, pos) == v);
}

#[verifier::rlimit(100)]
pub fn take_ip_info(b: &Vec<u8>, pos: usize) -> (r: Option<(IpInfo, usize)>)
    ensures
        r is Some <==> has_ip_info_at(b@, pos as int),
        match r {
            Some((v, end)) => v.deep_view() == dec_ip_info_at(b@, pos as int) && end
                as int == ip_info_end(b@, pos as int),
            None => true,
        },
{
    proof {
        reveal(has_ip_info_at);
        reveal(dec_ip_info_at);
        reveal(ip_info_end);
    }
    let (ip, p1) = match take_str(b, pos) {
        None => {
            return None;
        },
        Some(v) => v,
    };
    let (ip_range, p2) = match take_opt_str(b, p1) {
        None => {
            return None;
        },
        Some(v) => v,
    };
    let (country, p3) = match take_opt_str(b, p2) {
        None => {
            return None;
        },
        Some(v) => v,
    };
    let (city, p4) = match take_opt_str(b, p3) {
        None => {
            return None;
        },
        Some(v) => v,
    };
    let (asn, p5) = match take_opt_u32(b, p4) {
        None => {
            return None;
        },
        Some(v) => v,
    };
    let (organization, p6) = match take_opt_str(b, p5) {
        None => {
            return None;
        },
        Some(v) => v,
    };
    let (whois_info, p7) = match take_opt_whois(b, p6) {
        None => {
            return None;
        },
        Some(v) => v,
    };
    let (bgp_info, p8) = match take_opt_bgptools(b, p7) {
        None => {
            return None;
        },
        Some(v) => v,
    };
    let (bgp_api_info, p9) = match take_opt_bgp_api(b, p8) {
        None => {
            return None;
        },
        Some(v) => v,
    };
    let (rpki_info_list, p10) = match take_rpki_list(b, p9) {
        None => {
            return None;
        },
        Some(v) => v,
    };
    let out = IpInfo { ip, ip_range, country, city, asn, organization, whois_info, bgp_info, bgp_api_info, rpki_info_list };
    assert(out.deep_view() == dec_ip_info_at(b@, pos as int));
    Some((out, p10))
}


// ---------------------------------------------------------------------------
// Stored entries and the whole snapshot
// ---------------------------------------------------------------------------

pub open spec fn entry_p1(b: Seq<u8>, pos: int) -> int {
    str_end(b, pos)
}

pub open spec fn entry_p2(b: Seq<u8>, pos: int) -> int {
    ip_info_end(b, entry_p1(b, pos))
}

pub open spec fn entry_p3(b: Seq<u8>, pos: int) -> int {
    entry_p2(b, pos) + 8
}

pub open spec fn has_entry_at(b: Seq<u8>, pos: int) -> bool {
    has_str_at(b, pos) && has_ip_info_at(b, entry_p1(b, pos)) && has_u64_at(b, entry_p2(b, pos))
        && has_u64_at(b, entry_p3(b, pos)) && dec_u64_at(b, entry_p3(b, pos)) <= usize::MAX
}

pub open spec fn entry_end(b: Seq<u8>, pos: int) -> int {
    entry_p3(b, pos) + 8
}

pub open spec fn dec_entry_at(b: Seq<u8>, pos: int) -> (Seq<char>, EntryView) {
    (
        dec_str_at(b, pos),
        EntryView {
            value: dec_ip_info_at(b, entry_p1(b, pos)),
            expires_at: dec_u64_at(b, entry_p2(b, pos)),
            size_bytes: dec_u64_at(b, entry_p3(b, pos)) as usize,
        },
    )
}

pub open spec fn bounded_entry(p: (Seq<char>, EntryView)) -> bool {
    bounded_str(p.0) && bounded_ip_info(p.1.value)
}

#[verifier::rlimit(100)]
pub proof fn lemma_entry_round(b: Seq<u8>, pos: int, v: (Seq<char>, EntryView))
    requires
        0 <= pos,
        bounded_entry(v),
        pos + enc_entry_pair(v).len() <= b.len(),
        b.subrange(pos, pos + enc_entry_pair(v).len()) == enc_entry_pair(v),
    ensures
        has_entry_at(b, pos),
        dec_entry_at(b, pos) == v,
        entry_end(b, pos) == pos + enc_entry_pair(v).len(),
{
    let e1 = enc_str(v.0);
    let e2 = enc_ip_info(v.1.value);
    let e3 = enc_u64(v.1.expires_at);
    let e4 = enc_u64(v.1.size_bytes as u64);
    assert(enc_entry_pair(v) == e1 + e2 + e3 + e4);
    lemma_subrange_split(b, pos, e1 + e2 + e3, e4);
    lemma_subrange_split(b, pos, e1 + e2, e3);
    lemma_subrange_split(b, pos, e1, e2);
    let p0 = pos;
    lemma_str_round(b, p0, v.0);
    let p1 = p0 + e1.len();
    assert(entry_p1(b, pos) == p1);
    lemma_ip_info_round(b, p1, v.1.value);
    let p2 = p1 + e2.len();
    assert(entry_p2(b, pos) == p2);
    lemma_u64_round(b, p2, v.1.expires_at);
    let p3 = p2 + e3.len();
    assert(entry_p3(b, pos) == p3);
    lemma_u64_round(b, p3, v.1.size_bytes as u64);
    assert(dec_entry_at(b, pos) == v);
}

#[verifier::rlimit(100)]
pub fn take_entry(b: &Vec<u8>, pos: usize) -> (r: Option<((String, Entry), usize)>)
    ensures
        r is Some <==> has_entry_at(b@, pos as int),
        match r {
            Some((v, end)) => v.deep_view() == dec_entry_at(b@, pos as int) && end
                as int == entry_end(b@, pos as int),
            None => true,
        },
{
    let (key, p1) = match take_str(b, pos) {
        None => {
            return None;
        },
        Some(v) => v,
    };
    let (value, p2) = match take_ip_info(b, p1) {
        None => {
            return None;
        },
        Some(v) => v,
    };
    let (expires_at, p3) = match take_u64(b, p2) {
        None => {
            return None;
        },
        Some(v) => v,
    };
    let (size64, p4) = match take_u64(b, p3) {
        None => {
            return None;
        },
        Some(v) => v,
    };
    if size64 > (usize::MAX as u64) {
        return None;
    }
    let out = (key, Entry { value, expires_at, size_bytes: size64 as usize });
    assert(out.deep_view() == dec_entry_at(b@, pos as int));
    Some((out, p4))
}

pub open spec fn bounded_entry_items(s: Seq<(Seq<char>, EntryView)>) -> bool {
    s.len() <= u64::MAX && forall|i: int| 0 <= i < s.len() ==> bounded_entry(#[trigger] s[i])
}

pub open spec fn has_entry_items_at(b: Seq<u8>, pos: int, n: int) -> bool
    decreases n,
{
    if n <= 0 {
        true
    } else {
        has_entry_at(b, pos) && has_entry_items_at(b, entry_end(b, pos), n - 1)
    }
}

pub open spec fn entry_items_end(b: Seq<u8>, pos: int, n: int) -> int
    decreases n,
{
    if n <= 0 {
        pos
    } else {
        entry_items_end(b, entry_end(b, pos), n - 1)
    }
}

pub open spec fn dec_entry_items_at(b: Seq<u8>, pos: int, n: int) -> Seq<(Seq<char>, EntryView)>
    decreases n,
{
    if n <= 0 {
        Seq::empty()
    } else {
        seq![dec_entry_at(b, pos)] + dec_entry_items_at(b, entry_end(b, pos), n - 1)
    }
}

#[verifier::rlimit(100)]
pub proof fn lemma_entry_items_snoc(b: Seq<u8>, pos: int, n: int)
    requires
        n >= 0,
    ensures
        dec_entry_items_at(b, pos, n + 1) == dec_entry_items_at(b, pos, n).push(dec_entry_at(b, entry_items_end(b, pos, n))),
        has_entry_items_at(b, pos, n + 1) == (has_entry_items_at(b, pos, n) && has_entry_at(b, entry_items_end(b, pos, n))),
        entry_items_end(b, pos, n + 1) == entry_end(b, entry_items_end(b, pos, n)),
    decreases n,
{
    if n == 0 {
        assert(entry_items_end(b, pos, 0) == pos);
        assert(entry_items_end(b, entry_end(b, pos), 0) == entry_end(b, pos));
        assert(has_entry_items_at(b, entry_end(b, pos), 0));
        assert(dec_entry_items_at(b, entry_end(b, pos), 0) =~= Seq::empty());
        assert(dec_entry_items_at(b, pos, 0) =~= Seq::empty());
        assert(dec_entry_items_at(b, pos, 1) =~= dec_entry_items_at(b, pos, 0).push(dec_entry_at(b, pos)));
    } else {
        lemma_entry_items_snoc(b, entry_end(b, pos), n - 1);
        assert(entry_items_end(b, pos, n + 1) == entry_items_end(b, entry_end(b, pos), n));
        assert(entry_items_end(b, pos, n) == entry_items_end(b, entry_end(b, pos), n - 1));
        assert(dec_entry_items_at(b, pos, n + 1) =~= dec_entry_items_at(b, pos, n).push(dec_entry_at(b, entry_items_end(b, pos, n))));
    }
}

pub proof fn lemma_has_entry_items_prefix(b: Seq<u8>, pos: int, m: int, n: int)
    requires
        0 <= m <= n,
        has_entry_items_at(b, pos, n),
    ensures
        has_entry_items_at(b, pos, m),
        m < n ==> has_entry_at(b, entry_items_end(b, pos, m)),
    decreases n,
{
    if m == 0 {
    } else {
        lemma_has_entry_items_prefix(b, entry_end(b, pos), m - 1, n - 1);
    }
}

#[verifier::rlimit(100)]
pub proof fn lemma_enc_entry_items_front(s: Seq<(Seq<char>, EntryView)>)
    requires
        s.len() > 0,
    ensures
        enc_entry_items(s) == enc_entry_pair(s[0]) + enc_entry_items(s.skip(1)),
    decreases s.len(),
{
    if s.len() == 1 {
        assert(s.drop_last().len() == 0);
        assert(s.skip(1).len() == 0);
        assert(enc_entry_items(s.drop_last()) =~= Seq::empty());
        assert(enc_entry_items(s.skip(1)) =~= Seq::empty());
        assert(s.last() == s[0]);
        assert(enc_entry_items(s) =~= enc_entry_pair(s[0]) + enc_entry_items(s.skip(1)));
    } else {
        lemma_enc_entry_items_front(s.drop_last());
        assert(s.drop_last()[0] == s[0]);
        assert(s.skip(1).len() > 0);
        assert(enc_entry_items(s.skip(1)) == enc_entry_items(s.skip(1).drop_last()) + enc_entry_pair(s.skip(1).last()));
        assert(s.skip(1).drop_last() =~= s.drop_last().skip(1));
        assert(s.skip(1).last() == s.last());
        assert(enc_entry_items(s) =~= enc_entry_pair(s[0]) + enc_entry_items(s.skip(1)));
    }
}

#[verifier::rlimit(100)]
pub proof fn lemma_entry_items_round(b: Seq<u8>, pos: int, s: Seq<(Seq<char>, EntryView)>)
    requires
        0 <= pos,
        bounded_entry_items(s),
        pos + enc_entry_items(s).len() <= b.len(),
        b.subrange(pos, pos + enc_entry_items(s).len()) == enc_entry_items(s),
    ensures
        has_entry_items_at(b, pos, s.len() as int),
        dec_entry_items_at(b, pos, s.len() as int) == s,
        entry_items_end(b, pos, s.len() as int) == pos + enc_entry_items(s).len(),
    decreases s.len(),
{
    if s.len() > 0 {
        lemma_enc_entry_items_front(s);
        lemma_subrange_split(b, pos, enc_entry_pair(s[0]), enc_entry_items(s.skip(1)));
        lemma_entry_round(b, pos, s[0]);
        assert(bounded_entry_items(s.skip(1))) by {
            assert(forall|i: int| 0 <= i < s.skip(1).len() ==> s.skip(1)[i] == s[i + 1]);
        }
        lemma_entry_items_round(b, pos + enc_entry_pair(s[0]).len(), s.skip(1));
        assert(dec_entry_items_at(b, pos, s.len() as int) =~= s);
    } else {
        assert(dec_entry_items_at(b, pos, 0) =~= s);
    }
}

pub open spec fn has_entry_list_at(b: Seq<u8>, pos: int) -> bool {
    has_u64_at(b, pos) && has_entry_items_at(b, pos + 8, dec_u64_at(b, pos) as int)
}

pub open spec fn entry_list_end(b: Seq<u8>, pos: int) -> int {
    entry_items_end(b, pos + 8, dec_u64_at(b, pos) as int)
}

pub open spec fn dec_entry_list_at(b: Seq<u8>, pos: int) -> Seq<(Seq<char>, EntryView)> {
    dec_entry_items_at(b, pos + 8, dec_u64_at(b, pos) as int)
}

#[verifier::rlimit(100)]
pub proof fn lemma_entry_list_round(b: Seq<u8>, pos: int, s: Seq<(Seq<char>, EntryView)>)
    requires
        0 <= pos,
        bounded_entry_items(s),
        pos + enc_entry_list(s).len() <= b.len(),
        b.subrange(pos, pos + enc_entry_list(s).len()) == enc_entry_list(s),
    ensures
        has_entry_list_at(b, pos),
        dec_entry_list_at(b, pos) == s,
        entry_list_end(b, pos) == pos + enc_entry_list(s).len(),
{
    lemma_subrange_split(b, pos, enc_u64(s.len() as u64), enc_entry_items(s));
    lemma_u64_round(b, pos, s.len() as u64);
    lemma_entry_items_round(b, pos + 8, s);
}

#[verifier::rlimit(100)]
pub fn take_entry_list(b: &Vec<u8>, pos: usize) -> (r: Option<(Vec<(String, Entry)>, usize)>)
    ensures
        r is Some <==> has_entry_list_at(b@, pos as int),
        match r {
            Some((v, end)) => v.deep_view() == dec_entry_list_at(b@, pos as int) && end
                as int == entry_list_end(b@, pos as int),
            None => true,
        },
{
    let (n64, p0) = match take_u64(b, pos) {
        None => {
            return None;
        },
        Some(v) => v,
    };
    let mut out: Vec<(String, Entry)> = Vec::new();
    let mut p = p0;
    let mut k: u64 = 0;
    while k < n64
        invariant
            n64 == dec_u64_at(b@, pos as int),
            p0 == pos + 8,
            k <= n64,
            has_entry_items_at(b@, p0 as int, k as int),
            p as int == entry_items_end(b@, p0 as int, k as int),
            out.deep_view() == dec_entry_items_at(b@, p0 as int, k as int),
            out@.len() == k,
        decreases n64 - k,
    {
        proof {
            lemma_entry_items_snoc(b@, p0 as int, k as int);
        }
        match take_entry(b, p) {
            None => {
                proof {
                    if has_entry_list_at(b@, pos as int) {
                        lemma_has_entry_items_prefix(b@, p0 as int, k as int, n64 as int);
                    }
                }
                return None;
            },
            Some((x, e)) => {
                let ghost prev = out.deep_view();
                let ghost q = p as int;
                out.push(x);
                proof {
                    assert(out.deep_view() =~= prev.push(dec_entry_at(b@, q))) by {
                        assert(forall|j: int|
                            0 <= j < out@.len() ==> out.deep_view()[j] == out@[j].deep_view());
                    }
                }
                p = e;
            },
        }
        k = k + 1;
    }
    Some((out, p))
}


/// Entry sequences an encoder can have produced.
pub open spec fn bounded_entries(s: Seq<(Seq<char>, EntryView)>) -> bool {
    bounded_entry_items(s)
}

pub open spec fn has_snapshot(b: Seq<u8>) -> bool {
    has_u64_at(b, 0) && has_entry_list_at(b, 8) && entry_list_end(b, 8) == b.len()
}

pub open spec fn dec_snapshot_created(b: Seq<u8>) -> u64 {
    dec_u64_at(b, 0)
}

pub open spec fn dec_snapshot_entries(b: Seq<u8>) -> Seq<(Seq<char>, EntryView)> {
    dec_entry_list_at(b, 8)
}

/// Bytes written as a snapshot read back as the same entries.
#[verifier::rlimit(100)]
pub proof fn lemma_snapshot_round(b: Seq<u8>, s: Seq<(Seq<char>, EntryView)>, created_at: u64)
    requires
        bounded_entries(s),
        b == enc_snapshot(s, created_at),
    ensures
        has_snapshot(b),
        dec_snapshot_created(b) == created_at,
        dec_snapshot_entries(b) == s,
{
    assert(b == enc_u64(created_at) + enc_entry_list(s));
    assert(b.subrange(0, b.len() as int) =~= b);
    lemma_subrange_split(b, 0, enc_u64(created_at), enc_entry_list(s));
    lemma_u64_round(b, 0, created_at);
    lemma_entry_list_round(b, 8, s);
}

/// Reads a whole snapshot; succeeds exactly on byte strings that are one
/// complete snapshot.
#[verifier::rlimit(100)]
pub fn take_snapshot(b: &Vec<u8>) -> (r: Option<(u64, Vec<(String, Entry)>)>)
    ensures
        r is Some <==> has_snapshot(b@),
        match r {
            Some((created_at, entries)) => created_at == dec_snapshot_created(b@)
                && entries.deep_view() == dec_snapshot_entries(b@),
            None => true,
        },
{
    let (created_at, p) = match take_u64(b, 0) {
        None => {
            return None;
        },
        Some(v) => v,
    };
    let (entries, end) = match take_entry_list(b, p) {
        None => {
            return None;
        },
        Some(v) => v,
    };
    if end != b.len() {
        return None;
    }
    Some((created_at, entries))
}


} // verus!
