//! The textual form of addresses: dotted decimal for IPv4, and for IPv6 the
//! lower-case hexadecimal form that compresses the first longest run of two or
//! more zero segments to `::` and writes IPv4-mapped addresses as `::ffff:a.b.c.d`.
use crate::addr::{IpAddr, Ipv4Addr, Ipv6Addr};
use vstd::prelude::*;

verus! {

/// The character of a digit below 16: `0`-`9`, then `a`-`f`.
pub open spec fn digit_char(d: nat) -> char {
    if d < 10 {
        ((48 + d) as u8) as char
    } else {
        ((87 + d) as u8) as char
    }
}

/// Decimal digits of `v`, without leading zeros.
pub open spec fn dec_text(v: nat) -> Seq<char>
    decreases v,
{
    if v < 10 {
        seq![digit_char(v)]
    } else {
        dec_text(v / 10) + seq![digit_char(v % 10)]
    }
}

/// Lower-case hexadecimal digits of `v`, without leading zeros.
pub open spec fn hex_text(v: nat) -> Seq<char>
    decreases v,
{
    if v < 16 {
        seq![digit_char(v)]
    } else {
        hex_text(v / 16) + seq![digit_char(v % 16)]
    }
}

/// `a.b.c.d` for the four octets.
pub open spec fn ipv4_text(o: Seq<u8>) -> Seq<char> {
    dec_text(o[0] as nat) + seq!['.'] + dec_text(o[1] as nat) + seq!['.'] + dec_text(o[2] as nat)
        + seq!['.'] + dec_text(o[3] as nat)
}

/// The segments in hexadecimal, separated by `:`.
pub open spec fn segments_text(s: Seq<u16>) -> Seq<char>
    decreases s.len(),
{
    if s.len() == 0 {
        seq![]
    } else if s.len() == 1 {
        hex_text(s[0] as nat)
    } else {
        segments_text(s.drop_last()) + seq![':'] + hex_text(s.last() as nat)
    }
}

/// `::ffff:a.b.c.d`.
pub open spec fn is_ipv4_mapped(s: Seq<u16>) -> bool {
    s[0] == 0 && s[1] == 0 && s[2] == 0 && s[3] == 0 && s[4] == 0 && s[5] == 0xffff
}

/// Segments `start .. start + len` are all zero.
pub open spec fn zero_run(s: Seq<u16>, start: int, len: int) -> bool {
    &&& 0 <= start
    &&& 0 <= len
    &&& start + len <= s.len()
    &&& forall|i: int| start <= i < start + len ==> s[i] == 0
}

/// No run of zeros is longer, and none as long starts earlier.
pub open spec fn is_longest_zero_run(s: Seq<u16>, start: int, len: int) -> bool {
    &&& zero_run(s, start, len)
    &&& forall|st: int, l: int| #[trigger]
        zero_run(s, st, l) ==> l < len || (l == len && start <= st)
}

/// The first longest run of zero segments, as start and length.
pub open spec fn longest_zero_run(s: Seq<u16>) -> (int, int) {
    choose|st: int, l: int| is_longest_zero_run(s, st, l)
}

/// The text of an IPv6 address with segments `s`.
pub open spec fn ipv6_text(s: Seq<u16>) -> Seq<char> {
    if is_ipv4_mapped(s) {
        seq![':', ':', 'f', 'f', 'f', 'f', ':'] + ipv4_text(
            seq![(s[6] >> 8u16) as u8, s[6] as u8, (s[7] >> 8u16) as u8, s[7] as u8],
        )
    } else {
        let (st, l) = longest_zero_run(s);
        if l > 1 {
            segments_text(s.subrange(0, st)) + seq![':', ':'] + segments_text(
                s.subrange(st + l, s.len() as int),
            )
        } else {
            segments_text(s)
        }
    }
}

/// The text of an address.
pub open spec fn addr_text(a: IpAddr) -> Seq<char> {
    match a {
        IpAddr::V4(x) => ipv4_text(x.octets()),
        IpAddr::V6(x) => ipv6_text(x.segments()),
    }
}

/// Appends one character (`String::push`).
#[verifier::external_body]
pub(crate) fn push_char(out: &mut String, c: char)
    ensures
        final(out)@ == old(out)@.push(c),
{
    out.push(c);
}

fn digit(d: u8) -> (c: char)
    requires
        d < 16,
    ensures
        c == digit_char(d as nat),
{
    if d < 10 {
        (48u8 + d) as char
    } else {
        (87u8 + d) as char
    }
}

fn push_dec(out: &mut String, v: u8)
    ensures
        final(out)@ == old(out)@ + dec_text(v as nat),
    decreases v,
{
    if v >= 10 {
        push_dec(out, v / 10);
    }
    let c = digit(v % 10);
    push_char(out, c);
    assert(final(out)@ =~= old(out)@ + dec_text(v as nat)) by {
        if v >= 10 {
            assert(dec_text(v as nat) == dec_text((v / 10) as nat) + seq![digit_char((v % 10) as nat)]);
        }
    }
}

fn push_hex(out: &mut String, v: u16)
    ensures
        final(out)@ == old(out)@ + hex_text(v as nat),
    decreases v,
{
    if v >= 16 {
        push_hex(out, v / 16);
    }
    let c = digit((v % 16) as u8);
    push_char(out, c);
    assert(final(out)@ =~= old(out)@ + hex_text(v as nat)) by {
        if v >= 16 {
            assert(hex_text(v as nat) == hex_text((v / 16) as nat) + seq![digit_char((v % 16) as nat)]);
        }
    }
}

fn push_octets(out: &mut String, a: u8, b: u8, c: u8, d: u8)
    ensures
        final(out)@ == old(out)@ + ipv4_text(seq![a, b, c, d]),
{
    push_dec(out, a);
    push_char(out, '.');
    push_dec(out, b);
    push_char(out, '.');
    push_dec(out, c);
    push_char(out, '.');
    push_dec(out, d);
    let ghost o = seq![a, b, c, d];
    assert(final(out)@ =~= old(out)@ + ipv4_text(o));
}

/// Appends `segments_text(segs[lo..hi])`.
fn push_segments(out: &mut String, segs: &Vec<u16>, lo: usize, hi: usize)
    requires
        lo <= hi <= segs.len(),
    ensures
        final(out)@ == old(out)@ + segments_text(segs@.subrange(lo as int, hi as int)),
{
    let mut i = lo;
    assert(segs@.subrange(lo as int, lo as int) =~= Seq::<u16>::empty());
    while i < hi
        invariant
            lo <= i <= hi <= segs.len(),
            out@ == old(out)@ + segments_text(segs@.subrange(lo as int, i as int)),
        decreases hi - i,
    {
        if i > lo {
            push_char(out, ':');
        }
        push_hex(out, segs[i]);
        let ghost next = segs@.subrange(lo as int, i + 1);
        assert(next.drop_last() =~= segs@.subrange(lo as int, i as int));
        assert(next.last() == segs@[i as int]);
        if i == lo {
            assert(segs@.subrange(lo as int, lo as int).len() == 0);
            assert(next.len() == 1);
            assert(segments_text(next) == hex_text(segs@[i as int] as nat));
        } else {
            assert(segments_text(next) == segments_text(next.drop_last()) + seq![':'] + hex_text(
                next.last() as nat,
            ));
        }
        assert(out@ =~= old(out)@ + segments_text(next));
        i = i + 1;
    }
}

/// Finds the first longest run of zero segments.
fn find_longest_zero_run(segs: &Vec<u16>) -> (r: (usize, usize))
    ensures
        is_longest_zero_run(segs@, r.0 as int, r.1 as int),
{
    let n = segs.len();
    let mut best_start: usize = 0;
    let mut best_len: usize = 0;
    let mut cur_start: usize = 0;
    let mut cur_len: usize = 0;
    let mut i: usize = 0;
    while i < n
        invariant
            n == segs@.len(),
            i <= n,
            zero_run(segs@, cur_start as int, cur_len as int),
            cur_len > 0 ==> cur_start + cur_len == i,
            cur_len > 0 ==> (cur_start == 0 || segs@[cur_start - 1] != 0),
            cur_len == 0 ==> (i == 0 || segs@[i - 1] != 0),
            zero_run(segs@, best_start as int, best_len as int),
            best_start + best_len <= i,
            best_len == 0 ==> best_start == 0,
            forall|st: int, l: int|
                #[trigger] zero_run(segs@, st, l) && st + l <= i ==> l < best_len || (l
                    == best_len && best_start <= st),
        decreases n - i,
    {
        if segs[i] == 0 {
            if cur_len == 0 {
                cur_start = i;
            }
            cur_len = cur_len + 1;
            if cur_len > best_len {
                best_start = cur_start;
                best_len = cur_len;
            }
        } else {
            cur_start = 0;
            cur_len = 0;
        }
        assert forall|st: int, l: int|
            #[trigger] zero_run(segs@, st, l) && st + l <= i + 1 implies l < best_len || (l
                == best_len && best_start <= st) by {
            if st + l == i + 1 && l > 0 {
                assert(segs@[i as int] == 0);
                assert(cur_len > 0);
                if st < cur_start {
                    assert(segs@[cur_start - 1] == 0);
                }
                assert(st >= cur_start);
            }
        }
        i = i + 1;
    }
    (best_start, best_len)
}

/// The first longest zero run is the only pair that `is_longest_zero_run` admits.
proof fn lemma_longest_zero_run_unique(s: Seq<u16>, st: int, l: int)
    requires
        is_longest_zero_run(s, st, l),
    ensures
        longest_zero_run(s) == (st, l),
{
    let (a, b) = longest_zero_run(s);
    assert(is_longest_zero_run(s, a, b));
    assert(zero_run(s, a, b));
    assert(zero_run(s, st, l));
}

fn push_ipv4(out: &mut String, a: Ipv4Addr)
    ensures
        final(out)@ == old(out)@ + ipv4_text(a.octets()),
{
    push_octets(
        out,
        (a.bits >> 24u32) as u8,
        (a.bits >> 16u32) as u8,
        (a.bits >> 8u32) as u8,
        a.bits as u8,
    );
}

fn push_ipv6(out: &mut String, a: Ipv6Addr)
    ensures
        final(out)@ == old(out)@ + ipv6_text(a.segments()),
{
    let segs: Vec<u16> = vec![
        (a.bits >> 112u128) as u16,
        (a.bits >> 96u128) as u16,
        (a.bits >> 80u128) as u16,
        (a.bits >> 64u128) as u16,
        (a.bits >> 48u128) as u16,
        (a.bits >> 32u128) as u16,
        (a.bits >> 16u128) as u16,
        a.bits as u16,
    ];
    assert(segs@ =~= a.segments());
    if segs[0] == 0 && segs[1] == 0 && segs[2] == 0 && segs[3] == 0 && segs[4] == 0 && segs[5]
        == 0xffff {
        push_char(out, ':');
        push_char(out, ':');
        push_char(out, 'f');
        push_char(out, 'f');
        push_char(out, 'f');
        push_char(out, 'f');
        push_char(out, ':');
        push_octets(
            out,
            (segs[6] >> 8u16) as u8,
            segs[6] as u8,
            (segs[7] >> 8u16) as u8,
            segs[7] as u8,
        );
        assert(out@ =~= old(out)@ + ipv6_text(a.segments()));
    } else {
        let (st, l) = find_longest_zero_run(&segs);
        proof {
            lemma_longest_zero_run_unique(segs@, st as int, l as int);
        }
        if l > 1 {
            push_segments(out, &segs, 0, st);
            push_char(out, ':');
            push_char(out, ':');
            push_segments(out, &segs, st + l, 8);
        } else {
            push_segments(out, &segs, 0, 8);
            assert(segs@.subrange(0, 8) =~= segs@);
        }
        assert(out@ =~= old(out)@ + ipv6_text(a.segments()));
    }
}

/// Appends the text of an address.
pub(crate) fn push_addr(out: &mut String, a: &IpAddr)
    ensures
        final(out)@ == old(out)@ + addr_text(*a),
{
    match a {
        IpAddr::V4(x) => push_ipv4(out, *x),
        IpAddr::V6(x) => push_ipv6(out, *x),
    }
}

impl IpAddr {
    /// The address as text.
    pub fn to_text(&self) -> (r: String)
        ensures
            r@ == addr_text(*self),
    {
        let mut out = String::new();
        push_addr(&mut out, self);
        assert(out@ =~= addr_text(*self));
        out
    }
}

} // verus!
