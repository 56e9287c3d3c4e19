//! IP addresses and their canonical text: dotted decimal for IPv4, and for
//! IPv6 lower-case hexadecimal groups with the longest run of zero groups
//! written as `::` (RFC 5952), IPv4-mapped addresses as `::ffff:a.b.c.d`.
use vstd::prelude::*;


verus! {

/// An IP address: four octets, or eight 16-bit groups.
#[derive(Debug)]
pub enum IpAddress {
    V4([u8; 4]),
    V6([u16; 8]),
}

/// The text of one digit (`0`-`9`, `a`-`f`).
pub open spec fn digit_text(d: nat) -> Seq<char> {
    if d == 0 { "0"@ }
    else if d == 1 { "1"@ }
    else if d == 2 { "2"@ }
    else if d == 3 { "3"@ }
    else if d == 4 { "4"@ }
    else if d == 5 { "5"@ }
    else if d == 6 { "6"@ }
    else if d == 7 { "7"@ }
    else if d == 8 { "8"@ }
    else if d == 9 { "9"@ }
    else if d == 10 { "a"@ }
    else if d == 11 { "b"@ }
    else if d == 12 { "c"@ }
    else if d == 13 { "d"@ }
    else if d == 14 { "e"@ }
    else { "f"@ }
}

/// `n` in decimal, without leading zeros.
pub open spec fn decimal(n: nat) -> Seq<char>
    decreases n,
{
    if n < 10 {
        digit_text(n)
    } else {
        decimal(n / 10) + digit_text(n % 10)
    }
}

/// `n` in lower-case hexadecimal, without leading zeros.
pub open spec fn hexadecimal(n: nat) -> Seq<char>
    decreases n,
{
    if n < 16 {
        digit_text(n)
    } else {
        hexadecimal(n / 16) + digit_text(n % 16)
    }
}

/// Four octets in dotted decimal.
pub open spec fn dotted(a: nat, b: nat, c: nat, d: nat) -> Seq<char> {
    decimal(a) + "."@ + decimal(b) + "."@ + decimal(c) + "."@ + decimal(d)
}

/// Groups in hexadecimal, separated by `:`.
pub open spec fn colon_groups(groups: Seq<u16>) -> Seq<char>
    decreases groups.len(),
{
    if groups.len() == 0 {
        Seq::empty()
    } else if groups.len() == 1 {
        hexadecimal(groups[0] as nat)
    } else {
        colon_groups(groups.drop_last()) + ":"@ + hexadecimal(groups.last() as nat)
    }
}

/// How many zero groups follow from index `start` on.
pub open spec fn zero_run(groups: Seq<u16>, start: int) -> nat
    decreases groups.len() - start,
{
    if 0 <= start < groups.len() && groups[start] == 0 {
        1 + zero_run(groups, start + 1)
    } else {
        0
    }
}

/// `(start, len)` is the longest run of zero groups, the first of the
/// longest when there are several; `(0, 0)` when no group is zero.
pub open spec fn is_longest_zero_run(groups: Seq<u16>, start: int, len: nat) -> bool {
    &&& 0 <= start < groups.len()
    &&& len == zero_run(groups, start)
    &&& forall|i: int| 0 <= i < groups.len() ==> #[trigger] zero_run(groups, i) <= len
    &&& forall|i: int| 0 <= i < start ==> #[trigger] zero_run(groups, i) < len
}

/// The eight groups hold an IPv4-mapped address (`::ffff:a.b.c.d`).
pub open spec fn is_ipv4_mapped(g: Seq<u16>) -> bool {
    g[0] == 0 && g[1] == 0 && g[2] == 0 && g[3] == 0 && g[4] == 0 && g[5] == 0xffff
}

/// The canonical text of the eight groups `g`, given their longest zero run.
pub open spec fn ipv6_text_with_run(g: Seq<u16>, start: int, len: nat) -> Seq<char> {
    if is_ipv4_mapped(g) {
        "::ffff:"@ + dotted(
            (g[6] / 256) as nat,
            (g[6] % 256) as nat,
            (g[7] / 256) as nat,
            (g[7] % 256) as nat,
        )
    } else if len > 1 {
        colon_groups(g.take(start)) + "::"@ + colon_groups(g.skip(start + len))
    } else {
        colon_groups(g)
    }
}

/// The canonical text of the eight groups `g`.
pub open spec fn ipv6_text(g: Seq<u16>) -> Seq<char> {
    let run = choose|run: (int, nat)| is_longest_zero_run(g, run.0, run.1);
    ipv6_text_with_run(g, run.0, run.1)
}

/// The canonical text of an address (the `Display` form of `std::net::IpAddr`).
pub open spec fn address_text(a: IpAddress) -> Seq<char> {
    match a {
        IpAddress::V4(o) => dotted(o[0] as nat, o[1] as nat, o[2] as nat, o[3] as nat),
        IpAddress::V6(g) => ipv6_text(g@),
    }
}

/// The text of the digit `d`.
fn digit_str(d: u32) -> (r: &'static str)
    requires
        d < 16,
    ensures
        r@ == digit_text(d as nat),
{
    match d {
        0 => "0",
        1 => "1",
        2 => "2",
        3 => "3",
        4 => "4",
        5 => "5",
        6 => "6",
        7 => "7",
        8 => "8",
        9 => "9",
        10 => "a",
        11 => "b",
        12 => "c",
        13 => "d",
        14 => "e",
        _ => "f",
    }
}

/// Appends `n` in decimal.
fn push_decimal(out: &mut String, n: u32)
    ensures
        final(out)@ == old(out)@ + decimal(n as nat),
    decreases n,
{
    if n >= 10 {
        push_decimal(out, n / 10);
    }
    out.append(digit_str(n % 10));
}

/// Appends `n` in hexadecimal.
fn push_hexadecimal(out: &mut String, n: u32)
    ensures
        final(out)@ == old(out)@ + hexadecimal(n as nat),
    decreases n,
{
    if n >= 16 {
        push_hexadecimal(out, n / 16);
    }
    out.append(digit_str(n % 16));
}

/// Appends four octets in dotted decimal.
fn push_dotted(out: &mut String, a: u32, b: u32, c: u32, d: u32)
    ensures
        final(out)@ == old(out)@ + dotted(a as nat, b as nat, c as nat, d as nat),
{
    push_decimal(out, a);
    out.append(".");
    push_decimal(out, b);
    out.append(".");
    push_decimal(out, c);
    out.append(".");
    push_decimal(out, d);
}

/// Appends the groups `g[lo..hi]` in hexadecimal, separated by `:`.
fn push_colon_groups(out: &mut String, g: &[u16; 8], lo: usize, hi: usize)
    requires
        lo <= hi <= 8,
    ensures
        final(out)@ == old(out)@ + colon_groups(g@.subrange(lo as int, hi as int)),
{
    let ghost start = out@;
    let mut i = lo;
    assert(g@.subrange(lo as int, lo as int) =~= Seq::<u16>::empty());
    while i < hi
        invariant
            lo <= i <= hi <= 8,
            out@ == start + colon_groups(g@.subrange(lo as int, i as int)),
        decreases hi - i,
    {
        let ghost before = out@;
        proof {
            assert(g@.subrange(lo as int, i + 1).drop_last() =~= g@.subrange(lo as int, i as int));
            assert(g@.subrange(lo as int, i + 1).last() == g@[i as int]);
        }
        if i > lo {
            out.append(":");
        }
        push_hexadecimal(out, g[i] as u32);
        proof {
            if i == lo {
                assert(g@.subrange(lo as int, i + 1) =~= seq![g@[i as int]]);
            }
        }
        i += 1;
    }
}

/// The number of zero groups from `start` on.
fn zero_run_at(g: &[u16; 8], start: usize) -> (r: usize)
    requires
        start <= 8,
    ensures
        r == zero_run(g@, start as int),
        start + r <= 8,
    decreases 8 - start,
{
    if start < 8 && g[start] == 0 {
        1 + zero_run_at(g, start + 1)
    } else {
        0
    }
}

/// The longest run of zero groups, the first of the longest.
fn longest_zero_run(g: &[u16; 8]) -> (r: (usize, usize))
    ensures
        is_longest_zero_run(g@, r.0 as int, r.1 as nat),
        r.0 + r.1 <= 8,
{
    let mut best_start: usize = 0;
    let mut best_len: usize = zero_run_at(g, 0);
    let mut i: usize = 1;
    while i < 8
        invariant
            1 <= i <= 8,
            best_start < i,
            best_start + best_len <= 8,
            best_len == zero_run(g@, best_start as int),
            forall|k: int| 0 <= k < i ==> #[trigger] zero_run(g@, k) <= best_len,
            forall|k: int| 0 <= k < best_start ==> #[trigger] zero_run(g@, k) < best_len,
        decreases 8 - i,
    {
        let l = zero_run_at(g, i);
        if l > best_len {
            best_start = i;
            best_len = l;
        }
        i += 1;
    }
    (best_start, best_len)
}

proof fn lemma_longest_zero_run_unique(g: Seq<u16>, s1: int, l1: nat, s2: int, l2: nat)
    requires
        is_longest_zero_run(g, s1, l1),
        is_longest_zero_run(g, s2, l2),
    ensures
        s1 == s2,
        l1 == l2,
{
    assert(zero_run(g, s2) <= l1);
    assert(zero_run(g, s1) <= l2);
    if s1 < s2 {
        assert(zero_run(g, s1) < l2);
    } else if s2 < s1 {
        assert(zero_run(g, s2) < l1);
    }
}

/// The canonical text of the eight groups `g`.
fn ipv6_string(g: &[u16; 8]) -> (r: String)
    ensures
        r@ == ipv6_text(g@),
{
    let (start, len) = longest_zero_run(g);
    proof {
        let run = choose|run: (int, nat)| is_longest_zero_run(g@, run.0, run.1);
        assert(is_longest_zero_run(g@, start as int, len as nat));
        lemma_longest_zero_run_unique(g@, run.0, run.1, start as int, len as nat);
    }
    let mut out = String::new();
    if g[0] == 0 && g[1] == 0 && g[2] == 0 && g[3] == 0 && g[4] == 0 && g[5] == 0xffff {
        out.append("::ffff:");
        let a = g[6] as u32;
        let b = g[7] as u32;
        push_dotted(&mut out, a / 256, a % 256, b / 256, b % 256);
    } else if len > 1 {
        push_colon_groups(&mut out, g, 0, start);
        out.append("::");
        push_colon_groups(&mut out, g, start + len, 8);
        proof {
            assert(g@.subrange(0, start as int) =~= g@.take(start as int));
            assert(g@.subrange(start + len, 8) =~= g@.skip(start + len));
        }
    } else {
        push_colon_groups(&mut out, g, 0, 8);
        assert(g@.subrange(0, 8) =~= g@);
    }
    out
}

/// The canonical text of `a` (as `std::net::IpAddr` displays it).
pub fn address_string(a: &IpAddress) -> (r: String)
    ensures
        r@ == address_text(*a),
{
    match a {
        IpAddress::V4(o) => {
            let mut out = String::new();
            push_dotted(&mut out, o[0] as u32, o[1] as u32, o[2] as u32, o[3] as u32);
            out
        },
        IpAddress::V6(g) => ipv6_string(g),
    }
}

} // verus!
