//! Text of log lines and of addresses.

use vstd::prelude::*;

use crate::config::{IpAddress, SocketAddress};
use crate::number::{decimal, hex, push_decimal, push_hex};
use crate::text::{push_str, string_from};

verus! {

/// A log line: the message after `rebab: `.
pub open spec fn log_text(message: Seq<char>) -> Seq<char> {
    "rebab: "@ + message
}

/// Builds the line that is printed for a log message.
pub fn log_line(message: &str) -> (res: String)
    ensures
        res@ == log_text(message@),
{
    let mut v: Vec<char> = Vec::new();
    push_str(&mut v, "rebab: ");
    push_str(&mut v, message);
    string_from(&v)
}

/// Dotted-decimal text of four octets.
pub open spec fn ipv4_text(o: Seq<u8>) -> Seq<char> {
    decimal(o[0] as nat) + "."@ + decimal(o[1] as nat) + "."@ + decimal(o[2] as nat) + "."@
        + decimal(o[3] as nat)
}

/// Hexadecimal segments separated by `:`.
pub open spec fn hex_groups(s: Seq<u16>) -> Seq<char>
    decreases s.len(),
{
    if s.len() == 0 {
        Seq::empty()
    } else if s.len() == 1 {
        hex(s[0] as nat)
    } else {
        hex_groups(s.drop_last()) + ":"@ + hex(s.last() as nat)
    }
}

/// Segments `start` up to `start + len` are all zero.
pub open spec fn zero_run(s: Seq<u16>, start: int, len: int) -> bool {
    &&& 0 <= start
    &&& 0 <= len
    &&& start + len <= s.len()
    &&& forall|k: int| start <= k < start + len ==> s[k] == 0
}

/// The longest run of zero segments, the first one among the longest.
pub open spec fn is_longest_zero_run(s: Seq<u16>, start: int, len: int) -> bool {
    &&& zero_run(s, start, len)
    &&& forall|st: int, l: int| zero_run(s, st, l) ==> l <= len
    &&& forall|st: int| 0 <= st < start ==> !zero_run(s, st, len)
}

/// An IPv4 address carried in IPv6 form: `::ffff:a.b.c.d`.
pub open spec fn is_ipv4_mapped(s: Seq<u16>) -> bool {
    s[0] == 0 && s[1] == 0 && s[2] == 0 && s[3] == 0 && s[4] == 0 && s[5] == 0xffff
}

/// The canonical text of an IPv6 address (RFC 5952) as the standard
/// library writes it: an IPv4-mapped address as `::ffff:a.b.c.d`; else the
/// first longest run of two or more zero segments shortened to `::`; each
/// segment in lower-case hexadecimal without leading zeros.
pub open spec fn ipv6_text(s: Seq<u16>) -> Seq<char> {
    if is_ipv4_mapped(s) {
        "::ffff:"@ + ipv4_text(
            seq![(s[6] / 256) as u8, (s[6] % 256) as u8, (s[7] / 256) as u8, (s[7] % 256) as u8],
        )
    } else if exists|st: int, l: int| l > 1 && is_longest_zero_run(s, st, l) {
        let (st, l) = choose|st: int, l: int| l > 1 && is_longest_zero_run(s, st, l);
        hex_groups(s.take(st)) + "::"@ + hex_groups(s.skip(st + l))
    } else {
        hex_groups(s)
    }
}

/// Whether an address is the unspecified one (`0.0.0.0` or `::`).
pub open spec fn is_unspecified(ip: IpAddress) -> bool {
    match ip {
        IpAddress::V4(o) => o@ == seq![0u8, 0u8, 0u8, 0u8],
        IpAddress::V6(s) => s@ == Seq::new(8, |i: int| 0u16),
    }
}

/// The host part of the URL for an address: `localhost` for the
/// unspecified address, an IPv6 address in brackets, an IPv4 address as
/// it is written.
pub open spec fn url_host(ip: IpAddress) -> Seq<char> {
    if is_unspecified(ip) {
        "localhost"@
    } else {
        match ip {
            IpAddress::V4(o) => ipv4_text(o@),
            IpAddress::V6(s) => "["@ + ipv6_text(s@) + "]"@,
        }
    }
}

/// The URL at which a listening address is reached:
/// `http://<host>:<port>`.
pub open spec fn url_text(addr: SocketAddress) -> Seq<char> {
    "http://"@ + url_host(addr.ip) + ":"@ + decimal(addr.port as nat)
}

fn push_ipv4(out: &mut Vec<char>, o: [u8; 4])
    ensures
        final(out)@ == old(out)@ + ipv4_text(o@),
{
    let ghost start = out@;
    push_decimal(out, o[0] as u64);
    push_str(out, ".");
    push_decimal(out, o[1] as u64);
    push_str(out, ".");
    push_decimal(out, o[2] as u64);
    push_str(out, ".");
    push_decimal(out, o[3] as u64);
    assert(out@ =~= start + ipv4_text(o@));
}

/// Appends segments `from` up to `to`, separated by `:`.
fn push_groups(out: &mut Vec<char>, s: &[u16; 8], from: usize, to: usize)
    requires
        from <= to <= 8,
    ensures
        final(out)@ == old(out)@ + hex_groups(s@.subrange(from as int, to as int)),
{
    let ghost start = out@;
    let mut i = from;
    assert(s@.subrange(from as int, from as int) =~= Seq::<u16>::empty());
    while i < to
        invariant
            from <= i <= to <= 8,
            s@.len() == 8,
            out@ == start + hex_groups(s@.subrange(from as int, i as int)),
        decreases to - i,
    {
        let ghost before = s@.subrange(from as int, i as int);
        let ghost after = s@.subrange(from as int, i + 1);
        assert(after.drop_last() =~= before);
        assert(after.last() == s@[i as int]);
        if i > from {
            push_str(out, ":");
        }
        push_hex(out, s[i] as u64);
        i = i + 1;
        assert(out@ =~= start + hex_groups(after));
    }
}

/// Two first-longest zero runs are the same run.
proof fn lemma_longest_zero_run_unique(s: Seq<u16>, a: int, b: int, c: int, d: int)
    requires
        is_longest_zero_run(s, a, b),
        is_longest_zero_run(s, c, d),
    ensures
        a == c && b == d,
{
    assert(b <= d);
    assert(d <= b);
    if a < c {
        assert(zero_run(s, a, d));
    } else if c < a {
        assert(zero_run(s, c, b));
    }
}

/// Finds the first longest run of zero segments, as the standard library
/// does when it writes an IPv6 address.
fn longest_zero_run(s: &[u16; 8]) -> (res: (usize, usize))
    ensures
        is_longest_zero_run(s@, res.0 as int, res.1 as int),
{
    let mut ls: usize = 0;
    let mut ll: usize = 0;
    let mut cs: usize = 0;
    let mut cl: usize = 0;
    for i in 0..8
        invariant
            s@.len() == 8,
            zero_run(s@, cs as int, cl as int),
            cs + cl == i,
            cl > 0 && cs > 0 ==> s@[cs - 1] != 0,
            cl == 0 && i > 0 ==> s@[i - 1] != 0,
            zero_run(s@, ls as int, ll as int),
            ls + ll <= i,
            ll == 0 ==> ls == 0,
            cl <= ll,
            forall|st: int, l: int| zero_run(s@, st, l) && st + l <= i ==> l <= ll,
            forall|st: int| 0 <= st < ls ==> !(zero_run(s@, st, ll as int) && st + ll <= i),
    {
        if s[i] == 0 {
            if cl == 0 {
                cs = i;
            }
            cl = cl + 1;
            proof {
                assert forall|st: int, l: int| zero_run(s@, st, l) && st + l == i + 1 && l > 0 implies st >= cs by {
                    if st < cs {
                        assert(s@[cs - 1] == 0);
                    }
                }
            }
            if cl > ll {
                ls = cs;
                ll = cl;
            }
        } else {
            cs = i + 1;
            cl = 0;
            proof {
                assert forall|st: int, l: int| zero_run(s@, st, l) && st + l == i + 1 implies l == 0 by {
                    if l > 0 {
                        assert(s@[i as int] == 0);
                    }
                }
            }
        }
    }
    (ls, ll)
}

fn push_ipv6(out: &mut Vec<char>, s: [u16; 8])
    ensures
        final(out)@ == old(out)@ + ipv6_text(s@),
{
    let ghost start = out@;
    if s[0] == 0 && s[1] == 0 && s[2] == 0 && s[3] == 0 && s[4] == 0 && s[5] == 0xffff {
        push_str(out, "::ffff:");
        push_ipv4(out, [(s[6] / 256) as u8, (s[6] % 256) as u8, (s[7] / 256) as u8, (s[7] % 256) as u8]);
        return;
    }
    let (zs, zl) = longest_zero_run(&s);
    if zl > 1 {
        proof {
            let (st, l) = choose|st: int, l: int| l > 1 && is_longest_zero_run(s@, st, l);
            lemma_longest_zero_run_unique(s@, st, l, zs as int, zl as int);
        }
        push_groups(out, &s, 0, zs);
        push_str(out, "::");
        push_groups(out, &s, zs + zl, 8);
        assert(s@.subrange(0, zs as int) =~= s@.take(zs as int));
        assert(s@.subrange((zs + zl) as int, 8) =~= s@.skip((zs + zl) as int));
    } else {
        proof {
            if exists|st: int, l: int| l > 1 && is_longest_zero_run(s@, st, l) {
                let (st, l) = choose|st: int, l: int| l > 1 && is_longest_zero_run(s@, st, l);
                lemma_longest_zero_run_unique(s@, st, l, zs as int, zl as int);
            }
        }
        push_groups(out, &s, 0, 8);
        assert(s@.subrange(0, 8) =~= s@);
    }
}

/// Whether an address is the unspecified one.
fn unspecified(ip: &IpAddress) -> (res: bool)
    ensures
        res == is_unspecified(*ip),
{
    match ip {
        IpAddress::V4(o) => {
            let res = o[0] == 0 && o[1] == 0 && o[2] == 0 && o[3] == 0;
            assert(res ==> o@ =~= seq![0u8, 0u8, 0u8, 0u8]);
            res
        },
        IpAddress::V6(s) => {
            let mut all_zero = true;
            for i in 0..8
                invariant
                    s@.len() == 8,
                    all_zero == forall|k: int| 0 <= k < i ==> s@[k] == 0,
            {
                if s[i] != 0 {
                    all_zero = false;
                }
            }
            assert(all_zero ==> s@ =~= Seq::new(8, |i: int| 0u16));
            assert(!all_zero ==> s@ != Seq::new(8, |i: int| 0u16)) by {
                if !all_zero {
                    let k = choose|k: int| 0 <= k < 8 && s@[k] != 0;
                    assert(Seq::new(8, |i: int| 0u16)[k] == 0);
                }
            }
            all_zero
        },
    }
}

/// The URL at which a listening address is reached.
pub fn addr_to_url(addr: SocketAddress) -> (res: String)
    ensures
        res@ == url_text(addr),
{
    let mut v: Vec<char> = Vec::new();
    push_str(&mut v, "http://");
    if unspecified(&addr.ip) {
        push_str(&mut v, "localhost");
    } else {
        match addr.ip {
            IpAddress::V4(o) => push_ipv4(&mut v, o),
            IpAddress::V6(s) => {
                push_str(&mut v, "[");
                push_ipv6(&mut v, s);
                push_str(&mut v, "]");
            },
        }
    }
    push_str(&mut v, ":");
    push_decimal(&mut v, addr.port as u64);
    string_from(&v)
}

} // verus!
