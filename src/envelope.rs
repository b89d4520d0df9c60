//! Network addresses and the named policy dimensions of a session.

use crate::dane::copy_bytes;
use vstd::prelude::*;

verus! {

/// An IP address as its octets.
#[derive(Debug, Clone, Copy, PartialEq, Eq)]
pub enum IpAddress {
    V4([u8; 4]),
    V6([u8; 16]),
}

/// The octets of an address, most significant first.
pub open spec fn ip_octets(ip: IpAddress) -> Seq<u8> {
    match ip {
        IpAddress::V4(o) => o@,
        IpAddress::V6(o) => o@,
    }
}

/// The loopback address 127.0.0.1.
pub fn localhost_v4() -> (r: IpAddress)
    ensures
        r == IpAddress::V4([127u8, 0u8, 0u8, 1u8]),
{
    IpAddress::V4([127u8, 0u8, 0u8, 1u8])
}

/// The octets of an address.
pub fn ip_to_bytes(ip: &IpAddress) -> (r: Vec<u8>)
    ensures
        r@ == ip_octets(*ip),
{
    match ip {
        IpAddress::V4(o) => copy_bytes(o.as_slice()),
        IpAddress::V6(o) => copy_bytes(o.as_slice()),
    }
}

/// A one-byte prefix followed by the octets of an address.
pub fn ip_to_bytes_prefix(prefix: u8, ip: &IpAddress) -> (r: Vec<u8>)
    ensures
        r@ == seq![prefix] + ip_octets(*ip),
{
    let octets = ip_to_bytes(ip);
    let mut buf: Vec<u8> = Vec::with_capacity(octets.len() + 1);
    buf.push(prefix);
    let mut i: usize = 0;
    while i < octets.len()
        invariant
            0 <= i <= octets@.len(),
            buf@ =~= seq![prefix] + octets@.subrange(0, i as int),
        decreases octets@.len() - i,
    {
        buf.push(octets[i]);
        i = i + 1;
    }
    proof {
        assert(octets@.subrange(0, octets@.len() as int) =~= octets@);
    }
    buf
}

/// A policy dimension of a session, from which admission keys are derived.
#[derive(Debug, Clone, Copy, PartialEq, Eq, Structural)]
pub enum EnvelopeKey {
    Recipient,
    RecipientDomain,
    Sender,
    SenderDomain,
    Mx,
    AuthenticatedAs,
    HeloDomain,
    Listener,
    RemoteIp,
    LocalIp,
    Priority,
}

/// The decimal digits of `n`, as ASCII.
pub open spec fn dec_text(n: nat) -> Seq<u8>
    decreases n,
{
    if n < 10 {
        seq![(48 + n) as u8]
    } else {
        dec_text(n / 10).push((48 + n % 10) as u8)
    }
}

/// The lower-case hexadecimal digit of `d`.
pub open spec fn hex_digit(d: nat) -> u8 {
    if d < 10 {
        (48 + d) as u8
    } else {
        (87 + d) as u8
    }
}

/// The lower-case hexadecimal digits of `n`, without leading zeros.
pub open spec fn hex_text(n: nat) -> Seq<u8>
    decreases n,
{
    if n < 16 {
        seq![hex_digit(n)]
    } else {
        hex_text(n / 16).push(hex_digit(n % 16))
    }
}

/// Appends the decimal text of `n`.
pub fn append_dec(out: &mut Vec<u8>, n: u64)
    ensures
        final(out)@ == old(out)@ + dec_text(n as nat),
    decreases n,
{
    if n >= 10 {
        append_dec(out, n / 10);
    }
    out.push((48 + n % 10) as u8);
    proof {
        if n >= 10 {
            assert(final(out)@ =~= old(out)@ + dec_text(n as nat));
        } else {
            assert(final(out)@ =~= old(out)@ + dec_text(n as nat));
        }
    }
}

fn append_hex(out: &mut Vec<u8>, n: u16)
    ensures
        final(out)@ == old(out)@ + hex_text(n as nat),
    decreases n,
{
    if n >= 16 {
        append_hex(out, n / 16);
    }
    let d = n % 16;
    let c: u8 = if d < 10 { 48 + d as u8 } else { 87 + d as u8 };
    out.push(c);
    proof {
        assert(final(out)@ =~= old(out)@ + hex_text(n as nat));
    }
}

/// The 16-bit groups of an IPv6 address.
pub open spec fn segment(o: Seq<u8>, i: int) -> nat {
    (o[2 * i] as nat) * 256 + o[2 * i + 1] as nat
}

pub open spec fn segments(o: Seq<u8>) -> Seq<nat> {
    Seq::new(8, |i: int| segment(o, i))
}

/// Groups in hexadecimal, joined by colons.
pub open spec fn join_hex(s: Seq<nat>) -> Seq<u8>
    decreases s.len(),
{
    if s.len() == 0 {
        Seq::empty()
    } else if s.len() == 1 {
        hex_text(s[0])
    } else {
        join_hex(s.drop_last()).push(58) + hex_text(s.last())
    }
}

/// The first longest run of zero groups at or after `i`, given the current
/// run (`cs`, `cl`) and the best so far (`bs`, `bl`): (start, length).
pub open spec fn zero_run(s: Seq<nat>, i: int, cs: int, cl: int, bs: int, bl: int) -> (int, int)
    decreases s.len() - i,
{
    if i >= s.len() || i < 0 {
        (bs, bl)
    } else if s[i] == 0 {
        let ncs = if cl == 0 { i } else { cs };
        let ncl = cl + 1;
        if ncl > bl {
            zero_run(s, i + 1, ncs, ncl, ncs, ncl)
        } else {
            zero_run(s, i + 1, ncs, ncl, bs, bl)
        }
    } else {
        zero_run(s, i + 1, 0, 0, bs, bl)
    }
}

/// The dotted-decimal text of four octets.
pub open spec fn v4_text(o: Seq<u8>) -> Seq<u8> {
    dec_text(o[0] as nat).push(46) + dec_text(o[1] as nat).push(46) + dec_text(o[2] as nat).push(46)
        + dec_text(o[3] as nat)
}

/// The text of an IPv6 address: an IPv4-mapped address as `::ffff:` and
/// dotted decimal; otherwise hexadecimal groups, with the first longest run
/// of two or more zero groups shortened to `::`.
pub open spec fn v6_text(o: Seq<u8>) -> Seq<u8> {
    let s = segments(o);
    if s[0] == 0 && s[1] == 0 && s[2] == 0 && s[3] == 0 && s[4] == 0 && s[5] == 0xffff {
        seq![58u8, 58u8, 102u8, 102u8, 102u8, 102u8, 58u8] + v4_text(o.subrange(12, 16))
    } else {
        let z = zero_run(s, 0, 0, 0, 0, 0);
        if z.1 > 1 {
            join_hex(s.subrange(0, z.0)) + seq![58u8, 58u8] + join_hex(s.subrange(z.0 + z.1, 8))
        } else {
            join_hex(s)
        }
    }
}

/// The text of an address.
pub open spec fn ip_text(ip: IpAddress) -> Seq<u8> {
    match ip {
        IpAddress::V4(o) => v4_text(o@),
        IpAddress::V6(o) => v6_text(o@),
    }
}

fn append_v4(out: &mut Vec<u8>, o: &[u8])
    requires
        o@.len() == 4,
    ensures
        final(out)@ == old(out)@ + v4_text(o@),
{
    append_dec(out, o[0] as u64);
    out.push(46);
    append_dec(out, o[1] as u64);
    out.push(46);
    append_dec(out, o[2] as u64);
    out.push(46);
    append_dec(out, o[3] as u64);
    proof {
        assert(final(out)@ =~= old(out)@ + v4_text(o@));
    }
}

fn append_join(out: &mut Vec<u8>, s: &Vec<u16>, from: usize, to: usize)
    requires
        from <= to <= s@.len(),
    ensures
        final(out)@ == old(out)@ + join_hex(s@.subrange(from as int, to as int).map_values(|x: u16| x as nat)),
{
    let mut i: usize = from;
    while i < to
        invariant
            from <= i <= to <= s@.len(),
            out@ == old(out)@ + join_hex(s@.subrange(from as int, i as int).map_values(|x: u16| x as nat)),
        decreases to - i,
    {
        let ghost before = out@;
        if i > from {
            out.push(58);
        }
        append_hex(out, s[i]);
        proof {
            let prev = s@.subrange(from as int, i as int).map_values(|x: u16| x as nat);
            let next = s@.subrange(from as int, i + 1).map_values(|x: u16| x as nat);
            assert(next.drop_last() =~= prev);
            assert(next.last() == s@[i as int] as nat);
            if i == from {
                assert(prev.len() == 0);
                assert(join_hex(prev) =~= Seq::<u8>::empty());
                assert(out@ =~= old(out)@ + join_hex(next));
            } else {
                assert(out@ =~= old(out)@ + join_hex(next));
            }
        }
        i = i + 1;
    }
}

/// Appends the text of an address.
pub fn append_ip_text(out: &mut Vec<u8>, ip: &IpAddress)
    ensures
        final(out)@ == old(out)@ + ip_text(*ip),
{
    match ip {
        IpAddress::V4(o) => append_v4(out, o.as_slice()),
        IpAddress::V6(o) => {
            let mut segs: Vec<u16> = Vec::new();
            let mut i: usize = 0;
            while i < 8
                invariant
                    0 <= i <= 8,
                    o@.len() == 16,
                    segs@.len() == i,
                    forall|j: int| 0 <= j < i ==> segs@[j] as nat == segment(o@, j),
                decreases 8 - i,
            {
                segs.push((o[2 * i] as u16) * 256 + o[2 * i + 1] as u16);
                i = i + 1;
            }
            let ghost sv = segs@.map_values(|x: u16| x as nat);
            proof {
                assert(sv =~= segments(o@));
            }
            if segs[0] == 0 && segs[1] == 0 && segs[2] == 0 && segs[3] == 0 && segs[4] == 0
                && segs[5] == 0xffff {
                out.push(58);
                out.push(58);
                out.push(102);
                out.push(102);
                out.push(102);
                out.push(102);
                out.push(58);
                let tail = [o[12], o[13], o[14], o[15]];
                let ghost mid = out@;
                append_v4(out, tail.as_slice());
                proof {
                    assert(tail@ =~= o@.subrange(12, 16));
                    assert(final(out)@ =~= old(out)@ + ip_text(*ip));
                }
                return;
            }
            let mut cs: usize = 0;
            let mut cl: usize = 0;
            let mut bs: usize = 0;
            let mut bl: usize = 0;
            let mut k: usize = 0;
            while k < 8
                invariant
                    0 <= k <= 8,
                    segs@.len() == 8,
                    sv == segs@.map_values(|x: u16| x as nat),
                    cl <= k,
                    bl <= k,
                    cs + cl <= k,
                    bs + bl <= 8,
                    zero_run(sv, 0, 0, 0, 0, 0) == zero_run(sv, k as int, cs as int, cl as int, bs as int, bl as int),
                decreases 8 - k,
            {
                if segs[k] == 0 {
                    if cl == 0 {
                        cs = k;
                    }
                    cl = cl + 1;
                    if cl > bl {
                        bs = cs;
                        bl = cl;
                    }
                } else {
                    cs = 0;
                    cl = 0;
                }
                k = k + 1;
            }
            if bl > 1 {
                append_join(out, &segs, 0, bs);
                out.push(58);
                out.push(58);
                let ghost mid = out@;
                append_join(out, &segs, bs + bl, 8);
                proof {
                    assert(segs@.subrange(0, bs as int).map_values(|x: u16| x as nat) =~= sv.subrange(0, bs as int));
                    assert(segs@.subrange((bs + bl) as int, 8).map_values(|x: u16| x as nat) =~= sv.subrange((bs + bl) as int, 8));
                    assert(final(out)@ =~= old(out)@ + ip_text(*ip));
                }
            } else {
                append_join(out, &segs, 0, 8);
                proof {
                    assert(segs@.subrange(0, 8).map_values(|x: u16| x as nat) =~= sv);
                }
            }
        },
    }
}

/// The text of an address, as ASCII bytes.
pub fn ip_text_bytes(ip: &IpAddress) -> (r: Vec<u8>)
    ensures
        r@ == ip_text(*ip),
{
    let mut out: Vec<u8> = Vec::new();
    append_ip_text(&mut out, ip);
    proof {
        assert(out@ =~= ip_text(*ip));
    }
    out
}

} // verus!
