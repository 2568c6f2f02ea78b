//! Addresses as plain values. The core never touches an operating-system
//! socket; it only records which peer an exchange belongs to and serialises
//! addresses into connect tokens, so an address is four or sixteen ip bytes
//! held in an integer, plus a port.

use vstd::prelude::*;

use crate::bytes::{le128, le16, le32, lemma_le16_injective, lemma_le32_injective, read_u128_le,
    read_u16_le, read_u32_le, write_u128_le, write_u16_le, write_u32_le};
use crate::NetcodeError;

verus! {

/// Wire tag for a version-four address.
pub const ADDRESS_TAG_V4: u8 = 1;

/// Wire tag for a version-six address.
pub const ADDRESS_TAG_V6: u8 = 2;

/// Encoded size of a version-four address.
pub const ADDRESS_BYTES_V4: usize = 7;

/// Encoded size of a version-six address.
pub const ADDRESS_BYTES_V6: usize = 19;

/// A peer address: the ip bytes packed into an integer, most significant
/// octet highest, and the port.
#[derive(Debug, Clone, Copy, PartialEq, Eq, Hash, Structural)]
pub enum NetAddr {
    /// A version-four address.
    V4 { ip: u32, port: u16 },
    /// A version-six address.
    V6 { ip: u128, port: u16 },
}

impl NetAddr {
    /// Packs four octets and a port into a version-four address.
    pub fn v4(a: u8, b: u8, c: u8, d: u8, port: u16) -> (r: NetAddr)
        ensures
            r == (NetAddr::V4 {
                ip: (a as u32) << 24 | (b as u32) << 16 | (c as u32) << 8 | d as u32,
                port,
            }),
    {
        NetAddr::V4 {
            ip: (a as u32) << 24 | (b as u32) << 16 | (c as u32) << 8 | d as u32,
            port,
        }
    }

    /// The port of the address.
    pub fn port(&self) -> (r: u16)
        ensures
            r == self.spec_port(),
    {
        match self {
            NetAddr::V4 { port, .. } => *port,
            NetAddr::V6 { port, .. } => *port,
        }
    }

    /// The port of the address.
    pub open spec fn spec_port(self) -> u16 {
        match self {
            NetAddr::V4 { port, .. } => port,
            NetAddr::V6 { port, .. } => port,
        }
    }
}

/// The wire bytes of one address: a one-byte version tag, the ip little
/// endian, then the port little endian.
pub open spec fn addr_bytes(a: NetAddr) -> Seq<u8> {
    match a {
        NetAddr::V4 { ip, port } => seq![ADDRESS_TAG_V4] + le32(ip) + le16(port),
        NetAddr::V6 { ip, port } => seq![ADDRESS_TAG_V6] + le128(ip) + le16(port),
    }
}

/// The encoded size of one address.
pub open spec fn addr_size(a: NetAddr) -> nat {
    match a {
        NetAddr::V4 { .. } => ADDRESS_BYTES_V4 as nat,
        NetAddr::V6 { .. } => ADDRESS_BYTES_V6 as nat,
    }
}

/// `addr_bytes` takes exactly `addr_size` bytes.
pub proof fn lemma_addr_bytes_len(a: NetAddr)
    ensures
        addr_bytes(a).len() == addr_size(a),
        1 <= addr_size(a) <= ADDRESS_BYTES_V6,
        addr_bytes(a)[0] == ADDRESS_TAG_V4 || addr_bytes(a)[0] == ADDRESS_TAG_V6,
        addr_bytes(a)[0] == ADDRESS_TAG_V4 <==> a is V4,
{
}

/// Two addresses with the same wire bytes are equal.
pub proof fn lemma_addr_bytes_injective(a: NetAddr, b: NetAddr)
    requires
        addr_bytes(a) == addr_bytes(b),
    ensures
        a == b,
{
    lemma_addr_bytes_len(a);
    lemma_addr_bytes_len(b);
    match (a, b) {
        (NetAddr::V4 { ip: ia, port: pa }, NetAddr::V4 { ip: ib, port: pb }) => {
            assert(le32(ia) =~= addr_bytes(a).subrange(1, 5));
            assert(le32(ib) =~= addr_bytes(b).subrange(1, 5));
            assert(le16(pa) =~= addr_bytes(a).subrange(5, 7));
            assert(le16(pb) =~= addr_bytes(b).subrange(5, 7));
            lemma_le32_injective(ia, ib);
            lemma_le16_injective(pa, pb);
        },
        (NetAddr::V6 { ip: ia, port: pa }, NetAddr::V6 { ip: ib, port: pb }) => {
            assert(le128(ia) =~= addr_bytes(a).subrange(1, 17));
            assert(le128(ib) =~= addr_bytes(b).subrange(1, 17));
            assert(le16(pa) =~= addr_bytes(a).subrange(17, 19));
            assert(le16(pb) =~= addr_bytes(b).subrange(17, 19));
            crate::bytes::lemma_le64_injective(ia as u64, ib as u64);
            crate::bytes::lemma_le64_injective((ia >> 64) as u64, (ib >> 64) as u64);
            assert(le128(ia).subrange(0, 8) =~= crate::bytes::le64(ia as u64));
            assert(le128(ib).subrange(0, 8) =~= crate::bytes::le64(ib as u64));
            assert(le128(ia).subrange(8, 16) =~= crate::bytes::le64((ia >> 64) as u64));
            assert(le128(ib).subrange(8, 16) =~= crate::bytes::le64((ib >> 64) as u64));
            assert(ia as u64 == ib as u64 && (ia >> 64) as u64 == (ib >> 64) as u64 ==> ia == ib)
                by (bit_vector);
            lemma_le16_injective(pa, pb);
        },
        _ => {
            assert(addr_bytes(a)[0] != addr_bytes(b)[0]);
        },
    }
}

/// Appends the wire bytes of one address.
pub fn write_addr(out: &mut Vec<u8>, a: &NetAddr)
    ensures
        final(out)@ == old(out)@ + addr_bytes(*a),
{
    match a {
        NetAddr::V4 { ip, port } => {
            out.push(ADDRESS_TAG_V4);
            write_u32_le(out, *ip);
            write_u16_le(out, *port);
        },
        NetAddr::V6 { ip, port } => {
            out.push(ADDRESS_TAG_V6);
            write_u128_le(out, *ip);
            write_u16_le(out, *port);
        },
    }
    proof {
        assert(final(out)@ =~= old(out)@ + addr_bytes(*a));
    }
}

/// Reads one address at `pos`, returning it and its encoded size.
pub fn read_addr(buf: &Vec<u8>, pos: usize) -> (r: Result<(NetAddr, usize), NetcodeError>)
    requires
        pos <= buf@.len(),
    ensures
        r matches Ok((a, used)) ==> {
            &&& used == addr_size(a)
            &&& pos + used <= buf@.len()
            &&& addr_bytes(a) == buf@.subrange(pos as int, pos + used)
        },
        r is Err ==> !(pos < buf@.len() && (buf@[pos as int] == ADDRESS_TAG_V4 && pos
            + ADDRESS_BYTES_V4 <= buf@.len() || buf@[pos as int] == ADDRESS_TAG_V6 && pos
            + ADDRESS_BYTES_V6 <= buf@.len())),
{
    let blen: usize = buf.len();
    if pos >= blen {
        return Err(NetcodeError::BufferTooSmall);
    }
    let tag = buf[pos];
    if tag == ADDRESS_TAG_V4 {
        if blen - pos < ADDRESS_BYTES_V4 {
            return Err(NetcodeError::BufferTooSmall);
        }
        let ip = read_u32_le(buf, pos + 1);
        let port = read_u16_le(buf, pos + 5);
        let a = NetAddr::V4 { ip, port };
        proof {
            assert(addr_bytes(a) =~= buf@.subrange(pos as int, pos + 7));
        }
        Ok((a, ADDRESS_BYTES_V4))
    } else if tag == ADDRESS_TAG_V6 {
        if blen - pos < ADDRESS_BYTES_V6 {
            return Err(NetcodeError::BufferTooSmall);
        }
        let ip = read_u128_le(buf, pos + 1);
        let port = read_u16_le(buf, pos + 17);
        let a = NetAddr::V6 { ip, port };
        proof {
            assert(addr_bytes(a) =~= buf@.subrange(pos as int, pos + 19));
        }
        Ok((a, ADDRESS_BYTES_V6))
    } else {
        Err(NetcodeError::BufferTooSmall)
    }
}

/// The wire bytes of an address list, in order.
pub open spec fn addrs_bytes(s: Seq<NetAddr>) -> Seq<u8>
    decreases s.len(),
{
    if s.len() == 0 {
        Seq::empty()
    } else {
        addr_bytes(s[0]) + addrs_bytes(s.skip(1))
    }
}

/// The encoded size of an address list.
pub open spec fn addrs_size(s: Seq<NetAddr>) -> nat
    decreases s.len(),
{
    if s.len() == 0 {
        0
    } else {
        addr_size(s[0]) + addrs_size(s.skip(1))
    }
}

/// `addrs_bytes` takes exactly `addrs_size` bytes, at most nineteen per
/// entry.
pub proof fn lemma_addrs_bytes_len(s: Seq<NetAddr>)
    ensures
        addrs_bytes(s).len() == addrs_size(s),
        addrs_size(s) <= ADDRESS_BYTES_V6 * s.len(),
        s.len() <= addrs_size(s),
    decreases s.len(),
{
    if s.len() > 0 {
        lemma_addr_bytes_len(s[0]);
        lemma_addrs_bytes_len(s.skip(1));
    }
}

/// Appending one address extends the wire bytes of the list.
pub proof fn lemma_addrs_bytes_push(s: Seq<NetAddr>, a: NetAddr)
    ensures
        addrs_bytes(s.push(a)) == addrs_bytes(s) + addr_bytes(a),
    decreases s.len(),
{
    if s.len() == 0 {
        lemma_addr_bytes_len(a);
        assert(s.push(a)[0] == a);
        assert(s.push(a).skip(1) =~= Seq::<NetAddr>::empty());
        assert(addrs_bytes(Seq::<NetAddr>::empty()) =~= Seq::<u8>::empty());
        assert(addrs_bytes(s.push(a)) =~= addr_bytes(a) + addrs_bytes(s.push(a).skip(1)));
        assert(addrs_bytes(s.push(a)) =~= addr_bytes(a));
        assert(addrs_bytes(s) + addr_bytes(a) =~= addr_bytes(a));
    } else {
        assert(s.push(a)[0] == s[0]);
        assert(s.push(a).skip(1) =~= s.skip(1).push(a));
        lemma_addrs_bytes_push(s.skip(1), a);
        assert(addrs_bytes(s.push(a)) =~= addrs_bytes(s) + addr_bytes(a));
    }
}

/// Two equally long address lists with the same wire bytes are equal.
pub proof fn lemma_addrs_bytes_injective(s1: Seq<NetAddr>, s2: Seq<NetAddr>)
    requires
        s1.len() == s2.len(),
        addrs_bytes(s1) == addrs_bytes(s2),
    ensures
        s1 == s2,
    decreases s1.len(),
{
    if s1.len() > 0 {
        lemma_addr_bytes_len(s1[0]);
        lemma_addr_bytes_len(s2[0]);
        lemma_addrs_bytes_len(s1.skip(1));
        lemma_addrs_bytes_len(s2.skip(1));
        assert(addrs_bytes(s1)[0] == addr_bytes(s1[0])[0]);
        assert(addrs_bytes(s2)[0] == addr_bytes(s2[0])[0]);
        assert(addr_size(s1[0]) == addr_size(s2[0]));
        assert(addr_bytes(s1[0]) =~= addrs_bytes(s1).subrange(0, addr_size(s1[0]) as int));
        assert(addr_bytes(s2[0]) =~= addrs_bytes(s2).subrange(0, addr_size(s2[0]) as int));
        lemma_addr_bytes_injective(s1[0], s2[0]);
        assert(addrs_bytes(s1.skip(1)) =~= addrs_bytes(s1).skip(addr_size(s1[0]) as int));
        assert(addrs_bytes(s2.skip(1)) =~= addrs_bytes(s2).skip(addr_size(s2[0]) as int));
        lemma_addrs_bytes_injective(s1.skip(1), s2.skip(1));
        assert forall|i: int| 0 <= i < s1.len() implies s1[i] == s2[i] by {
            if i > 0 {
                assert(s1.skip(1)[i - 1] == s1[i]);
                assert(s2.skip(1)[i - 1] == s2[i]);
            }
        }
        assert(s1 =~= s2);
    } else {
        assert(s1 =~= s2);
    }
}

/// The wire bytes of a list split at any point into the bytes of the two
/// halves.
pub proof fn lemma_addrs_bytes_take_skip(s: Seq<NetAddr>, i: int)
    requires
        0 <= i <= s.len(),
    ensures
        addrs_bytes(s) == addrs_bytes(s.take(i)) + addrs_bytes(s.skip(i)),
    decreases i,
{
    if i == 0 {
        assert(s.take(0) =~= Seq::<NetAddr>::empty());
        assert(s.skip(0) =~= s);
        assert(addrs_bytes(s.take(0)) =~= Seq::<u8>::empty());
        assert(addrs_bytes(s) =~= addrs_bytes(s.take(0)) + addrs_bytes(s.skip(0)));
    } else {
        lemma_addrs_bytes_take_skip(s.skip(1), i - 1);
        assert(s.skip(1).take(i - 1) =~= s.take(i).skip(1));
        assert(s.skip(1).skip(i - 1) =~= s.skip(i));
        assert(s.take(i)[0] == s[0]);
        assert(addrs_bytes(s.take(i)) =~= addr_bytes(s[0]) + addrs_bytes(s.take(i).skip(1)));
        assert(addrs_bytes(s) =~= addrs_bytes(s.take(i)) + addrs_bytes(s.skip(i)));
    }
}

/// Two equally long address lists encoded at the start of the same byte run
/// are the same list.
pub proof fn lemma_addrs_prefix_unique(s1: Seq<NetAddr>, s2: Seq<NetAddr>, x: Seq<u8>)
    requires
        s1.len() == s2.len(),
        addrs_size(s1) <= x.len(),
        addrs_size(s2) <= x.len(),
        x.take(addrs_size(s1) as int) == addrs_bytes(s1),
        x.take(addrs_size(s2) as int) == addrs_bytes(s2),
    ensures
        s1 == s2,
    decreases s1.len(),
{
    if s1.len() == 0 {
        assert(s1 =~= s2);
    } else {
        lemma_addr_bytes_len(s1[0]);
        lemma_addr_bytes_len(s2[0]);
        lemma_addrs_bytes_len(s1);
        lemma_addrs_bytes_len(s2);
        lemma_addrs_bytes_len(s1.skip(1));
        lemma_addrs_bytes_len(s2.skip(1));
        assert(addrs_bytes(s1)[0] == addr_bytes(s1[0])[0]);
        assert(addrs_bytes(s2)[0] == addr_bytes(s2[0])[0]);
        assert(addr_bytes(s1[0])[0] == x[0]);
        assert(addr_bytes(s2[0])[0] == x[0]);
        let n1 = addr_size(s1[0]) as int;
        assert(addr_size(s2[0]) == n1);
        assert(addr_bytes(s1[0]) =~= x.take(n1));
        assert(addr_bytes(s2[0]) =~= x.take(n1));
        lemma_addr_bytes_injective(s1[0], s2[0]);
        let y = x.skip(n1);
        assert(addrs_bytes(s1) == addr_bytes(s1[0]) + addrs_bytes(s1.skip(1)));
        assert(addrs_bytes(s2) == addr_bytes(s2[0]) + addrs_bytes(s2.skip(1)));
        assert forall|j: int| 0 <= j < addrs_size(s1.skip(1)) implies addrs_bytes(s1.skip(1))[j]
            == y[j] by {
            assert(addrs_bytes(s1.skip(1))[j] == addrs_bytes(s1)[n1 + j]);
            assert(addrs_bytes(s1)[n1 + j] == x.take(addrs_size(s1) as int)[n1 + j]);
        }
        assert forall|j: int| 0 <= j < addrs_size(s2.skip(1)) implies addrs_bytes(s2.skip(1))[j]
            == y[j] by {
            assert(addrs_bytes(s2.skip(1))[j] == addrs_bytes(s2)[n1 + j]);
            assert(addrs_bytes(s2)[n1 + j] == x.take(addrs_size(s2) as int)[n1 + j]);
        }
        assert(addrs_bytes(s1.skip(1)) =~= y.take(addrs_size(s1.skip(1)) as int));
        assert(addrs_bytes(s2.skip(1)) =~= y.take(addrs_size(s2.skip(1)) as int));
        lemma_addrs_prefix_unique(s1.skip(1), s2.skip(1), y);
        assert forall|i: int| 0 <= i < s1.len() implies s1[i] == s2[i] by {
            if i > 0 {
                assert(s1.skip(1)[i - 1] == s1[i]);
                assert(s2.skip(1)[i - 1] == s2[i]);
            }
        }
        assert(s1 =~= s2);
    }
}

/// Appends the wire bytes of every address in the list.
pub fn write_addrs(out: &mut Vec<u8>, addrs: &Vec<NetAddr>)
    ensures
        final(out)@ == old(out)@ + addrs_bytes(addrs@),
{
    let n: usize = addrs.len();
    let mut i: usize = 0;
    while i < n
        invariant
            i <= n == addrs@.len(),
            out@ == old(out)@ + addrs_bytes(addrs@.subrange(0, i as int)),
        decreases n - i,
    {
        write_addr(out, &addrs[i]);
        proof {
            lemma_addrs_bytes_push(addrs@.subrange(0, i as int), addrs@[i as int]);
            assert(addrs@.subrange(0, i as int).push(addrs@[i as int]) =~= addrs@.subrange(
                0,
                i + 1,
            ));
        }
        i = i + 1;
    }
    proof {
        assert(addrs@.subrange(0, n as int) =~= addrs@);
    }
}

/// Whether a list of `count` addresses is encoded at `pos` of `buf`, wholly
/// inside it.
pub open spec fn addrs_encoded_at(s0: Seq<NetAddr>, buf: Seq<u8>, pos: int, count: nat) -> bool {
    &&& s0.len() == count
    &&& pos + addrs_size(s0) <= buf.len()
    &&& addrs_bytes(s0) == buf.subrange(pos, pos + addrs_size(s0))
}

/// Reads `count` addresses at `pos`, returning them and the bytes consumed.
/// Succeeds on, and returns, exactly the list a writer put there.
pub fn read_addrs(buf: &Vec<u8>, pos: usize, count: usize) -> (r: Result<
    (Vec<NetAddr>, usize),
    NetcodeError,
>)
    requires
        pos <= buf@.len(),
    ensures
        r matches Ok((addrs, used)) ==> {
            &&& addrs@.len() == count
            &&& used == addrs_size(addrs@)
            &&& pos + used <= buf@.len()
            &&& addrs_bytes(addrs@) == buf@.subrange(pos as int, pos + used)
        },
        forall|s0: Seq<NetAddr>|
            addrs_encoded_at(s0, buf@, pos as int, count as nat) ==> (r matches Ok((addrs, used))
                && addrs@ == s0 && used == addrs_size(s0)),
{
    let blen: usize = buf.len();
    let mut addrs: Vec<NetAddr> = Vec::new();
    let mut cur: usize = pos;
    let mut i: usize = 0;
    while i < count
        invariant
            i <= count,
            addrs@.len() == i,
            pos <= cur <= blen == buf@.len(),
            addrs_size(addrs@) == cur - pos,
            addrs_bytes(addrs@) == buf@.subrange(pos as int, cur as int),
            forall|s0: Seq<NetAddr>|
                addrs_encoded_at(s0, buf@, pos as int, count as nat) ==> addrs@ == s0.take(i as int)
                    && cur - pos == addrs_size(s0.take(i as int)),
        decreases count - i,
    {
        let res = read_addr(buf, cur);
        proof {
            if res is Err {
                assert forall|s0: Seq<NetAddr>| !addrs_encoded_at(
                    s0,
                    buf@,
                    pos as int,
                    count as nat,
                ) by {
                    if addrs_encoded_at(s0, buf@, pos as int, count as nat) {
                        lemma_tail_encoded(s0, buf@, pos as int, i as int, cur as int);
                        lemma_addr_bytes_len(s0[i as int]);
                    }
                }
            }
        }
        let (a, used) = match res {
            Ok(x) => x,
            Err(e) => {
                return Err(e);
            },
        };
        proof {
            lemma_addr_bytes_len(a);
            lemma_addrs_bytes_push(addrs@, a);
            lemma_addrs_bytes_len(addrs@);
            lemma_addrs_bytes_len(addrs@.push(a));
            assert(addrs_bytes(addrs@.push(a)) =~= buf@.subrange(pos as int, cur + used));
            assert forall|s0: Seq<NetAddr>|
                addrs_encoded_at(s0, buf@, pos as int, count as nat) implies addrs@.push(a)
                == s0.take(i + 1) && cur + used - pos == addrs_size(s0.take(i + 1)) by {
                lemma_tail_encoded(s0, buf@, pos as int, i as int, cur as int);
                lemma_addr_bytes_len(s0[i as int]);
                assert(addr_bytes(s0[i as int]) =~= buf@.subrange(
                    cur as int,
                    cur + addr_size(s0[i as int]),
                ));
                assert(addr_bytes(a)[0] == buf@[cur as int]);
                assert(addr_bytes(s0[i as int])[0] == buf@[cur as int]);
                assert(addr_size(a) == addr_size(s0[i as int]));
                assert(addr_bytes(a) =~= addr_bytes(s0[i as int]));
                lemma_addr_bytes_injective(a, s0[i as int]);
                assert(s0.take(i + 1) =~= s0.take(i as int).push(s0[i as int]));
                lemma_addrs_bytes_push(s0.take(i as int), s0[i as int]);
                lemma_addrs_bytes_len(s0.take(i + 1));
                lemma_addrs_bytes_len(s0.take(i as int));
            }
        }
        addrs.push(a);
        cur = cur + used;
        i = i + 1;
    }
    proof {
        lemma_addrs_bytes_len(addrs@);
        assert forall|s0: Seq<NetAddr>|
            addrs_encoded_at(s0, buf@, pos as int, count as nat) implies addrs@ == s0 && cur - pos
            == addrs_size(s0) by {
            assert(s0.take(count as int) =~= s0);
        }
    }
    Ok((addrs, cur - pos))
}

/// If a list is encoded at `pos` and its first `i` entries reach `cur`, the
/// entry `i` is encoded at `cur`.
proof fn lemma_tail_encoded(s0: Seq<NetAddr>, buf: Seq<u8>, pos: int, i: int, cur: int)
    requires
        0 <= pos,
        0 <= i < s0.len(),
        pos + addrs_size(s0) <= buf.len(),
        addrs_bytes(s0) == buf.subrange(pos, pos + addrs_size(s0)),
        cur == pos + addrs_size(s0.take(i)),
    ensures
        cur + addr_size(s0[i]) <= buf.len(),
        addr_bytes(s0[i]) == buf.subrange(cur, cur + addr_size(s0[i])),
{
    lemma_addrs_bytes_take_skip(s0, i);
    lemma_addrs_bytes_len(s0.take(i));
    lemma_addrs_bytes_len(s0.skip(i));
    lemma_addrs_bytes_len(s0);
    lemma_addr_bytes_len(s0[i]);
    assert(s0.skip(i)[0] == s0[i]);
    assert(addrs_bytes(s0.skip(i)) == addr_bytes(s0[i]) + addrs_bytes(s0.skip(i).skip(1)));
    lemma_addrs_bytes_len(s0.skip(i).skip(1));
    let off = addrs_size(s0.take(i)) as int;
    assert(addrs_size(s0) == off + addrs_size(s0.skip(i)));
    assert forall|k: int| 0 <= k < addr_size(s0[i]) implies addr_bytes(s0[i])[k] == buf[cur + k] by {
        assert(addr_bytes(s0[i])[k] == addrs_bytes(s0.skip(i))[k]);
        assert(addrs_bytes(s0)[off + k] == (addrs_bytes(s0.take(i)) + addrs_bytes(s0.skip(i)))[off
            + k]);
        assert(addrs_bytes(s0.skip(i))[k] == addrs_bytes(s0)[off + k]);
        assert(addrs_size(s0.skip(i)) == addr_size(s0[i]) + addrs_size(s0.skip(i).skip(1)));
        assert(0 <= off + k < addrs_size(s0));
        let sub = buf.subrange(pos, pos + addrs_size(s0) as int);
        assert(addrs_bytes(s0)[off + k] == sub[off + k]);
        assert(sub[off + k] == buf[pos + (off + k)]);
    }
    assert(addr_bytes(s0[i]) =~= buf.subrange(cur, cur + addr_size(s0[i]) as int));
}


/// The wildcard address a client should bind before dialling a server: any
/// port on the unspecified ip of the server's address family.
pub fn client_address_from_server_address(server_addr: &NetAddr) -> (r: NetAddr)
    ensures
        server_addr is V4 ==> r == (NetAddr::V4 { ip: 0, port: 0 }),
        server_addr is V6 ==> r == (NetAddr::V6 { ip: 0, port: 0 }),
{
    match server_addr {
        NetAddr::V4 { .. } => NetAddr::V4 { ip: 0, port: 0 },
        NetAddr::V6 { .. } => NetAddr::V6 { ip: 0, port: 0 },
    }
}

} // verus!

