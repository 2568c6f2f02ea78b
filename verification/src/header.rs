//! The message-layer header codec: a one-byte kind tag followed by
//! big-endian acknowledgement fields. Three kinds share the framing: plain
//! packets, fragments, and heartbeats; a connection header carries only an
//! error code.

use vstd::prelude::*;

use crate::NetcodeError;

verus! {

/// The two big-endian bytes of `v`.
pub open spec fn be16(v: u16) -> Seq<u8> {
    seq![(v >> 8) as u8, v as u8]
}

/// The four big-endian bytes of `v`.
pub open spec fn be32(v: u32) -> Seq<u8> {
    seq![(v >> 24) as u8, (v >> 16) as u8, (v >> 8) as u8, v as u8]
}

/// Appends the two big-endian bytes of `v`.
pub fn write_u16_be(out: &mut Vec<u8>, v: u16)
    ensures
        final(out)@ == old(out)@ + be16(v),
{
    out.push((v >> 8) as u8);
    out.push(v as u8);
    proof {
        assert(final(out)@ =~= old(out)@ + be16(v));
    }
}

/// Appends the four big-endian bytes of `v`.
pub fn write_u32_be(out: &mut Vec<u8>, v: u32)
    ensures
        final(out)@ == old(out)@ + be32(v),
{
    out.push((v >> 24) as u8);
    out.push((v >> 16) as u8);
    out.push((v >> 8) as u8);
    out.push(v as u8);
    proof {
        assert(final(out)@ =~= old(out)@ + be32(v));
    }
}

/// Reads the big-endian `u16` at `pos`.
pub fn read_u16_be(buf: &Vec<u8>, pos: usize) -> (r: u16)
    requires
        pos + 2 <= buf@.len(),
    ensures
        be16(r) == buf@.subrange(pos as int, pos + 2),
{
    let blen: usize = buf.len();
    let b0 = buf[pos];
    let b1 = buf[pos + 1];
    let r = (b0 as u16) << 8 | b1 as u16;
    proof {
        assert((r >> 8) as u8 == b0 && r as u8 == b1) by (bit_vector)
            requires
                r == (b0 as u16) << 8 | b1 as u16,
        ;
        assert(be16(r) =~= buf@.subrange(pos as int, pos + 2));
    }
    r
}

/// Reads the big-endian `u32` at `pos`.
pub fn read_u32_be(buf: &Vec<u8>, pos: usize) -> (r: u32)
    requires
        pos + 4 <= buf@.len(),
    ensures
        be32(r) == buf@.subrange(pos as int, pos + 4),
{
    let blen: usize = buf.len();
    let b0 = buf[pos];
    let b1 = buf[pos + 1];
    let b2 = buf[pos + 2];
    let b3 = buf[pos + 3];
    let r = (b0 as u32) << 24 | (b1 as u32) << 16 | (b2 as u32) << 8 | b3 as u32;
    proof {
        assert((r >> 24) as u8 == b0 && (r >> 16) as u8 == b1 && (r >> 8) as u8 == b2 && r as u8
            == b3) by (bit_vector)
            requires
                r == (b0 as u32) << 24 | (b1 as u32) << 16 | (b2 as u32) << 8 | b3 as u32,
        ;
        assert(be32(r) =~= buf@.subrange(pos as int, pos + 4));
    }
    r
}

/// `be16` distinguishes distinct values.
pub proof fn lemma_be16_injective(a: u16, b: u16)
    ensures
        be16(a) == be16(b) ==> a == b,
{
    if be16(a) == be16(b) {
        assert(be16(a)[0] == be16(b)[0] && be16(a)[1] == be16(b)[1]);
        assert((a >> 8) as u8 == (b >> 8) as u8 && a as u8 == b as u8 ==> a == b) by (bit_vector);
    }
}

/// `be32` distinguishes distinct values.
pub proof fn lemma_be32_injective(a: u32, b: u32)
    ensures
        be32(a) == be32(b) ==> a == b,
{
    if be32(a) == be32(b) {
        assert(be32(a)[0] == be32(b)[0] && be32(a)[1] == be32(b)[1] && be32(a)[2] == be32(b)[2]
            && be32(a)[3] == be32(b)[3]);
        assert((a >> 24) as u8 == (b >> 24) as u8 && (a >> 16) as u8 == (b >> 16) as u8 && (a
            >> 8) as u8 == (b >> 8) as u8 && a as u8 == b as u8 ==> a == b) by (bit_vector);
    }
}

/// The kind of a message-layer frame.
#[derive(Clone, Copy, Debug, Eq, PartialEq, Structural)]
pub enum PacketType {
    /// An ordinary packet with acknowledgements.
    Packet,
    /// One fragment of a larger packet.
    Fragment,
    /// A bare acknowledgement.
    Heartbeat,
}

impl PacketType {
    /// The wire tag of the kind.
    pub open spec fn spec_to_u8(self) -> u8 {
        match self {
            PacketType::Packet => 0,
            PacketType::Fragment => 1,
            PacketType::Heartbeat => 2,
        }
    }

    /// The wire tag of the kind.
    pub fn to_u8(self) -> (r: u8)
        ensures
            r == self.spec_to_u8(),
    {
        match self {
            PacketType::Packet => 0,
            PacketType::Fragment => 1,
            PacketType::Heartbeat => 2,
        }
    }
}

/// Why a connection attempt was refused.
#[derive(Clone, Copy, Debug, Eq, PartialEq, Structural)]
pub enum ConnectionError {
    /// The server refused the connection.
    Denied,
    /// The server is at capacity.
    MaxPlayer,
    /// The connection idled out.
    TimedOut,
}

impl ConnectionError {
    /// The wire code of the error; zero means no error.
    pub open spec fn spec_to_u8(self) -> u8 {
        match self {
            ConnectionError::Denied => 1,
            ConnectionError::MaxPlayer => 2,
            ConnectionError::TimedOut => 3,
        }
    }

    /// The wire code of the error.
    pub fn to_u8(self) -> (r: u8)
        ensures
            r == self.spec_to_u8(),
            r != 0,
    {
        match self {
            ConnectionError::Denied => 1,
            ConnectionError::MaxPlayer => 2,
            ConnectionError::TimedOut => 3,
        }
    }

    /// The error a non-zero wire code names.
    pub fn from_u8(code: u8) -> (r: Result<ConnectionError, NetcodeError>)
        ensures
            r matches Ok(e) ==> e.spec_to_u8() == code,
            r is Err <==> !(code == 1 || code == 2 || code == 3),
    {
        match code {
            1 => Ok(ConnectionError::Denied),
            2 => Ok(ConnectionError::MaxPlayer),
            3 => Ok(ConnectionError::TimedOut),
            _ => Err(NetcodeError::InvalidHeaderType),
        }
    }
}

/// Writes header bytes over the front of a caller-sized buffer, as the
/// transport expects, keeping whatever lies beyond them.
fn splice_front(writer: &mut Vec<u8>, bytes: Vec<u8>) -> (r: Result<(), NetcodeError>)
    ensures
        old(writer)@.len() < bytes@.len() ==> (r is Err && final(writer)@ == old(writer)@),
        old(writer)@.len() >= bytes@.len() ==> (r is Ok && final(writer)@ == bytes@ + old(
            writer,
        )@.skip(bytes@.len() as int)),
{
    if writer.len() < bytes.len() {
        return Err(NetcodeError::BufferTooSmall);
    }
    let n: usize = bytes.len();
    let mut i: usize = 0;
    while i < n
        invariant
            i <= n == bytes@.len() <= writer@.len(),
            writer@.len() == old(writer)@.len(),
            forall|k: int| 0 <= k < i ==> writer@[k] == bytes@[k],
            forall|k: int| i <= k < writer@.len() ==> writer@[k] == old(writer)@[k],
        decreases n - i,
    {
        writer.set(i, bytes[i]);
        i = i + 1;
    }
    proof {
        assert(final(writer)@ =~= bytes@ + old(writer)@.skip(bytes@.len() as int));
    }
    Ok(())
}

/// A connection header: one byte naming an error, or zero for none.
#[derive(Clone, Copy, Debug, Eq, PartialEq, Structural)]
pub struct ConnectionHeader {
    /// The error carried, if any.
    pub error: Option<ConnectionError>,
}

/// The wire bytes of a connection header.
pub open spec fn connection_header_bytes(h: ConnectionHeader) -> Seq<u8> {
    match h.error {
        Some(e) => seq![e.spec_to_u8()],
        None => seq![0u8],
    }
}

impl ConnectionHeader {
    /// A header that carries no error.
    pub fn ok() -> (r: ConnectionHeader)
        ensures
            r.error is None,
    {
        ConnectionHeader { error: None }
    }

    /// A header that carries an error.
    pub fn new(error: ConnectionError) -> (r: ConnectionHeader)
        ensures
            r.error == Some(error),
    {
        ConnectionHeader { error: Some(error) }
    }

    /// The encoded size: one byte.
    pub fn size(&self) -> (r: usize)
        ensures
            r == connection_header_bytes(*self).len(),
    {
        1
    }

    /// Writes the header over the front of the buffer.
    pub fn write(&self, writer: &mut Vec<u8>) -> (r: Result<(), NetcodeError>)
        ensures
            old(writer)@.len() < 1 ==> (r is Err && final(writer)@ == old(writer)@),
            old(writer)@.len() >= 1 ==> (r is Ok && final(writer)@ == connection_header_bytes(
                *self,
            ) + old(writer)@.skip(1)),
    {
        let mut bytes: Vec<u8> = Vec::new();
        match self.error {
            Some(e) => bytes.push(e.to_u8()),
            None => bytes.push(0),
        }
        proof {
            assert(bytes@ =~= connection_header_bytes(*self));
        }
        splice_front(writer, bytes)
    }

    /// Reads a connection header from the front of the buffer.
    pub fn parse(reader: &Vec<u8>) -> (r: Result<ConnectionHeader, NetcodeError>)
        ensures
            r matches Ok(h) ==> reader@.len() >= 1 && reader@.subrange(0, 1)
                == connection_header_bytes(h),
            forall|h0: ConnectionHeader|
                reader@.len() >= 1 && reader@.subrange(0, 1) == connection_header_bytes(h0) ==> (
                r matches Ok(h) && h == h0),
    {
        let blen: usize = reader.len();
        if blen < 1 {
            return Err(NetcodeError::BufferTooSmall);
        }
        let code = reader[0];
        let header = if code == 0 {
            ConnectionHeader { error: None }
        } else {
            match ConnectionError::from_u8(code) {
                Ok(e) => ConnectionHeader { error: Some(e) },
                Err(err) => {
                    proof {
                        assert forall|h0: ConnectionHeader|
                            !(reader@.subrange(0, 1) == connection_header_bytes(h0)) by {
                            assert(connection_header_bytes(h0)[0] == h0.error->0.spec_to_u8()
                                || connection_header_bytes(h0)[0] == 0);
                        }
                    }
                    return Err(err);
                },
            }
        };
        proof {
            assert(reader@.subrange(0, 1) =~= connection_header_bytes(header));
            assert forall|h0: ConnectionHeader|
                reader@.subrange(0, 1) == connection_header_bytes(h0) implies header == h0 by {
                assert(connection_header_bytes(h0)[0] == reader@[0]);
            }
        }
        Ok(header)
    }
}

/// A bare acknowledgement header.
#[derive(Clone, Copy, Debug, Eq, PartialEq, Structural)]
pub struct HeartbeatHeader {
    /// Highest received sequence.
    pub ack: u16,
    /// Bitmask of the sequences before it.
    pub ack_bits: u32,
}

/// The wire bytes of a heartbeat header.
pub open spec fn heartbeat_header_bytes(h: HeartbeatHeader) -> Seq<u8> {
    seq![2u8] + be16(h.ack) + be32(h.ack_bits)
}

impl HeartbeatHeader {
    /// The encoded size: seven bytes.
    pub fn size(&self) -> (r: usize)
        ensures
            r == heartbeat_header_bytes(*self).len(),
    {
        proof {
            assert(heartbeat_header_bytes(*self).len() == 7);
        }
        7
    }

    /// Writes the header over the front of the buffer.
    pub fn write(&self, writer: &mut Vec<u8>) -> (r: Result<(), NetcodeError>)
        ensures
            old(writer)@.len() < 7 ==> (r is Err && final(writer)@ == old(writer)@),
            old(writer)@.len() >= 7 ==> (r is Ok && final(writer)@ == heartbeat_header_bytes(
                *self,
            ) + old(writer)@.skip(7)),
    {
        let mut bytes: Vec<u8> = Vec::new();
        bytes.push(PacketType::Heartbeat.to_u8());
        write_u16_be(&mut bytes, self.ack);
        write_u32_be(&mut bytes, self.ack_bits);
        proof {
            assert(bytes@ =~= heartbeat_header_bytes(*self));
        }
        splice_front(writer, bytes)
    }

    /// Reads a heartbeat header from the front of the buffer.
    pub fn parse(reader: &Vec<u8>) -> (r: Result<HeartbeatHeader, NetcodeError>)
        ensures
            r matches Ok(h) ==> reader@.len() >= 7 && reader@.subrange(0, 7)
                == heartbeat_header_bytes(h),
            forall|h0: HeartbeatHeader|
                reader@.len() >= 7 && reader@.subrange(0, 7) == heartbeat_header_bytes(h0) ==> (
                r matches Ok(h) && h == h0),
    {
        let blen: usize = reader.len();
        if blen < 7 {
            return Err(NetcodeError::BufferTooSmall);
        }
        if reader[0] != 2 {
            proof {
                assert forall|h0: HeartbeatHeader|
                    !(reader@.subrange(0, 7) == heartbeat_header_bytes(h0)) by {
                    assert(heartbeat_header_bytes(h0)[0] == 2);
                }
            }
            return Err(NetcodeError::InvalidHeaderType);
        }
        let ack = read_u16_be(reader, 1);
        let ack_bits = read_u32_be(reader, 3);
        let header = HeartbeatHeader { ack, ack_bits };
        proof {
            assert(reader@.subrange(0, 7) =~= heartbeat_header_bytes(header));
            assert forall|h0: HeartbeatHeader|
                reader@.subrange(0, 7) == heartbeat_header_bytes(h0) implies header == h0 by {
                assert(be16(h0.ack) =~= reader@.subrange(0, 7).subrange(1, 3));
                assert(be16(ack) =~= reader@.subrange(0, 7).subrange(1, 3));
                lemma_be16_injective(ack, h0.ack);
                assert(be32(h0.ack_bits) =~= reader@.subrange(0, 7).subrange(3, 7));
                assert(be32(ack_bits) =~= reader@.subrange(0, 7).subrange(3, 7));
                lemma_be32_injective(ack_bits, h0.ack_bits);
            }
        }
        Ok(header)
    }
}

/// An acknowledgement header for an ordinary packet.
#[derive(Clone, Copy, Debug, Eq, PartialEq, Structural)]
pub struct PacketHeader {
    /// This packet's sequence.
    pub sequence: u16,
    /// Highest received sequence.
    pub ack: u16,
    /// Bitmask of the sequences before it.
    pub ack_bits: u32,
}

/// The wire bytes of a packet header.
pub open spec fn packet_header_bytes(h: PacketHeader) -> Seq<u8> {
    seq![0u8] + be16(h.sequence) + be16(h.ack) + be32(h.ack_bits)
}

impl PacketHeader {
    /// The encoded size: nine bytes.
    pub fn size(&self) -> (r: usize)
        ensures
            r == packet_header_bytes(*self).len(),
    {
        proof {
            assert(packet_header_bytes(*self).len() == 9);
        }
        9
    }

    /// Writes the header over the front of the buffer.
    pub fn write(&self, writer: &mut Vec<u8>) -> (r: Result<(), NetcodeError>)
        ensures
            old(writer)@.len() < 9 ==> (r is Err && final(writer)@ == old(writer)@),
            old(writer)@.len() >= 9 ==> (r is Ok && final(writer)@ == packet_header_bytes(*self)
                + old(writer)@.skip(9)),
    {
        let mut bytes: Vec<u8> = Vec::new();
        bytes.push(PacketType::Packet.to_u8());
        write_u16_be(&mut bytes, self.sequence);
        write_u16_be(&mut bytes, self.ack);
        write_u32_be(&mut bytes, self.ack_bits);
        proof {
            assert(bytes@ =~= packet_header_bytes(*self));
        }
        splice_front(writer, bytes)
    }

    /// Reads a packet header from the front of the buffer.
    pub fn parse(reader: &Vec<u8>) -> (r: Result<PacketHeader, NetcodeError>)
        ensures
            r matches Ok(h) ==> reader@.len() >= 9 && reader@.subrange(0, 9)
                == packet_header_bytes(h),
            forall|h0: PacketHeader|
                reader@.len() >= 9 && reader@.subrange(0, 9) == packet_header_bytes(h0) ==> (
                r matches Ok(h) && h == h0),
    {
        let blen: usize = reader.len();
        if blen < 9 {
            return Err(NetcodeError::BufferTooSmall);
        }
        if reader[0] != 0 {
            proof {
                assert forall|h0: PacketHeader|
                    !(reader@.subrange(0, 9) == packet_header_bytes(h0)) by {
                    assert(packet_header_bytes(h0)[0] == 0);
                }
            }
            return Err(NetcodeError::InvalidHeaderType);
        }
        let sequence = read_u16_be(reader, 1);
        let ack = read_u16_be(reader, 3);
        let ack_bits = read_u32_be(reader, 5);
        let header = PacketHeader { sequence, ack, ack_bits };
        proof {
            assert(reader@.subrange(0, 9) =~= packet_header_bytes(header));
            assert forall|h0: PacketHeader|
                reader@.subrange(0, 9) == packet_header_bytes(h0) implies header == h0 by {
                assert(be16(h0.sequence) =~= reader@.subrange(0, 9).subrange(1, 3));
                assert(be16(sequence) =~= reader@.subrange(0, 9).subrange(1, 3));
                lemma_be16_injective(sequence, h0.sequence);
                assert(be16(h0.ack) =~= reader@.subrange(0, 9).subrange(3, 5));
                assert(be16(ack) =~= reader@.subrange(0, 9).subrange(3, 5));
                lemma_be16_injective(ack, h0.ack);
                assert(be32(h0.ack_bits) =~= reader@.subrange(0, 9).subrange(5, 9));
                assert(be32(ack_bits) =~= reader@.subrange(0, 9).subrange(5, 9));
                lemma_be32_injective(ack_bits, h0.ack_bits);
            }
        }
        Ok(header)
    }
}

/// The header of one fragment; only the first fragment repeats the packet
/// header.
#[derive(Clone, Copy, Debug, Eq, PartialEq, Structural)]
pub struct FragmentHeader {
    /// Sequence of the packet the fragment belongs to.
    pub sequence: u16,
    /// This fragment's index.
    pub fragment_id: u8,
    /// How many fragments the packet has.
    pub num_fragments: u8,
    /// The packet header, on the first fragment only.
    pub packet_header: Option<PacketHeader>,
}

/// The wire bytes of a fragment header.
pub open spec fn fragment_header_bytes(h: FragmentHeader) -> Seq<u8> {
    seq![1u8, h.fragment_id, h.num_fragments] + if h.fragment_id == 0 {
        packet_header_bytes(h.packet_header->0)
    } else {
        be16(h.sequence)
    }
}

/// A fragment header's fields agree with its layout: the packet header is
/// present exactly on the first fragment and repeats the sequence.
pub open spec fn fragment_header_wf(h: FragmentHeader) -> bool {
    if h.fragment_id == 0 {
        h.packet_header matches Some(ph) && ph.sequence == h.sequence
    } else {
        h.packet_header is None
    }
}

impl FragmentHeader {
    /// The encoded size: twelve bytes on the first fragment, five after.
    pub fn size(&self) -> (r: usize)
        requires
            fragment_header_wf(*self),
        ensures
            r == fragment_header_bytes(*self).len(),
    {
        if self.fragment_id == 0 {
            proof {
                assert(fragment_header_bytes(*self).len() == 12);
            }
            12
        } else {
            proof {
                assert(fragment_header_bytes(*self).len() == 5);
            }
            5
        }
    }

    /// Writes the header over the front of the buffer. Fails when the first
    /// fragment is missing its packet header.
    pub fn write(&self, writer: &mut Vec<u8>) -> (r: Result<(), NetcodeError>)
        ensures
            self.fragment_id == 0 && self.packet_header is None ==> (r is Err && final(writer)@
                == old(writer)@),
            !(self.fragment_id == 0 && self.packet_header is None) ==> {
                let bytes = fragment_header_bytes(*self);
                &&& (old(writer)@.len() < bytes.len() ==> (r is Err && final(writer)@ == old(
                    writer,
                )@))
                &&& (old(writer)@.len() >= bytes.len() ==> (r is Ok && final(writer)@ == bytes
                    + old(writer)@.skip(bytes.len() as int)))
            },
    {
        let mut bytes: Vec<u8> = Vec::new();
        bytes.push(PacketType::Fragment.to_u8());
        bytes.push(self.fragment_id);
        bytes.push(self.num_fragments);
        if self.fragment_id == 0 {
            match &self.packet_header {
                Some(ph) => {
                    bytes.push(PacketType::Packet.to_u8());
                    write_u16_be(&mut bytes, ph.sequence);
                    write_u16_be(&mut bytes, ph.ack);
                    write_u32_be(&mut bytes, ph.ack_bits);
                },
                None => {
                    return Err(NetcodeError::FragmentMissingPacketHeader);
                },
            }
        } else {
            write_u16_be(&mut bytes, self.sequence);
        }
        proof {
            assert(bytes@ =~= fragment_header_bytes(*self));
        }
        splice_front(writer, bytes)
    }

    /// Reads a fragment header from the front of the buffer. The sequence
    /// is taken from the packet header on the first fragment.
    pub fn parse(reader: &Vec<u8>) -> (r: Result<FragmentHeader, NetcodeError>)
        ensures
            r matches Ok(h) ==> fragment_header_wf(h) && reader@.len()
                >= fragment_header_bytes(h).len() && reader@.subrange(
                0,
                fragment_header_bytes(h).len() as int,
            ) == fragment_header_bytes(h),
            forall|h0: FragmentHeader|
                fragment_header_wf(h0) && reader@.len() >= fragment_header_bytes(h0).len()
                    && reader@.subrange(0, fragment_header_bytes(h0).len() as int)
                    == fragment_header_bytes(h0) ==> (r matches Ok(h) && h == h0),
    {
        let blen: usize = reader.len();
        if blen < 5 {
            proof {
                assert forall|h0: FragmentHeader|
                    fragment_header_wf(h0) implies fragment_header_bytes(h0).len() >= 5 by {}
            }
            return Err(NetcodeError::BufferTooSmall);
        }
        if reader[0] != 1 {
            proof {
                assert forall|h0: FragmentHeader|
                    !(fragment_header_wf(h0) && reader@.len() >= fragment_header_bytes(h0).len()
                        && reader@.subrange(0, fragment_header_bytes(h0).len() as int)
                        == fragment_header_bytes(h0)) by {
                    if fragment_header_wf(h0) && reader@.len() >= fragment_header_bytes(h0).len()
                        && reader@.subrange(0, fragment_header_bytes(h0).len() as int)
                        == fragment_header_bytes(h0) {
                        assert(fragment_header_bytes(h0)[0] == 1);
                        assert(reader@[0] == 1);
                    }
                }
            }
            return Err(NetcodeError::InvalidHeaderType);
        }
        let fragment_id = reader[1];
        let num_fragments = reader[2];
        if fragment_id == 0 {
            if blen < 12 {
                proof {
                    assert forall|h0: FragmentHeader|
                        !(fragment_header_wf(h0) && reader@.len() >= fragment_header_bytes(
                            h0,
                        ).len() && reader@.subrange(0, fragment_header_bytes(h0).len() as int)
                            == fragment_header_bytes(h0)) by {
                        if fragment_header_wf(h0) && reader@.len() >= fragment_header_bytes(
                            h0,
                        ).len() && reader@.subrange(0, fragment_header_bytes(h0).len() as int)
                            == fragment_header_bytes(h0) {
                            assert(fragment_header_bytes(h0)[1] == h0.fragment_id);
                            assert(h0.fragment_id == 0);
                            assert(fragment_header_bytes(h0).len() == 12);
                        }
                    }
                }
                return Err(NetcodeError::BufferTooSmall);
            }
            if reader[3] != 0 {
                proof {
                    assert forall|h0: FragmentHeader|
                        !(fragment_header_wf(h0) && reader@.len() >= fragment_header_bytes(
                            h0,
                        ).len() && reader@.subrange(0, fragment_header_bytes(h0).len() as int)
                            == fragment_header_bytes(h0)) by {
                        if fragment_header_wf(h0) && reader@.len() >= fragment_header_bytes(
                            h0,
                        ).len() && reader@.subrange(0, fragment_header_bytes(h0).len() as int)
                            == fragment_header_bytes(h0) {
                            assert(fragment_header_bytes(h0)[1] == h0.fragment_id);
                            if h0.fragment_id == 0 {
                                assert(fragment_header_bytes(h0)[3] == 0);
                            } else {
                                assert(fragment_header_bytes(h0).len() == 5);
                                assert(fragment_header_bytes(h0)[1] == reader@[1]);
                            }
                        }
                    }
                }
                return Err(NetcodeError::InvalidHeaderType);
            }
            let sequence = read_u16_be(reader, 4);
            let ack = read_u16_be(reader, 6);
            let ack_bits = read_u32_be(reader, 8);
            let ph = PacketHeader { sequence, ack, ack_bits };
            let header = FragmentHeader {
                sequence,
                fragment_id,
                num_fragments,
                packet_header: Some(ph),
            };
            proof {
                assert(reader@.subrange(0, 12) =~= fragment_header_bytes(header));
                assert forall|h0: FragmentHeader|
                    fragment_header_wf(h0) && reader@.len() >= fragment_header_bytes(h0).len()
                        && reader@.subrange(0, fragment_header_bytes(h0).len() as int)
                        == fragment_header_bytes(h0) implies header == h0 by {
                    assert(fragment_header_bytes(h0)[1] == h0.fragment_id);
                    if h0.fragment_id != 0 {
                        assert(fragment_header_bytes(h0)[1] == reader@[1]);
                    }
                    assert(h0.fragment_id == 0);
                    let hb = fragment_header_bytes(h0);
                    assert(hb.len() == 12);
                    let pb = packet_header_bytes(h0.packet_header->0);
                    assert(pb =~= hb.subrange(3, 12));
                    assert forall|k: int| 0 <= k < 9 implies pb[k] == reader@[3 + k] by {
                        assert(pb[k] == hb[3 + k]);
                        assert(hb[3 + k] == reader@.subrange(0, 12)[3 + k]);
                    }
                    assert(be16(h0.packet_header->0.sequence) =~= pb.subrange(1, 3));
                    assert(be16(h0.packet_header->0.ack) =~= pb.subrange(3, 5));
                    assert(be32(h0.packet_header->0.ack_bits) =~= pb.subrange(5, 9));
                    assert(be16(h0.packet_header->0.sequence) =~= reader@.subrange(4, 6));
                    assert(be16(sequence) =~= reader@.subrange(4, 6));
                    lemma_be16_injective(sequence, h0.packet_header->0.sequence);
                    assert(be16(h0.packet_header->0.ack) =~= reader@.subrange(6, 8));
                    assert(be16(ack) =~= reader@.subrange(6, 8));
                    lemma_be16_injective(ack, h0.packet_header->0.ack);
                    assert(be32(h0.packet_header->0.ack_bits) =~= reader@.subrange(8, 12));
                    assert(be32(ack_bits) =~= reader@.subrange(8, 12));
                    lemma_be32_injective(ack_bits, h0.packet_header->0.ack_bits);
                    assert(hb[1] == reader@.subrange(0, 12)[1]);
                    assert(hb[2] == reader@.subrange(0, 12)[2]);
                    assert(h0.fragment_id == fragment_id);
                    assert(h0.num_fragments == num_fragments);
                    assert(h0.packet_header->0 == ph);
                    assert(h0.packet_header == Some(ph));
                    assert(h0.sequence == sequence);
                }
            }
            Ok(header)
        } else {
            let sequence = read_u16_be(reader, 3);
            let header = FragmentHeader {
                sequence,
                fragment_id,
                num_fragments,
                packet_header: None,
            };
            proof {
                assert(reader@.subrange(0, 5) =~= fragment_header_bytes(header));
                assert forall|h0: FragmentHeader|
                    fragment_header_wf(h0) && reader@.len() >= fragment_header_bytes(h0).len()
                        && reader@.subrange(0, fragment_header_bytes(h0).len() as int)
                        == fragment_header_bytes(h0) implies header == h0 by {
                    assert(fragment_header_bytes(h0)[1] == h0.fragment_id);
                    if h0.fragment_id == 0 {
                        assert(fragment_header_bytes(h0)[1] == reader@[1]);
                    }
                    assert(h0.fragment_id == fragment_id);
                    let hb = fragment_header_bytes(h0);
                    assert(hb.len() == 5);
                    assert(be16(h0.sequence) =~= hb.subrange(3, 5));
                    assert forall|k: int| 0 <= k < 5 implies hb[k] == reader@[k] by {
                        assert(hb[k] == reader@.subrange(0, 5)[k]);
                    }
                    assert(be16(h0.sequence) =~= reader@.subrange(3, 5));
                    assert(be16(sequence) =~= reader@.subrange(3, 5));
                    lemma_be16_injective(sequence, h0.sequence);
                    assert(hb[1] == h0.fragment_id && hb[2] == h0.num_fragments);
                    assert(h0.num_fragments == num_fragments);
                }
            }
            Ok(header)
        }
    }
}

/// What every message-layer header offers: parsing from the front of a
/// buffer, writing over the front of one, and its encoded size.
pub trait HeaderParser: Sized {
    /// The header type produced by parsing.
    type Header;

    /// Reads a header from the front of the buffer.
    fn parse(reader: &Vec<u8>) -> Result<Self::Header, NetcodeError>;

    /// Writes the header over the front of the buffer.
    fn write(&self, writer: &mut Vec<u8>) -> Result<(), NetcodeError>;

    /// The header's encoded size in bytes.
    fn size(&self) -> usize;
}

impl HeaderParser for ConnectionHeader {
    type Header = ConnectionHeader;

    fn parse(reader: &Vec<u8>) -> Result<ConnectionHeader, NetcodeError> {
        ConnectionHeader::parse(reader)
    }

    fn write(&self, writer: &mut Vec<u8>) -> Result<(), NetcodeError> {
        ConnectionHeader::write(self, writer)
    }

    fn size(&self) -> usize {
        ConnectionHeader::size(self)
    }
}

impl HeaderParser for HeartbeatHeader {
    type Header = HeartbeatHeader;

    fn parse(reader: &Vec<u8>) -> Result<HeartbeatHeader, NetcodeError> {
        HeartbeatHeader::parse(reader)
    }

    fn write(&self, writer: &mut Vec<u8>) -> Result<(), NetcodeError> {
        HeartbeatHeader::write(self, writer)
    }

    fn size(&self) -> usize {
        HeartbeatHeader::size(self)
    }
}

impl HeaderParser for PacketHeader {
    type Header = PacketHeader;

    fn parse(reader: &Vec<u8>) -> Result<PacketHeader, NetcodeError> {
        PacketHeader::parse(reader)
    }

    fn write(&self, writer: &mut Vec<u8>) -> Result<(), NetcodeError> {
        PacketHeader::write(self, writer)
    }

    fn size(&self) -> usize {
        PacketHeader::size(self)
    }
}


impl HeaderParser for FragmentHeader {
    type Header = FragmentHeader;

    fn parse(reader: &Vec<u8>) -> Result<FragmentHeader, NetcodeError> {
        FragmentHeader::parse(reader)
    }

    fn write(&self, writer: &mut Vec<u8>) -> Result<(), NetcodeError> {
        FragmentHeader::write(self, writer)
    }

    fn size(&self) -> usize {
        if self.fragment_id == 0 {
            12
        } else {
            5
        }
    }
}

} // verus!
