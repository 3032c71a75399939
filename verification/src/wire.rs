//! Fixed-layout fields of a DNS message, in network byte order.

use vstd::prelude::*;
use crate::error::Error;

verus! {

/// The 16-bit value whose big-endian encoding is `hi`, `lo`.
pub open spec fn be16(hi: u8, lo: u8) -> u16 {
    (hi * 256 + lo) as u16
}

/// The more significant byte of `x`.
pub open spec fn hi8(x: u16) -> u8 {
    (x / 256) as u8
}

/// The less significant byte of `x`.
pub open spec fn lo8(x: u16) -> u8 {
    (x % 256) as u8
}

/// The two bytes of `x`, most significant first.
pub open spec fn be16_bytes(x: u16) -> Seq<u8> {
    seq![hi8(x), lo8(x)]
}

/// 1 for `true`, 0 for `false`.
pub open spec fn bit(b: bool) -> int {
    if b { 1 } else { 0 }
}

/// The header of a DNS message.
#[derive(Debug, Clone, Copy, PartialEq, Eq, Structural)]
pub struct Header {
    /// Correlation token, echoed in the response.
    pub id: u16,
    /// Set in a response, clear in a query.
    pub qr: bool,
    /// Kind of query, 4 bits; 0 is a standard query.
    pub opcode: u8,
    /// Authoritative answer.
    pub aa: bool,
    /// Truncated.
    pub tc: bool,
    /// Recursion desired.
    pub rd: bool,
    /// Recursion available.
    pub ra: bool,
    /// Reserved, 3 bits.
    pub z: u8,
    /// Result code, 4 bits; 0 is no error.
    pub rcode: u8,
    /// Number of questions.
    pub qdcount: u16,
    /// Number of answers.
    pub ancount: u16,
    /// Number of authority records.
    pub nscount: u16,
    /// Number of additional records.
    pub arcount: u16,
}

impl Header {
    /// Every field fits the bits that the wire gives it.
    pub open spec fn wf(self) -> bool {
        self.opcode < 16 && self.z < 8 && self.rcode < 16
    }

    /// The first flags byte: QR, OPCODE, AA, TC, RD from the top bit down.
    pub open spec fn flags_hi(self) -> u8 {
        (bit(self.qr) * 128 + (self.opcode % 16) * 8 + bit(self.aa) * 4 + bit(self.tc) * 2 + bit(
            self.rd,
        )) as u8
    }

    /// The second flags byte: RA, Z, RCODE from the top bit down.
    pub open spec fn flags_lo(self) -> u8 {
        (bit(self.ra) * 128 + (self.z % 8) * 16 + self.rcode % 16) as u8
    }

    /// The 12 bytes of the header on the wire. Bits of `opcode`, `z` and
    /// `rcode` beyond the field's width are dropped.
    pub open spec fn wire(self) -> Seq<u8> {
        seq![
            hi8(self.id),
            lo8(self.id),
            self.flags_hi(),
            self.flags_lo(),
            hi8(self.qdcount),
            lo8(self.qdcount),
            hi8(self.ancount),
            lo8(self.ancount),
            hi8(self.nscount),
            lo8(self.nscount),
            hi8(self.arcount),
            lo8(self.arcount),
        ]
    }

    /// The header that the first 12 bytes of `bytes` hold.
    pub open spec fn parse(bytes: Seq<u8>) -> Header
        recommends
            bytes.len() >= 12,
    {
        Header {
            id: be16(bytes[0], bytes[1]),
            qr: bytes[2] >= 128,
            opcode: ((bytes[2] / 8) % 16) as u8,
            aa: (bytes[2] / 4) % 2 == 1,
            tc: (bytes[2] / 2) % 2 == 1,
            rd: bytes[2] % 2 == 1,
            ra: bytes[3] >= 128,
            z: ((bytes[3] / 16) % 8) as u8,
            rcode: (bytes[3] % 16) as u8,
            qdcount: be16(bytes[4], bytes[5]),
            ancount: be16(bytes[6], bytes[7]),
            nscount: be16(bytes[8], bytes[9]),
            arcount: be16(bytes[10], bytes[11]),
        }
    }

    /// Number of bytes of a header on the wire.
    pub fn packed_bytes() -> (n: usize)
        ensures
            n == 12,
    {
        12
    }

    /// Encodes the header.
    pub fn encode(&self) -> (out: [u8; 12])
        ensures
            out@ == self.wire(),
    {
        let hi: u8 = (if self.qr { 128u8 } else { 0u8 }) + (self.opcode % 16) * 8 + (if self.aa { 4u8 } else { 0u8 })
            + (if self.tc { 2u8 } else { 0u8 }) + (if self.rd { 1u8 } else { 0u8 });
        let lo: u8 = (if self.ra { 128u8 } else { 0u8 }) + (self.z % 8) * 16 + self.rcode % 16;
        let out: [u8; 12] = [
            (self.id / 256) as u8,
            (self.id % 256) as u8,
            hi,
            lo,
            (self.qdcount / 256) as u8,
            (self.qdcount % 256) as u8,
            (self.ancount / 256) as u8,
            (self.ancount % 256) as u8,
            (self.nscount / 256) as u8,
            (self.nscount % 256) as u8,
            (self.arcount / 256) as u8,
            (self.arcount % 256) as u8,
        ];
        assert(out@ =~= self.wire());
        out
    }

    /// Decodes the header at the start of `buf`. Fails exactly when fewer
    /// than 12 bytes are there.
    pub fn decode(buf: &[u8]) -> (r: Result<Header, Error>)
        ensures
            buf@.len() < 12 ==> r == Err::<Header, Error>(Error::PackingError),
            buf@.len() >= 12 ==> r == Ok::<Header, Error>(Header::parse(buf@)),
    {
        if buf.len() < 12 {
            return Err(Error::PackingError);
        }
        let b2: u8 = buf[2];
        let b3: u8 = buf[3];
        Ok(
            Header {
                id: read_u16(buf, 0),
                qr: b2 >= 128,
                opcode: (b2 / 8) % 16,
                aa: (b2 / 4) % 2 == 1,
                tc: (b2 / 2) % 2 == 1,
                rd: b2 % 2 == 1,
                ra: b3 >= 128,
                z: (b3 / 16) % 8,
                rcode: b3 % 16,
                qdcount: read_u16(buf, 4),
                ancount: read_u16(buf, 6),
                nscount: read_u16(buf, 8),
                arcount: read_u16(buf, 10),
            },
        )
    }
}

/// Encoding a header and decoding the bytes gives the header back, for
/// every header whose fields fit their bits.
pub proof fn header_round_trip(h: Header)
    requires
        h.wf(),
    ensures
        h.wire().len() == 12,
        Header::parse(h.wire()) == h,
{
    let bytes = h.wire();
    bytes_of_be16(h.id);
    bytes_of_be16(h.qdcount);
    bytes_of_be16(h.ancount);
    bytes_of_be16(h.nscount);
    bytes_of_be16(h.arcount);
    byte_of_flags_hi(h.qr, h.opcode, h.aa, h.tc, h.rd);
    byte_of_flags_lo(h.ra, h.z, h.rcode);
    assert(bytes[2] == h.flags_hi());
    assert(bytes[3] == h.flags_lo());
}

proof fn byte_of_flags_hi(qr: bool, opcode: u8, aa: bool, tc: bool, rd: bool)
    requires
        opcode < 16,
    ensures
        ({
            let b = bit(qr) * 128 + (opcode % 16) * 8 + bit(aa) * 4 + bit(tc) * 2 + bit(rd);
            &&& 0 <= b < 256
            &&& (b >= 128) == qr
            &&& (b / 8) % 16 == opcode
            &&& ((b / 4) % 2 == 1) == aa
            &&& ((b / 2) % 2 == 1) == tc
            &&& (b % 2 == 1) == rd
        }),
{
}

proof fn byte_of_flags_lo(ra: bool, z: u8, rcode: u8)
    requires
        z < 8,
        rcode < 16,
    ensures
        ({
            let b = bit(ra) * 128 + (z % 8) * 16 + rcode % 16;
            &&& 0 <= b < 256
            &&& (b >= 128) == ra
            &&& (b / 16) % 8 == z
            &&& b % 16 == rcode
        }),
{
}

/// Decoding 12 bytes and encoding the header gives the bytes back, and a
/// decoded header has fields that fit their bits.
pub proof fn header_bytes_round_trip(bytes: Seq<u8>)
    requires
        bytes.len() == 12,
    ensures
        Header::parse(bytes).wf(),
        Header::parse(bytes).wire() == bytes,
{
    let h = Header::parse(bytes);
    be16_of_bytes(bytes[0], bytes[1]);
    be16_of_bytes(bytes[4], bytes[5]);
    be16_of_bytes(bytes[6], bytes[7]);
    be16_of_bytes(bytes[8], bytes[9]);
    be16_of_bytes(bytes[10], bytes[11]);
    flags_hi_of_byte(bytes[2]);
    flags_lo_of_byte(bytes[3]);
    assert(h.flags_hi() == bytes[2]);
    assert(h.flags_lo() == bytes[3]);
    assert(h.wire() =~= bytes);
}

/// Splitting a 16-bit value built from two bytes gives the bytes back.
pub proof fn be16_of_bytes(hi: u8, lo: u8)
    ensures
        hi8(be16(hi, lo)) == hi,
        lo8(be16(hi, lo)) == lo,
{
}

/// Joining the two bytes of a 16-bit value gives the value back.
pub proof fn bytes_of_be16(x: u16)
    ensures
        be16(hi8(x), lo8(x)) == x,
{
}

proof fn flags_hi_of_byte(b: u8)
    ensures
        bit(b >= 128) * 128 + (((b / 8) % 16) % 16) * 8 + bit((b / 4) % 2 == 1) * 4 + bit(
            (b / 2) % 2 == 1,
        ) * 2 + bit(b % 2 == 1) == b,
{
}

proof fn flags_lo_of_byte(b: u8)
    ensures
        bit(b >= 128) * 128 + (((b / 16) % 8) % 8) * 16 + (b % 16) % 16 == b,
{
}

/// The fixed fields that follow the name of a question.
#[derive(Debug, Clone, Copy, PartialEq, Eq, Structural)]
pub struct QuestionInfo {
    /// Record type asked for.
    pub kind: u16,
    /// Class asked for.
    pub class: u16,
}

impl QuestionInfo {
    /// The 4 bytes of the fields on the wire.
    pub open spec fn wire(self) -> Seq<u8> {
        be16_bytes(self.kind) + be16_bytes(self.class)
    }

    /// The fields that the first 4 bytes of `bytes` hold.
    pub open spec fn parse(bytes: Seq<u8>) -> QuestionInfo
        recommends
            bytes.len() >= 4,
    {
        QuestionInfo { kind: be16(bytes[0], bytes[1]), class: be16(bytes[2], bytes[3]) }
    }

    /// Number of bytes of the fields on the wire.
    pub fn packed_bytes() -> (n: usize)
        ensures
            n == 4,
    {
        4
    }

    /// Encodes the fields.
    pub fn encode(&self) -> (out: [u8; 4])
        ensures
            out@ == self.wire(),
    {
        let out: [u8; 4] = [
            (self.kind / 256) as u8,
            (self.kind % 256) as u8,
            (self.class / 256) as u8,
            (self.class % 256) as u8,
        ];
        assert(out@ =~= self.wire());
        out
    }

    /// Decodes the fields at the start of `buf`. Fails exactly when fewer
    /// than 4 bytes are there.
    pub fn decode(buf: &[u8]) -> (r: Result<QuestionInfo, Error>)
        ensures
            buf@.len() < 4 ==> r == Err::<QuestionInfo, Error>(Error::PackingError),
            buf@.len() >= 4 ==> r == Ok::<QuestionInfo, Error>(QuestionInfo::parse(buf@)),
    {
        if buf.len() < 4 {
            return Err(Error::PackingError);
        }
        Ok(QuestionInfo { kind: read_u16(buf, 0), class: read_u16(buf, 2) })
    }
}

/// Encoding then decoding question fields gives them back.
pub proof fn question_info_round_trip(q: QuestionInfo)
    ensures
        q.wire().len() == 4,
        QuestionInfo::parse(q.wire()) == q,
{
}

/// The 32-bit value whose big-endian encoding is `b0`, `b1`, `b2`, `b3`.
pub open spec fn be32(b0: u8, b1: u8, b2: u8, b3: u8) -> u32 {
    (b0 * 16777216 + b1 * 65536 + b2 * 256 + b3) as u32
}

/// The four bytes of `x`, most significant first.
pub open spec fn be32_bytes(x: u32) -> Seq<u8> {
    seq![
        (x / 16777216) as u8,
        ((x / 65536) % 256) as u8,
        ((x / 256) % 256) as u8,
        (x % 256) as u8,
    ]
}

/// The fixed fields that follow the owner name of a resource record.
#[derive(Debug, Clone, Copy, PartialEq, Eq, Structural)]
pub struct ResourceInfo {
    /// Record type.
    pub kind: u16,
    /// Class.
    pub class: u16,
    /// Seconds for which the record may be cached.
    pub ttl: u32,
    /// Number of bytes of record data that follow.
    pub rdlength: u16,
}

impl ResourceInfo {
    /// The 10 bytes of the fields on the wire.
    pub open spec fn wire(self) -> Seq<u8> {
        be16_bytes(self.kind) + be16_bytes(self.class) + be32_bytes(self.ttl) + be16_bytes(
            self.rdlength,
        )
    }

    /// The fields that the first 10 bytes of `bytes` hold.
    pub open spec fn parse(bytes: Seq<u8>) -> ResourceInfo
        recommends
            bytes.len() >= 10,
    {
        ResourceInfo {
            kind: be16(bytes[0], bytes[1]),
            class: be16(bytes[2], bytes[3]),
            ttl: be32(bytes[4], bytes[5], bytes[6], bytes[7]),
            rdlength: be16(bytes[8], bytes[9]),
        }
    }

    /// Number of bytes of the fields on the wire.
    pub fn packed_bytes() -> (n: usize)
        ensures
            n == 10,
    {
        10
    }

    /// Encodes the fields.
    pub fn encode(&self) -> (out: [u8; 10])
        ensures
            out@ == self.wire(),
    {
        let out: [u8; 10] = [
            (self.kind / 256) as u8,
            (self.kind % 256) as u8,
            (self.class / 256) as u8,
            (self.class % 256) as u8,
            (self.ttl / 16777216) as u8,
            ((self.ttl / 65536) % 256) as u8,
            ((self.ttl / 256) % 256) as u8,
            (self.ttl % 256) as u8,
            (self.rdlength / 256) as u8,
            (self.rdlength % 256) as u8,
        ];
        assert(out@ =~= self.wire());
        out
    }

    /// Decodes the fields at the start of `buf`. Fails exactly when fewer
    /// than 10 bytes are there.
    pub fn decode(buf: &[u8]) -> (r: Result<ResourceInfo, Error>)
        ensures
            buf@.len() < 10 ==> r == Err::<ResourceInfo, Error>(Error::PackingError),
            buf@.len() >= 10 ==> r == Ok::<ResourceInfo, Error>(ResourceInfo::parse(buf@)),
    {
        if buf.len() < 10 {
            return Err(Error::PackingError);
        }
        let b0: u32 = buf[4] as u32;
        let b1: u32 = buf[5] as u32;
        let b2: u32 = buf[6] as u32;
        let b3: u32 = buf[7] as u32;
        Ok(
            ResourceInfo {
                kind: read_u16(buf, 0),
                class: read_u16(buf, 2),
                ttl: b0 * 16777216 + b1 * 65536 + b2 * 256 + b3,
                rdlength: read_u16(buf, 8),
            },
        )
    }
}

/// Encoding then decoding record fields gives them back.
pub proof fn resource_info_round_trip(r: ResourceInfo)
    ensures
        r.wire().len() == 10,
        ResourceInfo::parse(r.wire()) == r,
{
}

/// Reads the big-endian 16-bit value at `at`.
pub fn read_u16(buf: &[u8], at: usize) -> (x: u16)
    requires
        at + 2 <= buf@.len(),
    ensures
        x == be16(buf@[at as int], buf@[at + 1]),
{
    let hi: u16 = buf[at] as u16;
    let lo: u16 = buf[at + 1] as u16;
    hi * 256 + lo
}

} // verus!
