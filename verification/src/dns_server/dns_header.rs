use vstd::prelude::*;

verus! {

/// The fixed 12-byte DNS message header; every field is big-endian on the
/// wire, and the eight one-bit to four-bit flag fields are packed into
/// bytes 2 and 3.
#[derive(Debug, Clone, Copy, PartialEq, Eq, Structural)]
pub struct DnsHeader {
    pub id: u16,
    pub qr: u8,
    pub opcode: u8,
    pub aa: u8,
    pub tc: u8,
    pub rd: u8,
    pub ra: u8,
    pub z: u8,
    pub rcode: u8,
    pub qdcount: u16,
    pub ancount: u16,
    pub nscount: u16,
    pub arcount: u16,
}

/// Every bit-packed subfield fits its wire width.
pub open spec fn header_wf(h: DnsHeader) -> bool {
    &&& h.qr <= 1
    &&& h.opcode <= 15
    &&& h.aa <= 1
    &&& h.tc <= 1
    &&& h.rd <= 1
    &&& h.ra <= 1
    &&& h.z <= 7
    &&& h.rcode <= 15
}

/// The two big-endian bytes of a 16-bit field.
pub open spec fn spec_u16_bytes(x: u16) -> Seq<u8> {
    seq![(x / 256) as u8, (x % 256) as u8]
}

/// The 16-bit value carried by two big-endian bytes.
pub open spec fn spec_u16(hi: u8, lo: u8) -> u16 {
    ((hi as u16) * 256 + (lo as u16)) as u16
}

/// The four big-endian bytes of a 32-bit field.
pub open spec fn spec_u32_bytes(x: u32) -> Seq<u8> {
    seq![
        (x / 0x1000000) as u8,
        ((x / 0x10000) % 256) as u8,
        ((x / 256) % 256) as u8,
        (x % 256) as u8,
    ]
}

/// The 32-bit value carried by four big-endian bytes.
pub open spec fn spec_u32(b0: u8, b1: u8, b2: u8, b3: u8) -> u32 {
    ((b0 as u32) * 0x1000000 + (b1 as u32) * 0x10000 + (b2 as u32) * 256 + (b3 as u32)) as u32
}

/// The exact 12 bytes a header occupies on the wire.
pub open spec fn spec_header_bytes(h: DnsHeader) -> Seq<u8> {
    spec_u16_bytes(h.id) + seq![
        (h.qr * 128 + h.opcode * 8 + h.aa * 4 + h.tc * 2 + h.rd) as u8,
        (h.ra * 128 + h.z * 16 + h.rcode) as u8,
    ] + spec_u16_bytes(h.qdcount) + spec_u16_bytes(h.ancount) + spec_u16_bytes(h.nscount)
        + spec_u16_bytes(h.arcount)
}

/// The header read from the first 12 bytes of a datagram, or nothing when
/// fewer than 12 bytes are available.
pub open spec fn spec_parse_header(d: Seq<u8>) -> Option<DnsHeader> {
    if d.len() < 12 {
        None
    } else {
        Some(
            DnsHeader {
                id: spec_u16(d[0], d[1]),
                qr: (d[2] / 128) as u8,
                opcode: ((d[2] / 8) % 16) as u8,
                aa: ((d[2] / 4) % 2) as u8,
                tc: ((d[2] / 2) % 2) as u8,
                rd: (d[2] % 2) as u8,
                ra: (d[3] / 128) as u8,
                z: ((d[3] / 16) % 8) as u8,
                rcode: (d[3] % 16) as u8,
                qdcount: spec_u16(d[4], d[5]),
                ancount: spec_u16(d[6], d[7]),
                nscount: spec_u16(d[8], d[9]),
                arcount: spec_u16(d[10], d[11]),
            },
        )
    }
}

/// A parsed header always has in-range subfields.
pub proof fn lemma_parsed_header_wf(d: Seq<u8>)
    requires
        d.len() >= 12,
    ensures
        header_wf(spec_parse_header(d)->Some_0),
{
}

impl DnsHeader {
    /// Serialize into the exact 12 wire bytes.
    pub fn serialize(&self) -> (r: Vec<u8>)
        requires
            header_wf(*self),
        ensures
            r@ == spec_header_bytes(*self),
            r@.len() == 12,
    {
        let mut buf: Vec<u8> = Vec::new();
        buf.push((self.id / 256) as u8);
        buf.push((self.id % 256) as u8);
        buf.push(self.qr * 128 + self.opcode * 8 + self.aa * 4 + self.tc * 2 + self.rd);
        buf.push(self.ra * 128 + self.z * 16 + self.rcode);
        buf.push((self.qdcount / 256) as u8);
        buf.push((self.qdcount % 256) as u8);
        buf.push((self.ancount / 256) as u8);
        buf.push((self.ancount % 256) as u8);
        buf.push((self.nscount / 256) as u8);
        buf.push((self.nscount % 256) as u8);
        buf.push((self.arcount / 256) as u8);
        buf.push((self.arcount % 256) as u8);
        proof {
            assert(buf@ =~= spec_header_bytes(*self));
        }
        buf
    }
}

impl Default for DnsHeader {
    /// The synthesized placeholder header: a one-question, one-answer
    /// response with transaction id 1234.
    fn default() -> (h: DnsHeader)
        ensures
            h == (DnsHeader {
                id: 1234,
                qr: 1,
                opcode: 0,
                aa: 0,
                tc: 0,
                rd: 0,
                ra: 0,
                z: 0,
                rcode: 0,
                qdcount: 1,
                ancount: 1,
                nscount: 0,
                arcount: 0,
            }),
    {
        DnsHeader {
            id: 1234,
            qr: 1,
            opcode: 0,
            aa: 0,
            tc: 0,
            rd: 0,
            ra: 0,
            z: 0,
            rcode: 0,
            qdcount: 1,
            ancount: 1,
            nscount: 0,
            arcount: 0,
        }
    }
}

/// Splitting a 16-bit value into its two big-endian bytes loses nothing.
pub proof fn lemma_u16_split(x: u16)
    ensures
        spec_u16((x / 256) as u8, (x % 256) as u8) == x,
{
    vstd::arithmetic::div_mod::lemma_fundamental_div_mod(x as int, 256);
}

/// Header round-trip: a well-formed header survives serialization
/// followed by parsing unchanged.
pub proof fn lemma_header_round_trip(h: DnsHeader)
    requires
        header_wf(h),
    ensures
        spec_parse_header(spec_header_bytes(h)) == Some(h),
{
    let d = spec_header_bytes(h);
    assert(d.len() == 12);
    lemma_u16_split(h.id);
    lemma_u16_split(h.qdcount);
    lemma_u16_split(h.ancount);
    lemma_u16_split(h.nscount);
    lemma_u16_split(h.arcount);
    let q = h.qr as int;
    let o = h.opcode as int;
    let a = h.aa as int;
    let t = h.tc as int;
    let r = h.rd as int;
    let v2 = q * 128 + o * 8 + a * 4 + t * 2 + r;
    assert(d[2] == v2 as u8);
    assert(0 <= v2 <= 255);
    vstd::arithmetic::div_mod::lemma_fundamental_div_mod_converse(v2, 128, q, o * 8 + a * 4 + t * 2
        + r);
    vstd::arithmetic::div_mod::lemma_fundamental_div_mod_converse(v2, 8, q * 16 + o, a * 4 + t * 2
        + r);
    vstd::arithmetic::div_mod::lemma_fundamental_div_mod_converse(q * 16 + o, 16, q, o);
    vstd::arithmetic::div_mod::lemma_fundamental_div_mod_converse(v2, 4, q * 32 + o * 2 + a, t * 2
        + r);
    vstd::arithmetic::div_mod::lemma_fundamental_div_mod_converse(q * 32 + o * 2 + a, 2, q * 16 + o,
        a);
    vstd::arithmetic::div_mod::lemma_fundamental_div_mod_converse(v2, 2, q * 64 + o * 4 + a * 2 + t,
        r);
    vstd::arithmetic::div_mod::lemma_fundamental_div_mod_converse(q * 64 + o * 4 + a * 2 + t, 2, q
        * 32 + o * 2 + a, t);
    let ra = h.ra as int;
    let z = h.z as int;
    let rc = h.rcode as int;
    let v3 = ra * 128 + z * 16 + rc;
    assert(d[3] == v3 as u8);
    assert(0 <= v3 <= 255);
    vstd::arithmetic::div_mod::lemma_fundamental_div_mod_converse(v3, 128, ra, z * 16 + rc);
    vstd::arithmetic::div_mod::lemma_fundamental_div_mod_converse(v3, 16, ra * 8 + z, rc);
    vstd::arithmetic::div_mod::lemma_fundamental_div_mod_converse(ra * 8 + z, 8, ra, z);
    assert(spec_parse_header(d)->Some_0 =~= h);
}

/// A well-formed header at the front of any datagram parses back to
/// itself, whatever follows it.
pub proof fn lemma_header_in_datagram(h: DnsHeader, tail: Seq<u8>)
    requires
        header_wf(h),
    ensures
        spec_parse_header(spec_header_bytes(h) + tail) == Some(h),
{
    lemma_header_round_trip(h);
    let hb = spec_header_bytes(h);
    let d = hb + tail;
    assert(hb.len() == 12);
    assert forall|i: int| 0 <= i < 12 implies d[i] == hb[i] by {}
    assert(spec_parse_header(d)->Some_0 =~= spec_parse_header(hb)->Some_0);
}

} // verus!
