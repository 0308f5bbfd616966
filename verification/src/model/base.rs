//! The message header and the base message that carries a raw body.
use vstd::prelude::*;
use crate::protocol::{framed, unwrap, unwrap_output, unwrapped, wrap};

verus! {

/// A message that can write itself into a buffer and be read back.
pub trait Message<T> {
    fn encode(&self, dst: &mut Vec<u8>) -> usize;

    fn decode(src: &Vec<u8>) -> T;
}

/// A message that can write itself, framed, into a buffer.
pub trait MsgInto {
    fn into2vec(&self, dst: &mut Vec<u8>) -> usize;
}

/// Message metadata.
#[derive(Debug, Clone, Hash, PartialEq, Default, Eq, Ord, PartialOrd)]
pub struct MsgMeta {
    /// Message id.
    pub msgtp: u16,
    /// Protocol version, 1 in the current version of the protocol.
    pub version: u8,
    /// Whether the message is split into several packets.
    pub mpkg: bool,
    /// Body encoding: 0 plain text, 1 RSA.
    pub codec: u8,
}

/// A message: its metadata and its raw body.
#[derive(Debug, Clone, Hash, PartialEq, Default, Eq, Ord, PartialOrd)]
pub struct Base {
    pub meta: MsgMeta,
    pub body: Vec<u8>,
}

/// The body-attribute word of the header: the body length in the low bits
/// (truncated to 16 bits), bit 14 for a non-zero version, bit 13 for a split
/// message, bit 10 for RSA encoding.
pub open spec fn attr_word(meta: MsgMeta, body_len: usize) -> u16 {
    (body_len as u16) | (if meta.version == 0 { 0u16 } else { 0x4000u16 }) | (if meta.mpkg {
        0x2000u16
    } else {
        0u16
    }) | (if meta.codec == 1 { 0x0400u16 } else { 0u16 })
}

/// The four header bytes: message id and attribute word, both big-endian.
pub open spec fn header_bytes(meta: MsgMeta, body_len: usize) -> Seq<u8> {
    let attr: u16 = attr_word(meta, body_len);
    seq![
        ((meta.msgtp >> 8u16) & 0xFFu16) as u8,
        (meta.msgtp & 0xFFu16) as u8,
        ((attr >> 8u16) & 0xFFu16) as u8,
        (attr & 0xFFu16) as u8,
    ]
}

/// The metadata read from an unframed message `d` (at least three bytes).
pub open spec fn decoded_meta(d: Seq<u8>) -> MsgMeta {
    MsgMeta {
        msgtp: ((d[0] as u16) << 8u16) | (d[1] as u16),
        version: (d[2] >> 6u8) & 0xFFu8,
        mpkg: ((d[2] >> 5u8) & 0x01u8) == 1,
        codec: (d[2] >> 2u8) & 0x07u8,
    }
}

impl Base {
    /// The unframed message: header followed by the body.
    pub open spec fn payload(&self) -> Seq<u8> {
        header_bytes(self.meta, self.body.len()) + self.body@
    }

    /// Reads a base message from a frame.
    ///
    /// Fails when the frame is shorter than four bytes, or when the frame layer
    /// refuses it. A frame whose payload has fewer than four bytes is left out:
    /// the header cannot be read from it.
    pub fn try_from(src: Vec<u8>) -> (r: Result<Base, &'static str>)
        requires
            unwrapped(src@) matches Some(d) ==> d.len() >= 4,
        ensures
            src@.len() < 4 ==> r == Err::<Base, &'static str>(
                "invalid base message, length less than 4",
            ),
            src@.len() >= 4 && unwrapped(src@) is None ==> r == Err::<Base, &'static str>(
                "invalid base message, data invaild",
            ),
            unwrapped(src@) matches Some(d) ==> r matches Ok(b) && b.meta == decoded_meta(d)
                && b.body@ == d.skip(4),
    {
        if src.len() < 4 {
            return Err("invalid base message, length less than 4");
        }
        let mut dst: Vec<u8> = Vec::new();
        let size: usize = unwrap(&src, &mut dst);
        if size == 0 {
            return Err("invalid base message, data invaild");
        }
        assert(dst@ == unwrap_output(src@));
        let src = dst;
        let mut msgtp: u16 = 0;
        msgtp = msgtp | ((src[0] as u16) << 8u16);
        msgtp = msgtp | (src[1] as u16);
        assert(0u16 | ((src[0] as u16) << 8u16) == ((src[0] as u16) << 8u16)) by (bit_vector);
        let b2: u8 = src[2];
        let body = slice_to_vec(&src, 4);
        Ok(
            Base {
                meta: MsgMeta {
                    msgtp: msgtp,
                    version: (b2 >> 6u8) & 0xFFu8,
                    mpkg: ((b2 >> 5u8) & 0x01u8) == 1,
                    codec: (b2 >> 2u8) & 0x07u8,
                },
                body: body,
            },
        )
    }
}

/// The bytes of `v` from index `from` on, as a new vector.
fn slice_to_vec(v: &Vec<u8>, from: usize) -> (r: Vec<u8>)
    requires
        from <= v.len(),
    ensures
        r@ == v@.skip(from as int),
{
    let mut r: Vec<u8> = Vec::new();
    let mut i: usize = from;
    while i < v.len()
        invariant
            from <= i <= v.len(),
            r@ == v@.subrange(from as int, i as int),
        decreases v.len() - i,
    {
        r.push(v[i]);
        i += 1;
    }
    r
}

/// Round trip: a message whose version and encoding are 0 or 1 and whose body
/// is shorter than 1024 bytes comes back unchanged from its frame: the frame
/// layer gives back the header and body, and reading them yields the same
/// metadata and body.
pub proof fn lemma_base_roundtrip(b: Base)
    requires
        b.meta.version <= 1,
        b.meta.codec <= 1,
        b.body.len() < 1024,
    ensures
        unwrapped(framed(b.payload())) == Some(b.payload()),
        b.payload().len() >= 4,
        decoded_meta(b.payload()) == b.meta,
        b.payload().skip(4) == b.body@,
{
    let p = b.payload();
    crate::protocol::lemma_unwrap_wrap(p);
    let meta = b.meta;
    let len: usize = b.body.len();
    let msgtp: u16 = meta.msgtp;
    let version: u8 = meta.version;
    let codec: u8 = meta.codec;
    let mpkg = meta.mpkg;
    let attr: u16 = attr_word(meta, len);
    let vbits: u16 = if version == 0 { 0u16 } else { 0x4000u16 };
    let mbits: u16 = if mpkg { 0x2000u16 } else { 0u16 };
    let cbits: u16 = if codec == 1 { 0x0400u16 } else { 0u16 };
    let l16 = len as u16;
    assert(l16 < 1024);
    assert(attr == l16 | vbits | mbits | cbits);
    let hi: u8 = ((attr >> 8u16) & 0xFFu16) as u8;
    assert((((((msgtp >> 8u16) & 0xFFu16) as u8) as u16) << 8u16) | ((((msgtp & 0xFFu16) as u8)) as u16)
        == msgtp) by (bit_vector);
    assert(((hi >> 6u8) & 0xFFu8) == version) by (bit_vector)
        requires
            hi == ((attr >> 8u16) & 0xFFu16) as u8,
            attr == l16 | vbits | mbits | cbits,
            l16 < 1024,
            version <= 1,
            version == 0 ==> vbits == 0,
            version != 0 ==> vbits == 0x4000,
            mbits == 0 || mbits == 0x2000,
            cbits == 0 || cbits == 0x0400,
    ;
    assert((((hi >> 5u8) & 0x01u8) == 1) == mpkg) by (bit_vector)
        requires
            hi == ((attr >> 8u16) & 0xFFu16) as u8,
            attr == l16 | vbits | mbits | cbits,
            l16 < 1024,
            vbits == 0 || vbits == 0x4000,
            mpkg ==> mbits == 0x2000,
            !mpkg ==> mbits == 0,
            cbits == 0 || cbits == 0x0400,
    ;
    assert(((hi >> 2u8) & 0x07u8) == codec) by (bit_vector)
        requires
            hi == ((attr >> 8u16) & 0xFFu16) as u8,
            attr == l16 | vbits | mbits | cbits,
            l16 < 1024,
            vbits == 0 || vbits == 0x4000,
            mbits == 0 || mbits == 0x2000,
            codec <= 1,
            codec == 1 ==> cbits == 0x0400,
            codec != 1 ==> cbits == 0,
    ;
    assert(p.skip(4) == b.body@);
}

/// Header layout: the first two bytes are the message id, big-endian; the
/// next two form the attribute word, whose low ten bits carry the body length
/// (modulo 1024). For a body shorter than 1024 bytes the word holds nothing
/// else but bit 14 (non-zero version), bit 13 (split message) and bit 10
/// (RSA encoding). The payload is the header followed by the body, in order.
pub proof fn lemma_header_layout(b: Base)
    ensures
        ({
            let h = header_bytes(b.meta, b.body.len());
            let w: u16 = ((h[2] as u16) << 8u16) | (h[3] as u16);
            &&& h.len() == 4
            &&& ((h[0] as u16) << 8u16) | (h[1] as u16) == b.meta.msgtp
            &&& w & 0x03FFu16 == (b.body.len() % 1024) as u16
            &&& b.body.len() < 1024 ==> {
                &&& (((w >> 14u16) & 1u16) == 1) == (b.meta.version != 0)
                &&& (((w >> 13u16) & 1u16) == 1) == b.meta.mpkg
                &&& (((w >> 10u16) & 1u16) == 1) == (b.meta.codec == 1)
                &&& w & 0x9800u16 == 0
            }
        }),
        b.payload().len() == b.body.len() + 4,
        b.payload().take(4) == header_bytes(b.meta, b.body.len()),
        b.payload().skip(4) == b.body@,
{
    let meta = b.meta;
    let len: usize = b.body.len();
    let msgtp: u16 = meta.msgtp;
    let attr: u16 = attr_word(meta, len);
    let vbits: u16 = if meta.version == 0 { 0u16 } else { 0x4000u16 };
    let mbits: u16 = if meta.mpkg { 0x2000u16 } else { 0u16 };
    let cbits: u16 = if meta.codec == 1 { 0x0400u16 } else { 0u16 };
    let l16: u16 = len as u16;
    assert(attr == l16 | vbits | mbits | cbits);
    let h2: u8 = ((attr >> 8u16) & 0xFFu16) as u8;
    let h3: u8 = (attr & 0xFFu16) as u8;
    let w: u16 = ((h2 as u16) << 8u16) | (h3 as u16);
    assert((((((msgtp >> 8u16) & 0xFFu16) as u8) as u16) << 8u16) | ((((msgtp & 0xFFu16) as u8))
        as u16) == msgtp) by (bit_vector);
    assert(w == attr) by (bit_vector)
        requires
            h2 == ((attr >> 8u16) & 0xFFu16) as u8,
            h3 == (attr & 0xFFu16) as u8,
            w == ((h2 as u16) << 8u16) | (h3 as u16),
    ;
    assert(l16 & 0x03FFu16 == (len % 1024) as u16) by (bit_vector)
        requires
            l16 == len as u16,
    ;
    assert(w & 0x03FFu16 == l16 & 0x03FFu16) by (bit_vector)
        requires
            w == l16 | vbits | mbits | cbits,
            vbits == 0 || vbits == 0x4000,
            mbits == 0 || mbits == 0x2000,
            cbits == 0 || cbits == 0x0400,
    ;
    if len < 1024 {
        assert(l16 < 1024);
        let version_set: bool = meta.version != 0;
        let rsa: bool = meta.codec == 1;
        let mpkg: bool = meta.mpkg;
        assert({
            &&& (((w >> 14u16) & 1u16) == 1) == version_set
            &&& (((w >> 13u16) & 1u16) == 1) == mpkg
            &&& (((w >> 10u16) & 1u16) == 1) == rsa
            &&& w & 0x9800u16 == 0
        }) by (bit_vector)
            requires
                w == l16 | vbits | mbits | cbits,
                l16 < 1024,
                version_set ==> vbits == 0x4000,
                !version_set ==> vbits == 0,
                mpkg ==> mbits == 0x2000,
                !mpkg ==> mbits == 0,
                rsa ==> cbits == 0x0400,
                !rsa ==> cbits == 0,
        ;
    }
    assert(b.payload().take(4) == header_bytes(b.meta, b.body.len()));
    assert(b.payload().skip(4) == b.body@);
}

/// What reading a header yields, arithmetically: the message id is the first
/// two bytes big-endian; of the third byte, the version is its top two bits,
/// the split flag bit 5 and the encoding bits 2 to 4.
pub proof fn lemma_decoded_meta_fields(d: Seq<u8>)
    requires
        d.len() >= 3,
    ensures
        decoded_meta(d).msgtp as int == d[0] as int * 256 + d[1] as int,
        decoded_meta(d).version as int == d[2] as int / 64,
        decoded_meta(d).mpkg == ((d[2] as int / 32) % 2 == 1),
        decoded_meta(d).codec as int == (d[2] as int / 4) % 8,
{
    let a: u8 = d[0];
    let b: u8 = d[1];
    let c: u8 = d[2];
    assert((((a as u16) << 8u16) | (b as u16)) as int == a as int * 256 + b as int) by (bit_vector);
    assert(((c >> 6u8) & 0xFFu8) as int == c as int / 64) by (bit_vector);
    assert((((c >> 5u8) & 0x01u8) == 1) == ((c as int / 32) % 2 == 1)) by (bit_vector);
    assert(((c >> 2u8) & 0x07u8) as int == (c as int / 4) % 8) by (bit_vector);
}

impl MsgInto for Base {
    /// Writes the header and body, framed, at the end of `dst`; returns the
    /// length of `dst` afterwards.
    fn into2vec(&self, dst: &mut Vec<u8>) -> (r: usize)
        ensures
            final(dst)@ == old(dst)@ + framed(self.payload()),
            r == final(dst)@.len(),
    {
        let mut payload: Vec<u8> = Vec::new();
        payload.push(((self.meta.msgtp >> 8u16) & 0xFFu16) as u8);
        payload.push((self.meta.msgtp & 0xFFu16) as u8);

        let mut attr: u16 = self.body.len() as u16;
        attr = attr | (if self.meta.version == 0 { 0u16 } else { 0x4000u16 });
        attr = attr | (if self.meta.mpkg { 0x2000u16 } else { 0u16 });
        attr = attr | (if self.meta.codec == 1 { 0x0400u16 } else { 0u16 });
        payload.push(((attr >> 8u16) & 0xFFu16) as u8);
        payload.push((attr & 0xFFu16) as u8);

        let mut i: usize = 0;
        while i < self.body.len()
            invariant
                i <= self.body.len(),
                payload@ == header_bytes(self.meta, self.body.len()) + self.body@.take(i as int),
            decreases self.body.len() - i,
        {
            payload.push(self.body[i]);
            i += 1;
        }
        assert(self.body@.take(self.body.len() as int) == self.body@);
        wrap(&payload, dst);
        dst.len()
    }
}

} // verus!
