//! Message layouts of the protocol: the unframed base message and the
//! records of the individual message kinds.
use vstd::prelude::*;

verus! {

/// Message metadata.
#[derive(Debug, Clone, Hash, PartialEq, Default, Eq, Ord, PartialOrd)]
pub struct MsgMeta {
    msgtp: u16,  // message id
    version: u8,  // protocol version, 1
    mpkg: bool,  // split into several packets
    codec: u8,  // body encoding: 0 plain text, 1 RSA
}

/// A message: its metadata and its raw body.
#[derive(Debug, Clone, Hash, PartialEq, Default, Eq, Ord, PartialOrd)]
pub struct Base {
    meta: MsgMeta,
    body: Vec<u8>,
}

impl MsgMeta {
    /// Message id.
    pub closed spec fn msgtp_spec(&self) -> u16 {
        self.msgtp
    }

    /// Protocol version.
    pub closed spec fn version_spec(&self) -> u8 {
        self.version
    }

    /// Whether the message is split into several packets.
    pub closed spec fn mpkg_spec(&self) -> bool {
        self.mpkg
    }

    /// Body encoding.
    pub closed spec fn codec_spec(&self) -> u8 {
        self.codec
    }
}

impl Base {
    /// The metadata.
    pub closed spec fn meta_spec(&self) -> MsgMeta {
        self.meta
    }

    /// The body.
    pub closed spec fn body_spec(&self) -> Seq<u8> {
        self.body@
    }

    /// The attribute word that `encode` writes: the body length in the low
    /// bits (truncated to 16 bits), bit 14 for a non-zero version, bit 13 for
    /// a split message, bit 10 for RSA encoding.
    pub closed spec fn attr_spec(&self) -> u16 {
        (self.body.len() as u16) | (if self.meta.version == 0 { 0u16 } else { 0x4000u16 }) | (
        if self.meta.mpkg {
            0x2000u16
        } else {
            0u16
        }) | (if self.meta.codec == 1 { 0x0400u16 } else { 0u16 })
    }

    /// The bytes that `encode` writes: the high byte of the message id, twice,
    /// the attribute word big-endian, then the body.
    pub closed spec fn encoding(&self) -> Seq<u8> {
        let hi: u8 = ((self.meta.msgtp >> 8u16) & 0xFFu16) as u8;
        let attr: u16 = self.attr_spec();
        seq![hi, hi, ((attr >> 8u16) & 0xFFu16) as u8, (attr & 0xFFu16) as u8] + self.body@
    }

    /// Appends the unframed message to `dst`; returns two more than the body length.
    pub fn encode(&self, dst: &mut Vec<u8>) -> (r: usize)
        requires
            self.body_spec().len() + 2 <= usize::MAX,
        ensures
            final(dst)@ == old(dst)@ + self.encoding(),
            r == self.body_spec().len() + 2,
    {
        let hi: u8 = ((self.meta.msgtp >> 8u16) & 0xFFu16) as u8;
        dst.push(hi);
        dst.push(((self.meta.msgtp >> 8u16) & 0xFFu16) as u8);

        let mut attr: u16 = self.body.len() as u16;
        attr = attr | (if self.meta.version == 0 { 0u16 } else { 0x4000u16 });
        attr = attr | (if self.meta.mpkg { 0x2000u16 } else { 0u16 });
        attr = attr | (if self.meta.codec == 1 { 0x0400u16 } else { 0u16 });
        dst.push(((attr >> 8u16) & 0xFFu16) as u8);
        dst.push((attr & 0xFFu16) as u8);

        let ghost head = dst@;
        let mut i: usize = 0;
        while i < self.body.len()
            invariant
                i <= self.body.len(),
                dst@ == head + self.body@.take(i as int),
            decreases self.body.len() - i,
        {
            dst.push(self.body[i]);
            i += 1;
        }
        assert(self.body@.take(self.body.len() as int) == self.body@);
        2 + self.body.len()
    }

    /// Reads an unframed message of at least three bytes: message id from
    /// the first two bytes (big-endian), version, split flag and encoding from
    /// the third, and the body from the fourth byte on.
    pub fn decode(src: &Vec<u8>) -> (r: Base)
        requires
            src@.len() >= 3,
        ensures
            r.meta_spec().msgtp_spec() == ((src@[0] as u16) << 8u16) | (src@[1] as u16),
            r.meta_spec().version_spec() == (src@[2] >> 6u8) & 0xFFu8,
            r.meta_spec().mpkg_spec() == (((src@[2] >> 5u8) & 0x01u8) == 1),
            r.meta_spec().codec_spec() == (src@[2] >> 2u8) & 0x07u8,
            r.body_spec() == src@.skip(3),
    {
        let mut msgtp: u16 = 0;
        msgtp = msgtp | ((src[0] as u16) << 8u16);
        msgtp = msgtp | (src[1] as u16);
        assert(0u16 | ((src@[0] as u16) << 8u16) == ((src@[0] as u16) << 8u16)) by (bit_vector);
        let b2: u8 = src[2];
        let mut body: Vec<u8> = Vec::new();
        let mut i: usize = 3;
        while i < src.len()
            invariant
                3 <= i <= src.len(),
                body@ == src@.subrange(3, i as int),
            decreases src.len() - i,
        {
            body.push(src[i]);
            i += 1;
        }
        Base {
            meta: MsgMeta {
                msgtp: msgtp,
                version: (b2 >> 6u8) & 0xFFu8,
                mpkg: ((b2 >> 5u8) & 0x01u8) == 1,
                codec: (b2 >> 2u8) & 0x07u8,
            },
            body: body,
        }
    }
}

/// Layout of what `encode` writes: four header bytes, then the body unchanged
/// and in order. The first two header bytes both hold the high byte of the
/// message id. The next two form the attribute word, whose low ten bits
/// carry the body length (modulo 1024); for a body shorter than 1024 bytes
/// the word holds nothing else but bit 14 (non-zero version), bit 13 (split
/// message) and bit 10 (RSA encoding), so `decode` reads back the version,
/// split flag and encoding of a message whose version and encoding are 0 or 1.
pub proof fn lemma_encoding_layout(b: Base)
    ensures
        ({
            let e = b.encoding();
            let len = b.body_spec().len();
            let meta = b.meta_spec();
            let w: u16 = ((e[2] as u16) << 8u16) | (e[3] as u16);
            &&& e.len() == len + 4
            &&& e.subrange(4, e.len() as int) == b.body_spec()
            &&& e[0] == e[1]
            &&& e[0] as u16 == meta.msgtp_spec() >> 8u16
            &&& w & 0x03FFu16 == (len % 1024) as u16
            &&& len < 1024 ==> {
                &&& (((w >> 14u16) & 1u16) == 1) == (meta.version_spec() != 0)
                &&& (((w >> 13u16) & 1u16) == 1) == meta.mpkg_spec()
                &&& (((w >> 10u16) & 1u16) == 1) == (meta.codec_spec() == 1)
                &&& w & 0x9800u16 == 0
            }
            &&& len < 1024 && meta.version_spec() <= 1 && meta.codec_spec() <= 1 ==> {
                &&& (e[2] >> 6u8) & 0xFFu8 == meta.version_spec()
                &&& (((e[2] >> 5u8) & 0x01u8) == 1) == meta.mpkg_spec()
                &&& (e[2] >> 2u8) & 0x07u8 == meta.codec_spec()
            }
        }),
{
    let e = b.encoding();
    let len: usize = b.body.len();
    let msgtp: u16 = b.meta.msgtp;
    let attr: u16 = b.attr_spec();
    let vbits: u16 = if b.meta.version == 0 { 0u16 } else { 0x4000u16 };
    let mbits: u16 = if b.meta.mpkg { 0x2000u16 } else { 0u16 };
    let cbits: u16 = if b.meta.codec == 1 { 0x0400u16 } else { 0u16 };
    let l16: u16 = len as u16;
    assert(attr == l16 | vbits | mbits | cbits);
    let h2: u8 = ((attr >> 8u16) & 0xFFu16) as u8;
    let h3: u8 = (attr & 0xFFu16) as u8;
    assert(e[2] == h2 && e[3] == h3);
    let w: u16 = ((h2 as u16) << 8u16) | (h3 as u16);
    let hi: u8 = ((msgtp >> 8u16) & 0xFFu16) as u8;
    assert(hi as u16 == msgtp >> 8u16) by (bit_vector)
        requires
            hi == ((msgtp >> 8u16) & 0xFFu16) as u8,
    ;
    assert(w == attr) by (bit_vector)
        requires
            h2 == ((attr >> 8u16) & 0xFFu16) as u8,
            h3 == (attr & 0xFFu16) as u8,
            w == ((h2 as u16) << 8u16) | (h3 as u16),
    ;
    assert(l16 & 0x03FFu16 == (len % 1024) as u16) by (bit_vector)
        requires
            l16 == len as u16,
    ;
    assert(w & 0x03FFu16 == l16 & 0x03FFu16) by (bit_vector)
        requires
            w == l16 | vbits | mbits | cbits,
            vbits == 0 || vbits == 0x4000,
            mbits == 0 || mbits == 0x2000,
            cbits == 0 || cbits == 0x0400,
    ;
    if len < 1024 {
        assert(l16 < 1024);
        let version_set: bool = b.meta.version != 0;
        let rsa: bool = b.meta.codec == 1;
        let mpkg: bool = b.meta.mpkg;
        assert({
            &&& (((w >> 14u16) & 1u16) == 1) == version_set
            &&& (((w >> 13u16) & 1u16) == 1) == mpkg
            &&& (((w >> 10u16) & 1u16) == 1) == rsa
            &&& w & 0x9800u16 == 0
        }) by (bit_vector)
            requires
                w == l16 | vbits | mbits | cbits,
                l16 < 1024,
                version_set ==> vbits == 0x4000,
                !version_set ==> vbits == 0,
                mpkg ==> mbits == 0x2000,
                !mpkg ==> mbits == 0,
                rsa ==> cbits == 0x0400,
                !rsa ==> cbits == 0,
        ;
        let version: u8 = b.meta.version;
        let codec: u8 = b.meta.codec;
        if version <= 1 && codec <= 1 {
            assert({
                &&& (h2 >> 6u8) & 0xFFu8 == version
                &&& (((h2 >> 5u8) & 0x01u8) == 1) == mpkg
                &&& (h2 >> 2u8) & 0x07u8 == codec
            }) by (bit_vector)
                requires
                    h2 == ((attr >> 8u16) & 0xFFu16) as u8,
                    attr == l16 | vbits | mbits | cbits,
                    l16 < 1024,
                    version <= 1,
                    codec <= 1,
                    version != 0 ==> vbits == 0x4000,
                    version == 0 ==> vbits == 0,
                    mpkg ==> mbits == 0x2000,
                    !mpkg ==> mbits == 0,
                    codec == 1 ==> cbits == 0x0400,
                    codec != 1 ==> cbits == 0,
            ;
        }
    }
    assert(e.subrange(4, e.len() as int) == b.body@);
}

/// General response.
#[derive(Debug, Clone, Hash, PartialEq, Default, Eq, Ord, PartialOrd)]
pub struct CommonResp {
    meta: MsgMeta,  // header
    msgid: u16,  // serial number of the message answered
    respid: u16,  // id of the message answered
    result: u8,  // 0 success, anything else failure
    body: Vec<u8>,  // body
}

/// Heartbeat.
#[derive(Debug, Clone, Hash, PartialEq, Default, Eq, Ord, PartialOrd)]
pub struct HeartBeat {
    meta: MsgMeta,  // header
}

/// Registration request.
pub struct RegReq {
    meta: MsgMeta,  // header
    province: u16,  // province id
    city: u16,  // city id
    manufacturer: [u8; 11],  // manufacturer id
    model: [u8; 30],  // terminal model
    device: [u8; 30],  // terminal id
    color: u8,
    carid: String,  // licence plate
}

/// Registration response.
pub struct RegResp {
    meta: MsgMeta,  // header
    msgid: u16,  // serial number of the message answered
    result: u8,  // registration result
    authcode: String,  // authentication code
}

/// Deregistration.
pub struct UnRegReq {
    meta: MsgMeta,  // header
}

/// Authentication.
pub struct Auth {
    meta: MsgMeta,  // header
    code: String,  // authentication code
    imei: [u8; 15],  // IMEI
    version: [u8; 20],  // software version
}

/// Pass-through data.
pub struct RawData {
    meta: MsgMeta,  // header
    data: String,
}

/// Location report.
pub struct LocationReport {
    meta: MsgMeta,  // header
}

/// Batch upload of location data.
pub struct LocationBatchReport {
    meta: MsgMeta,  // header
}

} // verus!
