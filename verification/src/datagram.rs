//! The monolithic datagram and its frame.
//!
//! A frame is laid out as follows, all numbers least significant byte first:
//!
//! | bytes   | field                                  |
//! |---------|----------------------------------------|
//! | 0       | kind of frame, see [`FrameKind`]       |
//! | 1..5    | `oui`                                  |
//! | 5..9    | `did`                                  |
//! | 9..13   | `fp`                                   |
//! | 13..17  | `seq`                                  |
//! | 17      | number of payload bytes, at most 128   |
//! | 18      | flag byte, see [`Flags::bits`]         |
//! | 19..    | payload                                |

use vstd::prelude::*;
use crate::cursor::{
    lemma_overwrite_append,
    lemma_u32_from_le_inverse,
    lemma_u32_le_inverse,
    overwrite,
    u32_from_le,
    u32_le,
    Reader,
    Writer,
};
use crate::error::{LfcError, LfcRes};
use crate::flags::Flags;
use crate::payload::{Payload, MAX_PAY_LEN};

verus! {

/// The number of bytes of a frame that stand before its payload.
pub const HEADER_LEN: usize = 19;

/// The kinds of frame that the protocol knows. This library reads and writes
/// the monolithic kind only.
#[derive(Debug, Clone, Copy, PartialEq, Eq, Structural)]
pub enum FrameKind {
    /// A datagram that is sent whole in one frame.
    Monolithic,
    /// The first frame of a datagram that is sent in parts.
    FrameStart,
    /// A later frame of a datagram that is sent in parts.
    FrameData,
    /// An acknowledgement.
    Ack,
}

impl FrameKind {
    /// The byte that opens a frame of this kind.
    pub open spec fn tag_spec(self) -> u8 {
        match self {
            FrameKind::Monolithic => 0,
            FrameKind::FrameStart => 1,
            FrameKind::FrameData => 2,
            FrameKind::Ack => 3,
        }
    }

    /// The kind of frame that `tag` opens, if it opens any.
    pub open spec fn from_tag_spec(tag: u8) -> Option<FrameKind> {
        if tag == 0 {
            Some(FrameKind::Monolithic)
        } else if tag == 1 {
            Some(FrameKind::FrameStart)
        } else if tag == 2 {
            Some(FrameKind::FrameData)
        } else if tag == 3 {
            Some(FrameKind::Ack)
        } else {
            None
        }
    }

    /// Returns the byte that opens a frame of this kind.
    pub fn tag(self) -> (tag: u8)
        ensures
            tag == self.tag_spec(),
            FrameKind::from_tag_spec(tag) == Some(self),
    {
        match self {
            FrameKind::Monolithic => 0,
            FrameKind::FrameStart => 1,
            FrameKind::FrameData => 2,
            FrameKind::Ack => 3,
        }
    }

    /// Returns the kind of frame that `tag` opens, or `None` for a byte that
    /// opens no known kind.
    pub fn from_tag(tag: u8) -> (kind: Option<FrameKind>)
        ensures
            kind == FrameKind::from_tag_spec(tag),
            kind matches Some(k) ==> k.tag_spec() == tag,
    {
        match tag {
            0 => Some(FrameKind::Monolithic),
            1 => Some(FrameKind::FrameStart),
            2 => Some(FrameKind::FrameData),
            3 => Some(FrameKind::Ack),
            _ => None,
        }
    }
}

/// LongFi datagram. Its payload is not part of it and is handed over beside it.
#[derive(Debug, PartialEq, Eq, Structural)]
pub struct Datagram {
    /// Additional flags.
    pub flags: Flags,
    /// Organization ID.
    pub oui: u32,
    /// Device ID.
    pub did: u32,
    /// Fingerprint.
    ///
    /// `fp` is meant to be derived from the rest of the fields and a
    /// session key by the caller; it is carried here and never computed.
    pub fp: u32,
    /// Sequence number.
    pub seq: u32,
}

/// The frame that carries `dg` with `payload`.
pub open spec fn frame(dg: Datagram, payload: Seq<u8>) -> Seq<u8>
    recommends
        payload.len() <= MAX_PAY_LEN,
{
    seq![FrameKind::Monolithic.tag_spec()] + u32_le(dg.oui) + u32_le(dg.did) + u32_le(dg.fp)
        + u32_le(dg.seq) + seq![payload.len() as u8, dg.flags.bits() as u8] + payload
}

/// The datagram and payload that the frame at the front of `src` carries, or
/// the reason why there is none:
///
/// - `ErrNomem` where `src` is empty,
/// - `InvalidType` where its first byte opens no known kind of frame,
/// - `ErrException` where it opens a known kind other than monolithic,
/// - `ErrNomem` where `src` ends before the header does, where the header
///   declares more than [`MAX_PAY_LEN`] bytes of payload, or where `src` ends
///   before the declared payload does.
///
/// Bytes behind the declared payload are not looked at.
pub open spec fn parse(src: Seq<u8>) -> Result<(Datagram, Seq<u8>), LfcRes> {
    if src.len() < 1 {
        Err(LfcRes::ErrNomem)
    } else if FrameKind::from_tag_spec(src[0]) is None {
        Err(LfcRes::InvalidType)
    } else if FrameKind::from_tag_spec(src[0]) != Some(FrameKind::Monolithic) {
        Err(LfcRes::ErrException)
    } else if src.len() < HEADER_LEN {
        Err(LfcRes::ErrNomem)
    } else if src[17] > MAX_PAY_LEN {
        Err(LfcRes::ErrNomem)
    } else if src.len() < HEADER_LEN + src[17] {
        Err(LfcRes::ErrNomem)
    } else {
        Ok(
            (
                Datagram {
                    flags: Flags::from_bits(src[18] as int),
                    oui: u32_from_le(src.subrange(1, 5)) as u32,
                    did: u32_from_le(src.subrange(5, 9)) as u32,
                    fp: u32_from_le(src.subrange(9, 13)) as u32,
                    seq: u32_from_le(src.subrange(13, 17)) as u32,
                },
                src.subrange(HEADER_LEN as int, HEADER_LEN + src[17]),
            ),
        )
    }
}

/// A frame is read back as the datagram and the payload that it was made of.
pub proof fn lemma_round_trip(dg: Datagram, payload: Seq<u8>)
    requires
        payload.len() <= MAX_PAY_LEN,
    ensures
        frame(dg, payload).len() == HEADER_LEN + payload.len(),
        parse(frame(dg, payload)) == Ok::<(Datagram, Seq<u8>), LfcRes>((dg, payload)),
{
    let f = frame(dg, payload);
    lemma_u32_le_inverse(dg.oui);
    lemma_u32_le_inverse(dg.did);
    lemma_u32_le_inverse(dg.fp);
    lemma_u32_le_inverse(dg.seq);
    dg.flags.lemma_bits_inverse();
    assert(f.subrange(1, 5) =~= u32_le(dg.oui));
    assert(f.subrange(5, 9) =~= u32_le(dg.did));
    assert(f.subrange(9, 13) =~= u32_le(dg.fp));
    assert(f.subrange(13, 17) =~= u32_le(dg.seq));
    assert(f[17] == payload.len());
    assert(f[18] == dg.flags.bits());
    assert(f.subrange(HEADER_LEN as int, HEADER_LEN + payload.len()) =~= payload);
}

/// What is read from `src` makes the very frame that opens `src`, provided
/// that the three highest bits of the flag byte, which stand for no flag,
/// are zero there.
pub proof fn lemma_parsed_is_framed(src: Seq<u8>)
    requires
        parse(src) is Ok,
        src[18] < 32,
    ensures
        frame(parse(src)->Ok_0.0, parse(src)->Ok_0.1) == src.subrange(
            0,
            HEADER_LEN + parse(src)->Ok_0.1.len(),
        ),
{
    let (dg, payload) = parse(src)->Ok_0;
    lemma_u32_from_le_inverse(src.subrange(1, 5));
    lemma_u32_from_le_inverse(src.subrange(5, 9));
    lemma_u32_from_le_inverse(src.subrange(9, 13));
    lemma_u32_from_le_inverse(src.subrange(13, 17));
    Flags::lemma_from_bits_inverse(src[18] as int);
    let f = frame(dg, payload);
    let s = src.subrange(0, HEADER_LEN + payload.len());
    assert(f.len() == s.len());
    assert forall|i: int| 0 <= i < f.len() implies f[i] == s[i] by {
        if 1 <= i < 5 {
            assert(f[i] == u32_le(dg.oui)[i - 1]);
            assert(src.subrange(1, 5)[i - 1] == src[i]);
        } else if 5 <= i < 9 {
            assert(f[i] == u32_le(dg.did)[i - 5]);
            assert(src.subrange(5, 9)[i - 5] == src[i]);
        } else if 9 <= i < 13 {
            assert(f[i] == u32_le(dg.fp)[i - 9]);
            assert(src.subrange(9, 13)[i - 9] == src[i]);
        } else if 13 <= i < 17 {
            assert(f[i] == u32_le(dg.seq)[i - 13]);
            assert(src.subrange(13, 17)[i - 13] == src[i]);
        } else if i >= 19 {
            assert(f[i] == payload[i - 19]);
        }
    }
    assert(f =~= s);
}

/// A frame of any kind but the monolithic one is refused for its first byte
/// alone, whatever follows it.
pub proof fn lemma_other_kinds_refused(src: Seq<u8>)
    requires
        src.len() >= 1,
        src[0] != FrameKind::Monolithic.tag_spec(),
    ensures
        parse(src) == Err::<(Datagram, Seq<u8>), LfcRes>(LfcRes::InvalidType) || parse(src)
            == Err::<(Datagram, Seq<u8>), LfcRes>(LfcRes::ErrException),
{
}

impl Datagram {
    /// Writes the frame of this datagram and `pay` to the front of `dst` and
    /// returns its length, if `dst` can hold it. Otherwise `dst` is left as
    /// it was.
    pub fn ser(&self, pay: &Payload, dst: &mut [u8]) -> (res: Result<usize, LfcError>)
        ensures
            match res {
                Ok(n) => n == HEADER_LEN + pay@.len() && n <= old(dst)@.len() && final(dst)@
                    == overwrite(old(dst)@, 0, frame(*self, pay@)),
                Err(e) => old(dst)@.len() < HEADER_LEN + pay@.len() && e == LfcError(
                    LfcRes::ErrNomem,
                ) && final(dst)@ == old(dst)@,
            },
    {
        let pay_len: usize = pay.len();
        if dst.len() < HEADER_LEN + pay_len {
            return Err(LfcError(LfcRes::ErrNomem));
        }
        let ghost before = dst@;
        let ghost head = seq![FrameKind::Monolithic.tag_spec()];
        let ghost tail = seq![pay@.len() as u8, self.flags.bits() as u8];
        let mut w = Writer::new(dst);
        if w.put_u8(FrameKind::Monolithic.tag()).is_err() {
            return Err(LfcError(LfcRes::ErrException));
        }
        if w.put_u32_le(self.oui).is_err() {
            return Err(LfcError(LfcRes::ErrException));
        }
        if w.put_u32_le(self.did).is_err() {
            return Err(LfcError(LfcRes::ErrException));
        }
        if w.put_u32_le(self.fp).is_err() {
            return Err(LfcError(LfcRes::ErrException));
        }
        if w.put_u32_le(self.seq).is_err() {
            return Err(LfcError(LfcRes::ErrException));
        }
        proof {
            lemma_overwrite_append(before, 0, head, u32_le(self.oui));
            lemma_overwrite_append(before, 0, head + u32_le(self.oui), u32_le(self.did));
            lemma_overwrite_append(
                before,
                0,
                head + u32_le(self.oui) + u32_le(self.did),
                u32_le(self.fp),
            );
            lemma_overwrite_append(
                before,
                0,
                head + u32_le(self.oui) + u32_le(self.did) + u32_le(self.fp),
                u32_le(self.seq),
            );
        }
        if w.put_u8(pay_len as u8).is_err() {
            return Err(LfcError(LfcRes::ErrException));
        }
        if w.put_u8(self.flags.pack()).is_err() {
            return Err(LfcError(LfcRes::ErrException));
        }
        proof {
            let fixed = head + u32_le(self.oui) + u32_le(self.did) + u32_le(self.fp) + u32_le(
                self.seq,
            );
            lemma_overwrite_append(before, 0, fixed, seq![pay_len as u8]);
            lemma_overwrite_append(
                before,
                0,
                fixed + seq![pay_len as u8],
                seq![self.flags.bits() as u8],
            );
            assert(fixed + seq![pay_len as u8] + seq![self.flags.bits() as u8] =~= fixed + tail);
            lemma_overwrite_append(before, 0, fixed + tail, pay@);
        }
        if w.put_bytes(pay.as_slice()).is_err() {
            return Err(LfcError(LfcRes::ErrException));
        }
        Ok(w.position())
    }

    /// Reads the frame at the front of `src`: the datagram, and the payload
    /// in a buffer of its own.
    pub fn des(src: &[u8]) -> (res: Result<(Datagram, Payload), LfcError>)
        ensures
            match res {
                Ok((dg, pay)) => parse(src@) == Ok::<(Datagram, Seq<u8>), LfcRes>((dg, pay@)),
                Err(e) => parse(src@) == Err::<(Datagram, Seq<u8>), LfcRes>(e.0),
            },
    {
        let mut r = Reader::new(src);
        let tag: u8 = match r.take_u8() {
            Ok(tag) => tag,
            Err(e) => {
                return Err(e);
            },
        };
        match FrameKind::from_tag(tag) {
            Some(FrameKind::Monolithic) => {},
            Some(_) => {
                return Err(LfcError(LfcRes::ErrException));
            },
            None => {
                return Err(LfcError(LfcRes::InvalidType));
            },
        }
        let oui: u32 = match r.take_u32_le() {
            Ok(v) => v,
            Err(e) => {
                return Err(e);
            },
        };
        let did: u32 = match r.take_u32_le() {
            Ok(v) => v,
            Err(e) => {
                return Err(e);
            },
        };
        let fp: u32 = match r.take_u32_le() {
            Ok(v) => v,
            Err(e) => {
                return Err(e);
            },
        };
        let seq: u32 = match r.take_u32_le() {
            Ok(v) => v,
            Err(e) => {
                return Err(e);
            },
        };
        let pay_len: u8 = match r.take_u8() {
            Ok(v) => v,
            Err(e) => {
                return Err(e);
            },
        };
        let flag_byte: u8 = match r.take_u8() {
            Ok(v) => v,
            Err(e) => {
                return Err(e);
            },
        };
        if pay_len as usize > MAX_PAY_LEN {
            return Err(LfcError(LfcRes::ErrNomem));
        }
        let bytes: &[u8] = match r.take_bytes(pay_len as usize) {
            Ok(bytes) => bytes,
            Err(e) => {
                return Err(e);
            },
        };
        let pay: Payload = match Payload::from_slice(bytes) {
            Ok(pay) => pay,
            Err(_) => {
                return Err(LfcError(LfcRes::ErrException));
            },
        };
        Ok((Datagram { flags: Flags::unpack(flag_byte), oui, did, fp, seq }, pay))
    }

    /// Encodes this datagram and `payload` into the front of `dst` as one
    /// frame, and returns the length of the frame.
    ///
    /// A payload of more than [`MAX_PAY_LEN`] bytes, and a `dst` that is
    /// shorter than the frame, are refused with `ErrNomem`; `dst` is then
    /// left as it was. On success the bytes of `dst` behind the frame are
    /// left as they were.
    pub fn encode(&self, payload: &[u8], dst: &mut [u8]) -> (res: Result<usize, LfcError>)
        ensures
            match res {
                Ok(n) => payload@.len() <= MAX_PAY_LEN && n == HEADER_LEN + payload@.len() && n
                    <= old(dst)@.len() && final(dst)@ == overwrite(
                    old(dst)@,
                    0,
                    frame(*self, payload@),
                ),
                Err(e) => (payload@.len() > MAX_PAY_LEN || old(dst)@.len() < HEADER_LEN
                    + payload@.len()) && e == LfcError(LfcRes::ErrNomem) && final(dst)@ == old(
                    dst,
                )@,
            },
    {
        let pay: Payload = match Payload::from_slice(payload) {
            Ok(pay) => pay,
            Err(e) => {
                return Err(e);
            },
        };
        self.ser(&pay, dst)
    }

    /// Decodes the frame at the front of `src`: copies its payload to the
    /// front of `payload` and returns the payload's length and the datagram.
    ///
    /// What `src` holds behind the frame is not looked at, so `src` has to
    /// end where the frame ends. Where [`parse`] finds no frame, its reason
    /// is the error; where `payload` is too short for what the frame carries,
    /// the error is `ErrNomem`. On every error `payload` is left as it was;
    /// on success its bytes behind the copy are.
    pub fn decode(src: &[u8], payload: &mut [u8]) -> (res: Result<(usize, Self), LfcError>)
        ensures
            match parse(src@) {
                Ok((dg, pay)) => if pay.len() <= old(payload)@.len() {
                    res == Ok::<(usize, Datagram), LfcError>((pay.len() as usize, dg))
                        && final(payload)@ == overwrite(old(payload)@, 0, pay)
                } else {
                    res == Err::<(usize, Datagram), LfcError>(LfcError(LfcRes::ErrNomem))
                        && final(payload)@ == old(payload)@
                },
                Err(kind) => res == Err::<(usize, Datagram), LfcError>(LfcError(kind))
                    && final(payload)@ == old(payload)@,
            },
            src@.len() >= 1 && src@[0] != FrameKind::Monolithic.tag_spec() ==> final(payload)@
                == old(payload)@ && (res == Err::<(usize, Datagram), LfcError>(
                LfcError(LfcRes::InvalidType),
            ) || res == Err::<(usize, Datagram), LfcError>(LfcError(LfcRes::ErrException))),
    {
        let (dg, pay) = match Datagram::des(src) {
            Ok(found) => found,
            Err(e) => {
                return Err(e);
            },
        };
        match pay.copy_to(payload) {
            Ok(n) => Ok((n, dg)),
            Err(e) => Err(e),
        }
    }
}

impl Clone for Datagram {
    /// The copy has the same fields.
    fn clone(&self) -> (copy: Datagram)
        ensures
            copy == *self,
    {
        Datagram {
            flags: self.flags.clone(),
            oui: self.oui,
            did: self.did,
            fp: self.fp,
            seq: self.seq,
        }
    }
}

impl Default for Datagram {
    /// No flag is set and every number is zero.
    fn default() -> (dg: Datagram)
        ensures
            dg == (Datagram {
                flags: Flags {
                    downlink: false,
                    should_ack: false,
                    cts_rts: false,
                    priority: false,
                    ldpc: false,
                },
                oui: 0,
                did: 0,
                fp: 0,
                seq: 0,
            }),
    {
        Datagram { flags: Flags::default(), oui: 0, did: 0, fp: 0, seq: 0 }
    }
}

} // verus!
