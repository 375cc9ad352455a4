use longfi::cursor::{Reader, Writer};
use longfi::payload::MAX_PAY_LEN;
use longfi::{Flags, FrameKind, LfcError, LfcRes, Payload};

#[test]
fn each_kind_has_its_description() {
    assert_eq!(LfcRes::NoError.description(), "No error");
    assert_eq!(
        LfcRes::ErrAddr.description(),
        "Received datagram does not match configured OUI or DID"
    );
    assert_eq!(
        LfcRes::ErrFingerprint.description(),
        "Received datagram's fingerprint does not match locally computed fingerprint"
    );
    assert_eq!(LfcRes::ErrException.description(), "Uknown error");
    assert_eq!(LfcRes::ErrNomem.description(), "Provided buffer is too small for request");
    assert_eq!(LfcRes::InvalidType.description(), "Invalid datagram type");
    assert_eq!(LfcRes::InvalidFlags.description(), "Invalid datagram flags");
    assert_eq!(LfcError(LfcRes::ErrNomem).description(), "Provided buffer is too small for request");
    assert_eq!(LfcError(LfcRes::InvalidType).description(), "Invalid datagram type");
}

#[test]
fn frame_kinds_have_their_tags() {
    assert_eq!(FrameKind::Monolithic.tag(), 0);
    assert_eq!(FrameKind::FrameStart.tag(), 1);
    assert_eq!(FrameKind::FrameData.tag(), 2);
    assert_eq!(FrameKind::Ack.tag(), 3);
    assert_eq!(FrameKind::from_tag(0), Some(FrameKind::Monolithic));
    assert_eq!(FrameKind::from_tag(1), Some(FrameKind::FrameStart));
    assert_eq!(FrameKind::from_tag(2), Some(FrameKind::FrameData));
    assert_eq!(FrameKind::from_tag(3), Some(FrameKind::Ack));
    assert_eq!(FrameKind::from_tag(4), None);
    assert_eq!(FrameKind::from_tag(255), None);
}

#[test]
fn flags_pack_lowest_bit_first() {
    let none = Flags::default();
    assert_eq!(none.pack(), 0);
    assert_eq!(Flags { downlink: true, ..none.clone() }.pack(), 1);
    assert_eq!(Flags { should_ack: true, ..none.clone() }.pack(), 2);
    assert_eq!(Flags { cts_rts: true, ..none.clone() }.pack(), 4);
    assert_eq!(Flags { priority: true, ..none.clone() }.pack(), 8);
    assert_eq!(Flags { ldpc: true, ..none.clone() }.pack(), 16);
    let all = Flags { downlink: true, should_ack: true, cts_rts: true, priority: true, ldpc: true };
    assert_eq!(all.pack(), 31);
    assert_eq!(Flags::unpack(31), all);
    assert_eq!(Flags::unpack(0xFF), all);
    assert_eq!(Flags::unpack(0xE0), none);
}

#[test]
fn flags_unpack_inverts_pack() {
    for bits in 0..32_u8 {
        assert_eq!(Flags::unpack(bits).pack(), bits);
        assert_eq!(Flags::unpack(bits | 0x20).pack(), bits);
    }
}

#[test]
fn writer_fills_front_to_back() {
    let mut buf = [0xAA_u8; 8];
    let mut w = Writer::new(&mut buf);
    assert_eq!(w.position(), 0);
    assert_eq!(w.put_u8(0x11), Ok(()));
    assert_eq!(w.put_u32_le(0xDDCC_BBAA), Ok(()));
    assert_eq!(w.put_bytes(&[1, 2]), Ok(()));
    assert_eq!(w.position(), 7);
    assert_eq!(buf, [0x11, 0xAA, 0xBB, 0xCC, 0xDD, 1, 2, 0xAA]);
}

#[test]
fn writer_refuses_what_does_not_fit_and_writes_none_of_it() {
    let mut buf = [0xAA_u8; 3];
    let mut w = Writer::new(&mut buf);
    assert_eq!(w.put_u32_le(1), Err(LfcError(LfcRes::ErrNomem)));
    assert_eq!(w.put_bytes(&[1, 2, 3, 4]), Err(LfcError(LfcRes::ErrNomem)));
    assert_eq!(w.position(), 0);
    assert_eq!(w.put_bytes(&[1, 2, 3]), Ok(()));
    assert_eq!(w.put_u8(9), Err(LfcError(LfcRes::ErrNomem)));
    assert_eq!(w.put_bytes(&[]), Ok(()));
    assert_eq!(w.position(), 3);
    assert_eq!(buf, [1, 2, 3]);
}

#[test]
fn reader_consumes_front_to_back() {
    let buf = [0x11_u8, 0xAA, 0xBB, 0xCC, 0xDD, 1, 2, 3];
    let mut r = Reader::new(&buf);
    assert_eq!(r.take_u8(), Ok(0x11));
    assert_eq!(r.take_u32_le(), Ok(0xDDCC_BBAA));
    assert_eq!(r.position(), 5);
    assert_eq!(r.take_u32_le(), Err(LfcError(LfcRes::ErrNomem)));
    assert_eq!(r.take_bytes(4), Err(LfcError(LfcRes::ErrNomem)));
    assert_eq!(r.position(), 5);
    assert_eq!(r.take_bytes(3), Ok(&[1_u8, 2, 3][..]));
    assert_eq!(r.take_u8(), Err(LfcError(LfcRes::ErrNomem)));
    assert_eq!(r.take_bytes(0), Ok(&[][..]));
    assert_eq!(r.position(), 8);
}

#[test]
fn reader_reads_the_largest_number() {
    let buf = [0xFF_u8; 4];
    let mut r = Reader::new(&buf);
    assert_eq!(r.take_u32_le(), Ok(u32::MAX));
}

#[test]
fn payload_holds_up_to_its_capacity() {
    let full = [3_u8; MAX_PAY_LEN];
    let pay = Payload::from_slice(&full).unwrap();
    assert_eq!(pay.len(), 128);
    assert_eq!(pay.as_slice(), &full[..]);
    assert_eq!(pay.clone().as_slice(), &full[..]);
    let over = [3_u8; MAX_PAY_LEN + 1];
    assert_eq!(Payload::from_slice(&over).err(), Some(LfcError(LfcRes::ErrNomem)));
    let none = Payload::from_slice(&[]).unwrap();
    assert_eq!(none.len(), 0);
    assert_eq!(none.as_slice(), &[] as &[u8]);
}

#[test]
fn payload_copies_itself_out_only_where_it_fits() {
    let pay = Payload::from_slice(&[1, 2, 3]).unwrap();
    let mut short = [9_u8; 2];
    assert_eq!(pay.copy_to(&mut short), Err(LfcError(LfcRes::ErrNomem)));
    assert_eq!(short, [9, 9]);
    let mut long = [9_u8; 5];
    assert_eq!(pay.copy_to(&mut long), Ok(3));
    assert_eq!(long, [1, 2, 3, 9, 9]);
}
