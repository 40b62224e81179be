//! Packets of AX.25.
use sdroxide::ax25::addr::Addr;
use sdroxide::ax25::packet::{Packet, PacketType};
use sdroxide::ax25::Ax25Error;

fn addr(s: &str) -> Addr {
    Addr::new(s).unwrap()
}

/// A UI frame with a path reads back with all it was made of.
#[test]
fn a_packet_reads_back() {
    let via = vec![addr("WIDE1-1"), addr("WIDE2-1")];
    let p = Packet::ui_via(addr("OE3JJS-9"), addr("APRS"), via, b"!hello".to_vec());
    let bytes = p.serialize(false);
    assert_eq!(bytes.len(), 4 * 7 + 2 + 6);
    let q = Packet::parse(&bytes, None).unwrap();
    assert_eq!(q.src().call(), "OE3JJS-9");
    assert_eq!(q.dst().call(), "APRS");
    let path: Vec<&str> = q.digipeaters().iter().map(|a| a.call()).collect();
    assert_eq!(path, vec!["WIDE1-1", "WIDE2-1"]);
    assert!(q.command_response());
    match q.packet_type() {
        PacketType::Ui(u) => {
            assert_eq!(u.pid, 0xf0);
            assert_eq!(u.payload, b"!hello");
        }
        other => panic!("{other:?}"),
    }
}

#[test]
fn a_supervisory_frame_has_its_number() {
    let mut b = addr("OE3JJS").serialize(false, true, false, false);
    b.extend(addr("OE1AAA").serialize(true, false, false, false));
    b.push(0xB1);
    match Packet::parse(&b, Some(false)).unwrap().packet_type() {
        PacketType::Rr(r) => assert_eq!((r.nr, r.poll), (5, true)),
        other => panic!("{other:?}"),
    }
}

#[test]
fn bytes_that_are_no_packet_are_refused() {
    assert!(matches!(Packet::parse_checked(&[0; 3], None), Some(Err(Ax25Error::Short(3)))));
    assert!(matches!(Packet::parse_checked(&[0x20; 20], None), Some(Err(Ax25Error::Callsign(_)))));
    // A path that never ends.
    let mut b = addr("OE3JJS").serialize(false, true, false, false);
    b.extend(addr("OE1AAA").serialize(false, false, false, false));
    b.push(0x03);
    assert!(Packet::parse_checked(&b, None).is_none());
    // An extended control field that is cut off.
    let mut b = addr("OE3JJS").serialize(false, true, false, false);
    b.extend(addr("OE1AAA").serialize(true, false, false, false));
    b.push(0x01);
    assert!(matches!(Packet::parse_checked(&b, Some(true)), Some(Err(Ax25Error::Parse(_)))));
    assert!(matches!(Addr::parse(&[0; 3]), Err(Ax25Error::AddrLength(3))));
}

#[test]
fn digipeaters_read_back_in_order_and_unused() {
    for via in [vec![], vec!["oe3xlr-11"], vec!["w\u{131}de1-1", "WIDE2-2", "n0call"]] {
        let path: Vec<Addr> = via.iter().map(|s| addr(s)).collect();
        let calls: Vec<String> = path.iter().map(|a| a.call().to_string()).collect();
        let p = Packet::ui_via(addr("OE3JJS"), addr("APRS"), path, b"x".to_vec());
        let q = Packet::parse(&p.serialize(false), None).unwrap();
        let heard: Vec<String> = q.digipeaters().iter().map(|a| a.call().to_string()).collect();
        assert_eq!(heard, calls);
        assert!(q.digipeaters().iter().all(|a| !a.highbit()));
    }
}

/// Whatever was read reads back from its own bytes, one control field after the
/// other.
#[test]
fn what_was_read_reads_back() {
    let mut kept = 0;
    for c in 0..=255u8 {
        let p = Packet::ui_via(addr("OE3JJS-9"), addr("APRS"), vec![addr("WIDE1-1")], vec![]);
        let mut bytes = p.serialize(false);
        bytes.truncate(3 * 7);
        bytes.extend([c, 0xf0, b'x', b'y']);
        let Some(Ok(p)) = Packet::parse_checked(&bytes, Some(false)) else { continue };
        let lost = match p.packet_type() {
            PacketType::Rej(f) => f.nr != 0,
            PacketType::Srej(f) => f.nr != 0,
            _ => false,
        };
        if lost {
            continue;
        }
        let q = Packet::parse(&p.serialize(false), Some(false)).unwrap();
        assert_eq!(q.packet_type(), p.packet_type(), "{c:#04x}");
        assert_eq!(q.command_response(), p.command_response());
        assert_eq!((q.src().call(), q.dst().call()), ("OE3JJS-9", "APRS"));
        assert_eq!(q.digipeaters()[0].call(), "WIDE1-1");
        kept += 1;
    }
    assert!(kept > 150, "{kept}");
}
