//! The receiver's protocol and its opening.
use sdroxide::airspy::device::{AirspyConfig, Device, Error, Opening, Transfer};
use sdroxide::airspy::protocol::{
    complex_rate_hz, encode_samplerate, fallback_rates, looks_like_hydrasdr, packed_whole_words,
    parse_ascii, parse_count, parse_rates, program_rate_hz, serial_matches, unpack12,
    unpack12_bytes, GainCurve, PartIdSerial, RateArg, ReceiverMode, Request, GAIN_COUNT,
    MIN_SAMPLERATE_BY_VALUE, PACKED_GROUP_BYTES,
};

/// The doubling, stated as an equation rather than a comment. Getting it
/// wrong halves the span with nothing on screen to say so.
#[test]
fn the_programmed_rate_is_twice_the_complex_rate() {
    assert_eq!(program_rate_hz(10_000_000), 20_000_000);
    assert_eq!(program_rate_hz(2_500_000), 5_000_000);
    assert_eq!(program_rate_hz(3_000_000), 6_000_000);
    // And back again, exactly.
    for complex in [2_500_000u64, 3_000_000, 6_000_000, 10_000_000] {
        assert_eq!(complex_rate_hz(program_rate_hz(complex)), complex);
    }
}

/// A listed rate goes out as its index; only an unlisted one goes out as
/// kilohertz. Sending the wrong one does not fail: the receiver runs at
/// some other rate and says nothing.
#[test]
fn a_listed_rate_goes_out_as_its_index_and_the_rest_as_kilohertz() {
    // The R2's own list, as programmed (doubled) rates.
    let rates = [20_000_000u64, 5_000_000];

    // Both of the R2's rates are on that list, so both go out as indices.
    assert_eq!(encode_samplerate(program_rate_hz(10_000_000), &rates), Some(RateArg::Index(0)));
    assert_eq!(encode_samplerate(program_rate_hz(2_500_000), &rates), Some(RateArg::Index(1)));
    // A Mini's list, to pin that the index is a position and not a rank.
    let mini = [12_000_000u64, 6_000_000, 3_000_000];
    assert_eq!(encode_samplerate(program_rate_hz(3_000_000), &mini), Some(RateArg::Index(1)));

    // Not on the list, and big enough to name in kilohertz, of the
    // programmed rate, not the complex one.
    assert_eq!(encode_samplerate(program_rate_hz(4_000_000), &rates), Some(RateArg::Khz(8_000)));
    assert_eq!(
        encode_samplerate(MIN_SAMPLERATE_BY_VALUE as u64, &rates),
        Some(RateArg::Khz(1_000))
    );
    // Sub-megahertz and unlisted: no index to send, and guessing one would
    // be worse than refusing.
    let slow = [500_000u64, 250_000];
    assert_eq!(encode_samplerate(250_000, &slow), Some(RateArg::Index(1)));
    assert_eq!(encode_samplerate(300_000, &slow), None);
    // Too large for `wIndex` in kilohertz is also a refusal rather than a
    // wrapped number that would program some unrelated rate.
    assert_eq!(encode_samplerate(100_000_000_000, &rates), None);
}

/// The tables are indexed backwards. If this reverses, every gain slider in
/// the program runs the wrong way.
#[test]
fn step_zero_is_least_gain_and_the_top_step_is_most() {
    for curve in [GainCurve::Linearity, GainCurve::Sensitivity] {
        let (lna_lo, mix_lo, vga_lo) = curve.stages(0);
        let (lna_hi, mix_hi, vga_hi) = curve.stages(GAIN_COUNT - 1);
        let lo = lna_lo as u32 + mix_lo as u32 + vga_lo as u32;
        let hi = lna_hi as u32 + mix_hi as u32 + vga_hi as u32;
        assert!(hi > lo, "{curve:?}: step 0 must be the quiet end, not the loud one");
    }
    // Against literals: step 0 is the *last* row of each table.
    assert_eq!(GainCurve::Linearity.stages(0), (0, 0, 4));
    assert_eq!(GainCurve::Linearity.stages(21), (14, 12, 13));
    assert_eq!(GainCurve::Sensitivity.stages(0), (0, 0, 4));
    assert_eq!(GainCurve::Sensitivity.stages(21), (14, 12, 13));

    // Every stage value must be inside the R820T2's 0-15 range, or the
    // receiver rejects the write.
    for curve in [GainCurve::Linearity, GainCurve::Sensitivity] {
        for step in 0..=GAIN_COUNT {
            let (l, m, v) = curve.stages(step);
            assert!(l <= 15 && m <= 15 && v <= 15, "{curve:?} step {step}: {l},{m},{v}");
        }
    }
    // Out of range clamps rather than panicking on a hand-edited config.
    assert_eq!(GainCurve::Linearity.stages(200), GainCurve::Linearity.stages(GAIN_COUNT - 1));
}

/// Three words in, eight samples out, and every one of them 12 bits.
#[test]
fn the_packing_unpacks_three_words_into_eight_samples() {
    // A group whose nibbles are individually recognisable, so a misplaced
    // shift shows up as a recognisably wrong digit rather than as noise.
    let words = [0xBCDE_F012u32, 0x3456_789A, 0xBCDE_F012];
    let mut out = Vec::new();
    unpack12(&words, &mut out);
    assert_eq!(out.len(), 8, "three words carry eight samples");
    for (i, s) in out.iter().enumerate() {
        assert!(*s <= 0xfff, "sample {i} = {s:#x} is not 12 bits");
    }

    // The first two come straight out of the top of word 0.
    let w0 = words[0];
    assert_eq!(out[0], ((w0 >> 20) & 0xfff) as u16);
    assert_eq!(out[1], ((w0 >> 8) & 0xfff) as u16);
    // The third straddles words 0 and 1.
    assert_eq!(out[2], (((w0 & 0xff) << 4) | ((words[1] >> 28) & 0xf)) as u16);
    // The last is the bottom of word 2.
    assert_eq!(out[7], (words[2] & 0xfff) as u16);

    // A partial group carries no whole samples and must be left alone.
    let mut out = Vec::new();
    unpack12(&words[..2], &mut out);
    assert!(out.is_empty(), "two words are not a group");
    assert_eq!(packed_whole_words(7), 6);
    assert_eq!(packed_whole_words(2), 0);
    assert_eq!(packed_whole_words(3), 3);

    // The wire-order entry point decodes the same samples from the same
    // bytes, and stops at the last whole group rather than consuming the tail.
    let bytes: Vec<u8> = words.iter().flat_map(|w| w.to_le_bytes()).collect();
    let mut from_words = Vec::new();
    unpack12(&words, &mut from_words);
    let mut from_bytes = Vec::new();
    unpack12_bytes(&bytes, &mut from_bytes);
    assert_eq!(from_words, from_bytes);
    assert_eq!(PACKED_GROUP_BYTES, 12);
    let mut partial = Vec::new();
    unpack12_bytes(&bytes[..PACKED_GROUP_BYTES - 1], &mut partial);
    assert!(partial.is_empty(), "eleven bytes are not a group");
}

#[test]
fn the_rate_list_is_little_endian_and_drops_zeroes() {
    // An R2's reply. These are *complex* rates: the receiver digitises at
    // twice each of them.
    let mut b = Vec::new();
    for r in [10_000_000u32, 2_500_000] {
        b.extend_from_slice(&r.to_le_bytes());
    }
    assert_eq!(parse_rates(&b), vec![10_000_000u64, 2_500_000]);
    assert_eq!(
        parse_rates(&b).iter().map(|r| program_rate_hz(*r)).collect::<Vec<_>>(),
        vec![20_000_000u64, 5_000_000],
        "the ADC runs at twice the listed rate"
    );
    // A trailing partial word is dropped, not misread.
    b.push(0x01);
    assert_eq!(parse_rates(&b).len(), 2);
    // A zero rate is not a rate.
    assert_eq!(parse_rates(&0u32.to_le_bytes()), Vec::<u64>::new());
    assert_eq!(parse_count(&9u32.to_le_bytes()), Some(9));
    assert_eq!(parse_count(&[1, 2, 3]), None);
}

#[test]
fn the_part_id_reply_splits_into_two_words_and_four() {
    let mut b = Vec::new();
    for w in [0x6906_0004u32, 0x0030_0037, 0, 0, 0x4711_0000, 0x0000_0042] {
        b.extend_from_slice(&w.to_le_bytes());
    }
    let p = PartIdSerial::parse(&b).expect("24 bytes is a whole reply");
    assert_eq!(p.part_id, [0x6906_0004, 0x0030_0037]);
    assert_eq!(p.serial_hex(), "00000000000000004711000000000042");
    // A short reply is not a half-parsed serial: that would pin the wrong
    // receiver out of several.
    assert_eq!(PartIdSerial::parse(&b[..23]), None);
    assert_eq!(PartIdSerial::parse(&[]), None);
}

/// Both requests were added after the product shipped; an older receiver
/// stalls them, and treating that as a fault would refuse to open it.
#[test]
fn only_the_later_requests_are_optional() {
    assert!(Request::GetSamplerates.is_optional());
    assert!(Request::SetPacking.is_optional());
    for r in [
        Request::ReceiverMode,
        Request::SetFreq,
        Request::SetSamplerate,
        Request::SetLnaGain,
        Request::SetMixerGain,
        Request::SetVgaGain,
    ] {
        assert!(!r.is_optional(), "{r:?} is what makes the receiver work");
    }
    assert_eq!(Request::ReceiverMode.code(), 1);
    assert_eq!(Request::SetFreq.code(), 13);
    assert_eq!(Request::GetSamplerates.code(), 25);
    assert_eq!(Request::SetPacking.code(), 26);
}

/// The USB id this receiver answers on is not exclusively its own: another
/// radio's prototypes have it, and that radio needs another driver.
#[test]
fn a_hydrasdr_prototype_on_this_usb_id_is_recognised_and_left_alone() {
    assert!(looks_like_hydrasdr(Some("HydraSDR RFOne"), None));
    assert!(looks_like_hydrasdr(Some("hydrasdr rfone"), None), "case is the firmware's choice");
    assert!(looks_like_hydrasdr(None, Some("HYDRASDR SN:0011223344556677")));
    // A real Airspy must still be claimed, whatever it does or does not
    // publish about itself.
    assert!(!looks_like_hydrasdr(Some("AirSpy"), Some("644064DC3238C33F")));
    assert!(!looks_like_hydrasdr(None, None));
}

#[test]
fn a_serial_matches_on_its_suffix() {
    let full = Some("644064DC3238C33F");
    assert!(serial_matches("3238C33F", full));
    assert!(serial_matches("3238c33f", full), "case is the firmware's choice");
    assert!(serial_matches(" 3238C33F ", full));
    assert!(!serial_matches("644064DC", full), "a prefix is not a suffix");
    assert!(!serial_matches("F".repeat(64).as_str(), full), "longer than the serial");
    assert!(serial_matches("", full), "no serial configured means any receiver");
    assert!(!serial_matches("3238C33F", None));
}

#[test]
fn ascii_replies_stop_at_the_nul() {
    assert_eq!(
        parse_ascii(b"AirSpy NOS v1.0.0-rc10-6-g4008185\0\0"),
        "AirSpy NOS v1.0.0-rc10-6-g4008185"
    );
    assert_eq!(parse_ascii(b"\0junk"), "");
    assert_eq!(parse_ascii(b""), "");
}

#[test]
fn a_reply_that_is_not_utf8_is_shown_with_marks() {
    assert_eq!(parse_ascii(b"AB\xffC\0"), "AB\u{fffd}C");
}

fn config() -> AirspyConfig {
    AirspyConfig {
        sample_rate_hz: 10_000_000,
        gain_curve: GainCurve::Linearity,
        gain_step: 5,
        lna_agc: false,
        mixer_agc: false,
        bias_tee: true,
        packing: true,
    }
}

/// Answers every read of an opening, and keeps what was asked for.
fn open(version: &[u8], rates: Option<&[u32]>) -> (Result<(), Error>, Vec<Transfer>, Device) {
    let cfg = config();
    let mut o = Opening::new(&cfg, 14_074_000);
    let mut sent = Vec::new();
    let mut reads = 0;
    let mut result = Ok(());
    while let Some(t) = o.action() {
        sent.push(t);
        let reply = match t {
            Transfer::In { request: Request::VersionStringRead, .. } => Some(version.to_vec()),
            Transfer::In { request: Request::BoardPartidSerialnoRead, .. } => Some(vec![7u8; 24]),
            Transfer::In { request: Request::GetSamplerates, .. } => {
                reads += 1;
                rates.map(|r| {
                    if reads == 1 {
                        (r.len() as u32).to_le_bytes().to_vec()
                    } else {
                        r.iter().flat_map(|w| w.to_le_bytes()).collect()
                    }
                })
            }
            _ => Some(vec![1]),
        };
        result = o.on_reply(reply);
        if result.is_err() {
            break;
        }
    }
    (result, sent, o.dev)
}

#[test]
fn an_opening_stops_first_and_sets_everything() {
    let (r, sent, dev) = open(b"AirSpy NOS v1.0.0\0", Some(&[10_000_000, 2_500_000]));
    assert_eq!(r, Ok(()));
    assert_eq!(sent[0], Device::mode_request(ReceiverMode::Off));
    assert_eq!(dev.firmware, "AirSpy NOS v1.0.0");
    assert_eq!(dev.available_rates(), vec![10_000_000u64, 2_500_000]);
    assert_eq!(dev.sample_rate_hz(), 10_000_000);
    assert_eq!(dev.center_hz(), 14_074_000);
    assert!(dev.packing_active());
    assert!(sent.contains(&Transfer::Tune { hz: 14_074_000 }));
}

#[test]
fn a_receiver_that_names_no_rates_gets_those_of_an_r2() {
    let (r, _, dev) = open(b"AirSpy\0", None);
    assert_eq!(r, Ok(()));
    assert_eq!(dev.available_rates(), fallback_rates());
}

#[test]
fn another_radio_behind_the_same_id_is_refused() {
    let (r, _, _) = open(b"HydraSDR RFOne\0", None);
    assert_eq!(r, Err(Error::WrongRadio("HydraSDR RFOne".to_string())));
}

#[test]
fn the_nearest_rate_is_chosen_and_noted() {
    let mut dev = Device::new(&config(), 7_000_000);
    dev.rates_programmed = vec![20_000_000, 5_000_000];
    assert_eq!(dev.choose_rate(3_000_000), Ok(()));
    assert_eq!(dev.sample_rate_hz(), 2_500_000);
    assert_eq!(dev.snapped_from, Some(3_000_000));
    dev.rates_programmed = Vec::new();
    assert_eq!(dev.choose_rate(100_000), Err(Error::Unsupported));
}

#[test]
fn loops_are_settled_before_the_stages() {
    let mut dev = Device::new(&config(), 7_000_000);
    let t = dev.set_lna_agc(true);
    assert_eq!(t[0], Transfer::Setting { request: Request::SetLnaAgc, index: 1 });
    assert!(!t.iter().any(|x| matches!(x, Transfer::Setting { request: Request::SetLnaGain, .. })));
}

#[test]
fn a_rate_change_keeps_the_wish_that_was_not_met() {
    let (r, _, mut dev) = open(b"AirSpy NOS v1.0.0", Some(&[10_000_000, 2_500_000]));
    assert_eq!(r, Ok(()));
    assert_eq!(dev.firmware, "AirSpy NOS v1.0.0");
    let part = dev.part_serial.expect("the reply names a part");
    assert_eq!(part.serial, [0x0707_0707; 4]);
    assert_eq!(dev.snapped_from, None);
    assert_eq!(dev.set_rate(3_000_000).map(|t| t.len()), Ok(2));
    assert_eq!(dev.snapped_from, Some(3_000_000));
    // A wish that is met does not undo that one was not.
    assert!(dev.set_rate(10_000_000).is_ok());
    assert_eq!(dev.snapped_from, Some(3_000_000));
}
