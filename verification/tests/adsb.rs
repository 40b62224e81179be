//! Replies of transponders, out of noise.
use sdroxide::adsb::burst::{keyed, Noise};
use sdroxide::adsb::demod::{Candidate, Rate};
use sdroxide::adsb::track::Demod;

/// A DF17 position squitter.
const DF17: [u8; 14] =
    [0x8D, 0x40, 0x62, 0x1D, 0x58, 0xC3, 0x82, 0xD6, 0x90, 0xC8, 0xAC, 0x28, 0x63, 0xA7];

fn rnd(n: &mut Noise) -> f32 {
    n.next() as f32 / 8_388_608.0 - 1.0
}

fn power(re: f32, im: f32) -> u64 {
    ((re as f64 * re as f64 + im as f64 * im as f64) * 1e12) as u64
}

/// A reply at an amplitude, in noise.
fn modulate(msg: &[u8], rate: u32, amp: f32, nf: f32, seed: u64) -> Vec<u64> {
    let mut n = Noise::new(seed);
    keyed(msg, rate)
        .iter()
        .map(|&on| {
            let a = if on { amp } else { 0.0 };
            let re = a + nf * rnd(&mut n);
            let im = nf * rnd(&mut n);
            power(re, im)
        })
        .collect()
}

fn decode_at(rate: u32) -> Vec<Candidate> {
    let iq = modulate(&DF17, rate, 1.0, 0.02, 0x9E37_79B9);
    let mut d = Demod::new(rate);
    let mut out = Vec::new();
    // Two passes so the noise tracker has run before the message arrives,
    // exactly what happens on air.
    d.push(&vec![0u64; 4096], &mut out);
    out.clear();
    d.push(&iq, &mut out);
    out
}

/// The demodulator is written in microseconds, so the same burst has to
/// come back at every rate a front end might deliver.
#[test]
fn one_burst_decodes_at_every_rate_a_front_end_delivers() {
    for rate in [2_000_000u32, 2_400_000, 2_500_000, 3_200_000, 8_000_000] {
        let out = decode_at(rate);
        assert!(!out.is_empty(), "nothing found at {rate}");
        assert!(
            out.iter().any(|c| c.bytes == DF17),
            "the message came back wrong at {rate}: {:02X?}",
            out[0].bytes
        );
    }
}

/// A message split across two blocks must still decode.
#[test]
fn a_burst_straddling_a_block_boundary_still_decodes() {
    let rate = 2_400_000;
    let iq = modulate(&DF17, rate, 1.0, 0.02, 0x1234_5678);
    // Cut in the middle of the data block.
    let cut = iq.len() / 2;
    let mut d = Demod::new(rate);
    let mut out = Vec::new();
    d.push(&vec![0u64; 4096], &mut out);
    out.clear();
    d.push(&iq[..cut], &mut out);
    d.push(&iq[cut..], &mut out);
    assert!(
        out.iter().any(|c| c.bytes == DF17),
        "the split message was lost: {} candidates",
        out.len()
    );
}

/// Noise alone must not produce messages.
#[test]
fn noise_alone_yields_almost_no_candidates() {
    let rate = 2_400_000;
    let mut n = Noise { state: 0xDEAD_BEEF };
    // One second of noise.
    let iq: Vec<u64> = (0..2_400_000)
        .map(|_| {
            let re = 0.05 * rnd(&mut n);
            let im = 0.05 * rnd(&mut n);
            power(re, im)
        })
        .collect();
    let mut d = Demod::new(rate);
    let mut out = Vec::new();
    for chunk in iq.chunks(16_384) {
        d.push(chunk, &mut out);
    }
    assert!(
        out.len() < 2_000,
        "the correlator fired {} times on a second of pure noise",
        out.len()
    );
}

/// A short reply is 56 bits, and the length comes from the first five.
#[test]
fn the_downlink_format_chooses_the_length() {
    let rate = 2_400_000;
    // DF4 (00100...) surveillance altitude reply, seven bytes.
    let short = [0x20u8, 0x00, 0x11, 0x91, 0xAB, 0xCD, 0xEF];
    let iq = modulate(&short, rate, 1.0, 0.02, 0xABCD_0123);
    let mut d = Demod::new(rate);
    let mut out = Vec::new();
    d.push(&vec![0u64; 4096], &mut out);
    out.clear();
    d.push(&iq, &mut out);
    assert!(
        out.iter().any(|c| c.bytes == short),
        "a short reply did not come back as seven bytes: {:02X?}",
        out.first().map(|c| &c.bytes)
    );
}

/// One reply is one message, however the blocks fall.
#[test]
fn a_message_is_found_once() {
    let rate = 2_400_000;
    let iq = modulate(&DF17, rate, 1.0, 0.0, 7);
    for size in [1usize, 17, 100, 1000] {
        let mut d = Demod::new(rate);
        let mut out = Vec::new();
        d.push(&vec![0u64; 4096], &mut out);
        for chunk in iq.chunks(size) {
            d.push(chunk, &mut out);
        }
        d.push(&vec![0u64; 4096], &mut out);
        assert_eq!(out.len(), 1, "in blocks of {size}");
        assert_eq!(out[0].bytes, DF17);
        assert_eq!(out[0].confidence, 1_000_000);
        assert_eq!(d.preambles(), 1);
    }
}

#[test]
fn a_chip_is_half_a_microsecond() {
    let r = Rate { hz: 2_400_000 };
    assert_eq!(r.chip_start(0), 0);
    assert_eq!(r.chip_start(2), 2);
    assert_eq!(r.chip_start(20), 24);
    assert_eq!(Demod::new(2_400_000).rate_hz(), 2_400_000);
}

/// The noise for a seed is the same noise.
#[test]
fn noise_is_reproducible() {
    let mut a = Noise::new(4);
    let mut b = Noise::new(5);
    assert_eq!(a.next(), b.next());
    assert_ne!(a.next(), Noise::new(6).next());
}
