//! The OFDM modem, between its waveform and its payload.
use num_complex::Complex64;
use rand::rngs::StdRng;
use rand::{Rng, SeedableRng};
use rand_distr::{Distribution, Normal};
use rustfft::FftPlanner;
use sdroxide::atchat::modem::{
    airtime_micros, bits_from_bytes, bytes_from_bits, differential_sequence, seal, unseal,
    DemodAttempt, Modem, Signs, FIRST_CARRIER, LEAD_IN_END, LEAD_IN_MIN, PRODUCTS,
};
use sdroxide::atchat::netproto::{Mode, SAMPLE_RATE};
use sdroxide::atchat::preamble::{preamble_phases, PREAMBLE_CARRIERS};
use sdroxide::atchat::sync::{find_start, symbol_at, Sync, CP_LEN, N, SYNC_THRESHOLD};

fn turned(eighths: u8) -> Complex64 {
    Complex64::from_polar(1.0, eighths as f64 * std::f64::consts::FRAC_PI_4)
}

/// The real signal of some carriers, with its guard interval.
fn symbol(carriers: &[(usize, Complex64)]) -> Vec<f64> {
    let mut x = vec![Complex64::new(0.0, 0.0); N];
    for &(k, v) in carriers {
        x[k] = v;
        x[N - k] = v.conj();
    }
    FftPlanner::<f64>::new().plan_fft_inverse(N).process(&mut x);
    let time: Vec<f64> = x.iter().map(|c| c.re / N as f64).collect();
    let mut out = time[N - CP_LEN..].to_vec();
    out.extend_from_slice(&time);
    out
}

/// A whole transmission behind `lead_in` samples of silence.
fn modulate_with_leadin(payload: &[u8], mode: Mode, lead_in: usize) -> Vec<i16> {
    let mut wave = vec![0.0; lead_in];
    let preamble: Vec<(usize, Complex64)> =
        preamble_phases().iter().enumerate().map(|(i, &p)| (2 * i + 2, turned(p))).collect();
    wave.extend(symbol(&preamble));
    for phases in Modem::new().modulate(payload, mode) {
        let carriers: Vec<(usize, Complex64)> =
            phases.iter().enumerate().map(|(i, &p)| (FIRST_CARRIER + i, turned(p))).collect();
        wave.extend(symbol(&carriers));
    }
    wave.extend(vec![0.0; CP_LEN]);
    let peak = wave.iter().map(|v: &f64| v.abs()).fold(0.0_f64, f64::max).max(f64::MIN_POSITIVE);
    let scale = 0.7 * 32767.0 / peak;
    wave.iter().map(|v| (v * scale).trunc().clamp(-32768.0, 32767.0) as i16).collect()
}

/// The signs of the products of neighbouring carriers.
fn signs(window: &[i16]) -> Signs {
    let mut x: Vec<Complex64> = window.iter().map(|&s| Complex64::new(s as f64, 0.0)).collect();
    FftPlanner::<f64>::new().plan_fft_forward(N).process(&mut x);
    let products: Vec<Complex64> = (0..PRODUCTS).map(|k| x[k + 1] * x[k].conj()).collect();
    Signs {
        re: products.iter().map(|d| d.re < 0.0).collect(),
        im: products.iter().map(|d| d.im < 0.0).collect(),
    }
}

fn demodulate_verbose(samples: &[i16]) -> DemodAttempt {
    let sync = find_start(samples);
    let mut symbols = Vec::new();
    if let Some(start) = sync.start {
        let mut i = 1;
        while let Some(at) = symbol_at(start, i, samples.len()) {
            symbols.push(signs(&samples[at..at + N]));
            i += 1;
        }
    }
    Modem::new().demodulate_verbose(samples.len(), sync, &symbols)
}

fn demodulate(samples: &[i16]) -> Option<Vec<u8>> {
    demodulate_verbose(samples).payload
}

#[test]
fn bits_roundtrip_msb_first() {
    let data = [0b1010_0001u8, 0x00, 0xFF];
    let bits = bits_from_bytes(&data);
    assert_eq!(&bits[..8], &[1, 0, 1, 0, 0, 0, 0, 1]);
    assert_eq!(bytes_from_bits(&bits), data);
}

#[test]
fn noiseless_roundtrip_all_sizes() {
    for &size in &[1usize, 2, 16, 100, 220, 512, 1000, 2500, 5000] {
        for &mode in &[Mode::Bpsk, Mode::Qpsk] {
            let payload: Vec<u8> = (0..size).map(|i| (i * 7 + 13) as u8).collect();
            let wave = modulate_with_leadin(&payload, mode, 137);
            let got = demodulate(&wave).expect("demod failed");
            assert_eq!(got, payload, "size={size} mode={:?}", mode);
        }
    }
}

#[test]
fn pure_silence_is_none() {
    assert!(demodulate(&vec![0i16; 4000]).is_none());
}

#[test]
fn airtime_matches_python_shape() {
    // 250 B QPSK: full=254 -> bits=2032 -> bps=152 -> 14 sym -> +2 = 16
    // 16 * 320 / 8000 = 0.64 s
    assert!((airtime_micros(250, Mode::Qpsk) as f64 / 1e6 - 0.64).abs() < 1e-9);
}

/// A real signal shifted by `hz`, the way two stations' radios that disagree on
/// the dial hear each other.
fn shift_real_signal_hz(samples: &[f64], hz: f64, fs: f64) -> Vec<f64> {
    let n = samples.len();
    let mut planner = FftPlanner::<f64>::new();
    let fwd = planner.plan_fft_forward(n);
    let inv = planner.plan_fft_inverse(n);

    let mut buf: Vec<Complex64> = samples.iter().map(|&s| Complex64::new(s, 0.0)).collect();
    fwd.process(&mut buf);

    let half = n / 2;
    for c in buf.iter_mut().take(half).skip(1) {
        *c *= 2.0;
    }
    for c in buf.iter_mut().take(n).skip(half + 1) {
        *c = Complex64::new(0.0, 0.0);
    }

    inv.process(&mut buf);
    let scale = 1.0 / n as f64;
    let step = Complex64::from_polar(1.0, 2.0 * std::f64::consts::PI * hz / fs);
    let mut rot = Complex64::new(1.0, 0.0);
    buf.iter()
        .map(|c| {
            let re = (c * scale * rot).re;
            rot *= step;
            re
        })
        .collect()
}

/// A dial mismatch between two independent radios must not stop a decode: the
/// carrier-offset search exists exactly for this.
#[test]
fn demodulate_tolerates_a_realistic_dial_offset() {
    let payload = b"CQ CQ DE TA1XYZ AtCHAT NET test".to_vec();
    let wave_i16 = modulate_with_leadin(&payload, Mode::Qpsk, 137);
    let wave_f64: Vec<f64> = wave_i16.iter().map(|&s| s as f64).collect();

    // +500 Hz and -250 Hz: comfortably inside the search, and not multiples of
    // the 31.25 Hz bin spacing, so this also exercises the residual sub-bin
    // offset the search leaves behind.
    for hz in [500.0_f64, -250.0] {
        let shifted = shift_real_signal_hz(&wave_f64, hz, SAMPLE_RATE as f64);
        let shifted_i16: Vec<i16> = shifted
            .iter()
            .map(|&v| v.round().clamp(i16::MIN as f64, i16::MAX as f64) as i16)
            .collect();
        let got = demodulate(&shifted_i16).unwrap_or_else(|| panic!("demod failed at {hz} Hz"));
        assert_eq!(got, payload, "offset={hz} Hz");
    }
}

/// An offset past the search range is a station too far off to hear:
/// this must fail cleanly (`None`), not panic or return garbage.
#[test]
fn demodulate_past_the_search_range_is_none_not_garbage() {
    let payload = b"out of range".to_vec();
    let wave_i16 = modulate_with_leadin(&payload, Mode::Qpsk, 137);
    let wave_f64: Vec<f64> = wave_i16.iter().map(|&s| s as f64).collect();

    let shifted = shift_real_signal_hz(&wave_f64, 3000.0, SAMPLE_RATE as f64);
    let shifted_i16: Vec<i16> = shifted
        .iter()
        .map(|&v| v.round().clamp(i16::MIN as f64, i16::MAX as f64) as i16)
        .collect();
    assert!(demodulate(&shifted_i16).is_none());
}

fn add_awgn(x: &[i16], snr_db: f64, rng: &mut StdRng) -> Vec<i16> {
    let sig_power: f64 =
        (x.iter().map(|&s| (s as f64) * (s as f64)).sum::<f64>() / x.len() as f64).max(1.0);
    let noise_power = sig_power / 10f64.powf(snr_db / 10.0);
    let n = Normal::new(0.0, noise_power.sqrt()).unwrap();
    x.iter()
        .map(|&s| {
            let v = s as f64 + n.sample(rng);
            v.clamp(-32768.0, 32767.0) as i16
        })
        .collect()
}

fn success_rate(mode: Mode, snr_db: f64, trials: usize, rng: &mut StdRng) -> usize {
    let mut ok = 0;
    for _ in 0..trials {
        let payload: Vec<u8> = (0..200).map(|_| rng.gen()).collect();
        let lead = rng.gen_range(20..300);
        let clean = modulate_with_leadin(&payload, mode, lead);
        let noisy = add_awgn(&clean, snr_db, rng);
        if demodulate(&noisy).as_deref() == Some(payload.as_slice()) {
            ok += 1;
        }
    }
    ok
}

/// QPSK falls off a cliff between 18 and 10 dB; BPSK still stands there.
#[test]
fn awgn_performance_curve() {
    let trials = 20;
    let mut rng = StdRng::seed_from_u64(0x00A7_C4A7);
    let mut results = Vec::new();
    for &snr in &[24.0, 18.0, 16.0, 14.0, 12.0, 10.0] {
        let q = success_rate(Mode::Qpsk, snr, trials, &mut rng);
        let b = success_rate(Mode::Bpsk, snr, trials, &mut rng);
        results.push((snr, q, b));
    }

    let get = |snr: f64| results.iter().find(|(s, _, _)| *s == snr).unwrap();
    assert!(get(24.0).1 >= 18, "QPSK@24dB: {:?}", get(24.0));
    assert!(get(18.0).1 >= 17, "QPSK@18dB: {:?}", get(18.0));
    assert!(get(10.0).1 <= 6, "QPSK@10dB: {:?}", get(10.0));
    assert!(get(10.0).2 >= 12, "BPSK@10dB: {:?}", get(10.0));
}

/// What was learnt on the way tells a miss from a near miss.
#[test]
fn an_attempt_says_how_far_it_got() {
    let wave = modulate_with_leadin(b"hello", Mode::Bpsk, 50);
    let a = demodulate_verbose(&wave);
    assert!(a.synced);
    assert!(a.sync_score > SYNC_THRESHOLD);
    assert_eq!(a.input_samples, wave.len());
    assert_eq!(a.header_shift, Some(0));
    assert_eq!(a.header_payload_len, Some(9));
    assert_eq!(a.crc_shift, Some(0));
    assert_eq!(a.payload, Some(b"hello".to_vec()));
    // A flattened data symbol leaves the header readable and nothing to hear.
    let mut broken = wave.clone();
    let from = broken.len() - 384;
    for s in broken[from..].iter_mut() {
        *s = 0;
    }
    let a = demodulate_verbose(&broken);
    assert_eq!(a.header_payload_len, Some(9));
    assert_eq!(a.crc_shift, None);
    assert_eq!(a.payload, None);
}

#[test]
fn audio_that_is_too_short_has_no_start() {
    let s = find_start(&[0i16; 300]);
    assert_eq!(s, Sync { score: 0, start: None });
    assert_eq!(symbol_at(0, 0, 319), None);
    assert_eq!(symbol_at(0, 0, 320), Some(64));
    assert_eq!(symbol_at(10, 2, 2000), Some(10 + 640 + 64));
}

/// A frame with its check opens; any other does not.
#[test]
fn a_frame_is_opened_only_with_its_check() {
    let f = seal(b"123456789");
    assert_eq!(&f[9..], &[0xCB, 0xF4, 0x39, 0x26]);
    assert_eq!(unseal(&f), Some(b"123456789".to_vec()));
    let mut bad = f.clone();
    bad[0] ^= 1;
    assert_eq!(unseal(&bad), None);
    assert_eq!(unseal(&vec![0, 0, 0, 0]), Some(Vec::new()));
}

#[test]
fn phases_add_up() {
    assert_eq!(differential_sequence(&vec![1, 4, 7, 5]), vec![0, 1, 5, 4, 1]);
    let p = preamble_phases();
    assert_eq!(p.len(), PREAMBLE_CARRIERS);
    assert_eq!(&p[..8], &[4, 4, 0, 4, 0, 0, 0, 4]);
    assert_eq!(&p[60..], &[0, 4, 0]);
}

/// A lead-in is in its range, and not always the same.
#[test]
fn a_lead_in_varies() {
    let all: Vec<usize> = (0..64).map(|_| Modem::new().lead_in()).collect();
    assert!(all.iter().all(|n| (LEAD_IN_MIN..LEAD_IN_END).contains(n)));
    assert!(all.iter().any(|n| *n != all[0]));
}
