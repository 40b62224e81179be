//! Tones, bursts and the linearisation of an amplifier.
use num_complex::Complex32;
use sdroxide::drm::worker::{
    after_block, channel_from_raw, After, DrmChannel, Orders, Requests, STATUS_INTERVAL,
};
use sdroxide::dsp::feedback::{Next, PureSignal};
use sdroxide::dsp::predistort::{
    bin_of, gain_at, normalise, Cplx, ENV_DECIM, LOCK_THRESHOLD, MAX_CORRECTION, MIN_BIN_HITS, ONE,
};
use sdroxide::dsp::tonegen::{
    dcs_bits, dcs_information, dcs_word, Signal, SubToneGen, ToneBurst, TxSubTone, WORD,
};

const SCALE: f32 = ONE as f32;

fn fixed(c: Complex32) -> Cplx {
    Cplx { re: (c.re * SCALE).round() as i64, im: (c.im * SCALE).round() as i64 }
}

fn float(c: Cplx) -> Complex32 {
    Complex32::new(c.re as f32 / SCALE, c.im as f32 / SCALE)
}

/// A compressing amplifier, of the shape every real one has: linear at the
/// bottom, sagging towards a ceiling, with a phase that turns as it does.
fn amplifier(u: Complex32) -> Complex32 {
    let a = u.norm();
    if a <= 0.0 {
        return u;
    }
    let g = 1.0 / (1.0 + (a / 0.75).powi(3)).powf(1.0 / 3.0);
    let phi = -0.35 * a * a;
    u * Complex32::from_polar(g, phi)
}

fn source(n: usize, seed: u64) -> Vec<Complex32> {
    let mut s = seed | 1;
    let mut next = move || {
        s ^= s << 13;
        s ^= s >> 7;
        s ^= s << 17;
        ((s >> 40) as f32 / 8_388_608.0) - 1.0
    };
    let mut out = Vec::with_capacity(n);
    let (mut i, mut q) = (0.0f32, 0.0f32);
    for _ in 0..n {
        i = 0.97 * i + 0.03 * next() * 8.0;
        q = 0.97 * q + 0.03 * next() * 8.0;
        let s = Complex32::new(i, q);
        let a = s.norm();
        out.push(if a > 0.95 { s * (0.95 / a) } else { s });
    }
    out
}

/// How much of the output is not a scaled copy of the input.
fn distortion_db(want: &[Complex32], got: &[Complex32]) -> f32 {
    let mut num = Complex32::new(0.0, 0.0);
    let mut den = 0.0f32;
    for (w, g) in want.iter().zip(got) {
        num += g * w.conj();
        den += w.norm_sqr();
    }
    let k = num / den;
    let err: f32 = want.iter().zip(got).map(|(w, g)| (g - w * k).norm_sqr()).sum();
    let sig: f32 = want.iter().map(|w| (w * k).norm_sqr()).sum();
    10.0 * (err / sig).log10()
}

fn correlate(a: &[f32], b: &[f32]) -> i32 {
    let n = a.len().min(b.len());
    if n == 0 {
        return 0;
    }
    let inv = 1.0 / n as f32;
    let ma: f32 = a[..n].iter().sum::<f32>() * inv;
    let mb: f32 = b[..n].iter().sum::<f32>() * inv;
    let (mut num, mut da, mut db) = (0.0f32, 0.0f32, 0.0f32);
    for i in 0..n {
        let x = a[i] - ma;
        let y = b[i] - mb;
        num += x * y;
        da += x * x;
        db += y * y;
    }
    if da <= 0.0 || db <= 0.0 {
        0
    } else {
        (num / (da * db).sqrt() * 1e6) as i32
    }
}

/// A predistorter with its arithmetic in floating point.
struct Loop {
    ps: PureSignal,
    alpha: f32,
}

impl Loop {
    fn new(bins: usize, rate: f32) -> Loop {
        Loop { ps: PureSignal::new(bins, 1_000_000), alpha: 0.01 * 50.0f32.powf(rate) }
    }

    fn predistort(&mut self, x: &mut [Complex32]) {
        let mut v: Vec<Cplx> = x.iter().map(|c| fixed(*c)).collect();
        self.ps.predistort(&mut v);
        for (s, c) in x.iter_mut().zip(v) {
            *s = float(c);
        }
    }

    fn envelope(&self, at: usize, n: usize) -> Vec<f32> {
        self.ps.refs[at..at + n].iter().map(|c| float(*c).norm()).collect()
    }

    fn feed_back(&mut self, y: &[Complex32], offset_hz: f64, rate: f64) -> bool {
        let m = y.len();
        let step = -std::f64::consts::TAU * offset_hz / rate;
        let y: Vec<Complex32> = y
            .iter()
            .enumerate()
            .map(|(n, s)| *s * Complex32::from_polar(1.0, (step * n as f64) as f32))
            .collect();
        let norms: Vec<f32> = y.iter().map(|s| s.norm()).collect();
        let mut next = self.ps.feed_back(m);
        loop {
            next = match next {
                Next::Idle => return false,
                Next::Coarse { start, len, count } => {
                    let env: Vec<f32> = self.ps.env.iter().map(|e| *e as f32).collect();
                    let fenv: Vec<f32> =
                        norms.chunks_exact(ENV_DECIM).map(|c| c.iter().sum::<f32>()).collect();
                    let scores: Vec<i32> =
                        (0..count).map(|p| correlate(&env[p..p + len], &fenv)).collect();
                    self.ps.on_coarse(start, m, &scores)
                }
                Next::Fine { start, lo, hi, window, .. } => {
                    let scores: Vec<i32> = (lo..=hi)
                        .map(|p| correlate(&self.envelope(p, window), &norms[..window]))
                        .collect();
                    self.ps.on_fine(start, m, lo, &scores)
                }
                Next::Score { at } => {
                    let score = correlate(&self.envelope(at, m), &norms);
                    self.ps.on_score(at, score)
                }
                Next::Learn { at } => return self.learn(at, &y),
            };
        }
    }

    fn learn(&mut self, at: usize, y: &[Complex32]) -> bool {
        let b = self.ps.bins();
        let x: Vec<Complex32> = self.ps.refs[at..at + y.len()].iter().map(|c| float(*c)).collect();
        let mut num = Complex32::new(0.0, 0.0);
        let mut den = 0.0f32;
        for (x, y) in x.iter().zip(y) {
            num += y * x.conj();
            den += x.norm_sqr();
        }
        if den <= 0.0 || num.norm() <= 0.0 {
            return false;
        }
        let k = num / den;
        let mut acc = vec![Complex32::new(0.0, 0.0); b];
        let mut pw = vec![0.0f32; b];
        let mut hits = vec![0u32; b];
        for (x, y) in x.iter().zip(y) {
            let a = x.norm();
            if a <= 0.0 {
                continue;
            }
            let i = bin_of((a * SCALE) as u64, b);
            acc[i] += (y / k) * x.conj();
            pw[i] += a * a;
            hits[i] += 1;
        }
        let mut table: Vec<Complex32> = self.ps.table().iter().map(|c| float(*c)).collect();
        let mut moved = false;
        for i in 0..b {
            if hits[i] < MIN_BIN_HITS || pw[i] <= 0.0 {
                continue;
            }
            let r = acc[i] / pw[i];
            if r.norm() <= 1e-6 {
                continue;
            }
            let want = table[i] / r;
            table[i] = table[i] * (1.0 - self.alpha) + want * self.alpha;
            moved = true;
        }
        if moved {
            self.ps.learned(table.into_iter().map(fixed).collect());
        }
        moved
    }
}

/// The whole point: run the loop against a compressing amplifier with a
/// delay and a local-oscillator offset in the feedback path, and the
/// residual distortion should fall by a long way.
#[test]
fn a_compressing_amplifier_is_linearised() {
    let rate = 1.0e6;
    let offset_hz = 250_000.0;
    let delay = 3000usize;
    let mut ps = Loop::new(32, 0.9);

    let probe = source(20_000, 5);
    let raw: Vec<Complex32> = probe.iter().map(|x| amplifier(*x)).collect();
    let before = distortion_db(&probe, &raw);

    // The feedback path: a delay line, an unknown gain and phase, the LO
    // difference the receiver sees it at, and the receiver's own noise.
    let mut line: Vec<Complex32> = vec![Complex32::new(0.0, 0.0); delay];
    let coupler = Complex32::from_polar(0.11, 2.0);
    let mut phase = 0usize;
    let mut hiss = source(8192 * 41, 4242).into_iter();

    for round in 0..40 {
        let mut block = source(8192, 100 + round);
        ps.predistort(&mut block);
        for s in &block {
            let n = hiss.next().unwrap_or(Complex32::new(0.0, 0.0));
            line.push(amplifier(*s) * coupler + n * 0.004);
        }
        let fb: Vec<Complex32> = line
            .drain(..8192)
            .enumerate()
            .map(|(i, s)| {
                let ph = (std::f64::consts::TAU * offset_hz * ((phase + i) as f64) / rate) as f32;
                s * Complex32::from_polar(1.0, ph)
            })
            .collect();
        phase += 8192;
        ps.feed_back(&fb, offset_hz, rate);
    }
    assert!(ps.ps.locked(), "the feedback never aligned (score {})", ps.ps.score());

    let mut test = probe.clone();
    ps.predistort(&mut test);
    let out: Vec<Complex32> = test.iter().map(|x| amplifier(*x)).collect();
    let after = distortion_db(&probe, &out);
    assert!(
        after < before - 15.0,
        "distortion went from {before:.1} dB to {after:.1} dB"
    );
}

/// Feedback that is not the transmission never locks, and an unlocked loop
/// leaves the transmitter exactly as it was.
#[test]
fn unrelated_feedback_never_touches_the_transmitter() {
    let mut ps = Loop::new(32, 0.9);
    for round in 0..20 {
        let mut block: Vec<Complex32> =
            source(8192, 200 + round).into_iter().map(|c| float(fixed(c))).collect();
        let before = block.clone();
        ps.predistort(&mut block);
        assert_eq!(block, before, "the table moved without a lock");
        let junk = source(8192, 900 + round);
        assert!(!ps.feed_back(&junk, 0.0, 1.0e6));
    }
    assert!(!ps.ps.locked());
    for g in ps.ps.table() {
        assert_eq!(*g, Cplx { re: ONE, im: 0 });
    }
}

/// However the table is learned, it can never ask the converter for more
/// than full scale: the property that makes a broken feedback path safe.
#[test]
fn the_table_can_never_raise_the_peak() {
    // A wild table, as a feedback path reading nonsense would give.
    let mut table: Vec<Cplx> = (0..16)
        .map(|i| fixed(Complex32::from_polar(100.0 * (i + 1) as f32, i as f32)))
        .collect();
    normalise(&mut table);
    for (i, g) in table.iter().enumerate() {
        let a = (i + 1) as f32 / 16.0;
        let g = float(*g);
        assert!(
            a * g.norm() <= 1.0001,
            "bin {i} would drive the converter to {:.3} of full scale",
            a * g.norm()
        );
        assert!(g.norm() <= MAX_CORRECTION as f32 + 1e-3);
    }
    // Between the bins too, and exactly.
    for a in (0..=ONE).step_by(997) {
        let g = gain_at(&table, a as u64);
        let sq = (g.re as i128).pow(2) + (g.im as i128).pow(2);
        assert!((a as i128).pow(2) * sq <= (ONE as i128).pow(4), "at {a}");
    }
}

/// Holding the table stops it moving, which is what lets an operator keep
/// a correction learned on a clean over.
#[test]
fn holding_the_table_stops_it_learning() {
    let rate = 1.0e6;
    let mut ps = Loop::new(32, 0.9);
    let mut line: Vec<Complex32> = vec![Complex32::new(0.0, 0.0); 2048];
    for round in 0..20 {
        let mut block = source(8192, 300 + round);
        ps.predistort(&mut block);
        for s in &block {
            line.push(amplifier(*s) * 0.2);
        }
        let fb: Vec<Complex32> = line.drain(..8192).collect();
        ps.feed_back(&fb, 0.0, rate);
    }
    assert!(ps.ps.locked());
    let held: Vec<Cplx> = ps.ps.table().to_vec();
    ps.ps.set_frozen(true);
    for round in 0..10 {
        let mut block = source(8192, 700 + round);
        ps.predistort(&mut block);
        for s in &block {
            line.push(amplifier(*s) * 0.9);
        }
        let fb: Vec<Complex32> = line.drain(..8192).collect();
        ps.feed_back(&fb, 0.0, rate);
    }
    assert!(ps.ps.frozen());
    assert_eq!(ps.ps.table(), &held, "the table moved while held");
    ps.ps.reset();
    assert!(ps.ps.table().iter().all(|g| *g == Cplx { re: ONE, im: 0 }));
    assert!(!ps.ps.locked());
}

/// An envelope that has drifted out of step with the samples it describes
/// puts the alignment out by a whole group. Blocks do not arrive in multiples of
/// the decimation, so that is the case to pin.
#[test]
fn the_envelope_stays_in_step_with_awkward_block_sizes() {
    let mut ps = Loop::new(16, 0.5);
    let mut all: Vec<Complex32> = Vec::new();
    for (i, len) in [1000usize, 37, 4097, 64, 1, 9999].iter().enumerate() {
        let mut block = source(*len, 50 + i as u64);
        all.extend_from_slice(&block);
        ps.predistort(&mut block);
    }
    assert_eq!(ps.ps.env.len(), all.len() / ENV_DECIM, "wrong number of envelope entries");
    for (g, e) in ps.ps.env.iter().enumerate() {
        let e = *e as f32 / SCALE / ENV_DECIM as f32;
        let want: f32 =
            all[g * ENV_DECIM..(g + 1) * ENV_DECIM].iter().map(|s| s.norm()).sum::<f32>()
                / ENV_DECIM as f32;
        assert!(
            (e - want).abs() < 1e-4,
            "envelope group {g} is {e}, but its samples average {want}"
        );
    }
}

/// ...and dropping the oldest samples drops their envelope.
#[test]
fn what_is_dropped_is_dropped_in_whole_groups() {
    let mut ps = Loop::new(16, 0.5);
    for i in 0..60 {
        let mut block = source(5_003, 50 + i);
        ps.predistort(&mut block);
    }
    let p = &ps.ps;
    assert_eq!(p.ref_total, 60 * 5_003);
    assert!(p.base > 0);
    assert_eq!(p.base % 64, 0);
    assert_eq!(p.base + p.refs.len() as u64, p.ref_total);
    assert!(p.refs.len() >= p.keep);
    assert_eq!(p.env.len(), p.refs.len() / 64);
}

/// The interpolation holds the ends rather than running off them, and is
/// continuous in between.
#[test]
fn the_table_is_interpolated_and_its_ends_are_held() {
    let table: Vec<Cplx> =
        [0.5, 0.75, 1.0, 1.25].iter().map(|v| fixed(Complex32::new(*v, 0.0))).collect();
    assert_eq!(float(gain_at(&table, 0)), Complex32::new(0.5, 0.0));
    assert_eq!(float(gain_at(&table, 2 * ONE as u64)), Complex32::new(1.25, 0.0));
    // Half way between the first two bin centres.
    let mid = float(gain_at(&table, ONE as u64 / 4));
    assert!((mid.re - 0.625).abs() < 1e-5, "{mid:?}");
}

#[test]
fn an_alignment_that_is_not_covered_is_given_up() {
    let mut ps = PureSignal::new(16, 1_000_000);
    let mut x = vec![Cplx { re: 1000, im: 0 }; 4096];
    ps.predistort(&mut x);
    assert_eq!(ps.feed_back(100), Next::Idle);
    assert_eq!(ps.feed_back(2048), Next::Coarse { start: 100, len: 32, count: 33 });
    let mut scores = vec![0; 33];
    scores[3] = LOCK_THRESHOLD;
    scores[5] = LOCK_THRESHOLD;
    assert_eq!(
        ps.on_coarse(100, 2048, &scores),
        Next::Fine { start: 100, coarse: 192, lo: 128, hi: 256, window: 2048 }
    );
    let mut scores = vec![0; 129];
    scores[70] = 900_000;
    assert_eq!(ps.on_fine(100, 2048, 128, &scores), Next::Score { at: 198 });
    assert!(ps.locked());
    assert_eq!(ps.on_score(198, 700_000), Next::Learn { at: 198 });
    // The next block stands as many samples on, and the reference ends before.
    assert_eq!(ps.feed_back(2048), Next::Idle);
    assert!(!ps.locked());
}

/// The remainder of a word by the generator of the code, which gives the check
/// bits of its information.
fn remainder(mut w: u32) -> u32 {
    for i in (11..23).rev() {
        if w >> i & 1 != 0 {
            w ^= 0xC75 << (i - 11);
        }
    }
    w
}

fn check_bits(code: u16) -> u16 {
    remainder((dcs_information(code).unwrap() as u32) << 11) as u16
}

/// A DCS word is a Golay codeword whichever of the 23 bit boundaries it is
/// read from.
#[test]
fn a_dcs_word_is_a_codeword_at_every_rotation() {
    let bits = dcs_word(23, false, check_bits(23)).expect("023 is octal");
    assert_eq!(bits.len(), WORD);
    let word = bits.iter().enumerate().fold(0u32, |w, (i, &b)| w | u32::from(b) << i);
    for rot in 0..23 {
        let r = ((word >> rot) | (word << (23 - rot))) & 0x7F_FFFF;
        assert_eq!(remainder(r), 0, "rotation {rot} of {word:#x} is not a codeword");
    }
}

#[test]
fn a_code_is_three_octal_digits() {
    assert_eq!(dcs_bits(23), Some(0o23));
    assert_eq!(dcs_bits(754), Some(0o754));
    assert_eq!(dcs_bits(28), None);
    assert_eq!(dcs_bits(1000), None);
    assert_eq!(dcs_word(89, false, 0), None);
    let plain = dcs_word(131, false, 5).unwrap();
    let turned = dcs_word(131, true, 5).unwrap();
    assert!(plain.iter().zip(&turned).all(|(a, b)| a != b));
    assert_eq!(&plain[..12], &[true, false, false, true, true, false, true, false, false, false, false, true]);
}

/// The stream of a word has no gap, and its bit clock is even.
#[test]
fn a_word_is_sent_again_and_again() {
    let mut g = SubToneGen::new(TxSubTone::Dcs { code: 23, invert: false }, 48_000, check_bits(23));
    let word = dcs_word(23, false, check_bits(23)).unwrap();
    let out = g.fill(20_000);
    for (n, s) in out.iter().enumerate() {
        let bit = n * 1344 / 480_000 % 23;
        assert_eq!(*s, Signal::Level(word[bit]), "sample {n}");
    }
    assert_eq!(g.tone(), TxSubTone::Dcs { code: 23, invert: false });
    // A code that is none sends an empty word.
    let mut g = SubToneGen::new(TxSubTone::Dcs { code: 99, invert: true }, 48_000, 0);
    assert!(g.fill(100).iter().all(|s| *s == Signal::Level(false)));
}

/// Blocks are cut out of one stream.
#[test]
fn a_tone_goes_on_across_blocks() {
    let mut a = SubToneGen::new(TxSubTone::Ctcss(885), 48_000, 0);
    let mut b = SubToneGen::new(TxSubTone::Ctcss(885), 48_000, 0);
    let whole = a.fill(1000);
    let mut parts = b.fill(333);
    parts.extend(b.fill(667));
    assert_eq!(whole, parts);
    assert_eq!(whole[0], Signal::Phase { at: 0, of: 480_000 });
    assert_eq!(whole[10], Signal::Phase { at: 8_850, of: 480_000 });
}

/// The burst is its stated length, starts and ends at zero, and hands the
/// rest of the block back to the microphone.
#[test]
fn the_burst_is_as_long_as_it_says_and_ramps_at_both_ends() {
    let mut burst = ToneBurst::new(500, 48_000);
    let mut sent = 0;
    let mut first = None;
    let mut last = 0;
    while !burst.finished() {
        let block = burst.fill(480);
        first.get_or_insert(block[0].rise);
        last = block[block.len() - 1].rise;
        assert!(block.len() <= 480, "the burst overran its length");
        sent += block.len();
    }
    assert_eq!(sent, 24_000, "500 ms at 48 kHz");
    assert_eq!(first, Some(0), "the burst opened on a step");
    assert_eq!(last, 1);
    assert!(burst.fill(480).is_empty());
    // A very short burst is a tone and not two ramps.
    assert_eq!(ToneBurst::new(3, 48_000).ramp, 48);
    assert_eq!(ToneBurst::new(0, 48_000).total, 1);
}

#[test]
fn a_request_to_the_decoder_is_served_once() {
    let mut r = Requests::new();
    assert_eq!(r.take(), Orders { restart: false, select: None });
    r.restart();
    r.select_service(3);
    r.select_service(0);
    assert_eq!(r.take(), Orders { restart: true, select: Some(0) });
    assert_eq!(r.take(), Orders { restart: false, select: None });
    r.set_constellation(Some(DrmChannel::Msc));
    assert_eq!(channel_from_raw(r.constellation), Some(DrmChannel::Msc));
    r.set_constellation(None);
    assert_eq!(channel_from_raw(r.constellation), None);
    assert_eq!(channel_from_raw(7), None);
}

#[test]
fn a_status_is_taken_five_times_a_second() {
    let mut due = 1_000;
    assert_eq!(after_block(&mut due, true, 999, 1), After::Go);
    assert_eq!(after_block(&mut due, true, 1_000, 1), After::Status(Some(DrmChannel::Sdc)));
    assert_eq!(due, 1_000 + STATUS_INTERVAL);
    assert_eq!(after_block(&mut due, true, STATUS_INTERVAL, -1), After::Go);
    assert_eq!(after_block(&mut due, true, 1_000_000, -1), After::Status(None));
    assert_eq!(after_block(&mut due, false, 9_000_000, 0), After::Stop);
}

/// The correction takes away no more than it may, however small an entry is.
#[test]
fn no_entry_falls_below_a_quarter() {
    for g in [(1, 0), (1, 1), (-3, 2), (0, -7), (1000, 999), (-200_000, 60_000)] {
        let mut table = vec![Cplx { re: g.0, im: g.1 }; 7];
        table.push(Cplx { re: ONE, im: 0 });
        normalise(&mut table);
        for c in &table {
            let m = float(*c).norm();
            assert!((0.25..=4.0).contains(&m), "{g:?} became {m}");
        }
        let (was, is) = ((g.0 as f64).atan2(g.1 as f64), (table[0].re as f64).atan2(table[0].im as f64));
        assert!((was - is).abs() < 1e-4, "{g:?} was turned");
        assert!(float(table[0]).norm() < 0.2501);
    }
}

/// Whatever is learned, one table after the other, the drive stays at full scale.
#[test]
fn no_sequence_of_tables_raises_the_drive() {
    let mut ps = PureSignal::new(16, 48_000);
    let mut seed = 1u64;
    for round in 0..50 {
        let table: Vec<Cplx> = (0..16)
            .map(|_| {
                seed = seed.wrapping_mul(6_364_136_223_846_793_005).wrapping_add(1);
                let scale = 1i64 << (seed >> 59);
                Cplx { re: (seed >> 40) as i64 % scale, im: (seed >> 20) as i64 % scale }
            })
            .collect();
        ps.learned(table);
        if round % 7 == 3 {
            ps.reset();
        }
        for (i, g) in ps.table().iter().enumerate() {
            let m = float(*g).norm();
            assert!((0.2499..=4.0001).contains(&m), "{m}");
            assert!(m * (i + 1) as f32 / 16.0 <= 1.0001, "{m} at {i}");
        }
    }
    // A table that is held, or without an alignment, is not learned from.
    assert_eq!(ps.on_score(0, 1_000_000), Next::Idle);
}
