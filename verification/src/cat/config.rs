//! The settings of a CAT link, and the cadences that follow from them.
//!
//! Times are microseconds and frequencies thousandths of a hertz throughout.
use crate::text;
use vstd::prelude::*;

verus! {

broadcast use vstd::seq::group_seq_axioms;

/// A demodulation mode of the application.
#[derive(Clone, Copy, Debug, PartialEq, Eq, Structural)]
pub enum Mode {
    Lsb,
    Usb,
    Spec,
    Sstv,
    Wefax,
    RfPaint,
    Cw,
    Am,
    Sam,
    Dsb,
    Nfm,
    Wfm,
    Rifp,
    Packet,
    Digl,
    Digu,
    Ft8,
    Js8,
    Wspr,
    Ft4,
    Ft2,
    Psk,
    Rtty,
    Olivia,
    Thor,
    Fsq,
    Hell,
    PacketHf,
    Rade,
}

/// What the application knows of a mode.
#[derive(Clone, Copy, Debug, PartialEq, Eq, Structural)]
pub struct ModeTraits {
    pub digital: bool,
    pub sstv: bool,
    /// It modulates the carrier rather than riding a sideband.
    pub carrier_centered: bool,
}

#[derive(Clone, Copy, Debug, PartialEq, Eq, Structural)]
pub enum CatFamily {
    Icom,
    Xiegu,
    Yaesu,
    Kenwood,
    Elecraft,
    Elad,
    Rigctld,
    Flrig,
}

#[derive(Clone, Copy, Debug, PartialEq, Eq, Structural)]
pub enum PttMethod {
    Vox,
    Rts,
    Dtr,
    Cat,
}

#[derive(Clone, Copy, Debug, PartialEq, Eq, Structural)]
pub enum CwKeying {
    Audio,
    Cat,
}

#[derive(Clone, Copy, Debug, PartialEq, Eq, Structural)]
pub enum DigiMode {
    Radio,
    Usb,
    Data,
}

#[derive(Clone, Copy, Debug, PartialEq, Eq, Structural)]
pub enum ModeControl {
    Cat,
    Radio,
}

/// A control line that is held at a level, or left alone.
#[derive(Clone, Copy, Debug, PartialEq, Eq, Structural)]
pub enum LineState {
    Free,
    High,
    Low,
}

/// The settings of a CAT link.
#[derive(Clone, Debug)]
pub struct CatConfig {
    pub family: CatFamily,
    pub ptt: PttMethod,
    pub cw_keying: CwKeying,
    pub digi_mode: DigiMode,
    pub mode_control: ModeControl,
    /// How often the dial is read, in thousandths of a hertz.
    pub poll_millihz: u64,
    /// Whether the rig's own spectrum scope is to be streamed.
    pub scope: bool,
    pub path: String,
    pub baud: u32,
    pub force_rts: LineState,
    pub force_dtr: LineState,
    pub rigctld_addr: String,
    pub flrig_addr: String,
}

/// The fastest the meters are ever asked for, whatever the poll rate is set to.
pub const METER_FLOOR: u64 = 200_000;

/// How many dial polls the mode rides along with one of.
pub const MODE_POLL_EVERY: u64 = 4;

/// The shortest the mode is ever asked for.
pub const MODE_POLL_FLOOR: u64 = 1_000_000;

/// The longest any poll waits.
pub const POLL_CEILING: u64 = 5_000_000;

/// The shortest any poll waits: frames are no closer to each other than this.
pub const POLL_FLOOR: u64 = 30_000;

/// The slowest poll rate that is honoured, in thousandths of a hertz.
pub const POLL_SLOWEST: u64 = 200;

/// The shortest time that a meter reading stands in for the next one.
pub const SIGNAL_MIN_AGE: u64 = 1_500_000;

pub open spec fn max(a: int, b: int) -> int {
    if a >= b {
        a
    } else {
        b
    }
}

pub open spec fn min(a: int, b: int) -> int {
    if a <= b {
        a
    } else {
        b
    }
}

/// The time between two dial polls at a rate.
pub open spec fn poll_period_of(poll_millihz: int) -> int {
    max(30_000, min(1_000_000_000int / max(poll_millihz, 200), 5_000_000))
}

pub open spec fn meter_period_of(poll_millihz: int) -> int {
    max(poll_period_of(poll_millihz), 200_000)
}

pub open spec fn mode_poll_period_of(poll_millihz: int) -> int {
    min(max(poll_period_of(poll_millihz) * 4, 1_000_000), 5_000_000)
}

/// How often the rig is asked what its dial and mode are, at a given poll rate.
///
/// Clamped at both ends: below 0.2 Hz the readout stops being a readout, and
/// above some 33 Hz there is no room left between frames.
pub fn poll_period(cfg: &CatConfig) -> (r: u64)
    ensures
        r == poll_period_of(cfg.poll_millihz as int),
        POLL_FLOOR <= r <= POLL_CEILING,
{
    let rate: u64 = if cfg.poll_millihz >= POLL_SLOWEST {
        cfg.poll_millihz
    } else {
        POLL_SLOWEST
    };
    let period: u64 = 1_000_000_000 / rate;
    if period < POLL_FLOOR {
        POLL_FLOOR
    } else if period <= POLL_CEILING {
        period
    } else {
        POLL_CEILING
    }
}

/// How often the rig is asked what *mode* it is in, at a given poll rate.
pub fn mode_poll_period(cfg: &CatConfig) -> (r: u64)
    ensures
        r == mode_poll_period_of(cfg.poll_millihz as int),
{
    let p = poll_period(cfg) * MODE_POLL_EVERY;
    if p < MODE_POLL_FLOOR {
        MODE_POLL_FLOOR
    } else if p > POLL_CEILING {
        POLL_CEILING
    } else {
        p
    }
}

/// How often the rig's meters are asked for while receiving, at a given poll
/// rate.
pub fn meter_period(cfg: &CatConfig) -> (r: u64)
    ensures
        r == meter_period_of(cfg.poll_millihz as int),
        METER_FLOOR <= r <= POLL_CEILING,
{
    let p = poll_period(cfg);
    if p >= METER_FLOOR {
        p
    } else {
        METER_FLOOR
    }
}

/// How long one of the rig's S-meter readings stands in for the next: three of
/// the rig's own answers, and never less than a second and a half.
pub fn signal_max_age(cfg: &CatConfig) -> (r: u64)
    ensures
        r == max(3 * meter_period_of(cfg.poll_millihz as int), SIGNAL_MIN_AGE as int),
        r > meter_period_of(cfg.poll_millihz as int),
{
    let p = meter_period(cfg) * 3;
    if p >= SIGNAL_MIN_AGE {
        p
    } else {
        SIGNAL_MIN_AGE
    }
}

/// The mode is never read more often than the dial.
pub proof fn law_mode_poll_not_faster(poll_millihz: int)
    ensures
        mode_poll_period_of(poll_millihz) >= poll_period_of(poll_millihz),
{
    let r = max(poll_millihz, 200);
    assert(1_000_000_000int / r >= 0) by (nonlinear_arith)
        requires
            r >= 200,
    ;
}

/// Turning the poll rate down never makes any of the polls come more often.
pub proof fn law_slower_rate_longer_periods(slow: int, fast: int)
    requires
        slow <= fast,
    ensures
        poll_period_of(slow) >= poll_period_of(fast),
        meter_period_of(slow) >= meter_period_of(fast),
        mode_poll_period_of(slow) >= mode_poll_period_of(fast),
{
    let a = max(slow, 200);
    let b = max(fast, 200);
    vstd::arithmetic::div_mod::lemma_div_is_ordered_by_denominator(1_000_000_000, a, b);
}

/// Whether this configuration streams the rig's scope over the serial link:
/// the operator asked for it, the family is Icom, and the link carries at
/// least `min_baud`.
pub fn scope_active(cfg: &CatConfig, min_baud: u32) -> (r: bool)
    ensures
        r == (cfg.scope && cfg.family == CatFamily::Icom && cfg.baud >= min_baud),
{
    cfg.scope && cfg.family == CatFamily::Icom && cfg.baud >= min_baud
}

/// Whether a mode is sent as audio in a sideband that the digital setting
/// chooses.
pub open spec fn rides_digi_sideband(cfg: CatConfig, m: Mode, t: ModeTraits) -> bool {
    ||| t.digital && !t.sstv && !t.carrier_centered
    ||| m == Mode::Cw && cfg.cw_keying == CwKeying::Audio
}

/// What mode to command the rig into for a given app mode. A digital mode in a
/// sideband, and CW keyed as audio, use the separate `digi_mode` setting; every
/// other mode obeys `mode_control` (CAT = mirror the selected mode to the rig;
/// Radio = don't touch it).
pub fn commanded_mode(cfg: &CatConfig, app_mode: Mode, traits: ModeTraits) -> (r: Option<Mode>)
    ensures
        rides_digi_sideband(*cfg, app_mode, traits) ==> r == (match cfg.digi_mode {
            DigiMode::Radio => None::<Mode>,
            DigiMode::Usb => Some(Mode::Usb),
            DigiMode::Data => Some(Mode::Digu),
        }),
        !rides_digi_sideband(*cfg, app_mode, traits) ==> r == (match cfg.mode_control {
            ModeControl::Cat => Some(app_mode),
            ModeControl::Radio => None::<Mode>,
        }),
{
    let rides = (traits.digital && !traits.sstv && !traits.carrier_centered) || (app_mode
        == Mode::Cw && cfg.cw_keying == CwKeying::Audio);
    if rides {
        return match cfg.digi_mode {
            DigiMode::Radio => None,
            DigiMode::Usb => Some(Mode::Usb),
            DigiMode::Data => Some(Mode::Digu),
        };
    }
    match cfg.mode_control {
        ModeControl::Cat => Some(app_mode),
        ModeControl::Radio => None,
    }
}

/// What to call this link in the log — a port and a baud rate, or a host.
pub fn link_label(cfg: &CatConfig) -> (r: String)
    ensures
        r@ == (match cfg.family {
            CatFamily::Rigctld => "rigctld at "@ + text::trim(cfg.rigctld_addr@),
            CatFamily::Flrig => "flrig at "@ + text::trim(cfg.flrig_addr@),
            _ => cfg.path@ + " at "@ + text::dec(cfg.baud as nat) + " baud"@,
        }),
{
    match cfg.family {
        CatFamily::Rigctld => "rigctld at ".to_owned().concat(
            text::trimmed(cfg.rigctld_addr.as_str()).as_str(),
        ),
        CatFamily::Flrig => "flrig at ".to_owned().concat(
            text::trimmed(cfg.flrig_addr.as_str()).as_str(),
        ),
        _ => {
            let mut s = cfg.path.clone().concat(" at ");
            text::push_dec(&mut s, cfg.baud as u64);
            s.concat(" baud")
        },
    }
}

} // verus!
