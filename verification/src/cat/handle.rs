//! What an application asks of a rig, as far as the rig can do it.
use crate::cat::config::{CatConfig, CwKeying, Mode, ModeTraits};
use crate::cat::session::Filter;
use crate::text;
use vstd::prelude::*;

verus! {

broadcast use vstd::seq::group_seq_axioms;

/// A command to the thread that drives the link.
#[derive(Debug)]
pub enum CatCmd {
    Freq(i64),
    Mode(Mode, ModeTraits),
    Ptt(bool),
    /// Text for the rig's keyer.
    Cw(String),
    CwAbort,
    CwWpm(u32),
    Power(i64),
    Filter(Filter),
    /// The receiver is put on this socket of the family's list.
    Antenna(usize),
    Stop,
}

/// What a rig can be told.
#[derive(Debug)]
pub struct CatHandle {
    /// How much text its keyer takes at a time; zero where it has none that is
    /// used.
    pub cw_chunk_len: usize,
    pub commands_power: bool,
    pub commands_filter: bool,
    /// The sockets that it can put its receiver on.
    pub antennas: Vec<String>,
}

pub open spec fn names(v: Seq<String>) -> Seq<Seq<char>> {
    Seq::new(v.len(), |i: int| v[i]@)
}

/// The name stands at this place, and at none before it.
pub open spec fn first_at(names: Seq<Seq<char>>, name: Seq<char>, i: int) -> bool {
    &&& 0 <= i < names.len()
    &&& names[i] == name
    &&& forall|j: int| 0 <= j < i ==> #[trigger] names[j] != name
}

impl CatHandle {
    /// A rig of which this is known. Its keyer counts only where CW is keyed
    /// through it.
    pub fn new(
        cfg: &CatConfig,
        cw_chunk_len: usize,
        commands_power: bool,
        commands_filter: bool,
        antennas: Vec<String>,
    ) -> (r: CatHandle)
        ensures
            r.cw_chunk_len == if cfg.cw_keying == CwKeying::Cat {
                cw_chunk_len
            } else {
                0
            },
            r.commands_power == commands_power,
            r.commands_filter == commands_filter,
            r.antennas == antennas,
    {
        let chunk: usize = if cfg.cw_keying == CwKeying::Cat { cw_chunk_len } else { 0 };
        CatHandle { cw_chunk_len: chunk, commands_power, commands_filter, antennas }
    }

    pub fn set_freq(&self, hz: i64) -> (r: CatCmd)
        ensures
            r == CatCmd::Freq(hz),
    {
        CatCmd::Freq(hz)
    }

    pub fn set_mode(&self, m: Mode, traits: ModeTraits) -> (r: CatCmd)
        ensures
            r == CatCmd::Mode(m, traits),
    {
        CatCmd::Mode(m, traits)
    }

    pub fn set_ptt(&self, on: bool) -> (r: CatCmd)
        ensures
            r == CatCmd::Ptt(on),
    {
        CatCmd::Ptt(on)
    }

    /// How much text the rig's keyer takes at a time, if it can be keyed from
    /// text.
    pub fn cw_chunk_len(&self) -> (r: Option<usize>)
        ensures
            r == if self.cw_chunk_len > 0 {
                Some(self.cw_chunk_len)
            } else {
                None
            },
    {
        if self.cw_chunk_len > 0 {
            Some(self.cw_chunk_len)
        } else {
            None
        }
    }

    pub fn send_cw(&self, text: String) -> (r: CatCmd)
        ensures
            r == CatCmd::Cw(text),
    {
        CatCmd::Cw(text)
    }

    pub fn abort_cw(&self) -> (r: CatCmd)
        ensures
            r == CatCmd::CwAbort,
    {
        CatCmd::CwAbort
    }

    /// The keyer's speed, only where the rig does the sending: its paddle uses
    /// the keyer too, and an operator who does not key from here keeps their own
    /// speed.
    pub fn set_cw_wpm(&self, wpm: u32) -> (r: Option<CatCmd>)
        ensures
            r == if self.cw_chunk_len > 0 {
                Some(CatCmd::CwWpm(wpm))
            } else {
                None
            },
    {
        if self.cw_chunk_len == 0 {
            return None;
        }
        Some(CatCmd::CwWpm(wpm))
    }

    /// The output power, in millionths of what the rig can do. Nothing where the
    /// family has no such command.
    pub fn set_power(&self, level: i64) -> (r: Option<CatCmd>)
        ensures
            r == if self.commands_power {
                Some(CatCmd::Power(level))
            } else {
                None
            },
    {
        if !self.commands_power {
            return None;
        }
        Some(CatCmd::Power(level))
    }

    /// Whether [`Self::set_power`] reaches this rig.
    pub fn commands_power(&self) -> (r: bool)
        ensures
            r == self.commands_power,
    {
        self.commands_power
    }

    /// The receive filter. Nothing where it cannot be addressed.
    pub fn set_filter(&self, f: Filter) -> (r: Option<CatCmd>)
        ensures
            r == if self.commands_filter {
                Some(CatCmd::Filter(f))
            } else {
                None
            },
    {
        if !self.commands_filter {
            return None;
        }
        Some(CatCmd::Filter(f))
    }

    /// The sockets that this rig can put its receiver on.
    pub fn antennas(&self) -> (r: &Vec<String>)
        ensures
            r == self.antennas,
    {
        &self.antennas
    }

    /// Puts the receiver on a socket. Nothing on a name that the rig has never
    /// heard of.
    pub fn set_antenna(&self, name: &str) -> (r: Option<CatCmd>)
        ensures
            match r {
                Some(c) => c matches CatCmd::Antenna(i) && first_at(
                    names(self.antennas@),
                    name@,
                    i as int,
                ),
                None => !names(self.antennas@).contains(name@),
            },
    {
        let ghost all = names(self.antennas@);
        let mut i: usize = 0;
        while i < self.antennas.len()
            invariant
                i <= self.antennas@.len(),
                all == names(self.antennas@),
                forall|j: int| 0 <= j < i ==> #[trigger] all[j] != name@,
            decreases self.antennas@.len() - i,
        {
            assert(all[i as int] == self.antennas@[i as int]@);
            if text::same(self.antennas[i].as_str(), name) {
                return Some(CatCmd::Antenna(i));
            }
            i += 1;
        }
        None
    }
}

} // verus!
