//! What a station keeps of the network, and the events it publishes. Times are
//! microseconds.
use crate::atchat::netproto;
use crate::atchat::netproto::Mode;
use std::collections::BTreeMap;
use vstd::prelude::*;

verus! {

broadcast use {vstd::seq::group_seq_axioms, vstd::std_specs::btree::group_btree_axioms};

#[derive(Debug, Clone, Copy, PartialEq, Eq, Structural)]
pub enum Role {
    Listener,
    Master,
    Backup,
}

impl Role {
    pub fn as_str(self) -> (r: &'static str)
        ensures
            r@ == (match self {
                Role::Listener => "LISTENER",
                Role::Master => "MASTER",
                Role::Backup => "BACKUP",
            })@,
    {
        match self {
            Role::Listener => "LISTENER",
            Role::Master => "MASTER",
            Role::Backup => "BACKUP",
        }
    }
}

#[derive(Debug, Clone, Copy, PartialEq, Eq, Structural)]
pub enum RosterStatus {
    Active,
    Lost,
}

#[derive(Debug, Clone, Copy, PartialEq, Eq, Structural)]
pub struct RosterEntry {
    pub last_seen: u64,
    pub status: RosterStatus,
}

#[derive(Debug, Clone, Copy, PartialEq, Eq, Structural)]
pub enum TransferDir {
    In,
    Out,
}

/// A bulk transfer that this station SENDS.
#[derive(Debug, Clone)]
pub struct TransferOut {
    pub transfer_id: String,
    pub filename: String,
    pub dst: String,
    pub blocks: BTreeMap<usize, Vec<u8>>,
    pub mode: Mode,
    pub arq_round: usize,
    /// How many blocks were sent, for a progress bar (grows over the rounds).
    pub sent: usize,
    pub done: bool,
}

/// A bulk transfer that this station RECEIVES.
#[derive(Debug, Clone)]
pub struct TransferIn {
    pub transfer_id: String,
    pub filename: String,
    pub total_blocks: usize,
    pub src: String,
    pub dst: String,
    pub received: BTreeMap<usize, Vec<u8>>,
    pub complete: bool,
    pub saved_path: Option<String>,
}

/// The blocks below `n` that are not among the received ones, in order.
pub open spec fn missing(received: Set<usize>, n: nat) -> Seq<usize>
    decreases n,
{
    if n == 0 {
        Seq::empty()
    } else if received.contains((n - 1) as usize) {
        missing(received, (n - 1) as nat)
    } else {
        missing(received, (n - 1) as nat).push((n - 1) as usize)
    }
}

impl TransferIn {
    /// The blocks that have not been received, in order.
    pub fn missing_blocks(&self) -> (r: Vec<usize>)
        ensures
            r@ == missing(self.received@.dom(), self.total_blocks as nat),
    {
        let mut out: Vec<usize> = Vec::new();
        let mut i: usize = 0;
        while i < self.total_blocks
            invariant
                i <= self.total_blocks,
                out@ == missing(self.received@.dom(), i as nat),
            decreases self.total_blocks - i,
        {
            if !self.received.contains_key(&i) {
                out.push(i);
            }
            i += 1;
        }
        out
    }
}

/// A block is missing exactly if it belongs to the transfer and was not
/// received.
pub proof fn law_missing_is_what_was_not_received(received: Set<usize>, n: nat, i: usize)
    requires
        n <= usize::MAX,
    ensures
        missing(received, n).contains(i) <==> i < n && !received.contains(i),
    decreases n,
{
    if n > 0 {
        law_missing_is_what_was_not_received(received, (n - 1) as nat, i);
        let last = (n - 1) as usize;
        let front = missing(received, (n - 1) as nat);
        if !received.contains(last) {
            let all = front.push(last);
            assert(all[all.len() - 1] == last);
            if front.contains(i) {
                let k = choose|k: int| 0 <= k < front.len() && front[k] == i;
                assert(all[k] == i);
            }
            if all.contains(i) {
                let k = choose|k: int| 0 <= k < all.len() && all[k] == i;
                if k < front.len() {
                    assert(front[k] == i);
                }
            }
        }
    }
}

#[derive(Debug, Clone, Copy, PartialEq, Eq, Structural)]
pub enum ChatScope {
    /// To everybody.
    Broadcast,
    /// To this station.
    Private,
}

/// What a station publishes to its user interface.
#[derive(Debug, Clone)]
pub enum StationEvent {
    /// A line for the log.
    Log(String),
    /// A chat message that came in.
    Chat { from: String, scope: ChatScope, text: String },
    RoleChanged(Role),
    /// The roster or the transfers changed.
    StateChanged,
    /// A transfer moved on or was completed.
    Transfer {
        id: String,
        dir: TransferDir,
        filename: String,
        /// The other station: the source of what comes in, the destination of
        /// what goes out.
        peer: String,
        have: usize,
        total: usize,
        done: bool,
        saved_path: Option<String>,
    },
}

/// The timing of a station.
#[derive(Debug, Clone)]
pub struct StationConfig {
    pub beacon_interval: u64,
    pub beacon_timeout: u64,
    pub lost_timeout: u64,
    pub remove_timeout: u64,
    /// After how many blocks of a transfer others get a word in.
    pub control_window_every: usize,
    pub control_window_pause: u64,
    /// Where received files are written.
    pub received_dir: String,
}

impl Default for StationConfig {
    fn default() -> (r: Self)
        ensures
            r.beacon_interval == netproto::BEACON_INTERVAL,
            r.beacon_timeout == 3 * netproto::BEACON_INTERVAL,
            r.lost_timeout == netproto::LOST_TIMEOUT,
            r.remove_timeout == netproto::REMOVE_TIMEOUT,
            r.control_window_every == 3,
            r.control_window_pause == 1_200_000,
            r.received_dir@ == "received"@,
    {
        StationConfig {
            beacon_interval: netproto::BEACON_INTERVAL,
            beacon_timeout: netproto::BEACON_TIMEOUT,
            lost_timeout: netproto::LOST_TIMEOUT,
            remove_timeout: netproto::REMOVE_TIMEOUT,
            control_window_every: 3,
            control_window_pause: 1_200_000,
            received_dir: "received".to_owned(),
        }
    }
}

/// What a user interface reads of a station.
#[derive(Debug, Clone)]
pub struct StationSnapshot {
    pub callsign: String,
    pub role: Role,
    pub master: Option<String>,
    pub backup: Option<String>,
    pub connected: bool,
    /// Callsign, status, and how long ago it was last heard.
    pub roster: Vec<(String, RosterStatus, u64)>,
    pub transfers_in: Vec<TransferSnapshot>,
    pub transfers_out: Vec<TransferSnapshot>,
}

#[derive(Debug, Clone)]
pub struct TransferSnapshot {
    pub id: String,
    pub filename: String,
    pub peer: String,
    pub have: usize,
    pub total: usize,
    pub complete: bool,
    pub arq_round: usize,
}

} // verus!
