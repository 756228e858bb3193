//! Orchestration loop state.
//!
//! The keeper runs one iteration per detected new block: confirm or replace
//! pending transactions, refresh the vault map, start auctions, attempt
//! buys, and periodically persist the combined state.  The caller drives the
//! polling and the I/O; this module holds the canonical state and decides,
//! from each poll outcome, what the iteration does.
use crate::borrowers::VaultMap;
use crate::errors::KeeperError;
use crate::liquidations::AuctionMap;
use vstd::prelude::*;

verus! {

/// Persist the combined state once every this many blocks.
pub const PERSIST_EVERY_BLOCKS: u64 = 10;

/// Give up after this many consecutive poll failures.
pub const MAX_POLL_FAILURES: u8 = 10;

/// The state that is persisted across restarts: the auction registry, the
/// vault map, and the last processed block.
pub struct State {
    /// The auctions being monitored.
    pub auctions: AuctionMap,
    /// The borrowers being monitored.
    pub vaults: VaultMap,
    /// The last observed block.
    pub last_block: u64,
}

impl State {
    /// Well-formed: both maps are.
    pub open spec fn wf(self) -> bool {
        &&& self.auctions.wf()
        &&& self.vaults.wf()
    }

    /// The empty state a fresh keeper starts from when nothing was
    /// persisted.
    pub fn new() -> (r: State)
        ensures
            r.wf(),
            r.auctions@ == Map::<u128, bool>::empty(),
            r.vaults@ == Map::<u128, crate::borrowers::Vault>::empty(),
            r.last_block == 0,
    {
        State {
            auctions: crate::idmap::IdMap::new(),
            vaults: crate::idmap::IdMap::new(),
            last_block: 0,
        }
    }
}

/// What one poll of the new-block filter leads to.
#[derive(PartialEq, Eq, Structural, Clone, Copy, Debug)]
pub enum PollStep {
    /// Too many consecutive failures: abort the keeper.
    Fatal,
    /// The poll failed: reinstall the filter and try again.
    Reinstall,
    /// The reported block was already handled this iteration: sleep again.
    SkipSeen,
    /// A new block: run the cycle for it.
    Process,
}

/// The keeper's poll-loop bookkeeping: consecutive failures and the last
/// block a cycle was run for.
pub struct Keeper {
    /// The last block a cycle completed for.
    pub last_block: u64,
    /// Consecutive poll failures so far.
    pub err_count: u8,
    /// The block number most recently seen from the filter, if any.
    pub last_seen_block: Option<u64>,
}

impl Keeper {
    /// What one poll outcome leads to, given the failure count and the last
    /// block seen: a failure increments the counter and is fatal at the
    /// limit, else the filter is reinstalled; a success resets the counter,
    /// skips an already-seen block, and otherwise processes the new block.
    pub open spec fn spec_poll_step(self, poll_ok: bool, block_number: u64) -> PollStep {
        if !poll_ok {
            if self.err_count + 1 >= MAX_POLL_FAILURES {
                PollStep::Fatal
            } else {
                PollStep::Reinstall
            }
        } else if self.last_seen_block == Option::Some(block_number) {
            PollStep::SkipSeen
        } else {
            PollStep::Process
        }
    }

    /// A keeper resuming from a persisted last block (or zero), with a clean
    /// failure counter.
    pub fn new(last_block: u64) -> (r: Keeper)
        ensures
            r.last_block == last_block,
            r.err_count == 0,
            r.last_seen_block is None,
    {
        Keeper { last_block, err_count: 0, last_seen_block: None }
    }

    /// Account one poll of the new-block filter and decide the next step.
    /// On `Process` the seen block is recorded, so polling the same block
    /// again skips; ten consecutive failures are fatal
    /// (`TransportExhaustion` at the caller), and any success resets the
    /// count.
    pub fn on_poll(&mut self, poll_ok: bool, block_number: u64) -> (r: PollStep)
        ensures
            r == old(self).spec_poll_step(poll_ok, block_number),
            final(self).last_block == old(self).last_block,
            poll_ok ==> final(self).err_count == 0,
            !poll_ok ==> final(self).err_count == (if old(self).err_count
                < MAX_POLL_FAILURES {
                (old(self).err_count + 1) as u8
            } else {
                old(self).err_count
            }),
            final(self).last_seen_block == (if r == PollStep::Process {
                Option::Some(block_number)
            } else {
                old(self).last_seen_block
            }),
    {
        if !poll_ok {
            if self.err_count < MAX_POLL_FAILURES {
                self.err_count = self.err_count + 1;
            }
            if self.err_count >= MAX_POLL_FAILURES {
                PollStep::Fatal
            } else {
                PollStep::Reinstall
            }
        } else {
            self.err_count = 0;
            match self.last_seen_block {
                Some(b) if b == block_number => PollStep::SkipSeen,
                _ => {
                    self.last_seen_block = Some(block_number);
                    PollStep::Process
                },
            }
        }
    }

    /// Whether this block's cycle must end by persisting the whole state.
    pub fn should_persist(&self, block_number: u64) -> (r: bool)
        ensures
            r == (block_number % PERSIST_EVERY_BLOCKS == 0),
    {
        block_number % PERSIST_EVERY_BLOCKS == 0
    }

    /// Record that the cycle for `block_number` completed.
    pub fn advance(&mut self, block_number: u64)
        ensures
            final(self).last_block == block_number,
            final(self).err_count == old(self).err_count,
            final(self).last_seen_block == old(self).last_seen_block,
    {
        self.last_block = block_number;
    }

    /// The error the caller aborts with on a fatal poll step.
    pub fn poll_failure_error(&self) -> (r: KeeperError)
        ensures
            r == KeeperError::TransportExhaustion,
    {
        KeeperError::TransportExhaustion
    }
}

} // verus!
