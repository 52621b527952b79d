//! The decisions of the sending side of a scan: which address is probed
//! next, when the passes are over, how long to wait for late replies, and
//! when to stop. The caller sends, sleeps and watches for an interrupt.

use vstd::prelude::*;
use crate::address::{all_addresses, all_v4, all_well_formed, AddressRange, NetworkIterator, ScanError};

verus! {

/// Length of one sleep while waiting for late replies, in milliseconds.
pub const WAIT_STEP_MS: u64 = 100;

/// Where a scan stands.
#[derive(Clone, Copy, Debug, PartialEq, Eq, Structural)]
pub enum ScanPhase {
    /// Requests are still being sent.
    Sending,
    /// Every request has left; late replies are waited for.
    Waiting,
    /// The collection has been told to stop.
    Stopped,
}

/// What the caller has to do next.
#[derive(Clone, Copy, Debug, PartialEq, Eq, Structural)]
pub enum CoordinatorAction {
    /// Send a request for `target`, then sleep for `pause_ms`.
    Send { target: u32, pause_ms: u64 },
    /// Sleep for `pause_ms`.
    Wait { pause_ms: u64 },
    /// Raise the stop signal and join the collection.
    Stop,
}

/// The state of the sending side.
#[derive(Debug)]
pub struct Coordinator {
    ranges: Vec<AddressRange>,
    randomize: bool,
    interval_ms: u64,
    timeout_ms: u64,
    passes_left: usize,
    pass: Option<NetworkIterator>,
    waited_ms: u64,
    phase: ScanPhase,
}

impl Coordinator {
    /// The blocks that are scanned.
    pub closed spec fn ranges(&self) -> Seq<AddressRange> {
        self.ranges@
    }

    /// Whether each pass is shuffled.
    pub closed spec fn randomize(&self) -> bool {
        self.randomize
    }

    /// The pause after each request.
    pub closed spec fn interval_ms(&self) -> u64 {
        self.interval_ms
    }

    /// How long late replies are waited for.
    pub closed spec fn timeout_ms(&self) -> u64 {
        self.timeout_ms
    }

    /// The phase of the scan.
    pub closed spec fn phase(&self) -> ScanPhase {
        self.phase
    }

    /// The passes that have not been started yet.
    pub closed spec fn passes_left(&self) -> nat {
        self.passes_left as nat
    }

    /// The addresses of the running pass that have not been probed yet.
    pub closed spec fn pending(&self) -> Seq<u32> {
        match self.pass {
            Some(iterator) => iterator.remaining(),
            None => Seq::<u32>::empty(),
        }
    }

    /// The time spent waiting for late replies so far.
    pub closed spec fn waited_ms(&self) -> u64 {
        self.waited_ms
    }

    /// The state is consistent.
    pub closed spec fn well_formed(&self) -> bool {
        &&& all_well_formed(self.ranges@)
        &&& all_v4(self.ranges@)
        &&& match self.pass {
            Some(iterator) => iterator.well_formed(),
            None => true,
        }
    }

    /// The settings stay as they were.
    pub open spec fn same_settings(&self, other: &Coordinator) -> bool {
        &&& self.ranges() == other.ranges()
        &&& self.randomize() == other.randomize()
        &&& self.interval_ms() == other.interval_ms()
        &&& self.timeout_ms() == other.timeout_ms()
    }

    /// Prepares a scan of `ranges` in `retry_count` passes, with a pause of
    /// `interval_ms` after each request and `timeout_ms` of waiting at the
    /// end. An IPv6 block anywhere in the list is an error.
    pub fn new(
        ranges: Vec<AddressRange>,
        randomize: bool,
        retry_count: usize,
        interval_ms: u64,
        timeout_ms: u64,
    ) -> (coordinator: Result<Coordinator, ScanError>)
        requires
            all_well_formed(ranges@),
        ensures
            match coordinator {
                Ok(state) => {
                    &&& all_v4(ranges@)
                    &&& state.well_formed()
                    &&& state.ranges() == ranges@
                    &&& state.randomize() == randomize
                    &&& state.interval_ms() == interval_ms
                    &&& state.timeout_ms() == timeout_ms
                    &&& state.phase() == ScanPhase::Sending
                    &&& state.passes_left() == retry_count
                    &&& state.pending() == Seq::<u32>::empty()
                    &&& state.waited_ms() == 0
                },
                Err(error) => !all_v4(ranges@) && error == ScanError::Ipv6NotSupported,
            },
    {
        let mut at: usize = 0;
        while at < ranges.len()
            invariant
                at <= ranges@.len(),
                forall|index: int| 0 <= index < at ==> (#[trigger] ranges@[index]).is_v4(),
            decreases ranges@.len() - at,
        {
            match ranges[at] {
                AddressRange::V4 { address, prefix } => {},
                AddressRange::V6 { address, prefix } => {
                    assert(!ranges@[at as int].is_v4());
                    return Err(ScanError::Ipv6NotSupported);
                },
            }
            at = at + 1;
        }
        Ok(
            Coordinator {
                ranges,
                randomize,
                interval_ms,
                timeout_ms,
                passes_left: retry_count,
                pass: None,
                waited_ms: 0,
                phase: ScanPhase::Sending,
            },
        )
    }

    /// The phase of the scan.
    pub fn current_phase(&self) -> (phase: ScanPhase)
        ensures
            phase == self.phase(),
    {
        self.phase
    }

    /// The time spent waiting for late replies so far, in milliseconds.
    pub fn waited(&self) -> (elapsed: u64)
        ensures
            elapsed == self.waited_ms(),
    {
        self.waited_ms
    }

    /// One step of waiting: stop once the timeout has passed or the
    /// operator has interrupted, else sleep once more.
    fn wait_step(&mut self, interrupted: bool) -> (action: CoordinatorAction)
        requires
            old(self).well_formed(),
        ensures
            final(self).well_formed(),
            final(self).same_settings(old(self)),
            final(self).passes_left() == old(self).passes_left(),
            final(self).pending() == old(self).pending(),
            if interrupted || old(self).waited_ms() >= old(self).timeout_ms() {
                &&& action == CoordinatorAction::Stop
                &&& final(self).phase() == ScanPhase::Stopped
                &&& final(self).waited_ms() == old(self).waited_ms()
            } else {
                &&& action == CoordinatorAction::Wait { pause_ms: WAIT_STEP_MS }
                &&& final(self).phase() == ScanPhase::Waiting
                &&& final(self).waited_ms() == if old(self).waited_ms() + WAIT_STEP_MS
                    > u64::MAX {
                    u64::MAX as int
                } else {
                    old(self).waited_ms() + WAIT_STEP_MS
                }
            },
    {
        if interrupted || self.waited_ms >= self.timeout_ms {
            self.phase = ScanPhase::Stopped;
            CoordinatorAction::Stop
        } else {
            self.phase = ScanPhase::Waiting;
            self.waited_ms = if self.waited_ms > u64::MAX - WAIT_STEP_MS {
                u64::MAX
            } else {
                self.waited_ms + WAIT_STEP_MS
            };
            CoordinatorAction::Wait { pause_ms: WAIT_STEP_MS }
        }
    }

    /// Decides what to do next. `interrupted` tells whether the operator
    /// has asked to end the scan; it is looked at before every request and
    /// before every sleep.
    ///
    /// While sending, an interrupt stops the scan at once. Otherwise the
    /// next address of the running pass is probed; when the pass is over
    /// and passes are left, a new pass starts, in order or shuffled anew;
    /// when none is left, or the blocks hold no address, the waiting
    /// begins. While waiting, the scan stops once the time waited has
    /// reached the timeout or the operator has interrupted. A stopped scan
    /// stays stopped.
    pub fn step(&mut self, interrupted: bool) -> (action: CoordinatorAction)
        requires
            old(self).well_formed(),
        ensures
            final(self).well_formed(),
            final(self).same_settings(old(self)),
            old(self).phase() == ScanPhase::Stopped ==> {
                &&& action == CoordinatorAction::Stop
                &&& final(self).phase() == ScanPhase::Stopped
                &&& final(self).waited_ms() == old(self).waited_ms()
            },
            old(self).phase() == ScanPhase::Sending && interrupted ==> {
                &&& action == CoordinatorAction::Stop
                &&& final(self).phase() == ScanPhase::Stopped
            },
            old(self).phase() == ScanPhase::Sending && !interrupted && old(self).pending().len()
                > 0 ==> {
                &&& action == CoordinatorAction::Send {
                    target: old(self).pending()[0],
                    pause_ms: old(self).interval_ms(),
                }
                &&& final(self).phase() == ScanPhase::Sending
                &&& final(self).pending() == old(self).pending().drop_first()
                &&& final(self).passes_left() == old(self).passes_left()
                &&& final(self).waited_ms() == old(self).waited_ms()
            },
            old(self).phase() == ScanPhase::Sending && !interrupted && old(self).pending().len()
                == 0 && old(self).passes_left() > 0 && all_addresses(old(self).ranges()).len()
                > 0 ==> exists|pass: Seq<u32>|
                {
                    &&& pass.to_multiset() == all_addresses(old(self).ranges()).to_multiset()
                    &&& !old(self).randomize() ==> pass == all_addresses(old(self).ranges())
                    &&& pass.len() > 0
                    &&& action == CoordinatorAction::Send {
                        target: pass[0],
                        pause_ms: old(self).interval_ms(),
                    }
                    &&& final(self).phase() == ScanPhase::Sending
                    &&& final(self).pending() == pass.drop_first()
                    &&& final(self).passes_left() == old(self).passes_left() - 1
                    &&& final(self).waited_ms() == old(self).waited_ms()
                },
            (old(self).phase() == ScanPhase::Waiting || (old(self).phase() == ScanPhase::Sending
                && !interrupted && old(self).pending().len() == 0 && (old(self).passes_left() == 0
                || all_addresses(old(self).ranges()).len() == 0))) ==> {
                if interrupted || old(self).waited_ms() >= old(self).timeout_ms() {
                    &&& action == CoordinatorAction::Stop
                    &&& final(self).phase() == ScanPhase::Stopped
                    &&& final(self).waited_ms() == old(self).waited_ms()
                } else {
                    &&& action == CoordinatorAction::Wait { pause_ms: WAIT_STEP_MS }
                    &&& final(self).phase() == ScanPhase::Waiting
                    &&& final(self).waited_ms() == if old(self).waited_ms() + WAIT_STEP_MS
                        > u64::MAX {
                        u64::MAX as int
                    } else {
                        old(self).waited_ms() + WAIT_STEP_MS
                    }
                }
            },
    {
        match self.phase {
            ScanPhase::Stopped => CoordinatorAction::Stop,
            ScanPhase::Waiting => self.wait_step(interrupted),
            ScanPhase::Sending => {
                if interrupted {
                    self.phase = ScanPhase::Stopped;
                    return CoordinatorAction::Stop;
                }
                let running: Option<u32> = match &mut self.pass {
                    Some(iterator) => iterator.next(),
                    None => None,
                };
                match running {
                    Some(target) => {
                        return CoordinatorAction::Send { target, pause_ms: self.interval_ms };
                    },
                    None => {},
                }
                if self.passes_left > 0 {
                    match NetworkIterator::new(&self.ranges, self.randomize) {
                        Ok(fresh) => {
                            let ghost pass = fresh.remaining();
                            let mut fresh = fresh;
                            let first = fresh.next();
                            proof {
                                vstd::seq_lib::to_multiset_len(pass);
                                vstd::seq_lib::to_multiset_len(all_addresses(self.ranges@));
                            }
                            match first {
                                Some(target) => {
                                    self.pass = Some(fresh);
                                    self.passes_left = self.passes_left - 1;
                                    return CoordinatorAction::Send {
                                        target,
                                        pause_ms: self.interval_ms,
                                    };
                                },
                                None => {},
                            }
                        },
                        Err(_) => {},
                    }
                }
                self.wait_step(interrupted)
            },
        }
    }
}

} // verus!
