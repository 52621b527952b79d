//! Bookkeeping of the replies that arrive during a scan: which frames count,
//! which hosts are new, and what is reported when the scan stops.

use vstd::prelude::*;
use crate::frame::{decode_reply, reply_in};
use crate::options::{MacAddress, ScanOptions};
use crate::vendor::{resolve, VendorTable};

verus! {

/// Scan-wide counters, final once the collection has stopped.
#[derive(Clone, Copy, Debug, PartialEq, Eq, Structural)]
pub struct ResponseSummary {
    /// Frames read from the interface, whatever they held.
    pub packet_count: usize,
    /// Frames that were ARP replies of the expected types.
    pub arp_count: usize,
    /// Time from the start of the collection to the moment it was stopped.
    pub duration_ms: u128,
}

/// One host that answered.
#[derive(Clone, Debug)]
pub struct TargetDetails {
    pub ipv4: u32,
    pub mac: MacAddress,
    pub hostname: Option<String>,
    pub vendor: Option<String>,
}

/// A host as contracts see it.
pub struct TargetView {
    pub ipv4: u32,
    pub mac: MacAddress,
    pub hostname: Option<Seq<char>>,
    pub vendor: Option<Seq<char>>,
}

/// The characters of an optional text.
pub open spec fn text_view(text: Option<String>) -> Option<Seq<char>> {
    match text {
        Some(present) => Some(present@),
        None => None,
    }
}

impl View for TargetDetails {
    type V = TargetView;

    open spec fn view(&self) -> TargetView {
        TargetView {
            ipv4: self.ipv4,
            mac: self.mac,
            hostname: text_view(self.hostname),
            vendor: text_view(self.vendor),
        }
    }
}

/// The hosts of a list as contracts see them, in the order of the list.
pub open spec fn targets_view(targets: Seq<TargetDetails>) -> Seq<TargetView> {
    targets.map_values(|target: TargetDetails| target@)
}

/// True when a host with this protocol address is on the list.
pub open spec fn knows(targets: Seq<TargetView>, ipv4: u32) -> bool {
    exists|index: int| 0 <= index < targets.len() && (#[trigger] targets[index]).ipv4 == ipv4
}

/// True when no protocol address occurs twice on the list.
pub open spec fn distinct_addresses(targets: Seq<TargetView>) -> bool {
    forall|first: int, second: int|
        0 <= first < second < targets.len() ==> (#[trigger] targets[first]).ipv4 != (
        #[trigger] targets[second]).ipv4
}

/// What the caller has to do after a frame was handed in.
#[derive(Clone, Copy, Debug, PartialEq, Eq, Structural)]
pub enum FrameAction {
    /// Nothing: the frame was dropped, or its sender is already on the list.
    Ignore,
    /// A new host answered. The caller looks its name up if `lookup_hostname`
    /// is set, and records the host.
    Resolve { ipv4: u32, mac: MacAddress, lookup_hostname: bool },
}

/// The state of a running collection.
#[derive(Debug)]
pub struct Collector {
    packet_count: usize,
    arp_count: usize,
    targets: Vec<TargetDetails>,
}

impl Collector {
    /// Frames handed in so far.
    pub closed spec fn packet_count(&self) -> nat {
        self.packet_count as nat
    }

    /// Frames accepted as ARP replies so far.
    pub closed spec fn arp_count(&self) -> nat {
        self.arp_count as nat
    }

    /// The hosts recorded so far, first recorded first.
    pub closed spec fn targets(&self) -> Seq<TargetView> {
        targets_view(self.targets@)
    }

    /// No address is recorded twice, and no more frames were accepted than
    /// were handed in.
    pub closed spec fn well_formed(&self) -> bool {
        &&& distinct_addresses(self.targets())
        &&& self.arp_count <= self.packet_count
    }

    /// A collection that has seen nothing yet.
    pub fn new() -> (collector: Collector)
        ensures
            collector.well_formed(),
            collector.packet_count() == 0,
            collector.arp_count() == 0,
            collector.targets() == Seq::<TargetView>::empty(),
    {
        let collector = Collector { packet_count: 0, arp_count: 0, targets: Vec::new() };
        assert(collector.targets() =~= Seq::<TargetView>::empty());
        collector
    }

    /// Frames handed in so far.
    pub fn received(&self) -> (count: usize)
        ensures
            count == self.packet_count(),
    {
        self.packet_count
    }

    /// Frames accepted as ARP replies so far.
    pub fn accepted(&self) -> (count: usize)
        ensures
            count == self.arp_count(),
    {
        self.arp_count
    }

    /// Hosts recorded so far.
    pub fn host_count(&self) -> (count: usize)
        ensures
            count == self.targets().len(),
    {
        self.targets.len()
    }

    /// Tells whether a host with this protocol address was recorded.
    pub fn is_known(&self, ipv4: u32) -> (known: bool)
        ensures
            known == knows(self.targets(), ipv4),
    {
        let mut at: usize = 0;
        while at < self.targets.len()
            invariant
                at <= self.targets@.len(),
                self.targets().len() == self.targets@.len(),
                forall|index: int| 0 <= index < at ==> (#[trigger] self.targets()[index]).ipv4 != ipv4,
            decreases self.targets@.len() - at,
        {
            if self.targets[at].ipv4 == ipv4 {
                assert(self.targets()[at as int].ipv4 == ipv4);
                return true;
            }
            at = at + 1;
        }
        false
    }

    /// Whether one more frame can be counted.
    pub open spec fn has_room(&self) -> bool {
        self.packet_count() < usize::MAX
    }

    /// Tells whether one more frame can be counted.
    pub fn can_receive(&self) -> (room: bool)
        ensures
            room == self.has_room(),
    {
        self.packet_count < usize::MAX
    }

    /// Takes one inbound frame. Every frame counts as received. A frame that
    /// is an ARP reply of the expected types counts as accepted, and if its
    /// sender is not on the list yet, the caller is asked to record it. The
    /// list itself is left as it is.
    pub fn receive_frame(&mut self, frame: &[u8], options: &ScanOptions) -> (action: FrameAction)
        requires
            old(self).well_formed(),
            old(self).has_room(),
        ensures
            final(self).well_formed(),
            final(self).packet_count() == old(self).packet_count() + 1,
            final(self).targets() == old(self).targets(),
            match reply_in(frame@, *options) {
                Some((ipv4, mac)) => {
                    &&& final(self).arp_count() == old(self).arp_count() + 1
                    &&& action == if knows(old(self).targets(), ipv4) {
                        FrameAction::Ignore
                    } else {
                        FrameAction::Resolve {
                            ipv4,
                            mac,
                            lookup_hostname: options.resolve_hostname,
                        }
                    }
                },
                None => {
                    &&& final(self).arp_count() == old(self).arp_count()
                    &&& action == FrameAction::Ignore
                },
            },
    {
        self.packet_count = self.packet_count + 1;
        match decode_reply(frame, options) {
            Some((ipv4, mac)) => {
                self.arp_count = self.arp_count + 1;
                if self.is_known(ipv4) {
                    FrameAction::Ignore
                } else {
                    FrameAction::Resolve { ipv4, mac, lookup_hostname: options.resolve_hostname }
                }
            },
            None => FrameAction::Ignore,
        }
    }

    /// Records a host that answered, with the name that the caller found for
    /// it, if any, and the vendor that the table gives for its hardware
    /// address. The first record of an address stands: if the address is on
    /// the list already, nothing changes.
    pub fn record_target(
        &mut self,
        ipv4: u32,
        mac: MacAddress,
        hostname: Option<String>,
        vendors: &VendorTable,
    ) -> (added: bool)
        requires
            old(self).well_formed(),
            vendors.well_formed(),
        ensures
            final(self).well_formed(),
            final(self).packet_count() == old(self).packet_count(),
            final(self).arp_count() == old(self).arp_count(),
            added == !knows(old(self).targets(), ipv4),
            added ==> final(self).targets() == old(self).targets().push(
                TargetView {
                    ipv4,
                    mac,
                    hostname: text_view(hostname),
                    vendor: resolve(vendors.rules(), mac),
                },
            ),
            !added ==> final(self).targets() == old(self).targets(),
    {
        if self.is_known(ipv4) {
            return false;
        }
        let vendor = vendors.search_by_mac(&mac);
        let ghost entry = TargetView {
            ipv4,
            mac,
            hostname: text_view(hostname),
            vendor: resolve(vendors.rules(), mac),
        };
        self.targets.push(TargetDetails { ipv4, mac, hostname, vendor });
        proof {
            assert(self.targets() =~= old(self).targets().push(entry));
            assert forall|first: int, second: int|
                0 <= first < second < self.targets().len() implies (
            #[trigger] self.targets()[first]).ipv4 != (#[trigger] self.targets()[second]).ipv4 by {
                if second < old(self).targets().len() {
                    assert(self.targets()[first] == old(self).targets()[first]);
                    assert(self.targets()[second] == old(self).targets()[second]);
                } else {
                    assert(self.targets()[first] == old(self).targets()[first]);
                }
            }
        }
        true
    }

    /// Stops the collection and seals the time it took. The counters and the
    /// list are handed out as they stand; nothing can change them afterwards.
    pub fn finish(self, elapsed_ms: u128) -> (report: (ResponseSummary, Vec<TargetDetails>))
        requires
            self.well_formed(),
        ensures
            report.0.packet_count == self.packet_count(),
            report.0.arp_count == self.arp_count(),
            report.0.arp_count <= report.0.packet_count,
            report.0.duration_ms == elapsed_ms,
            targets_view(report.1@) == self.targets(),
            distinct_addresses(targets_view(report.1@)),
    {
        (
            ResponseSummary {
                packet_count: self.packet_count,
                arp_count: self.arp_count,
                duration_ms: elapsed_ms,
            },
            self.targets,
        )
    }
}

} // verus!
