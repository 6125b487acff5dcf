//! Continuity counter checking.
//!
//! See ISO/IEC 13818-1 (ITU-T Rec. H.222.0) section 2.4.3.3 for the normative rules.
use crate::ts::packet::{counter_is_its_value, next_counter, ContinuityCounter, TsPacket, TsPacketModel};
use std::collections::HashMap;
use vstd::prelude::*;

verus! {

/// Result of a [`CcChecker::check`] call.
#[derive(Debug, Clone, Copy, PartialEq, Eq, Structural, Hash)]
pub enum CcStatus {
    /// The packet is consistent with the PID's continuity-counter sequence,
    /// or no sequence expectation applies to it (no payload, or the first
    /// packet seen on this PID).
    Continuous,
    /// The packet breaks the continuity-counter sequence of its PID.
    Discontinuity {
        /// The counter value that was expected for this packet.
        expected: ContinuityCounter,
        /// The counter value the packet actually carried.
        got: ContinuityCounter,
    },
    /// The packet has `discontinuity_indicator` set in its adaptation field:
    /// a legitimate (signalled) reset of the PID's continuity-counter
    /// sequence. The checker has cleared its state for this PID; the next
    /// packet on the PID starts a new sequence.
    Reset,
}

/// The model of a [`CcStatus`].
pub enum CcStatusModel {
    Continuous,
    Discontinuity { expected: u8, got: u8 },
    Reset,
}

impl View for CcStatus {
    type V = CcStatusModel;

    open spec fn view(&self) -> CcStatusModel {
        match self {
            CcStatus::Continuous => CcStatusModel::Continuous,
            CcStatus::Discontinuity { expected, got } => CcStatusModel::Discontinuity {
                expected: expected@,
                got: got@,
            },
            CcStatus::Reset => CcStatusModel::Reset,
        }
    }
}

/// What a packet tells a checker.
pub struct CcEvent {
    pub pid: u16,
    pub counter: u8,
    pub has_payload: bool,
    pub signals_discontinuity: bool,
}

/// What the given packet tells a checker.
pub open spec fn cc_event(packet: TsPacketModel) -> CcEvent {
    CcEvent {
        pid: packet.pid,
        counter: packet.continuity_counter,
        has_payload: packet.payload is Some,
        signals_discontinuity: packet.adaptation_field matches Some(af)
            && af.discontinuity_indicator,
    }
}

/// The status that an event gets from a checker that knows the given last counters.
pub open spec fn cc_status(last: Map<u16, u8>, e: CcEvent) -> CcStatusModel {
    if !e.has_payload {
        CcStatusModel::Continuous
    } else if e.signals_discontinuity {
        CcStatusModel::Reset
    } else if last.contains_key(e.pid) && e.counter != last[e.pid] && e.counter != next_counter(
        last[e.pid],
    ) {
        CcStatusModel::Discontinuity { expected: next_counter(last[e.pid]), got: e.counter }
    } else {
        CcStatusModel::Continuous
    }
}

/// The last counters that a checker knows after an event.
pub open spec fn cc_next(last: Map<u16, u8>, e: CcEvent) -> Map<u16, u8> {
    if !e.has_payload {
        last
    } else if e.signals_discontinuity {
        last.remove(e.pid)
    } else {
        last.insert(e.pid, e.counter)
    }
}

/// Per-PID continuity counter checker.
///
/// Tracks the expected continuity counter of every PID seen so far and
/// reports violations of the rules defined in ISO/IEC 13818-1 section 2.4.3.3.
///
/// Semantics and deliberate choices:
///
/// - Only packets that carry a payload (`adaptation_field_control` `0b01` or
///   `0b11`, i.e. `TsPacket::payload` is `Some`) advance the expectation;
///   packets without payload (`0b10`) leave the state untouched and return
///   [`CcStatus::Continuous`]. (Note that a payload presence check is exactly
///   equivalent to a check of these bits: the reader only sets `payload` for
///   those values.)
/// - A packet whose adaptation field has `discontinuity_indicator` set returns
///   [`CcStatus::Reset`] and clears the PID's state, including when the PID
///   had no prior state. This is only signalled for payload-bearing packets,
///   matching the field's usual usage.
/// - The first payload-bearing packet seen on a PID initializes the sequence
///   and returns [`CcStatus::Continuous`].
/// - **Duplicate packets** (same PID, same counter as the previous
///   payload-bearing packet) return [`CcStatus::Continuous`]: section 2.4.3.3 explicitly
///   permits a sender to repeat a packet (e.g. as a retransmission), so this
///   checker tolerates them rather than flagging a discontinuity.
/// - The counter of null packets (PID `0x1FFF`) is left undefined by the
///   standard; this checker nevertheless tracks null packets like any
///   other PID, which matches streams that keep them sequential.
/// - `transport_error_indicator` is not treated specially.
///
/// Its view maps each PID that has a sequence to the last counter of the sequence.
#[derive(Debug)]
pub struct CcChecker {
    last: HashMap<u16, ContinuityCounter>,
}

impl View for CcChecker {
    type V = Map<u16, u8>;

    closed spec fn view(&self) -> Map<u16, u8> {
        self.last@.map_values(|c: ContinuityCounter| c@)
    }
}

impl Default for CcChecker {
    fn default() -> (c: Self)
        ensures
            c@ == Map::<u16, u8>::empty(),
    {
        let c: CcChecker = CcChecker { last: HashMap::new() };
        assert(c@ =~= Map::<u16, u8>::empty());
        c
    }
}

impl CcChecker {
    /// Makes a new `CcChecker` instance.
    pub fn new() -> (c: Self)
        ensures
            c@ == Map::<u16, u8>::empty(),
    {
        CcChecker::default()
    }

    /// Checks the continuity counter of the given packet.
    ///
    /// The packet must already be parsed (e.g. by [`TsPacketReader`]). See the [type-level
    /// documentation][Self] for the exact semantics.
    ///
    /// [`TsPacketReader`]: crate::ts::TsPacketReader
    pub fn check(&mut self, packet: &TsPacket) -> (status: CcStatus)
        ensures
            status@ == cc_status(old(self)@, cc_event(packet@)),
            final(self)@ == cc_next(old(self)@, cc_event(packet@)),
    {
        broadcast use vstd::std_specs::hash::group_hash_axioms;

        if packet.payload.is_none() {
            return CcStatus::Continuous;
        }
        let pid: u16 = packet.header.pid.as_u16();
        let got: ContinuityCounter = packet.header.continuity_counter;
        let signals_discontinuity: bool = match &packet.adaptation_field {
            Some(af) => af.discontinuity_indicator,
            None => false,
        };
        if signals_discontinuity {
            self.last.remove(&pid);
            assert(self@ =~= old(self)@.remove(pid));
            return CcStatus::Reset;
        }
        let last: ContinuityCounter = match self.last.get(&pid) {
            Some(last) => *last,
            None => {
                self.last.insert(pid, got);
                assert(self@ =~= old(self)@.insert(pid, got@));
                return CcStatus::Continuous;
            },
        };
        let mut expected: ContinuityCounter = last;
        expected.increment();
        if got == last {
            // Legal duplicate packet (section 2.4.3.3); tolerated by design.
            assert(self@ =~= old(self)@.insert(pid, got@));
            return CcStatus::Continuous;
        }
        self.last.insert(pid, got);
        assert(self@ =~= old(self)@.insert(pid, got@));
        if got != expected {
            proof {
                if got@ == last@ {
                    counter_is_its_value(got, last);
                }
                if got@ == expected@ {
                    counter_is_its_value(got, expected);
                }
            }
            return CcStatus::Discontinuity { expected, got };
        }
        CcStatus::Continuous
    }
}

} // verus!
