//! Laws of continuity counter checking.
use crate::bytes::field;
use crate::ts::cc::{cc_event, cc_next, cc_status, CcEvent, CcStatusModel};
use crate::ts::packet::{next_counter, ContinuityCounter, TsPacket, TsPacketModel};
use crate::ts::reader::{adaptation_bytes, packet_at};
use vstd::arithmetic::power2::lemma2_to64;
use vstd::prelude::*;

verus! {

/// Whether the event counts in the sequence of its PID: it has a payload and signals no
/// discontinuity.
pub open spec fn is_sequential(e: CcEvent) -> bool {
    e.has_payload && !e.signals_discontinuity
}

/// The last counters that a checker knows after the given events.
pub open spec fn cc_run(last: Map<u16, u8>, events: Seq<CcEvent>) -> Map<u16, u8>
    decreases events.len(),
{
    if events.len() == 0 {
        last
    } else {
        cc_next(cc_run(last, events.drop_last()), events.last())
    }
}

/// The status that the event at `i` gets in a run over the given events.
pub open spec fn cc_status_at(last: Map<u16, u8>, events: Seq<CcEvent>, i: int) -> CcStatusModel {
    cc_status(cc_run(last, events.take(i)), events[i])
}

/// Whether two checkers know the same of the given PIDs, `p` in the first and `q` in the second.
pub open spec fn agree(a: Map<u16, u8>, p: u16, b: Map<u16, u8>, q: u16) -> bool {
    a.contains_key(p) == b.contains_key(q) && (a.contains_key(p) ==> a[p] == b[q])
}

/// A packet without payload is ignored.
pub proof fn packet_without_payload_is_ignored(last: Map<u16, u8>, e: CcEvent)
    requires
        !e.has_payload,
    ensures
        cc_status(last, e) is Continuous,
        cc_next(last, e) == last,
{
}

/// A signalled discontinuity in a packet with payload is a reset, whether or not its PID had a
/// sequence, and ends the sequence; no other packet gets that status.
pub proof fn signalled_discontinuity_resets(last: Map<u16, u8>, e: CcEvent)
    ensures
        cc_status(last, e) is Reset <==> e.has_payload && e.signals_discontinuity,
        cc_status(last, e) is Reset ==> !cc_next(last, e).contains_key(e.pid),
{
}

/// On a PID without a sequence, as at the start or after a reset, a packet with any counter
/// begins one and is accepted.
pub proof fn first_packet_begins_a_sequence(last: Map<u16, u8>, e: CcEvent)
    requires
        is_sequential(e),
        !last.contains_key(e.pid),
    ensures
        cc_status(last, e) is Continuous,
        cc_next(last, e).contains_key(e.pid),
        cc_next(last, e)[e.pid] == e.counter,
{
}

/// After a reset any counter is accepted.
pub proof fn any_counter_is_accepted_after_a_reset(last: Map<u16, u8>, reset: CcEvent, e: CcEvent)
    requires
        cc_status(last, reset) is Reset,
        e.pid == reset.pid,
        is_sequential(e),
    ensures
        cc_status(cc_next(last, reset), e) is Continuous,
        cc_next(cc_next(last, reset), e)[e.pid] == e.counter,
{
}

/// After a sequential packet, whatever was known before it, the next sequential packet on its PID
/// is accepted if and only if it repeats the counter or carries the one that follows. Otherwise a
/// discontinuity is reported, with the counter that follows as the expected one. Either way the
/// sequence goes on from the counter of the second packet.
pub proof fn last_counter_decides(last: Map<u16, u8>, first: CcEvent, second: CcEvent)
    requires
        is_sequential(first),
        is_sequential(second),
        first.pid == second.pid,
    ensures
        ({
            let status = cc_status(cc_next(last, first), second);
            if second.counter == first.counter || second.counter == next_counter(first.counter) {
                status is Continuous
            } else {
                status == CcStatusModel::Discontinuity {
                    expected: next_counter(first.counter),
                    got: second.counter,
                }
            }
        }),
        cc_next(cc_next(last, first), second) == cc_next(last, second),
{
    assert(cc_next(cc_next(last, first), second) =~= cc_next(last, second));
}

/// A duplicate leaves the checker as it was.
pub proof fn duplicate_is_tolerated(last: Map<u16, u8>, e: CcEvent)
    requires
        is_sequential(e),
    ensures
        cc_status(cc_next(last, e), e) is Continuous,
        cc_next(cc_next(last, e), e) == cc_next(last, e),
{
    assert(cc_next(cc_next(last, e), e) =~= cc_next(last, e));
}

/// A packet has no effect on what is known of other PIDs.
pub proof fn other_pids_are_untouched(last: Map<u16, u8>, e: CcEvent, pid: u16)
    requires
        pid != e.pid,
    ensures
        agree(cc_next(last, e), pid, last, pid),
{
}

/// Every PID, that of null packets among them, is treated alike: packets that differ in the PID
/// only get the same status and have the same effect where the same is known of their PIDs.
pub proof fn every_pid_is_treated_alike(a: Map<u16, u8>, b: Map<u16, u8>, e: CcEvent, pid: u16)
    requires
        agree(a, e.pid, b, pid),
    ensures
        ({
            let other = CcEvent { pid, ..e };
            &&& cc_status(a, e) == cc_status(b, other)
            &&& agree(cc_next(a, e), e.pid, cc_next(b, other), pid)
        }),
{
}

/// What is known of a PID after a run is what the packets of this PID alone would have left.
pub proof fn pids_run_independently(last: Map<u16, u8>, events: Seq<CcEvent>, pid: u16)
    ensures
        agree(
            cc_run(last, events),
            pid,
            cc_run(last, events.filter(|e: CcEvent| e.pid == pid)),
            pid,
        ),
    decreases events.len(),
{
    let own = |e: CcEvent| e.pid == pid;
    if events.len() > 0 {
        let e = events.last();
        let before = events.drop_last();
        pids_run_independently(last, before, pid);
        reveal(Seq::filter);
        if own(e) {
            let kept = before.filter(own);
            assert(events.filter(own) =~= kept.push(e));
            assert(kept.push(e).drop_last() =~= kept);
            every_pid_is_treated_alike(cc_run(last, before), cc_run(last, kept), e, pid);
        } else {
            other_pids_are_untouched(cc_run(last, before), e, pid);
        }
    }
}

/// The status of a packet in a run is the one that it gets behind the earlier packets of its own
/// PID alone.
pub proof fn status_depends_on_own_pid(last: Map<u16, u8>, events: Seq<CcEvent>, i: int)
    requires
        0 <= i < events.len(),
    ensures
        cc_status_at(last, events, i) == cc_status(
            cc_run(last, events.take(i).filter(|e: CcEvent| e.pid == events[i].pid)),
            events[i],
        ),
{
    let e = events[i];
    pids_run_independently(last, events.take(i), e.pid);
    let own = events.take(i).filter(|x: CcEvent| x.pid == e.pid);
    every_pid_is_treated_alike(cc_run(last, events.take(i)), cc_run(last, own), e, e.pid);
}

/// A stream of sequential packets on one PID in which each counter repeats the one before or
/// follows it, around behind the maximum, is accepted packet by packet.
pub proof fn unbroken_stream_is_accepted(events: Seq<CcEvent>, pid: u16, i: int)
    requires
        0 <= i < events.len(),
        forall|j: int| 0 <= j < events.len() ==> is_sequential(#[trigger] events[j]) && events[j].pid
            == pid,
        forall|j: int| 1 <= j < events.len() ==> (#[trigger] events[j]).counter == events[j
            - 1].counter || events[j].counter == next_counter(events[j - 1].counter),
    ensures
        cc_status_at(Map::empty(), events, i) is Continuous,
{
    if i > 0 {
        assert(events.take(i).drop_last() =~= events.take(i - 1));
        assert(events.take(i).last() == events[i - 1]);
        last_counter_decides(
            cc_run(Map::empty(), events.take(i - 1)),
            events[i - 1],
            events[i],
        );
    }
}

/// A checker knows counters in range only, if it has seen counters in range only.
pub proof fn known_counters_are_in_range(last: Map<u16, u8>, e: CcEvent)
    requires
        forall|pid: u16| #[trigger] last.contains_key(pid) ==> last[pid] <= ContinuityCounter::MAX,
        e.counter <= ContinuityCounter::MAX,
    ensures
        forall|pid: u16| #[trigger]
            cc_next(last, e).contains_key(pid) ==> cc_next(last, e)[pid] <= ContinuityCounter::MAX,
        cc_status(last, e) matches CcStatusModel::Discontinuity { expected, got } ==> expected
            <= ContinuityCounter::MAX && got <= ContinuityCounter::MAX,
{
}

/// What a packet tells a checker are its PID, its counter, whether it has a payload and whether it
/// has an adaptation field with the discontinuity indicator set.
pub proof fn checker_looks_at_four_fields(packet: TsPacket)
    ensures
        cc_event(packet@).pid == packet.header.pid@,
        cc_event(packet@).counter == packet.header.continuity_counter@,
        cc_event(packet@).has_payload <==> packet.payload is Some,
        cc_event(packet@).signals_discontinuity <==> packet.adaptation_field is Some
            && packet.adaptation_field->0.discontinuity_indicator,
{
}

/// A checker looks at the PID, the counter, the presence of a payload and the discontinuity
/// indicator only; the transport error indicator has no part in it.
pub proof fn error_indicator_has_no_effect(packet: TsPacketModel, indicator: bool)
    ensures
        cc_event(TsPacketModel { transport_error_indicator: indicator, ..packet }) == cc_event(
            packet,
        ),
{
}

/// The counter that follows is one more, or zero behind the maximum; it is in range and differs.
pub proof fn counter_wraps_around(counter: u8)
    requires
        counter <= ContinuityCounter::MAX,
    ensures
        next_counter(ContinuityCounter::MAX) == 0,
        counter < ContinuityCounter::MAX ==> next_counter(counter) == counter + 1,
        next_counter(counter) != counter,
        next_counter(counter) <= ContinuityCounter::MAX,
{
}

/// The reader gives a packet a payload if and only if the adaptation field control tells that there
/// is one.
pub proof fn payload_is_told_by_the_control_bits(bytes: Seq<u8>)
    ensures
        packet_at(bytes) matches Ok(packet) ==> (packet.payload is Some <==> field(
            bytes[3] as nat,
            4,
            1,
        ) == 1),
{
}

/// Where the adaptation field is empty, no byte of the payload behind it is taken for flags: the
/// packet has no adaptation field and signals no discontinuity, and its payload begins behind the
/// length byte.
pub proof fn empty_adaptation_field_holds_no_flags(bytes: Seq<u8>)
    requires
        field(bytes[3] as nat, 4, 2) == 3,
        bytes[4] == 0,
    ensures
        packet_at(bytes) matches Ok(packet) ==> packet.adaptation_field is None && packet.payload
            == Some(bytes.subrange(5, 188)) && !cc_event(packet).signals_discontinuity,
{
    lemma2_to64();
    if bytes.len() >= 188 {
        let p = bytes.take(188);
        assert(p.skip(5) =~= bytes.subrange(5, 188));
        assert(p.skip(5 + adaptation_bytes(p).len() as int) =~= p.skip(5));
    }
}

} // verus!
