//! Transport packets and their parts.
use crate::error::{invalid_input_error, outcome, Error};
use crate::text::{decimal, push_decimal};
use crate::time::{clock_value, ClockReference};
use crate::ts::payload::Bytes;
use vstd::prelude::*;

verus! {

/// Packet identifier.
///
/// Its view is the identifier's number.
#[derive(Debug, Clone, Copy, PartialEq, Eq, Structural, Hash, PartialOrd, Ord)]
pub struct Pid(u16);

impl View for Pid {
    type V = u16;

    closed spec fn view(&self) -> u16 {
        self.0
    }
}

impl Pid {
    /// Maximum PID value.
    pub const MAX: u16 = 0x1FFF;

    /// A PID has 13 bits.
    #[verifier::type_invariant]
    pub open spec fn wf(self) -> bool {
        self@ <= Pid::MAX
    }

    /// Makes a new `Pid` instance.
    ///
    /// # Errors
    ///
    /// If `pid` exceeds `Pid::MAX`, it will return an `ErrorKind::InvalidInput` error.
    pub fn new(pid: u16) -> (r: Result<Self, Error>)
        ensures
            outcome(r) == (if pid <= Pid::MAX {
                Ok(pid)
            } else {
                Err(invalid_input_error("Too large PID: "@ + decimal(pid as nat)))
            }),
    {
        if pid > Self::MAX {
            let mut reason: String = "Too large PID: ".to_owned();
            push_decimal(&mut reason, pid as u64);
            return Err(Error::invalid_input(reason));
        }
        Ok(Pid(pid))
    }

    /// Returns the value of the `Pid`.
    pub fn as_u16(&self) -> (pid: u16)
        ensures
            pid == self@,
            pid <= Pid::MAX,
    {
        proof {
            use_type_invariant(self);
        }
        self.0
    }
}

/// Continuity counter.
///
/// Its view is the value of the counter.
#[derive(Debug, Clone, Copy, PartialEq, Eq, Structural, Hash, PartialOrd, Ord)]
pub struct ContinuityCounter(u8);

impl View for ContinuityCounter {
    type V = u8;

    closed spec fn view(&self) -> u8 {
        self.0
    }
}

/// The counter value that follows `counter`: it wraps around behind the maximum.
pub open spec fn next_counter(counter: u8) -> u8 {
    ((counter + 1) % 16) as u8
}

impl ContinuityCounter {
    /// Maximum counter value.
    pub const MAX: u8 = 0b1111;

    /// A counter has four bits.
    #[verifier::type_invariant]
    pub open spec fn wf(self) -> bool {
        self@ <= ContinuityCounter::MAX
    }

    /// Makes a new `ContinuityCounter` instance that has the given value.
    ///
    /// # Errors
    ///
    /// If `n` exceeds `ContinuityCounter::MAX`, it will return an `ErrorKind::InvalidInput` error.
    pub fn from_u8(n: u8) -> (r: Result<Self, Error>)
        ensures
            outcome(r) == (if n <= ContinuityCounter::MAX {
                Ok(n)
            } else {
                Err(invalid_input_error("Too large counter: "@ + decimal(n as nat)))
            }),
    {
        if n > Self::MAX {
            let mut reason: String = "Too large counter: ".to_owned();
            push_decimal(&mut reason, n as u64);
            return Err(Error::invalid_input(reason));
        }
        Ok(ContinuityCounter(n))
    }

    /// Returns the value of the counter.
    pub fn as_u8(&self) -> (n: u8)
        ensures
            n == self@,
            n <= ContinuityCounter::MAX,
    {
        proof {
            use_type_invariant(self);
        }
        self.0
    }

    /// Increments the counter. It wraps around behind the maximum.
    pub fn increment(&mut self)
        ensures
            final(self)@ == next_counter(old(self)@),
    {
        proof {
            use_type_invariant(&*self);
        }
        self.0 = (self.0 + 1) % 16;
    }
}

/// Continuity counters of the same value are equal.
pub proof fn counter_is_its_value(a: ContinuityCounter, b: ContinuityCounter)
    requires
        a@ == b@,
    ensures
        a == b,
{
}

/// Transport scrambling control.
#[derive(Debug, Clone, Copy, PartialEq, Eq, Structural, Hash)]
pub enum TransportScramblingControl {
    NotScrambled,
    ScrambledWithEvenKey,
    ScrambledWithOddKey,
}

/// Header of a transport packet.
#[derive(Debug, Clone, PartialEq, Eq, Hash)]
pub struct TsHeader {
    pub transport_error_indicator: bool,
    pub transport_priority: bool,
    pub pid: Pid,
    pub transport_scrambling_control: TransportScramblingControl,
    pub continuity_counter: ContinuityCounter,
}

/// Adaptation field of a transport packet.
#[derive(Debug, Clone, PartialEq, Eq, Hash)]
pub struct AdaptationField {
    pub discontinuity_indicator: bool,
    pub random_access_indicator: bool,
    pub es_priority_indicator: bool,
    pub pcr: Option<ClockReference>,
    pub opcr: Option<ClockReference>,
    pub splice_countdown: Option<i8>,
    pub transport_private_data: Vec<u8>,
    /// The bytes of the adaptation field extension.
    pub extension: Option<Vec<u8>>,
}

/// The model of an [`AdaptationField`].
#[verifier::ext_equal]
pub struct AdaptationFieldModel {
    pub discontinuity_indicator: bool,
    pub random_access_indicator: bool,
    pub es_priority_indicator: bool,
    pub pcr: Option<nat>,
    pub opcr: Option<nat>,
    pub splice_countdown: Option<i8>,
    pub transport_private_data: Seq<u8>,
    pub extension: Option<Seq<u8>>,
}

/// The bytes of an optional vector.
pub open spec fn bytes_value(v: Option<Vec<u8>>) -> Option<Seq<u8>> {
    match v {
        Some(v) => Some(v@),
        None => None,
    }
}

impl View for AdaptationField {
    type V = AdaptationFieldModel;

    open spec fn view(&self) -> AdaptationFieldModel {
        AdaptationFieldModel {
            discontinuity_indicator: self.discontinuity_indicator,
            random_access_indicator: self.random_access_indicator,
            es_priority_indicator: self.es_priority_indicator,
            pcr: clock_value(self.pcr),
            opcr: clock_value(self.opcr),
            splice_countdown: self.splice_countdown,
            transport_private_data: self.transport_private_data@,
            extension: bytes_value(self.extension),
        }
    }
}

/// Payload of a transport packet.
#[derive(Debug, Clone, PartialEq, Eq, Hash)]
pub enum TsPayload {
    /// Bytes that are not interpreted.
    Raw(Bytes),
}

impl View for TsPayload {
    type V = Seq<u8>;

    open spec fn view(&self) -> Seq<u8> {
        match self {
            TsPayload::Raw(bytes) => bytes@,
        }
    }
}

/// Transport packet.
#[derive(Debug, Clone, PartialEq, Eq, Hash)]
pub struct TsPacket {
    pub header: TsHeader,
    pub adaptation_field: Option<AdaptationField>,
    pub payload: Option<TsPayload>,
}

impl TsPacket {
    /// Size of a packet in bytes.
    pub const SIZE: usize = 188;

    /// Synchronization byte.
    pub const SYNC_BYTE: u8 = 0x47;
}

/// The model of a [`TsPacket`].
pub struct TsPacketModel {
    pub transport_error_indicator: bool,
    pub transport_priority: bool,
    pub pid: u16,
    pub transport_scrambling_control: TransportScramblingControl,
    pub continuity_counter: u8,
    pub adaptation_field: Option<AdaptationFieldModel>,
    pub payload: Option<Seq<u8>>,
}

impl View for TsPacket {
    type V = TsPacketModel;

    open spec fn view(&self) -> TsPacketModel {
        TsPacketModel {
            transport_error_indicator: self.header.transport_error_indicator,
            transport_priority: self.header.transport_priority,
            pid: self.header.pid@,
            transport_scrambling_control: self.header.transport_scrambling_control,
            continuity_counter: self.header.continuity_counter@,
            adaptation_field: match self.adaptation_field {
                Some(af) => Some(af@),
                None => None,
            },
            payload: match self.payload {
                Some(payload) => Some(payload@),
                None => None,
            },
        }
    }
}

} // verus!
