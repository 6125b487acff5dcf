//! Payload of transport packets.
use crate::error::{invalid_input_error, outcome, Error};
use crate::text::{decimal, push_decimal};
use vstd::prelude::*;

verus! {

/// Payload bytes of a transport packet.
///
/// Its view is the string of bytes.
#[derive(Debug, PartialEq, Eq, Hash)]
pub struct Bytes(Vec<u8>);

impl View for Bytes {
    type V = Seq<u8>;

    closed spec fn view(&self) -> Seq<u8> {
        self.0@
    }
}

impl Bytes {
    /// The size of a transport packet without its header.
    pub const MAX_SIZE: usize = 184;

    /// The payload fits in a transport packet.
    #[verifier::type_invariant]
    pub open spec fn wf(self) -> bool {
        self@.len() <= Bytes::MAX_SIZE
    }

    /// Makes a new `Bytes` instance.
    ///
    /// # Errors
    ///
    /// If `bytes` is longer than `Bytes::MAX_SIZE`, it will return an `ErrorKind::InvalidInput`
    /// error.
    pub fn new(bytes: &[u8]) -> (r: Result<Self, Error>)
        ensures
            outcome(r) == (if bytes@.len() <= Bytes::MAX_SIZE {
                Ok(bytes@)
            } else {
                Err(invalid_input_error("Too large payload: "@ + decimal(bytes@.len())))
            }),
    {
        if bytes.len() > Self::MAX_SIZE {
            let mut reason: String = "Too large payload: ".to_owned();
            push_decimal(&mut reason, bytes.len() as u64);
            return Err(Error::invalid_input(reason));
        }
        Ok(Bytes(copied(bytes)))
    }

    /// Returns the bytes.
    pub fn as_slice(&self) -> (s: &[u8])
        ensures
            s@ == self@,
            s@.len() <= Bytes::MAX_SIZE,
    {
        proof {
            use_type_invariant(self);
        }
        self.0.as_slice()
    }
}

impl Clone for Bytes {
    fn clone(&self) -> (b: Self)
        ensures
            b@ == self@,
    {
        proof {
            use_type_invariant(self);
        }
        Bytes(copied(self.0.as_slice()))
    }
}

/// Returns a vector of the bytes of a slice.
pub fn copied(bytes: &[u8]) -> (v: Vec<u8>)
    ensures
        v@ == bytes@,
{
    let mut v: Vec<u8> = Vec::new();
    v.extend_from_slice(bytes);
    assert(v@ =~= bytes@);
    v
}

} // verus!
