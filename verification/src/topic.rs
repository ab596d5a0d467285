//! The channel registry: the closed set of input channels the processor
//! serves, the resolution of an inbound channel identity to one of them, and
//! the fixed output channel that belongs to each.

use vstd::prelude::*;

verus! {

/// The closed set of channels (broker topics) the processor consumes from.
/// Each variant carries no data; the channel fixes the payload schema, the
/// operation to build from a decoded payload, and the output channel name.
#[derive(Clone, Copy, PartialEq, Eq, Structural, Debug)]
pub enum Topic {
    /// The subtraction channel.
    Minus,
}

/// The error returned when an inbound channel identity matches no registered
/// channel.  The offending name is not copied here; the caller still holds it
/// and reports it alongside this value.
#[derive(Clone, Copy, PartialEq, Eq, Structural, Debug)]
pub struct UnknownChannel;

/// The canonical input name of the subtraction channel, as bytes.
pub open spec fn minus_input_name() -> Seq<u8> {
    seq![77u8, 73u8, 78u8, 85u8, 83u8]
}

/// The output channel name of the subtraction channel, as bytes.
pub open spec fn minus_output_name() -> Seq<u8> {
    seq![
        77u8,
        73u8,
        78u8,
        85u8,
        83u8,
        95u8,
        82u8,
        69u8,
        83u8,
        85u8,
        76u8,
        84u8,
    ]
}

/// Registry lookup as a spec-level function: which channel, if any, a given
/// identity resolves to.  Resolution is exact byte equality, never a prefix
/// or best-effort match.
pub open spec fn spec_from_name(name: Seq<u8>) -> Result<Topic, UnknownChannel> {
    if name == minus_input_name() {
        Ok(Topic::Minus)
    } else {
        Err(UnknownChannel)
    }
}

impl Topic {
    /// Resolves an inbound channel identity to a registered channel, or
    /// reports it as unknown.  The lookup is total over all byte strings and
    /// uses exact equality only.
    pub fn from_name(name: &[u8]) -> (r: Result<Topic, UnknownChannel>)
        ensures
            r == spec_from_name(name@),
    {
        if name.len() == 5 && name[0] == 77u8 && name[1] == 73u8 && name[2] == 78u8 && name[3]
            == 85u8 && name[4] == 83u8 {
            proof {
                assert(name@ =~= minus_input_name());
            }
            Ok(Topic::Minus)
        } else {
            proof {
                if name@ == minus_input_name() {
                    assert(name@.len() == 5);
                    assert(name@[0] == 77u8 && name@[1] == 73u8 && name@[2] == 78u8 && name@[3]
                        == 85u8 && name@[4] == 83u8);
                }
            }
            Err(UnknownChannel)
        }
    }

    /// The fixed output channel paired with this input channel.  The mapping
    /// is total: every variant has exactly one output name, for the lifetime
    /// of the process.
    pub fn output_topic(&self) -> (r: &'static str)
        ensures
            r@ == "MINUS_RESULT"@,
    {
        match self {
            Topic::Minus => "MINUS_RESULT",
        }
    }

    /// `output_topic`, stated over bytes so that contracts about published
    /// records can speak the same language as the registry.
    pub open spec fn spec_output_name(self) -> Seq<u8> {
        match self {
            Topic::Minus => minus_output_name(),
        }
    }

    /// The output channel name as bytes, for callers that address the broker
    /// with raw names.
    pub fn output_name(&self) -> (r: Vec<u8>)
        ensures
            r@ == self.spec_output_name(),
    {
        let mut r: Vec<u8> = Vec::new();
        r.push(77u8);
        r.push(73u8);
        r.push(78u8);
        r.push(85u8);
        r.push(83u8);
        r.push(95u8);
        r.push(82u8);
        r.push(69u8);
        r.push(83u8);
        r.push(85u8);
        r.push(76u8);
        r.push(84u8);
        proof {
            assert(r@ =~= self.spec_output_name());
        }
        r
    }
}

} // verus!
