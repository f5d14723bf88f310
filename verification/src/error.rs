use vstd::prelude::*;

verus! {

/// The failure kinds of the library.
///
/// Every fallible operation reports one of these; validation failures are
/// detected eagerly when samples are combined, so that waveform queries on a
/// validly constructed container cannot fail for shape reasons.
#[derive(Clone, Copy, Debug, PartialEq, Eq, Structural)]
pub enum Error {
    /// Sample rate, channel count, or length disagreement between combined
    /// samples.
    ShapeMismatch,
    /// A channel index that a container does not hold was demanded.
    InvalidChannel,
    /// A reschedule request named a track id that was never registered.
    UnknownTrack,
    /// An underlying container or codec failed to read, decode, or write.
    ExternalIO,
    /// A decoded stream changed its sample rate or channel count mid-stream.
    FormatDrift,
}

} // verus!
