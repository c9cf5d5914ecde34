//! Error types shared by the decoders and encoders.

use vstd::prelude::*;

verus! {

/// How a byte stream departs from the format it claims to follow.
#[derive(Debug, Clone, Copy, PartialEq, Eq, Structural)]
pub enum ParseErrorKind {
    /// The file does not start with the `MThd` chunk tag.
    BadHeaderTag,
    /// The header chunk declares a length other than 6.
    BadHeaderLength,
    /// The time division has its top bit set (SMPTE frames), which is unsupported.
    SmpteTimeDivision,
    /// A track chunk does not start with the `MTrk` tag.
    BadTrackTag,
    /// A data byte came where no status byte had been seen before.
    MissingStatus,
    /// The low nibble of a system status byte names no system message.
    UnknownSystemEvent,
    /// An end-of-exclusive status byte appeared outside a system-exclusive message.
    UnexpectedEndOfSysex,
    /// A tempo meta event declares a data length other than 3.
    BadTempoLength,
    /// The running sum of delta times exceeds what a tick counter can hold.
    TickOverflow,
    /// The RIFF form type is not `WAVE`.
    NotWave,
    /// The audio format is not linear PCM.
    UnsupportedAudioFormat,
    /// The format chunk extension has a size other than 0 or 22.
    BadExtensionSize,
    /// The chunk after the format chunk is not `data`.
    MissingDataChunk,
    /// The data chunk declares a negative size.
    NegativeDataSize,
    /// The samples do not fit the 32-bit size fields of a WAVE header.
    TooManySamples,
    /// The sample rate does not fit the 32-bit rate fields of a WAVE header.
    SampleRateTooHigh,
    /// A song whose time unit or tempo is zero has no tick-to-time mapping.
    ZeroTimeBase,
    /// The rendered length does not fit the machine's address space.
    TooLong,
}

/// What went wrong while taking bytes from the input.
#[derive(Debug, Clone, Copy, PartialEq, Eq, Structural)]
pub enum IoErrorKind {
    /// The input ended before the item being read was complete.
    UnexpectedEof,
}

/// An error of this library.
#[derive(Debug, Clone, Copy, PartialEq, Eq, Structural)]
pub enum SynthrsError {
    /// File/format parse error.
    Parse(ParseErrorKind),
    /// The input could not be read to the end of an item.
    Io(IoErrorKind),
}

impl SynthrsError {
    /// The error of an input that ends in the middle of an item.
    pub open spec fn eof() -> SynthrsError {
        SynthrsError::Io(IoErrorKind::UnexpectedEof)
    }

    /// Whether this is a format error, as opposed to a short read.
    pub fn is_parse(&self) -> (r: bool)
        ensures
            r == (self is Parse),
    {
        match self {
            SynthrsError::Parse(_) => true,
            SynthrsError::Io(_) => false,
        }
    }
}

} // verus!
