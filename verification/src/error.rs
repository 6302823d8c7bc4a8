//! The errors of parsing, assembling and rendering.

use vstd::prelude::*;

verus! {

/// The error type of the colour converter. Nothing is known of a value of
/// it but that the conversion failed.
#[verifier::external_type_specification]
#[verifier::external_body]
pub struct ExYuvError(yuv::YuvError);

/// The input is not a stream of segments.
#[derive(Debug, Clone, Copy, PartialEq, Eq, Structural)]
pub struct ParseError {
    /// Where the first segment that cannot be parsed begins.
    pub offset: usize,
}

/// A stream that breaks the grouping rules. After one of these the walk over
/// the stream is over.
#[derive(Debug, Clone, Copy, PartialEq, Eq, Structural)]
pub enum ProtocolViolation {
    /// A segment inside a group has other timestamps than the composition
    /// that opened the group.
    TimestampMismatch,
    /// A second composition before the group's end segment.
    UnexpectedComposition,
    /// The stream ends inside a group.
    UnterminatedGroup,
}

/// Why a stream could not be decoded or a display set not be rendered.
#[derive(Debug)]
pub enum PgsError {
    /// A window that is referred to is not known to the display set.
    WindowNotFound { window_id: u8 },
    /// A composition object names an object that the display set does not
    /// know.
    ObjectNotFound { object_id: u16 },
    /// A run names a colour that the palette does not hold, or the palette
    /// itself is missing.
    PaletteNotFound { palette_id: u8, entry_id: u8 },
    /// An object has pixels that would lie outside the frame.
    ObjectOutOfBounds { object_id: u16 },
    /// The frame has more bytes than this machine can address.
    FrameTooLarge { width: u16, height: u16 },
    /// The colour converter refused the frame.
    YuvError(yuv::YuvError),
    /// The bytes are not a stream of segments.
    ParseError(ParseError),
    /// The segments are no sequence of well-formed groups.
    ProtocolViolation(ProtocolViolation),
}

pub type PgsResult<T> = Result<T, PgsError>;

impl From<ParseError> for PgsError {
    fn from(error: ParseError) -> (result: PgsError)
        ensures
            result == PgsError::ParseError(error),
    {
        PgsError::ParseError(error)
    }
}

impl vstd::std_specs::convert::FromSpecImpl<ParseError> for PgsError {
    open spec fn obeys_from_spec() -> bool {
        true
    }

    open spec fn from_spec(error: ParseError) -> PgsError {
        PgsError::ParseError(error)
    }
}

impl From<ProtocolViolation> for PgsError {
    fn from(violation: ProtocolViolation) -> (result: PgsError)
        ensures
            result == PgsError::ProtocolViolation(violation),
    {
        PgsError::ProtocolViolation(violation)
    }
}

impl vstd::std_specs::convert::FromSpecImpl<ProtocolViolation> for PgsError {
    open spec fn obeys_from_spec() -> bool {
        true
    }

    open spec fn from_spec(violation: ProtocolViolation) -> PgsError {
        PgsError::ProtocolViolation(violation)
    }
}

} // verus!
