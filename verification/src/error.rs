//! The errors that the engine reports to its host.

use vstd::prelude::*;
use vstd::string::StringExecFns;
use vstd::string::to_string_from_display_ensures;

verus! {

/// `serde_json::Error`, the error of the JSON reader and writer, made known
/// so that it can stand in a signature. Nothing is claimed of what is inside
/// it: the library only asks it for its text.
#[verifier::external_type_specification]
#[verifier::external_body]
pub struct ExJsonError(serde_json::Error);

/// What can go wrong where the engine meets its host.
#[derive(Debug)]
pub enum EngineError {
    /// The configuration could not be read.
    InvalidConfig(String),
    /// The signals could not be read.
    SignalProcessing(String),
    /// The cursor could not be found in a frame.
    CursorDetection(String),
    /// A frame could not be analysed.
    FrameAnalysis { frame_index: u32, message: String },
    /// The keyframes could not be generated.
    KeyframeGeneration(String),
    /// A result could not be written.
    Serialization(String),
}

/// The figure for a number below ten.
pub open spec fn digit(d: nat) -> Seq<char> {
    if d == 0 {
        "0"@
    } else if d == 1 {
        "1"@
    } else if d == 2 {
        "2"@
    } else if d == 3 {
        "3"@
    } else if d == 4 {
        "4"@
    } else if d == 5 {
        "5"@
    } else if d == 6 {
        "6"@
    } else if d == 7 {
        "7"@
    } else if d == 8 {
        "8"@
    } else {
        "9"@
    }
}

/// A number written in decimal figures, without leading zeros.
pub open spec fn decimal(n: nat) -> Seq<char>
    decreases n,
{
    if n < 10 {
        digit(n)
    } else {
        decimal(n / 10) + digit(n % 10)
    }
}

/// The figure for a number below ten.
fn digit_text(d: u32) -> (s: &'static str)
    requires
        d < 10,
    ensures
        s@ == digit(d as nat),
{
    if d == 0 {
        "0"
    } else if d == 1 {
        "1"
    } else if d == 2 {
        "2"
    } else if d == 3 {
        "3"
    } else if d == 4 {
        "4"
    } else if d == 5 {
        "5"
    } else if d == 6 {
        "6"
    } else if d == 7 {
        "7"
    } else if d == 8 {
        "8"
    } else {
        "9"
    }
}

/// A number written in decimal figures.
fn decimal_text(n: u32) -> (s: String)
    ensures
        s@ == decimal(n as nat),
    decreases n,
{
    if n < 10 {
        String::from_str(digit_text(n))
    } else {
        decimal_text(n / 10).concat(digit_text(n % 10))
    }
}

impl EngineError {
    /// The text that describes the error: what kind it is, then the details.
    pub open spec fn text(self) -> Seq<char> {
        match self {
            EngineError::InvalidConfig(detail) => "Invalid configuration: "@ + detail@,
            EngineError::SignalProcessing(detail) => "Signal processing error: "@ + detail@,
            EngineError::CursorDetection(detail) => "Cursor detection failed: "@ + detail@,
            EngineError::FrameAnalysis { frame_index, message } => "Frame analysis error at frame "@
                + decimal(frame_index as nat) + ": "@ + message@,
            EngineError::KeyframeGeneration(detail) => "Keyframe generation error: "@ + detail@,
            EngineError::Serialization(detail) => "Serialization error: "@ + detail@,
        }
    }

    /// The text that describes the error.
    pub fn message(&self) -> (m: String)
        ensures
            m@ == self.text(),
    {
        match self {
            EngineError::InvalidConfig(detail) => String::from_str(
                "Invalid configuration: ",
            ).concat(detail.as_str()),
            EngineError::SignalProcessing(detail) => String::from_str(
                "Signal processing error: ",
            ).concat(detail.as_str()),
            EngineError::CursorDetection(detail) => String::from_str(
                "Cursor detection failed: ",
            ).concat(detail.as_str()),
            EngineError::FrameAnalysis { frame_index, message } => {
                let number: String = decimal_text(*frame_index);
                String::from_str("Frame analysis error at frame ").concat(number.as_str()).concat(
                    ": ",
                ).concat(message.as_str())
            },
            EngineError::KeyframeGeneration(detail) => String::from_str(
                "Keyframe generation error: ",
            ).concat(detail.as_str()),
            EngineError::Serialization(detail) => String::from_str("Serialization error: ").concat(
                detail.as_str(),
            ),
        }
    }
}

impl vstd::std_specs::convert::FromSpecImpl<serde_json::Error> for EngineError {
    /// The text of a JSON error is known only as what its `Display` gives, so
    /// `from` is described by its own contract, not by `from_spec`.
    open spec fn obeys_from_spec() -> bool {
        false
    }

    open spec fn from_spec(err: serde_json::Error) -> EngineError {
        choose|e: EngineError|
            e is Serialization && to_string_from_display_ensures::<serde_json::Error>(
                &err,
                e->Serialization_0,
            )
    }
}

impl From<serde_json::Error> for EngineError {
    /// A failure of the JSON writer, with the writer's own words as details.
    fn from(err: serde_json::Error) -> (e: EngineError)
        ensures
            e is Serialization,
            to_string_from_display_ensures::<serde_json::Error>(&err, e->Serialization_0),
    {
        EngineError::Serialization(err.to_string())
    }
}

} // verus!
