//! Dispatch rules and response policy.
//!
//! A decoded request names a ruleset by numeric id; ids 0 to 3 map to the
//! four rulesets and every other id is rejected outright — defaulting
//! would mask client bugs and silently return wrong results. Whatever the
//! calculation then does, a decoded request always gets a well-formed
//! response: the computed rating, or the `0.0` sentinel on any
//! calculation failure, so the peer is never left waiting for one.

use vstd::prelude::*;
use crate::message::{OsuIpcMessage, ValueIpc, OsuResponse};
use crate::message::{envelope_type, response_message_type};
use vstd::string::StringExecFns;

verus! {

/// The gameplay variant a difficulty is computed under.
#[derive(Clone, Copy, Debug, PartialEq, Eq, Structural)]
pub enum Ruleset {
    Standard,
    Taiko,
    Catch,
    Mania,
}

/// Content was valid but processing failed; a sentinel response is still
/// sent, and the cause is only logged — the wire has no error shape.
#[derive(Clone, Copy, Debug, PartialEq, Eq, Structural)]
pub enum CalculationError {
    /// The request named a ruleset id outside 0..=3.
    InvalidRuleset,
    /// The engine could not find the beatmap file.
    FileNotFound,
    /// The engine could not parse the beatmap file.
    ParseFailure,
    /// The engine failed while computing.
    ComputeFailure,
}

/// The fixed id table: 0, 1, 2, 3 are Standard, Taiko, Catch, Mania;
/// nothing else names a ruleset.
pub open spec fn spec_ruleset_for_id(id: u8) -> Option<Ruleset> {
    if id == 0 {
        Some(Ruleset::Standard)
    } else if id == 1 {
        Some(Ruleset::Taiko)
    } else if id == 2 {
        Some(Ruleset::Catch)
    } else if id == 3 {
        Some(Ruleset::Mania)
    } else {
        None
    }
}

/// Maps a ruleset id to its ruleset; any id outside the table yields
/// `InvalidRuleset`, never a silent default.
pub fn ruleset_for_id(id: u8) -> (r: Result<Ruleset, CalculationError>)
    ensures
        match spec_ruleset_for_id(id) {
            Some(m) => r == Ok::<Ruleset, CalculationError>(m),
            None => r == Err::<Ruleset, CalculationError>(CalculationError::InvalidRuleset),
        },
{
    match id {
        0 => Ok(Ruleset::Standard),
        1 => Ok(Ruleset::Taiko),
        2 => Ok(Ruleset::Catch),
        3 => Ok(Ruleset::Mania),
        _ => Err(CalculationError::InvalidRuleset),
    }
}

/// The star rating a response carries for a dispatch outcome: the
/// computed number literal, or the `0.0` sentinel on failure.
pub open spec fn spec_response_rating(outcome: Result<Seq<char>, CalculationError>) -> Seq<char> {
    match outcome {
        Ok(s) => s,
        Err(_) => "0.0"@,
    }
}

/// Builds the response envelope for a dispatch outcome. A decoded request
/// always gets a well-formed response; a calculation failure is reported
/// only as the sentinel rating.
pub fn build_response_message(outcome: &Result<String, CalculationError>) -> (r: OsuIpcMessage<
    OsuResponse,
>)
    ensures
        r.type_field@ == envelope_type(),
        r.value.message_type@ == response_message_type(),
        match outcome {
            Ok(s) => r.value.message_data.star_rating@ == s@,
            Err(_) => r.value.message_data.star_rating@ == "0.0"@,
        },
{
    let star_rating = match outcome {
        Ok(s) => s.clone(),
        Err(_) => String::from_str("0.0"),
    };
    OsuIpcMessage {
        type_field: String::from_str("System.Object"),
        value: ValueIpc {
            message_type: String::from_str("LegacyIpcDifficultyCalculationResponse"),
            message_data: OsuResponse { star_rating },
        },
    }
}

} // verus!
