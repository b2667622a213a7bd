//! Which flow an authenticated interaction goes to, and who may reroll.
use vstd::prelude::*;
use vstd::string::*;
use crate::decimal::{all_digits, digits_value};
use crate::roll::{unpack_count, unpack_faces, unpack_gm, unpack_id, unpack_modifier, Roll};

verus! {

/// The kind of an interaction, as far as routing needs it.
pub enum InteractionKind {
    Ping,
    Command { name: String },
    Button,
    OtherComponent,
    Other,
}

/// Where an interaction goes.
#[derive(Debug, Clone, Copy, PartialEq, Eq, Structural)]
pub enum Route {
    /// Acknowledge a heartbeat.
    Pong,
    /// Parse the command, roll and offer a reroll button.
    NewRoll,
    /// Decode the button's token and roll again.
    Reroll,
    /// Not something this service answers.
    Unrecognized,
}

pub open spec fn route_of(kind: InteractionKind) -> Route {
    match kind {
        InteractionKind::Ping => Route::Pong,
        InteractionKind::Command { name } => if name@ == "roll"@ {
            Route::NewRoll
        } else {
            Route::Unrecognized
        },
        InteractionKind::Button => Route::Reroll,
        _ => Route::Unrecognized,
    }
}

/// Picks the flow for an interaction.
pub fn route(kind: &InteractionKind) -> (r: Route)
    ensures
        r == route_of(*kind),
{
    match kind {
        InteractionKind::Ping => Route::Pong,
        InteractionKind::Command { name } => {
            let roll = String::from_str("roll");
            if name.eq(&roll) {
                Route::NewRoll
            } else {
                Route::Unrecognized
            }
        },
        InteractionKind::Button => Route::Reroll,
        _ => Route::Unrecognized,
    }
}

/// Why a reroll click was refused.
#[derive(Debug, Clone, Copy, PartialEq, Eq, Structural)]
pub enum RerollError {
    /// The button's token is not a decimal `u128`.
    MalformedToken,
    /// Rerolls are kept to the original requester, and someone else clicked.
    NotRequester,
}

/// The roll that a click on a reroll button asks for. `clicker` is the id of
/// who clicked; with `require_original_requester` only the requester whose id
/// the token holds may reroll.
pub fn reroll(custom_id: String, clicker: u64, require_original_requester: bool) -> (r: Result<Roll, RerollError>)
    ensures
        ({
            let s = custom_id@;
            let n = digits_value(s);
            let readable = s.len() > 0 && all_digits(s) && n <= u128::MAX;
            match r {
                Err(RerollError::MalformedToken) => !readable,
                Err(RerollError::NotRequester) => readable && require_original_requester && unpack_id(n) != clicker,
                Ok(roll) => {
                    &&& readable
                    &&& (require_original_requester ==> unpack_id(n) == clicker)
                    &&& roll.wf()
                    &&& roll.requester() == unpack_id(n)
                    &&& roll.faces() == unpack_faces(n)
                    &&& roll.dice() == unpack_count(n)
                    &&& roll.bonus() == unpack_modifier(n)
                    &&& roll.gm_only() == unpack_gm(n)
                },
            }
        }),
{
    match Roll::from_custom_id(custom_id) {
        None => Err(RerollError::MalformedToken),
        Some(roll) => {
            if require_original_requester && !roll.is_from(clicker) {
                Err(RerollError::NotRequester)
            } else {
                Ok(roll)
            }
        },
    }
}

} // verus!
