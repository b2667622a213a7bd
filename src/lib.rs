//! Dice rolls for a chat-platform interaction endpoint: request
//! authentication, dice notation, the roll engine and the stateless
//! reroll token.
pub mod auth;
pub mod command;
pub mod decimal;
pub mod dice;
pub mod interaction;
pub mod outcome;
pub mod roll;

pub use auth::{authenticate, AuthError};
pub use command::{CommandOption, RollInput};
pub use dice::{parse_dice, RollError};
pub use interaction::{reroll, route, InteractionKind, RerollError, Route};
pub use outcome::RollOutcome;
pub use roll::Roll;
