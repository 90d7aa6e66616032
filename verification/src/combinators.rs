//! Ways of making a unit out of other units.

pub mod amplify;
pub mod chain;
