//! Shanten and waiting-tile analysis for riichi mahjong hands.
//!
//! A hand (`Tehai`) is decomposed into blocks under each winning form
//! (`Hourakei`); the smallest distance to a win is the shanten number, and for
//! every sensible discard the tiles that bring the hand closer are reported as
//! a `MachiCondition`.

pub mod hai;
pub mod block;
pub mod count;
pub mod decomposer;
pub mod special;
pub mod tehai;
pub mod parser;
pub mod shanten;
pub mod machi;
pub mod analyze;
pub mod partition;
pub mod text;
pub mod controller;

pub use hai::Hai;
pub use block::{Mentsu, Taatsu, Toitsu, Ukihai};
pub use decomposer::{Decomposer, Hourakei};
pub use tehai::{Tehai, TehaiError};
pub use shanten::AnalyzeError;
pub use machi::MachiCondition;
pub use controller::{Controller, OutputFormat};
