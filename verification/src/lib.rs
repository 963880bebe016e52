//! A single-tape deterministic Turing machine: the definition and its text
//! format, the totality check, the tape and the execution engine.
//!
//! A definition is parsed from text with [`TuringDef::parse`], checked with
//! [`TuringDef::verify`] and executed by a [`TuringRunner`], one transition per
//! call of [`TuringRunner::step`].

pub mod def;
pub mod display;
pub mod parse;
pub mod roundtrip;
pub mod runner;
pub mod strict_printer;
pub mod tape;
pub mod text;
pub mod verify;

pub use def::{Move, TransitionFunction, TuringDef, BLANK};
pub use parse::{TuringParseError, TuringTransitionError};
pub use runner::{StepOutcome, TuringRunner, TuringTapeError};
pub use strict_printer::{compute_strict_path, def_to_strict_format};
pub use tape::Tape;
pub use verify::TuringVerifyError;
