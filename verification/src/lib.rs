//! A base-10 teaching computer: one hundred mailboxes of three decimal digits,
//! an accumulator, a program counter and ten instructions.
//!
//! * [`numbers`] holds the bounded decimal values and their wrapping arithmetic.
//! * [`text`] holds the character-level rules shared by every textual format.
//! * [`assembler`] turns mnemonic source lines into machine words.
//! * [`lmc`] is the fetch-execute engine.
//! * [`batch`] reads program listings and batch trial descriptors.
//! * [`logger`] holds the log events and decides which of them are shown.

pub mod numbers;
pub mod text;
pub mod logger;
pub mod assembler;
pub mod lmc;
pub mod batch;
