//! Core of a multiplayer snake game whose players may be external AI
//! programs: the line protocol spoken with each AI over its standard
//! input/output, the per-tick world snapshot handed to every AI, the
//! registry that tracks each controller's lifecycle, and the rule that
//! merges the collected movement commands into per-player turn decisions.
//!
//! Process spawning, pipe I/O and the floating-point simulation live in
//! the surrounding application; this crate holds the logic they drive.

use vstd::prelude::*;

pub mod text;
pub mod num;
pub mod world;
pub mod codec;
pub mod registry;
pub mod merger;

verus! {

/// Identifier of one player; 0 is the local human player, AI players
/// are numbered from 1 upward in discovery order.
#[derive(Debug, Copy, Clone, PartialEq, Eq, Structural)]
pub struct PlayerId(pub i32);

/// One movement decision produced by a controller for one tick.
/// `NoOps` keeps the current heading, the turn variants rotate it by a
/// fixed per-tick angular step.
#[derive(Debug, Copy, Clone, PartialEq, Eq, Structural)]
pub enum MovementCommand {
    NoOps,
    TurnLeft,
    TurnRight,
}

/// Identity of one player as announced by its controller during the
/// initialization exchange. The username is non-empty and trimmed.
#[derive(Debug, Clone)]
pub struct PlayerInfo {
    pub username: String,
    pub is_ai: bool,
}

/// A received message that does not conform to the line grammar.
#[derive(Debug, Copy, Clone, PartialEq, Eq, Structural)]
pub enum ProtocolError {
    /// The init response line does not begin with the `username` keyword.
    MissingUsernamePrefix,
    /// The init response line is the bare `username` keyword with no name.
    MissingUsername,
    /// The name after the `username` keyword is empty once trimmed.
    EmptyUsername,
    /// The action response line is empty (no token before the line end).
    EmptyCommand,
    /// The first token of the action response is not a known command.
    UnknownCommand,
}

/// Why a controller was disabled. All kinds are handled alike: the
/// controller is excluded from every later tick.
#[derive(Debug, Copy, Clone, PartialEq, Eq, Structural)]
pub enum FailureKind {
    /// The child process could not be spawned.
    SpawnFailed,
    /// A received line broke the wire grammar.
    ProtocolViolation,
    /// A read returned zero bytes: the process closed its output.
    ProcessExited,
    /// A write to the child's input failed.
    PipeError,
}

} // verus!
