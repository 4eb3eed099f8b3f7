//! State representation and state transition for a symbolic planner.
//!
//! A [`state::Fact`] is a ground literal packed into one 64-bit key, a
//! [`state::State`] is the set of facts that currently hold, and
//! [`state::State::apply`] derives the successor state from the grounded
//! effects of an action.

#![allow(unused_imports)]

pub mod encoding;
pub mod state;
pub mod task;
pub mod transition;
