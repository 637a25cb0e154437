//! A general-purpose chat bot's command logic: the replies it gives, the
//! per-server prefix store and the arithmetic behind its commands.

pub mod collatz;
pub mod fun;
pub mod general;
pub mod permissions;
pub mod prefixes;
pub mod servers;
pub mod text;
