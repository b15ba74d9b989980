//! Decision logic of the builtin modules.
//!
//! Each builtin module reads files, the user database or the clock; the
//! rules it applies to what it read live here.

pub mod access;
pub mod chauthtok;
pub mod echo;
pub mod env;
pub mod faildelay;
pub mod faillock;
pub mod limits;
pub mod mkhomedir;
pub mod namespace;
pub mod nologin;
pub mod securetty;
pub mod shells;
pub mod succeed_if;
pub mod tally;
pub mod tally2;
pub mod umask;
pub mod unix;
pub mod usertype;
pub mod warn;
pub mod wheel;
