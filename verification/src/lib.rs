//! Verified core of lean-ctx's addon sandboxing, admin-port hardening,
//! signed evidence export, team savings roll-up and gain views.

pub mod text;
pub mod sandbox;
pub mod security;
pub mod hex;
pub mod evidence;
pub mod savings;
pub mod gain;
