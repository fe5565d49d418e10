//! Verified runtime core for the Network Intent agents: wire types, plan
//! coverage checking, identity parsing and DSSE verification, health
//! transitions, guarded-apply planning and journaling, and observation parsing.
pub mod text;
pub mod protocol;
pub mod state;

pub mod net;
pub mod assurance;
pub mod check;
pub mod graph;
pub mod evidence;
pub mod health;
pub mod identity;
pub mod json;
pub mod planner;
pub mod confirmation;
pub mod journal;
pub mod adapters;
pub mod attestation;
pub mod pki;
pub mod authorization;
pub mod storage;
pub mod witness;
pub mod dns;
pub mod monitor;
pub mod ingress;
pub mod local;
pub mod execution;
pub mod queue;
pub mod admission;
