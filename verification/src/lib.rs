//! A Raft-style consensus core: a replicated log of commands, a per-node
//! state machine electing a single leader per term, and an in-process message
//! fabric.  All decision logic is deterministic and verified; callers drive it
//! with explicit clock readings and pump messages between nodes.

pub mod clock;
pub mod intercommunication;
pub mod node;
pub mod replication;
