//! A fixed-size worker pool, modelled and verified as a state machine, together
//! with the line-search routines and small demonstration functions that
//! accompany it.
//!
//! The pool manager (`pool`) owns a FIFO task queue and a fixed set of workers.
//! Every control decision — admission, dispatch, completion, shutdown — is an
//! operation on the verified model; a host program runs real threads around it
//! and feeds events back in.

pub mod laws;
pub mod pool;
pub mod restaurant;
pub mod search;
pub mod user;
