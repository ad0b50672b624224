//! Bringing one instance into, or out of, the rotation of several load-balancer
//! target groups at once.
//!
//! The library holds the decisions: which remote call each target group's unit of
//! work makes next, how the deregistration delay is read from a target group's
//! attributes, and how the outcomes of all units are collected. The caller performs
//! the remote calls and the waits, and hands the results back.
pub mod delay;
pub mod unit;
pub mod fanout;
