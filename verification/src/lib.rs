//! Core of a job-dispatch service.
//!
//! Clients connect over a message-oriented socket, submit typed work
//! requests, and receive correlated results once a bounded pool of
//! background workers has processed them.  This crate holds the verified
//! dispatch core: the action and capability model, the result cache, the
//! work queue with per-job completion tickets, and the wire codec.  The
//! network transport and the worker pool's task plumbing live outside the
//! core and drive it through the public operations defined here.

pub mod action;
pub mod bridge;
pub mod cache;
pub mod codec;
pub mod dispatch;
