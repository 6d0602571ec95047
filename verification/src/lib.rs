//! Verified core of a peer-to-peer data toolkit: a job queue and its wire
//! protocol, Iceberg partition transforms, and related data-plane helpers.

pub mod error;
pub mod partition;
pub mod store;
pub mod protocol;
pub mod node;
pub mod arrow_service;
pub mod windows;
pub mod transfer;
pub mod plan;
pub mod codec;
