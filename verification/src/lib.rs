//! Verified contracts, admission rules and storage decisions of the Rampage compute fabric.

pub mod text;
pub mod protocol;
pub mod crypto;
pub mod policy;
pub mod storage;
pub mod ledger;
pub mod edge;
pub mod mesh;
pub mod project;
pub mod controller;
pub mod service;
pub mod gateway;
pub mod diagnostics;
pub mod registry;
pub mod invocation;
pub mod progress;
pub mod restore;
pub mod catalog;
pub mod repair;
pub mod admission;
pub mod transfer;
pub mod access;
pub mod relay;
pub mod commit;
pub mod autopilot;
