//! The device services the companion programs talk to: the inter-process
//! property bus and the content scanner.
pub mod lipc;
pub mod scanner;
