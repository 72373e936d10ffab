//! A verified storage and reservation core for a bus-rental service.
//!
//! The service keeps four record collections — buses, customers,
//! reservations, maintenance records — in independent regions of one
//! persistent memory space, draws every new identifier from a single
//! persistent counter, and enforces owner-restricted mutation and booking
//! exclusivity on top of that storage.
pub mod codec;
pub mod entities;
pub mod laws;
pub mod persist;
pub mod service;
