//! Transaction construction, mass accounting and partial signing for a
//! UTXO-based ledger, with machine-checked contracts.
//!
//! - `generator` selects unspent outputs in order and emits chained
//!   transactions under the mass limit, conserving value exactly;
//! - `mass` computes compute and storage mass from injected network
//!   parameters;
//! - `pending` signs the inputs of a generated transaction;
//! - `pskt` is the role state machine of a partially signed transaction, and
//!   `codec` its byte form;
//! - `tx` and `encode` hold the transaction model and the bytes that ids and
//!   signatures commit to;
//! - `stubs` and `text` rewrite the generated Python type stubs.

mod convert;

pub mod codec;
pub mod crypto;
pub mod encode;
pub mod error;
pub mod generator;
pub mod mass;
pub mod pending;
pub mod pskt;
pub mod stubs;
pub mod text;
pub mod tx;
