//! Core of a text-to-speech proxy: request canonicalization, a
//! byte-budgeted LRU cache of synthesized audio, and the decisions that
//! sequence them around an outside speech provider.
pub mod cache;
pub mod request;
pub mod service;
