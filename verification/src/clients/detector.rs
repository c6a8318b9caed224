//! Clients of detectors.

pub mod text_chat;
