use std::sync::atomic::AtomicBool;
use std::sync::Arc;
use vstd::prelude::*;

pub mod commands;
pub mod compare;
pub mod error;
pub mod excel;
pub mod models;
pub mod parser;
pub mod progress;
pub mod text;

verus! {

/// What the application shares between its commands: the flag through which a
/// running comparison is asked to stop.
pub struct AppState {
    pub cancel: Arc<AtomicBool>,
}

} // verus!
