//! What every request handler shares.

use crate::config::AppConfig;
use std::sync::Arc;
use vstd::prelude::*;

verus! {

/// The state shared by the request handlers: the configuration, which
/// never changes.
#[derive(Clone, Debug)]
pub struct AppState {
    pub config: Arc<AppConfig>,
}

impl AppState {
    /// The state that holds `config`.
    pub fn new(config: Arc<AppConfig>) -> (state: AppState)
        ensures
            state.config == config,
    {
        AppState { config }
    }
}

} // verus!
