//! How a pool is set up.

use vstd::prelude::*;

use crate::time::Duration;

verus! {

/// How a pool is set up.
#[derive(Clone, Copy, Debug)]
pub struct Config {
    /// How long a connection may be idle, for ever if `None`.
    pub idle_timeout: Option<Duration>,
    /// How long a connection that can be shared may be idle, as long as any other if `None`.
    pub idle_timeout_http2: Option<Duration>,
    /// How many idle connections are kept under one key. With none to be kept there is no pool.
    pub max_idle_per_host: usize,
}

impl Config {
    /// Whether connections are pooled at all.
    pub fn is_enabled(&self) -> (enabled: bool)
        ensures
            enabled == (self.max_idle_per_host > 0),
    {
        self.max_idle_per_host > 0
    }
}

} // verus!
