//! Connection configuration: the builder that fixes the pool's maximum
//! connection count before the embedding application opens the pool, and
//! the dialect sniffed from the connection string it will use.

use vstd::prelude::*;
use crate::dialect::{spec_sniff_driver, Drivers};

verus! {

/// Default maximum number of concurrent physical connections.
pub const DEFAULT_MAX_CONNECTIONS: u32 = 5;

/// Configures a database connection before it is opened.
#[derive(Debug, Clone, Copy, PartialEq, Eq, Structural)]
pub struct DatabaseBuilder {
    /// The pool's maximum concurrent physical connection count.
    pub max_connections: u32,
}

impl DatabaseBuilder {
    /// A fresh configuration with the default connection ceiling.
    pub fn new() -> (r: Self)
        ensures
            r.max_connections == DEFAULT_MAX_CONNECTIONS,
    {
        DatabaseBuilder { max_connections: DEFAULT_MAX_CONNECTIONS }
    }

    /// Sets the pool's maximum concurrent connection count.
    pub fn max_connections(self, max: u32) -> (r: Self)
        ensures
            r.max_connections == max,
    {
        DatabaseBuilder { max_connections: max }
    }

    /// The dialect the given connection string selects.
    pub fn driver_for(self, url: &str) -> (r: Drivers)
        ensures
            r == spec_sniff_driver(url@),
    {
        crate::dialect::sniff_driver(url)
    }
}

} // verus!
