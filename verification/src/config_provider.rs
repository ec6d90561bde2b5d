//! The shared configuration handle: one explicitly constructed store,
//! passed into every component at construction time, holding the
//! configuration of record.
//!
//! The process shares one `ConfigProvider` value behind a reader-writer
//! lock; the logic here is the value's.  Reading before the first write
//! is a caller error, checked at the edge.
use vstd::prelude::*;
use crate::config::Config;

verus! {

/// The store the configuration of record lives in.
#[derive(Debug)]
pub struct ConfigProvider {
    config: Option<Config>,
}

impl ConfigProvider {
    /// The stored configuration's model, if one was stored.
    pub closed spec fn spec_config(&self) -> Option<crate::config::ConfigView> {
        match self.config {
            Some(c) => Some(c@),
            None => None,
        }
    }

    /// A store with nothing set yet.
    pub fn new() -> (r: Self)
        ensures
            r.spec_config() is None,
    {
        Self { config: None }
    }

    /// Was a configuration set?
    pub fn has_config(&self) -> (r: bool)
        ensures
            r == (self.spec_config() is Some),
    {
        match &self.config {
            Some(_) => true,
            None => false,
        }
    }
}

/// Make `config` the configuration of record.
pub fn config_set(provider: &mut ConfigProvider, config: Config)
    ensures
        final(provider).spec_config() == Some(config@),
{
    provider.config = Some(config);
}

/// A copy of the configuration of record.  A configuration must have been
/// set.
pub fn config_get(provider: &ConfigProvider) -> (r: Config)
    requires
        provider.spec_config() is Some,
    ensures
        Some(r@) == provider.spec_config(),
{
    match &provider.config {
        Some(c) => c.clone(),
        None => vstd::pervasive::unreached(),
    }
}

} // verus!
