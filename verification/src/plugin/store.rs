//! The plugins' key–value store.
use vstd::prelude::*;

verus! {

/// Key–value storage of the plugins, kept in the `plugin_store` table.
pub struct PluginStore;

} // verus!
