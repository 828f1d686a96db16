//! Bookkeeping for Lua language-server addons: which addons a workspace has
//! enabled, derived from the library paths in an editor settings file, and
//! how enabling or disabling one changes that list.
//!
//! - `addon`: what an addon is.
//! - `path`: library entries as paths, and the addon each one names.
//! - `aggregate`: collecting fallible results into one outcome.
//! - `settings`: the settings document, its library list and other fields.
//! - `reconcile`: listing, enabling and disabling addons.
//! - `registry`: the addons that the package manager's listings name.
//! - `config`: the settings a command runs with.

pub mod addon;
pub mod path;
pub mod aggregate;
pub mod settings;
pub mod reconcile;
pub mod config;
pub mod registry;
