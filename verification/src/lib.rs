//! Core engine of a release-review audit: turns the commits between two
//! revisions into logical review units (one per pull request, or one per
//! unlinked commit), resolves each unit's approval state against the
//! provider's review history, and bounds per-host request concurrency.
pub mod api_clients;
pub mod changes;
pub mod errors;
pub mod github;
pub mod helm_config;
pub mod remote;
pub mod strings;
