//! Reconciles a declared list of artists against the channels a user is
//! subscribed to: it plans which targets still need a subscription, resolves
//! names to channels through ordered search variants, keeps an expiring cache
//! of resolutions, pages through the target list and decides how each
//! subscribe attempt is retried.

pub mod text;
pub mod artist;
pub mod cache;
pub mod planner;
pub mod subscribe;
pub mod variants;
pub mod resolve;
pub mod urls;
pub mod fetch;
pub mod artists_file;
pub mod listing;
pub mod config;
