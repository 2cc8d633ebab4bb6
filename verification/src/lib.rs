//! Subscription aggregation service: configuration checking, input rules,
//! fetch-target screening, upstream response handling, HTML-to-text
//! conversion and ordered merging of fetched feeds.

pub mod config;
pub mod console;
pub mod error;
pub mod metrics;
pub mod netaddr;
pub mod overrides;
pub mod routes;
pub mod rules;
pub mod shared;
pub mod subscriptions;
pub mod text;
pub mod weburl;
