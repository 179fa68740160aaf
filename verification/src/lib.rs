//! A verified media-caddy core: a content-addressed blob store with
//! traversal-safe sharded paths, content-based format classification,
//! an image re-encoding pipeline, a model of the pull-based streaming
//! bridge into a native demuxer, and query-parameter parsing.

pub mod bridge;
pub mod convert;
pub mod format;
pub mod ident;
pub mod paths;
pub mod query;
pub mod shard;
pub mod store;
