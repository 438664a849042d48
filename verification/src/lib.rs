//! Verified core of an ephemeral file-sharing service: share-group
//! identifiers, batch upload coordination, group resolution and object
//! fetch, and the retention sweep, all specified against a model of the
//! backing object store.

pub mod etag;
pub mod group_id;
pub mod headers;
pub mod keys;
pub mod percent;
pub mod resolve;
pub mod store;
pub mod sweep;
pub mod upload;
