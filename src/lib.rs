//! Attributes a request to its client's address through a chain of proxy
//! hops, looks that address up in an in-memory geographic index, assembles
//! the classification response, and decides which request metrics to emit.

pub mod text;
pub mod ip;
pub mod proxy;
pub mod geo;
pub mod clock;
pub mod classify;
pub mod dataset;
pub mod timing;

pub use ip::{IpAddress, IpNet};
pub use proxy::{resolve, resolve_header, forwarded_chain};
pub use geo::{LocationRecord, GeoEntry, GeoError, GeoIndex};
pub use clock::UtcDateTime;
pub use dataset::{DatasetError, load_dataset, parse_record};
pub use classify::{ClassificationResponse, assemble, classify, parse_do_not_track};
pub use timing::{StatusClass, Outcome, MetricEvent, RequestTimer, status_class};
