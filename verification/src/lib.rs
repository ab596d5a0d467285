//! A streaming request/response processor: requests arrive as raw byte
//! payloads on named broker channels, are decoded against the schema that the
//! channel selects, evaluated, re-encoded, and published to the channel's
//! fixed output counterpart.  Decoding, dispatch, encoding and the worker's
//! commit discipline live here; the broker client and the floating-point
//! evaluation itself are left to the surrounding binary.

pub mod request;
pub mod response;
pub mod scan;
pub mod topic;
pub mod worker;

pub use request::DecodeError;
pub use request::NumberText;
pub use request::Operation;
pub use request::PayloadRequest;
pub use request::Request;
pub use request::RequiredField;
pub use request::parse_request;
pub use response::PayloadResponse;
pub use response::ResultValue;
pub use topic::Topic;
pub use topic::UnknownChannel;
