//! Reassembly of ordered, per-stream message sequences from unordered,
//! textually encoded records.
//!
//! Each input line declares a stream ("pipeline") id, the record's own
//! sequence id, a payload encoding, the payload itself, and the id expected
//! to follow.  The library validates each record against its stream's chain,
//! decodes the payload, accumulates the surviving messages per stream, and
//! renders every stream's messages in ascending id order.

pub mod encoding;
pub mod pipeline;
pub mod record;
pub mod registry;

pub use encoding::DecodeError;
pub use encoding::Encoding;
pub use pipeline::Message;
pub use pipeline::Pipeline;
pub use pipeline::PipelineId;
pub use record::ParseError;
pub use record::ParsedMessage;
pub use registry::Pipelines;
pub use registry::PipelinesConfig;
