//! A small builder for C preprocessor header text: `#define` macros kept in
//! insertion order with map semantics, plus deduplicated verbatim text blocks,
//! rendered on demand and streamed to a caller-supplied sink.

pub mod model;
pub mod ordered;
pub mod sink;
pub mod builder;
pub mod laws;

pub use builder::SorseHeader;
pub use sink::LimitedSink;
pub use sink::Sink;
pub use sink::StringSink;
