//! Compact crash-trace tokens: a variable-length integer codec over a
//! URL-safe 64-symbol alphabet, a trace-token builder for module-relative
//! stack offsets, and a resolution pipeline that turns a token back into
//! human-readable frames through a debug-symbol database.

pub mod capture;
pub mod error;
pub mod format;
pub mod frames;
pub mod html;
pub mod resolve;
pub mod symbols;
pub mod vlq;

pub use capture::{build_trace, TraceBuilder};
pub use error::{CodecError, Error};
pub use format::{DefaultFormatter, Formatter};
pub use frames::{Frame, FunctionFrames};
pub use html::{maybe_link_source, HtmlFormatter};
pub use resolve::symbolize;
pub use vlq::{base64_lut, vlq_decode, vlq_decode_all, vlq_encode};
