//! What most users of the library need.

pub use crate::errors::{CurlyError, CurlyErrorKind, CurlyFmtResult, CurlyResult};
pub use crate::formatting::{
    Alignment, CurlyContext, CurlyFlags, CurlyFmt, NumberType, Sign,
};
pub use crate::provider::Provider;
