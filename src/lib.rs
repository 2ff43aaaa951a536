//! Incremental, resumable projection of JSON-like documents onto a
//! declarative shape description, with eager emission of selected subtrees
//! and bounded retention of input chunks.

mod input_provider;
mod source_sink;
mod strings;
mod tree_spec;
mod walker;

pub use input_provider::ChunkedInput;
pub use source_sink::{
    BailType, EngineResult, PeekResult, SSState, SingleStatus, StreamStatus, StreamingSS, Value,
    Yield,
};
pub use strings::BuildString;
pub use tree_spec::{
    spec_from_term, validate_spec, ConfigurationError, Node, NodeId, NodeOptions, NodeVariant,
    OptionsDesc, Spec, SpecDesc, ValueType,
};
pub use walker::{FailureKind, Frame, ParseFailure, PathEntry, PathTracker};
