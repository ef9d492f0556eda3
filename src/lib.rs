//! Chaptered audiobook assembly: segmenting a book into chapters, scheduling
//! paragraph synthesis, ordering fragments, building the chapter timeline and
//! the transcoder invocations, and preparing bibliographic tags.
use vstd::prelude::*;

pub mod text;
pub mod book;
pub mod timeline;
pub mod fragments;
pub mod parse;
pub mod ffmpeg;
pub mod metadata;
pub mod pipeline;
pub mod epub;

verus! {

/// The failures of a run.
#[derive(PartialEq, Eq, Structural, Clone, Copy, Debug)]
pub enum PipelineError {
    /// The input is unreadable or unparseable.
    FormatError,
    /// One paragraph could not be synthesized; recovered by dropping it.
    SynthesisError,
    /// A chapter has no fragment, or its transcode or probe failed.
    AssemblyError,
    /// The final concatenation or muxing failed.
    MuxError,
    /// A required external tool is missing.
    ToolUnavailableError,
}

} // verus!
