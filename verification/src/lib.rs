//! PipeVision: watch the data that passes through each stage of a shell pipeline.
//!
//! - `text`: character-level text handling (trimming, splitting, joining, lines, decimal
//!   numbers, UTF-8 byte lengths, ordering) with specifications.
//! - `pipeline`: reading a pipeline file, the injected command with its observers, the
//!   observer's counts and captured lines, and the command line.
//! - `stats`: a stage's metrics, read from the files that the observers write.
//! - `app`: the viewer's state and how it reacts to keys and to the running pipeline.
//! - `view`: the texts that the viewer shows.

pub mod app;
pub mod pipeline;
pub mod stats;
pub mod text;
pub mod view;
