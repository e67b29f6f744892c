//! A video upscaling pipeline: PNG frames are framed out of a decoder's byte
//! stream, consecutive duplicates are collapsed into run-lengths, each distinct
//! frame is super-resolved in parallel and released in order, and the frames
//! are re-expanded for the encoder.
//!
//! This crate holds the decisions of every stage as verified state machines;
//! threads, channels and child processes are driven around them.

pub mod arguments;
pub mod codec;
pub mod error;
pub mod extract;
pub mod filter_duplicates;
pub mod frame;
pub mod merge;
pub mod model;
pub mod pipeline;
pub mod progress;
pub mod upscale;
pub mod video;

pub use arguments::{is_video_extension, validate_resolution};
pub use error::{Error, ErrorKind};
pub use extract::{find_png_footer, PngFramer, CHUNK_SIZE, MAX_FRAME_BUFFER_SIZE};
pub use filter_duplicates::FilterDuplicates;
pub use frame::{Frame, Raster};
pub use merge::{prepare_write, MergeWrite};
pub use model::{Model, Upscaler};
pub use pipeline::Pipeline;
pub use progress::ProgressCounter;
pub use upscale::{apply_upscaled, process_frame, OrderingBarrier};
pub use video::{plan_job, JobPlan, ModelFamily};
