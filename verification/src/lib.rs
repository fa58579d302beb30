//! Verified core of a realtime audio synthesis library: loop specifications, the streaming loop driver,
//! sample-source readers, delay lines, frame batching and the scheduling of programs.
pub mod config;
pub mod nonzero;
pub mod time_span;
pub mod channel_format;
pub mod decoding;
pub mod sample_source;
pub mod vec_source;
pub mod sample_reader;
pub mod source_reader;
pub mod resampling;
pub mod delay_line;
pub mod frame_batcher;
pub mod clock;
pub mod maybe_int;
pub mod error;
pub mod nodes;
pub mod signals;
pub mod signal_maps;
pub mod map_frame;
pub mod unique_id;
pub mod slots;
pub mod loop_spec;
pub mod loop_driver;
pub mod topology;
pub mod program;
pub mod audio_thread;
pub mod batch;
pub mod drop_table;
pub mod removal_list;
pub mod media_task;
pub mod output_block;
pub mod server;
