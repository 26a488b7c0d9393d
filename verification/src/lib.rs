pub mod text;
pub mod paths;
pub mod subtitles;
pub mod cue_layout;
pub mod cue_builder;
pub mod release;
pub mod config;
pub mod media;
pub mod render;
pub mod runtime;
pub mod model;
pub mod fonts;
pub mod cli;
pub mod segmentation;
pub mod transcribe;
pub mod burnin;
pub mod translate;
pub mod watermark;
pub mod cleanup;
pub mod version;
pub mod workflow;
pub mod verification;
pub mod caption_agent;
pub mod status;
pub mod integration;
pub mod watermark_presets;
pub mod captions;
pub mod faster_whisper;
pub mod report;
pub mod srt_round_trip;
