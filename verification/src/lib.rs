//! Verified core of the MoFA studio apps: transcript parsing, script
//! segmentation, WAV framing and mixing, recent files, templates, voices and
//! the segment queue of the TTS dataflow, the dora process manager's reading
//! of command output, the decisions of the FM dataflow worker, and the texts
//! and choices of the screens.
pub mod text;
pub mod transcript;
pub mod transcript_parser;
pub mod tts_batch;
pub mod audio_mixer;
pub mod recent_files;
pub mod script_templates;
pub mod dora_integration;
pub mod dora_process_manager;
pub mod cast_screen;
pub mod voice_chat;
pub mod fm_worker;
pub mod apps;
