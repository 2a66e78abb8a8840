pub mod audio_device;
pub mod audio_format;
pub mod audio_input;
pub mod audio_mixer;
pub mod audio_stream;
