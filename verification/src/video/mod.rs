pub mod video_desktop;
pub mod video_format;
pub mod video_stream;
