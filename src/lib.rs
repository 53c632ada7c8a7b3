//! Extraction of intra-coded pictures from ISO/IEC 11172 (MPEG-1) program streams.
pub mod bits;
pub mod bmp;
pub mod decoder;
pub mod error;
pub mod frame;
pub mod headers;
pub mod idct;
pub mod idct_23002_2;
pub mod ppm;
pub mod system;
pub mod vlc;
