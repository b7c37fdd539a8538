//! Perception core of an unattended interaction loop for one known game
//! window: fixed capture regions, an exact integer image-similarity engine
//! (Otsu binarization, fixed-point SSIM, normalized cross-correlation
//! template search), and the bet/timing state machine that decides, from
//! detector results alone, when to wait, press keys, or rebind the window.
//!
//! Everything here works on plain pixel buffers and plain values; screen
//! capture, key injection and window lookup live with the embedding program.

pub mod auto_rappy;
pub mod binarize;
pub mod capture_settings;
pub mod frame;
pub mod ratio;
pub mod ssim;
pub mod sums;
pub mod template;
