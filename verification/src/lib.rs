//! Playback logic of a UEFI "Bad Apple" player: the `.uefiv` video container,
//! the audio/video event lists and their merge, the on-screen layout of a
//! video and the PC speaker programming values.
pub mod uefiv;
pub mod video;
pub mod va;
pub mod audio;
