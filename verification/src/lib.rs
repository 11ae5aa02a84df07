//! Looking after MP4 camera recordings.
//!
//! # Recording in two stages
//!
//! A recording is made in two stages. While it is **captured**, frames are encoded
//! into `<name>.mp4`, and each frame's capture time is appended to a SubRip sidecar,
//! `<name>-ffmpeg-rewriter.srt`; camera metadata is saved to `<name>-metadata.json`
//! up front. When it is closed it is **rewritten**: the MP4 is copied frame by frame
//! into `<name>.mp4-rewritten.mp4`, now with each frame's capture time in the frame
//! itself, that file is renamed over `<name>.mp4`, and the sidecars are deleted.
//!
//! A crash in between leaves some of those files behind. [`inspect`] classifies such
//! a recording, [`repair`] finishes it from whichever stage was interrupted, and
//! [`paths`] finds them by their leftover files; [`naming`] says what the text of a
//! path means there. [`rewrite`] is the rewrite stage itself, [`boxes`] tells whether
//! an MP4 was ever finalized, [`sidecars`] names the files, and [`doctor`] tells what
//! was found or done.
//!
//! # Timing against display order
//!
//! A recording states when its frames are shown in the container and in the frames,
//! and either can be wrong. The bitstream's picture order count cannot: [`timing`]
//! holds a timing series against it and compares the rates of two, [`load`] numbers
//! the coded video sequences that the count restarts in, and [`report`] tells what
//! is wrong with a file. [`fix`] hands capture times out again in display order,
//! [`remux`] puts them into the samples, and [`backup`] replaces the file without
//! ever losing the original.
//!
//! # How it fits together
//!
//! Everything here computes on plain values. Where files are read, written, renamed
//! or deleted in between, a function takes what was seen and says what to do next;
//! [`disk`] says what a run of such steps leads to, also if it is interrupted.

pub mod backup;
pub mod boxes;
pub mod clock;
pub mod disk;
pub mod doctor;
pub mod error;
pub mod fix;
pub mod inspect;
pub mod load;
pub mod nal;
pub mod naming;
pub mod order;
pub mod paths;
pub mod remux;
pub mod repair;
pub mod report;
pub mod rewrite;
pub mod sidecars;
pub mod text;
pub mod timing;
