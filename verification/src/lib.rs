//! Splitting packed multi-channel textures into one grayscale image per
//! colour channel, driven by named profiles.
//!
//! A [`config::Config`] maps profile names to [`config::Profile`]s, and
//! [`selection`] takes a user's answer for one of them. A profile holds a
//! file pattern and a list of channels. The pattern is compiled by
//! [`pattern::compile`]; [`listing::list_matching_files`] picks the files of a
//! directory listing that it accepts; [`extract::plan_outputs`] names the
//! files that one source file yields, and [`raster::extract_channel`] builds
//! the image of each.
//!
//! Nothing here reads or writes a file: the caller decodes the source image,
//! walks the directory, and encodes what it is handed back.

pub mod config;
pub mod error;
pub mod extract;
pub mod listing;
pub mod pattern;
pub mod raster;
pub mod selection;
