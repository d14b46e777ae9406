//! Icon resolution and aggregation engine.
//!
//! - `pixels`: alpha classification and repair, RGBA reorder, border cropping.
//! - `render`: PNG encoding of pixels into a base64 data-URI payload.
//! - `formats`: PNG and BMP header parsing, direct use of resource images.
//! - `icon_group`: icon-group directories, scoring, ordering, entry choice.
//! - `dispatch`: extraction method identifiers and the attempts they make.
//! - `aggregate`: fingerprints and the priority-based merge of scanner records.
//! - `plan`: extraction keys, the extraction plan, and reattaching results.
//! - `cache`: the bounded cache of extraction results.
//! - `sources`, `shortcut`, `path`: source catalogue, shortcut fields, paths.
//! - `codec`: the image codec, base64 and Unicode text operations relied on.

pub mod aggregate;
pub mod cache;
pub mod codec;
pub mod dispatch;
pub mod formats;
pub mod icon_group;
pub mod path;
pub mod pixels;
pub mod plan;
pub mod render;
pub mod shortcut;
pub mod sources;
pub mod text;
pub mod types;
