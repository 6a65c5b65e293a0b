//! `ggengine::datacore` module supplies structs that describe external data:
//! audio settings, fonts, images and the layout of the asset directory.
//!
//! Loading and storing the data itself is work for the application around the library;
//! this module holds what can be computed about that data.
//!

pub mod assets;
pub mod audio;
pub mod fonts;
pub mod images;
