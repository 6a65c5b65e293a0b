//! `datacore::assets` submodule lays out the asset directory of an application:
//! every [`AssetFormat`] has a folder of its own under the root directory of the assets.
//!

use vstd::prelude::*;

verus! {

/// Path that `std::path::Path::join` gives for `base` joined with `part`.
///
pub uninterp spec fn joined_path(base: Seq<char>, part: Seq<char>) -> Seq<char>;

/// Joins two paths with `std::path::Path::join`.
///
/// The contract claims only that the result is a function of the two paths: `joined_path`.
/// What that function is (where separators go, and that an absolute `part` replaces `base`)
/// depends on the platform and is not stated.
///
#[verifier::external_body]
fn join_path(base: &str, part: &str) -> (joined: String)
    ensures
        joined@ == joined_path(base@, part@),
{
    std::path::Path::new(base).join(part).to_string_lossy().into_owned()
}

/// [`AssetFormat`] trait defines a format of assets: the folder that holds them.
///
pub trait AssetFormat {
    /// Folder in which assets of this format are stored.
    ///
    spec fn spec_folder(&self) -> Seq<char>;

    /// Returns folder in which assets of this format are stored.
    ///
    fn format_folder(&self) -> (folder: &'static str)
        ensures
            folder@ == self.spec_folder(),
    ;
}

/// [`AudioAssetFormat`] is a format for audio data.
///
#[derive(Clone, Copy, Debug)]
pub struct AudioAssetFormat;

impl AssetFormat for AudioAssetFormat {
    open spec fn spec_folder(&self) -> Seq<char> {
        "audio"@
    }

    fn format_folder(&self) -> (folder: &'static str) {
        "audio"
    }
}

/// [`ImageAssetFormat`] is a format for images.
///
#[derive(Clone, Copy, Debug)]
pub struct ImageAssetFormat;

impl AssetFormat for ImageAssetFormat {
    open spec fn spec_folder(&self) -> Seq<char> {
        "images"@
    }

    fn format_folder(&self) -> (folder: &'static str) {
        "images"
    }
}

/// [`FontAssetFormat`] is a format for fonts.
///
#[derive(Clone, Copy, Debug)]
pub struct FontAssetFormat;

impl AssetFormat for FontAssetFormat {
    open spec fn spec_folder(&self) -> Seq<char> {
        "fonts"@
    }

    fn format_folder(&self) -> (folder: &'static str) {
        "fonts"
    }
}

/// [`ConfigAssetFormat`] is a format for configuration data that is serialized.
///
#[derive(Clone, Copy, Debug)]
pub struct ConfigAssetFormat;

impl AssetFormat for ConfigAssetFormat {
    open spec fn spec_folder(&self) -> Seq<char> {
        "configs"@
    }

    fn format_folder(&self) -> (folder: &'static str) {
        "configs"
    }
}

/// [`AssetManager`] struct knows where the assets of an application live:
/// assets of every format are stored in the folder of that format under the root directory.
///
#[derive(Debug)]
pub struct AssetManager {
    /// Root directory of the assets.
    ///
    root_directory: String,
}

impl AssetManager {
    /// Root directory of the assets.
    ///
    pub closed spec fn spec_root_directory(&self) -> Seq<char> {
        self.root_directory@
    }

    /// Asset manager of the assets under `root_directory`.
    ///
    pub fn at(root_directory: String) -> (manager: AssetManager)
        ensures
            manager.spec_root_directory() == root_directory@,
    {
        AssetManager { root_directory }
    }

    /// Returns root directory of the assets.
    ///
    pub fn root_directory(&self) -> (root: &str)
        ensures
            root@ == self.spec_root_directory(),
    {
        self.root_directory.as_str()
    }

    /// Path of the asset `filename` of format `format`: the file in the folder of the format
    /// under the root directory.
    ///
    pub fn full_path<F: AssetFormat>(&self, filename: &str, format: &F) -> (path: String)
        ensures
            path@ == joined_path(joined_path(self.spec_root_directory(), format.spec_folder()), filename@),
    {
        let folder = join_path(self.root_directory.as_str(), format.format_folder());
        join_path(folder.as_str(), filename)
    }
}

} // verus!
