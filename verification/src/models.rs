//! Data records produced by the parsers and by game detection, together
//! with their mathematical models (views over `Seq<char>`).

use vstd::prelude::*;

verus! {

/// One registered installation root from the library manifest: its index
/// within the manifest, its filesystem path, and the application ids
/// installed under it.
#[derive(Debug, Clone)]
pub struct LibraryVdf {
    pub idx: u32,
    pub path: String,
    pub apps: Vec<u32>,
}

/// Mathematical model of a [`LibraryVdf`].
pub struct LibraryModel {
    pub idx: u32,
    pub path: Seq<char>,
    pub apps: Seq<u32>,
}

impl View for LibraryVdf {
    type V = LibraryModel;

    open spec fn view(&self) -> LibraryModel {
        LibraryModel { idx: self.idx, path: self.path@, apps: self.apps@ }
    }
}

/// Metadata of one installed mod, read from its descriptor file.
///
/// The four `String` fields are required by the descriptor format: a
/// descriptor missing any of them does not parse, so every value of this
/// type carries them. `tags` defaults to the empty sequence when the
/// descriptor has no tag block; `picture` and `version` are optional.
#[derive(Debug, Clone)]
pub struct ModDescriptor {
    pub name: String,
    pub path: String,
    pub remote_file_id: String,
    pub supported_version: String,
    pub tags: Vec<String>,
    pub picture: Option<String>,
    pub version: Option<String>,
}

/// Mathematical model of a [`ModDescriptor`].
pub struct DescriptorModel {
    pub name: Seq<char>,
    pub path: Seq<char>,
    pub remote_file_id: Seq<char>,
    pub supported_version: Seq<char>,
    pub tags: Seq<Seq<char>>,
    pub picture: Option<Seq<char>>,
    pub version: Option<Seq<char>>,
}

impl View for ModDescriptor {
    type V = DescriptorModel;

    open spec fn view(&self) -> DescriptorModel {
        DescriptorModel {
            name: self.name@,
            path: self.path@,
            remote_file_id: self.remote_file_id@,
            supported_version: self.supported_version@,
            tags: self.tags@.map_values(|t: String| t@),
            picture: match self.picture {
                Some(p) => Some(p@),
                None => None,
            },
            version: match self.version {
                Some(v) => Some(v@),
                None => None,
            },
        }
    }
}

/// One game found by cross-referencing the library manifest against the
/// table of known games.
#[derive(Debug, Clone)]
pub struct DetectedGame {
    pub app_id: u32,
    pub game_name: String,
    pub install_path: String,
    pub paradox_data_path: String,
}

/// Mathematical model of a [`DetectedGame`].
pub struct DetectedGameModel {
    pub app_id: u32,
    pub game_name: Seq<char>,
    pub install_path: Seq<char>,
    pub paradox_data_path: Seq<char>,
}

impl View for DetectedGame {
    type V = DetectedGameModel;

    open spec fn view(&self) -> DetectedGameModel {
        DetectedGameModel {
            app_id: self.app_id,
            game_name: self.game_name@,
            install_path: self.install_path@,
            paradox_data_path: self.paradox_data_path@,
        }
    }
}

/// One row of the known-games table: an application id together with the
/// game's display name, its install-folder name, and the folder under the
/// vendor's per-user data directory.
#[derive(Debug, Clone)]
pub struct GameInfo {
    pub app_id: u32,
    pub game_name: String,
    pub steam_folder: String,
    pub paradox_folder: String,
}

/// Mathematical model of a [`GameInfo`].
pub struct GameInfoModel {
    pub app_id: u32,
    pub game_name: Seq<char>,
    pub steam_folder: Seq<char>,
    pub paradox_folder: Seq<char>,
}

impl View for GameInfo {
    type V = GameInfoModel;

    open spec fn view(&self) -> GameInfoModel {
        GameInfoModel {
            app_id: self.app_id,
            game_name: self.game_name@,
            steam_folder: self.steam_folder@,
            paradox_folder: self.paradox_folder@,
        }
    }
}

} // verus!
