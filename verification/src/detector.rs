//! Game detection and mod discovery logic.
//!
//! Detection cross-references the libraries of a parsed manifest against
//! a table of known games: every `(library, application id)` pair whose
//! id the table knows yields one [`DetectedGame`], in manifest order,
//! with its install path and its per-user data path derived by fixed
//! path-joining rules. Nothing is deduplicated.
//!
//! Discovery selects, from the files of a game's mod directory, those
//! with the mod-descriptor extension that parse successfully; a file
//! that fails to parse is skipped, never fatal.

use vstd::prelude::*;

use crate::errors::{DetectionError, DetectionErrorKind};
use crate::models::{
    DescriptorModel, DetectedGame, DetectedGameModel, GameInfo, GameInfoModel, LibraryModel,
    LibraryVdf, ModDescriptor,
};
use crate::parser::descriptor::{parse_mod_file, spec_parse_mod_file};
use crate::parser::vdf::{libs_view, parse_vdf_file, spec_parse_vdf_file};

verus! {

/// Model of a sequence of known-game rows.
pub open spec fn games_view(v: Seq<GameInfo>) -> Seq<GameInfoModel> {
    v.map_values(|g: GameInfo| g@)
}

/// Model of a sequence of detected games.
pub open spec fn detected_view(v: Seq<DetectedGame>) -> Seq<DetectedGameModel> {
    v.map_values(|g: DetectedGame| g@)
}

/// Model of a sequence of mod descriptors.
pub open spec fn mods_view(v: Seq<ModDescriptor>) -> Seq<DescriptorModel> {
    v.map_values(|m: ModDescriptor| m@)
}

/// Model of a sequence of (file name, file contents) pairs.
pub open spec fn files_view(v: Seq<(String, String)>) -> Seq<(Seq<char>, Seq<char>)> {
    v.map_values(|f: (String, String)| (f.0@, f.1@))
}

/// The first row of the table carrying `id`, if any.
pub open spec fn lookup_game(table: Seq<GameInfoModel>, id: u32) -> Option<GameInfoModel>
    decreases table.len(),
{
    if table.len() == 0 {
        None
    } else if table[0].app_id == id {
        Some(table[0])
    } else {
        lookup_game(table.skip(1), id)
    }
}

/// Where a game is installed inside a library: the library path, then
/// the client's application directory, then the game's folder.
pub open spec fn spec_install_path(lib_path: Seq<char>, folder: Seq<char>) -> Seq<char> {
    lib_path + "/steamapps/common/"@ + folder
}

/// Where a game keeps its per-user data: the home directory, then the
/// vendor's data directory, then the game's folder.
pub open spec fn spec_paradox_path(home: Seq<char>, folder: Seq<char>) -> Seq<char> {
    home + "/.local/share/Paradox Interactive/"@ + folder
}

/// Where the client's library manifest lives under the home directory.
pub open spec fn spec_manifest_path(home: Seq<char>) -> Seq<char> {
    home + "/.steam/steam/steamapps/libraryfolders.vdf"@
}

/// A game's mod directory: its per-user data path, then `mod`.
pub open spec fn spec_mod_dir(paradox_data_path: Seq<char>) -> Seq<char> {
    paradox_data_path + "/mod"@
}

/// The games detected from one library's application ids, in
/// declaration order.
pub open spec fn detect_in_apps(
    lib: LibraryModel,
    apps: Seq<u32>,
    home: Seq<char>,
    table: Seq<GameInfoModel>,
) -> Seq<DetectedGameModel>
    decreases apps.len(),
{
    if apps.len() == 0 {
        Seq::empty()
    } else {
        let rest = detect_in_apps(lib, apps.skip(1), home, table);
        match lookup_game(table, apps[0]) {
            None => rest,
            Some(g) => seq![
                DetectedGameModel {
                    app_id: apps[0],
                    game_name: g.game_name,
                    install_path: spec_install_path(lib.path, g.steam_folder),
                    paradox_data_path: spec_paradox_path(home, g.paradox_folder),
                },
            ] + rest,
        }
    }
}

/// The games detected from all libraries: libraries in manifest order,
/// application ids in declaration order, no deduplication.
pub open spec fn spec_detect_games(
    libs: Seq<LibraryModel>,
    home: Seq<char>,
    table: Seq<GameInfoModel>,
) -> Seq<DetectedGameModel>
    decreases libs.len(),
{
    if libs.len() == 0 {
        Seq::empty()
    } else {
        detect_in_apps(libs[0], libs[0].apps, home, table) + spec_detect_games(
            libs.skip(1),
            home,
            table,
        )
    }
}

/// Law: a library none of whose application ids the table knows
/// contributes no detected games.
pub proof fn lemma_apps_all_unknown(
    lib: LibraryModel,
    apps: Seq<u32>,
    home: Seq<char>,
    table: Seq<GameInfoModel>,
)
    requires
        forall|j: int| 0 <= j < apps.len() ==> #[trigger] lookup_game(table, apps[j]) is None,
    ensures
        detect_in_apps(lib, apps, home, table) == Seq::<DetectedGameModel>::empty(),
    decreases apps.len(),
{
    if apps.len() > 0 {
        assert(forall|j: int| 0 <= j < apps.skip(1).len() ==> apps.skip(1)[j] == apps[j + 1]);
        lemma_apps_all_unknown(lib, apps.skip(1), home, table);
    }
}

/// Law: a manifest referencing only unknown application ids detects no
/// games; the pass yields an empty list, not an error.
pub proof fn lemma_unknown_ids_detect_empty(
    libs: Seq<LibraryModel>,
    home: Seq<char>,
    table: Seq<GameInfoModel>,
)
    requires
        forall|i: int, j: int|
            0 <= i < libs.len() && 0 <= j < libs[i].apps.len() ==> #[trigger] lookup_game(
                table,
                libs[i].apps[j],
            ) is None,
    ensures
        spec_detect_games(libs, home, table) == Seq::<DetectedGameModel>::empty(),
    decreases libs.len(),
{
    if libs.len() > 0 {
        assert(forall|j: int|
            0 <= j < libs[0].apps.len() ==> #[trigger] lookup_game(
                table,
                libs[0].apps[j],
            ) is None);
        lemma_apps_all_unknown(libs[0], libs[0].apps, home, table);
        assert(forall|i: int| 0 <= i < libs.skip(1).len() ==> libs.skip(1)[i] == libs[i + 1]);
        lemma_unknown_ids_detect_empty(libs.skip(1), home, table);
        assert(Seq::<DetectedGameModel>::empty() + Seq::<DetectedGameModel>::empty()
            =~= Seq::<DetectedGameModel>::empty());
    }
}

/// Find the first table row carrying `id`.
fn find_game(table: &Vec<GameInfo>, id: u32) -> (r: Option<usize>)
    ensures
        match lookup_game(games_view(table@), id) {
            Some(g) => r matches Some(ix) && ix < table@.len() && table@[ix as int]@ == g,
            None => r is None,
        },
{
    let ghost gv = games_view(table@);
    let mut i: usize = 0;
    proof {
        assert(gv.skip(0) =~= gv);
    }
    #[verifier::loop_isolation(false)]
    while i < table.len()
        invariant
            0 <= i <= table.len(),
            lookup_game(gv, id) == lookup_game(gv.skip(i as int), id),
        decreases table.len() - i,
    {
        proof {
            assert(gv.skip(i as int)[0] == gv[i as int]);
            assert(gv.skip(i as int).skip(1) =~= gv.skip(i + 1));
        }
        if table[i].app_id == id {
            return Some(i);
        }
        i = i + 1;
    }
    proof {
        assert(gv.skip(table@.len() as int) =~= Seq::<GameInfoModel>::empty());
    }
    None
}

/// Join three path fragments by plain concatenation.
fn concat3(a: &str, b: &str, c: &str) -> (r: String)
    ensures
        r@ == a@ + b@ + c@,
{
    let mut s = String::from_str(a);
    s.append(b);
    s.append(c);
    s
}

/// The manifest file's location under the given home directory.
pub fn manifest_path(home: &str) -> (r: String)
    ensures
        r@ == spec_manifest_path(home@),
{
    let mut s = String::from_str(home);
    s.append("/.steam/steam/steamapps/libraryfolders.vdf");
    s
}

/// The mod directory of a detected game.
pub fn mod_directory(game: &DetectedGame) -> (r: String)
    ensures
        r@ == spec_mod_dir(game.paradox_data_path@),
{
    let mut s = String::from_str(game.paradox_data_path.as_str());
    s.append("/mod");
    s
}

/// The table of known games: application id, display name, install
/// folder, and vendor data folder.
pub open spec fn spec_known_games() -> Seq<GameInfoModel> {
    seq![
        GameInfoModel {
            app_id: 281990,
            game_name: "Stellaris"@,
            steam_folder: "Stellaris"@,
            paradox_folder: "Stellaris"@,
        },
        GameInfoModel {
            app_id: 236850,
            game_name: "Europa Universalis IV"@,
            steam_folder: "Europa Universalis IV"@,
            paradox_folder: "Europa Universalis IV"@,
        },
        GameInfoModel {
            app_id: 394360,
            game_name: "Hearts of Iron IV"@,
            steam_folder: "Hearts of Iron IV"@,
            paradox_folder: "Hearts of Iron IV"@,
        },
        GameInfoModel {
            app_id: 1158310,
            game_name: "Crusader Kings III"@,
            steam_folder: "Crusader Kings III"@,
            paradox_folder: "Crusader Kings III"@,
        },
        GameInfoModel {
            app_id: 529340,
            game_name: "Victoria 3"@,
            steam_folder: "Victoria 3"@,
            paradox_folder: "Victoria 3"@,
        },
        GameInfoModel {
            app_id: 859580,
            game_name: "Imperator: Rome"@,
            steam_folder: "Imperator Rome"@,
            paradox_folder: "Imperator Rome"@,
        },
    ]
}

/// Build one row of the known-games table.
fn game_row(app_id: u32, game_name: &str, steam_folder: &str, paradox_folder: &str) -> (r: GameInfo)
    ensures
        r@ == (GameInfoModel {
            app_id,
            game_name: game_name@,
            steam_folder: steam_folder@,
            paradox_folder: paradox_folder@,
        }),
{
    GameInfo {
        app_id,
        game_name: String::from_str(game_name),
        steam_folder: String::from_str(steam_folder),
        paradox_folder: String::from_str(paradox_folder),
    }
}

/// The standard table of known Paradox games.
pub fn known_games() -> (r: Vec<GameInfo>)
    ensures
        games_view(r@) == spec_known_games(),
{
    let mut t: Vec<GameInfo> = Vec::new();
    t.push(game_row(281990, "Stellaris", "Stellaris", "Stellaris"));
    t.push(
        game_row(
            236850,
            "Europa Universalis IV",
            "Europa Universalis IV",
            "Europa Universalis IV",
        ),
    );
    t.push(game_row(394360, "Hearts of Iron IV", "Hearts of Iron IV", "Hearts of Iron IV"));
    t.push(game_row(1158310, "Crusader Kings III", "Crusader Kings III", "Crusader Kings III"));
    t.push(game_row(529340, "Victoria 3", "Victoria 3", "Victoria 3"));
    t.push(game_row(859580, "Imperator: Rome", "Imperator Rome", "Imperator Rome"));
    proof {
        assert(games_view(t@) =~= spec_known_games());
    }
    t
}

/// Cross-reference parsed libraries against the known-games table.
#[verifier::loop_isolation(false)]
pub fn detect_games_in_libraries(
    libraries: &Vec<LibraryVdf>,
    home: &str,
    table: &Vec<GameInfo>,
) -> (r: Vec<DetectedGame>)
    ensures
        detected_view(r@) == spec_detect_games(libs_view(libraries@), home@, games_view(table@)),
{
    let ghost lv = libs_view(libraries@);
    let ghost gv = games_view(table@);
    let mut out: Vec<DetectedGame> = Vec::new();
    let mut li: usize = 0;
    proof {
        assert(lv.skip(0) =~= lv);
        assert(detected_view(out@) + spec_detect_games(lv, home@, gv) =~= spec_detect_games(
            lv,
            home@,
            gv,
        ));
    }
    while li < libraries.len()
        invariant
            0 <= li <= libraries.len(),
            spec_detect_games(lv, home@, gv) == detected_view(out@) + spec_detect_games(
                lv.skip(li as int),
                home@,
                gv,
            ),
        decreases libraries.len() - li,
    {
        proof {
            assert(lv.skip(li as int)[0] == lv[li as int]);
            assert(lv.skip(li as int).skip(1) =~= lv.skip(li + 1));
        }
        let lib = &libraries[li];
        let ghost av = lib.apps@;
        let mut ai: usize = 0;
        proof {
            assert(av.skip(0) =~= av);
        }
        while ai < lib.apps.len()
            invariant
                0 <= ai <= lib.apps.len(),
                spec_detect_games(lv, home@, gv) == detected_view(out@) + detect_in_apps(
                    lv[li as int],
                    av.skip(ai as int),
                    home@,
                    gv,
                ) + spec_detect_games(lv.skip(li + 1), home@, gv),
            decreases lib.apps.len() - ai,
        {
            proof {
                assert(av.skip(ai as int)[0] == av[ai as int]);
                assert(av.skip(ai as int).skip(1) =~= av.skip(ai + 1));
            }
            let app_id = lib.apps[ai];
            match find_game(table, app_id) {
                None => {},
                Some(ix) => {
                    let g = &table[ix];
                    let game = DetectedGame {
                        app_id,
                        game_name: String::from_str(g.game_name.as_str()),
                        install_path: concat3(
                            lib.path.as_str(),
                            "/steamapps/common/",
                            g.steam_folder.as_str(),
                        ),
                        paradox_data_path: concat3(
                            home,
                            "/.local/share/Paradox Interactive/",
                            g.paradox_folder.as_str(),
                        ),
                    };
                    proof {
                        assert(detected_view(out@.push(game)) =~= detected_view(out@) + seq![
                            game@,
                        ]);
                        assert(detected_view(out@) + (seq![game@] + detect_in_apps(
                            lv[li as int],
                            av.skip(ai + 1),
                            home@,
                            gv,
                        )) =~= (detected_view(out@) + seq![game@]) + detect_in_apps(
                            lv[li as int],
                            av.skip(ai + 1),
                            home@,
                            gv,
                        ));
                        assert((detected_view(out@) + seq![game@] + detect_in_apps(
                            lv[li as int],
                            av.skip(ai + 1),
                            home@,
                            gv,
                        )) + spec_detect_games(lv.skip(li + 1), home@, gv) =~= detected_view(
                            out@,
                        ) + (seq![game@] + detect_in_apps(lv[li as int], av.skip(ai + 1), home@, gv)
                            + spec_detect_games(lv.skip(li + 1), home@, gv)));
                    }
                    out.push(game);
                },
            }
            ai = ai + 1;
        }
        proof {
            assert(av.skip(lib.apps@.len() as int) =~= Seq::<u32>::empty());
        }
        li = li + 1;
    }
    proof {
        assert(lv.skip(libraries@.len() as int) =~= Seq::<LibraryModel>::empty());
        assert(detected_view(out@) + Seq::<DetectedGameModel>::empty() =~= detected_view(out@));
    }
    out
}

/// Detect games from the text of a library manifest.
///
/// The manifest is parsed as by [`parse_vdf_file`]; a parse failure is
/// the manifest parser's error, unchanged. On success, every
/// `(library, application id)` pair whose id the table knows yields one
/// detected game, libraries in file order and ids in declaration order,
/// without deduplication. A manifest whose ids are all unknown yields
/// an empty list, not an error.
pub fn detect_games_from_manifest(manifest: &str, home: &str, table: &Vec<GameInfo>) -> (r: Result<
    Vec<DetectedGame>,
    DetectionError,
>)
    ensures
        match spec_parse_vdf_file(manifest@) {
            Err(k) => r matches Err(e) && e@ == DetectionErrorKind::Parse(k),
            Ok(libs) => r matches Ok(v) && detected_view(v@) == spec_detect_games(
                libs,
                home@,
                games_view(table@),
            ),
        },
{
    match parse_vdf_file(manifest) {
        Err(e) => Err(DetectionError::Parse(e)),
        Ok(libs) => Ok(detect_games_in_libraries(&libs, home, table)),
    }
}

/// Index of the last `.` in a file name, if any.
pub open spec fn rfind_dot(name: Seq<char>) -> Option<int>
    decreases name.len(),
{
    if name.len() == 0 {
        None
    } else if name.last() == '.' {
        Some(name.len() - 1)
    } else {
        rfind_dot(name.drop_last())
    }
}

/// The extension of a file name: what follows the last `.`, provided
/// something precedes that dot (a leading-dot name has no extension).
pub open spec fn spec_extension(name: Seq<char>) -> Option<Seq<char>> {
    match rfind_dot(name) {
        Some(p) => if p > 0 {
            Some(name.skip(p + 1))
        } else {
            None
        },
        None => None,
    }
}

pub proof fn lemma_rfind_dot_props(name: Seq<char>)
    ensures
        rfind_dot(name) matches Some(p) ==> 0 <= p < name.len() && name[p] == '.',
    decreases name.len(),
{
    if name.len() > 0 && name.last() != '.' {
        lemma_rfind_dot_props(name.drop_last());
    }
}

/// Find the last `.` of a file name.
fn rfind_dot_at(name: &str) -> (r: Option<usize>)
    ensures
        match r {
            Some(u) => rfind_dot(name@) == Some(u as int),
            None => rfind_dot(name@) is None,
        },
    decreases name@.len(),
{
    let n = name.unicode_len();
    if n == 0 {
        None
    } else if name.get_char(n - 1) == '.' {
        Some(n - 1)
    } else {
        let head = name.substring_char(0, n - 1);
        proof {
            assert(head@ =~= name@.drop_last());
        }
        rfind_dot_at(head)
    }
}

/// Does this file name carry the mod-descriptor extension?
pub fn has_mod_extension(name: &str) -> (r: bool)
    ensures
        r == (spec_extension(name@) == Some("mod"@)),
{
    let n = name.unicode_len();
    match rfind_dot_at(name) {
        None => false,
        Some(p) => {
            if p == 0 {
                return false;
            }
            proof {
                lemma_rfind_dot_props(name@);
            }
            let ext = String::from_str(name.substring_char(p + 1, n));
            proof {
                assert(ext@ =~= name@.skip(p + 1));
            }
            let is_mod = ext == String::from_str("mod");
            is_mod
        },
    }
}

/// Which descriptors a mod directory's files yield: files with the
/// descriptor extension, in directory order, each parsed by
/// [`spec_parse_mod_file`]; files that fail to parse are skipped.
pub open spec fn spec_select_mods(fs: Seq<(Seq<char>, Seq<char>)>) -> Seq<DescriptorModel>
    decreases fs.len(),
{
    if fs.len() == 0 {
        Seq::empty()
    } else {
        let rest = spec_select_mods(fs.skip(1));
        if spec_extension(fs[0].0) == Some("mod"@) {
            match spec_parse_mod_file(fs[0].1) {
                Ok(d) => seq![d] + rest,
                Err(_) => rest,
            }
        } else {
            rest
        }
    }
}

/// Law: a file without the descriptor extension, or whose text fails
/// to parse, never changes what the other files yield: removing it
/// from the directory leaves discovery's result unchanged.
pub proof fn lemma_bad_file_never_hides_others(fs: Seq<(Seq<char>, Seq<char>)>, i: int)
    requires
        0 <= i < fs.len(),
        spec_extension(fs[i].0) != Some("mod"@) || spec_parse_mod_file(fs[i].1) is Err,
    ensures
        spec_select_mods(fs) == spec_select_mods(fs.remove(i)),
    decreases fs.len(),
{
    if i == 0 {
        assert(fs.remove(0) =~= fs.skip(1));
    } else {
        lemma_bad_file_never_hides_others(fs.skip(1), i - 1);
        assert(fs.skip(1).remove(i - 1) =~= fs.remove(i).skip(1));
        assert(fs.remove(i)[0] == fs[0]);
    }
}

/// Select and parse the mod descriptors among a directory's files,
/// given as (file name, file contents) pairs in directory order.
///
/// Only files with the descriptor extension are considered; one that
/// fails to parse is silently skipped, never fatal, so one malformed
/// descriptor cannot hide the others.
#[verifier::loop_isolation(false)]
pub fn select_mod_descriptors(files: &Vec<(String, String)>) -> (r: Vec<ModDescriptor>)
    ensures
        mods_view(r@) == spec_select_mods(files_view(files@)),
{
    let ghost fv = files_view(files@);
    let mut out: Vec<ModDescriptor> = Vec::new();
    let mut i: usize = 0;
    proof {
        assert(fv.skip(0) =~= fv);
        assert(mods_view(out@) + spec_select_mods(fv) =~= spec_select_mods(fv));
    }
    while i < files.len()
        invariant
            0 <= i <= files.len(),
            spec_select_mods(fv) == mods_view(out@) + spec_select_mods(fv.skip(i as int)),
        decreases files.len() - i,
    {
        proof {
            assert(fv.skip(i as int)[0] == fv[i as int]);
            assert(fv.skip(i as int).skip(1) =~= fv.skip(i + 1));
        }
        let f = &files[i];
        if has_mod_extension(f.0.as_str()) {
            match parse_mod_file(f.1.as_str()) {
                Ok(m) => {
                    proof {
                        assert(mods_view(out@.push(m)) =~= mods_view(out@) + seq![m@]);
                        assert((mods_view(out@) + seq![m@]) + spec_select_mods(fv.skip(i + 1))
                            =~= mods_view(out@) + (seq![m@] + spec_select_mods(fv.skip(i + 1))));
                    }
                    out.push(m);
                },
                Err(_) => {},
            }
        }
        i = i + 1;
    }
    proof {
        assert(fv.skip(files@.len() as int) =~= Seq::<(Seq<char>, Seq<char>)>::empty());
        assert(mods_view(out@) + Seq::<DescriptorModel>::empty() =~= mods_view(out@));
    }
    out
}

} // verus!
