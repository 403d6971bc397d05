use ferrous_mod_manager::detector::{
    detect_games_from_manifest, detect_games_in_libraries, has_mod_extension, known_games,
    manifest_path, mod_directory, select_mod_descriptors,
};
use ferrous_mod_manager::errors::DetectionError;
use ferrous_mod_manager::models::{DetectedGame, GameInfo, LibraryVdf};

fn stellaris_table() -> Vec<GameInfo> {
    vec![GameInfo {
        app_id: 281990,
        game_name: "Stellaris".to_string(),
        steam_folder: "Stellaris".to_string(),
        paradox_folder: "Stellaris".to_string(),
    }]
}

#[test]
fn test_detect_single_game_end_to_end() {
    let manifest = "\"libraryfolders\"\n{\n\t\"0\"\n\t{\n\t\t\"path\"\t\"/L\"\n\t\t\"apps\"\n\t\t{\n\t\t\t\"281990\"\t\"1\"\n\t\t}\n\t}\n}\n";
    let games = detect_games_from_manifest(manifest, "/home/u", &stellaris_table()).unwrap();
    assert_eq!(games.len(), 1);
    assert_eq!(games[0].app_id, 281990);
    assert_eq!(games[0].game_name, "Stellaris");
    assert_eq!(games[0].install_path, "/L/steamapps/common/Stellaris");
    assert_eq!(
        games[0].paradox_data_path,
        "/home/u/.local/share/Paradox Interactive/Stellaris"
    );
}

#[test]
fn test_detect_unknown_app_ids_yield_empty() {
    let manifest = "\"libraryfolders\"\n{\n\t\"0\"\n\t{\n\t\t\"path\"\t\"/L\"\n\t\t\"apps\"\n\t\t{\n\t\t\t\"42\"\t\"1\"\n\t\t\t\"99\"\t\"1\"\n\t\t}\n\t}\n}\n";
    let games = detect_games_from_manifest(manifest, "/home/u", &stellaris_table()).unwrap();
    assert!(games.is_empty());
}

#[test]
fn test_detect_malformed_manifest_is_fatal() {
    let manifest = "not a manifest";
    let result = detect_games_from_manifest(manifest, "/home/u", &stellaris_table());
    assert!(matches!(result, Err(DetectionError::Parse(_))));
}

#[test]
fn test_detect_duplicate_app_id_not_deduplicated() {
    let libraries = vec![
        LibraryVdf { idx: 0, path: "/a".to_string(), apps: vec![281990] },
        LibraryVdf { idx: 1, path: "/b".to_string(), apps: vec![281990] },
    ];
    let games = detect_games_in_libraries(&libraries, "/home/u", &stellaris_table());
    assert_eq!(games.len(), 2);
    assert_eq!(games[0].install_path, "/a/steamapps/common/Stellaris");
    assert_eq!(games[1].install_path, "/b/steamapps/common/Stellaris");
}

#[test]
fn test_detect_order_follows_manifest() {
    let table = known_games();
    let libraries = vec![LibraryVdf {
        idx: 0,
        path: "/L".to_string(),
        apps: vec![1158310, 281990],
    }];
    let games = detect_games_in_libraries(&libraries, "/h", &table);
    assert_eq!(games.len(), 2);
    assert_eq!(games[0].game_name, "Crusader Kings III");
    assert_eq!(games[1].game_name, "Stellaris");
}

#[test]
fn test_known_games_table() {
    let table = known_games();
    assert_eq!(table.len(), 6);
    assert!(table.iter().any(|g| g.app_id == 281990 && g.game_name == "Stellaris"));
    assert!(table.iter().any(|g| g.app_id == 1158310 && g.game_name == "Crusader Kings III"));
    assert!(table
        .iter()
        .any(|g| g.app_id == 859580
            && g.game_name == "Imperator: Rome"
            && g.steam_folder == "Imperator Rome"));
}

#[test]
fn test_manifest_path_join() {
    assert_eq!(
        manifest_path("/home/u"),
        "/home/u/.steam/steam/steamapps/libraryfolders.vdf"
    );
}

#[test]
fn test_mod_directory_join() {
    let game = DetectedGame {
        app_id: 281990,
        game_name: "Stellaris".to_string(),
        install_path: String::new(),
        paradox_data_path: "/home/u/.local/share/Paradox Interactive/Stellaris".to_string(),
    };
    assert_eq!(
        mod_directory(&game),
        "/home/u/.local/share/Paradox Interactive/Stellaris/mod"
    );
}

#[test]
fn test_has_mod_extension() {
    assert!(has_mod_extension("cool_mod.mod"));
    assert!(has_mod_extension("archive.tar.mod"));
    assert!(!has_mod_extension(".mod"));
    assert!(!has_mod_extension("readme.txt"));
    assert!(!has_mod_extension("mod"));
    assert!(!has_mod_extension(""));
}

#[test]
fn test_select_mods_skips_invalid_and_foreign_files() {
    let valid = "name=\"Valid Test Mod\"\npath=\"/p\"\nremote_file_id=\"1\"\nsupported_version=\"1.0\"\n";
    let invalid = "name=\"Incomplete Mod\"\n";
    let readme = "this is not a descriptor";
    let files = vec![
        ("good.mod".to_string(), valid.to_string()),
        ("broken.mod".to_string(), invalid.to_string()),
        ("readme.txt".to_string(), readme.to_string()),
    ];
    let mods = select_mod_descriptors(&files);
    assert_eq!(mods.len(), 1);
    assert_eq!(mods[0].name, "Valid Test Mod");
    assert!(mods.iter().all(|m| m.name != "Incomplete Mod"));
}

#[test]
fn test_select_mods_empty_directory() {
    let files: Vec<(String, String)> = Vec::new();
    let mods = select_mod_descriptors(&files);
    assert!(mods.is_empty());
}

#[test]
fn test_select_mods_keeps_directory_order() {
    let one = "name=\"One\"\npath=\"/1\"\nremote_file_id=\"1\"\nsupported_version=\"1.0\"\n";
    let two = "name=\"Two\"\npath=\"/2\"\nremote_file_id=\"2\"\nsupported_version=\"1.0\"\n";
    let files = vec![
        ("b.mod".to_string(), one.to_string()),
        ("a.mod".to_string(), two.to_string()),
    ];
    let mods = select_mod_descriptors(&files);
    assert_eq!(mods.len(), 2);
    assert_eq!(mods[0].name, "One");
    assert_eq!(mods[1].name, "Two");
}
