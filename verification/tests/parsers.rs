use ferrous_mod_manager::errors::{ModParseError, VdfParseError};
use ferrous_mod_manager::parser::descriptor::{parse_block_value, parse_key_value, parse_mod_file};
use ferrous_mod_manager::parser::mod_file::{clean_key_value, parse_mod_string};
use ferrous_mod_manager::parser::text::parse_u32_str;
use ferrous_mod_manager::parser::vdf::{
    parse_apps_block, parse_quoted_string, parse_tabbed_kv_pair, parse_vdf_block, parse_vdf_file,
};

#[test]
fn test_parsed_quoted_string() {
    let input = "\"test\"";
    let (remaining, result) = parse_quoted_string(input).unwrap();
    assert_eq!(remaining, "");
    assert_eq!(result, "test");
}

#[test]
fn test_tabbed_key_value_pair() {
    let input = r#""test_key"            "test_value""#;
    let (remaining, result) = parse_tabbed_kv_pair(input).unwrap();
    assert_eq!(remaining, "");
    assert_eq!(result.0, "test_key");
    assert_eq!(result.1, "test_value")
}

#[test]
fn test_apps_block() {
    let input = "\"apps\"\n\t\t{\n\t\t\t\"123\"\t\t\"1234567345\"\n\t\t\t\"12345\"\t\t\"12345454534\"\n\t\t}";

    let (remaining, result) = parse_apps_block(input).unwrap();
    assert_eq!(remaining, "");
    assert_eq!(result.0, "apps");
    assert_eq!(result.1.len(), 2);
    assert_eq!(result.1[0], ("123".to_string(), "1234567345".to_string()));
    assert_eq!(result.1[1], ("12345".to_string(), "12345454534".to_string()));
}

#[test]
fn test_vdf_block() {
    let input = "\"0\"\n        {\n            \"path\"\t\t\"/home/user/.local/share/Steam\"\n            \"label\"\t\t\"\"\n            \"contentid\"\t\t\"26525186198543\"\n            \"apps\"\n            {\n                \"123\"\t\t\"1234567345\"\n\t\t\t    \"12345\"\t\t\"12345454534\"\n            }\n        }";

    let lib_vdf = parse_vdf_block(input).unwrap();
    assert_eq!(lib_vdf.apps[0], 123);
    assert_eq!(lib_vdf.apps[1], 12345);
    assert_eq!(lib_vdf.idx, 0);
    assert_eq!(lib_vdf.path, "/home/user/.local/share/Steam");
}

#[test]
fn test_vdf_file_two_libraries() {
    let input = "\"libraryfolders\"\n{\n\t\"0\"\n\t{\n\t\t\"path\"\t\t\"/home/user/.local/share/Steam\"\n\t\t\"apps\"\n\t\t{\n\t\t\t\"1\"\t\"10\"\n\t\t\t\"2\"\t\"20\"\n\t\t\t\"3\"\t\"30\"\n\t\t\t\"4\"\t\"40\"\n\t\t\t\"5\"\t\"50\"\n\t\t\t\"6\"\t\"60\"\n\t\t}\n\t}\n\t\"1\"\n\t{\n\t\t\"path\"\t\t\"/run/media/user/drive/alt_steam_loc\"\n\t\t\"apps\"\n\t\t{\n\t\t\t\"7\"\t\"70\"\n\t\t\t\"8\"\t\"80\"\n\t\t\t\"9\"\t\"90\"\n\t\t\t\"10\"\t\"100\"\n\t\t\t\"11\"\t\"110\"\n\t\t\t\"12\"\t\"120\"\n\t\t}\n\t}\n}\n";
    let libraries = parse_vdf_file(input).unwrap();

    assert_eq!(libraries.len(), 2);

    assert_eq!(libraries[0].idx, 0);
    assert_eq!(libraries[0].path, "/home/user/.local/share/Steam");
    assert_eq!(libraries[0].apps, vec![1, 2, 3, 4, 5, 6]);

    assert_eq!(libraries[1].idx, 1);
    assert_eq!(libraries[1].path, "/run/media/user/drive/alt_steam_loc");
    assert_eq!(libraries[1].apps, vec![7, 8, 9, 10, 11, 12]);
}

#[test]
fn test_vdf_file_empty_manifest() {
    let input = "\"libraryfolders\"\n{\n}\n";
    let libraries = parse_vdf_file(input).unwrap();
    assert!(libraries.is_empty());
}

#[test]
fn test_vdf_file_empty_apps_block() {
    let input = "\"libraryfolders\"\n{\n\t\"0\"\n\t{\n\t\t\"path\"\t\"/L\"\n\t\t\"apps\"\n\t\t{\n\t\t}\n\t}\n}\n";
    let libraries = parse_vdf_file(input).unwrap();
    assert_eq!(libraries.len(), 1);
    assert!(libraries[0].apps.is_empty());
}

#[test]
fn test_vdf_block_missing_path() {
    let input = "\"0\"\n{\n\t\"label\"\t\"nothing\"\n}";
    let result = parse_vdf_block(input);
    match result {
        Err(VdfParseError::MissingField(f)) => assert_eq!(f, "path"),
        other => panic!("expected a missing-field error, got {:?}", other),
    }
}

#[test]
fn test_vdf_block_path_last_occurrence_wins() {
    let input = "\"0\"\n{\n\t\"path\"\t\"/first\"\n\t\"path\"\t\"/second\"\n}";
    let lib = parse_vdf_block(input).unwrap();
    assert_eq!(lib.path, "/second");
}

#[test]
fn test_vdf_block_bad_app_id_is_fatal() {
    let input = "\"0\"\n{\n\t\"path\"\t\"/L\"\n\t\"apps\"\n\t{\n\t\t\"abc\"\t\"1\"\n\t}\n}";
    let result = parse_vdf_block(input);
    match result {
        Err(VdfParseError::InvalidNumber(n)) => assert_eq!(n, "abc"),
        other => panic!("expected an invalid-number error, got {:?}", other),
    }
}

#[test]
fn test_vdf_block_bad_index_is_fatal() {
    let input = "\"first\"\n{\n\t\"path\"\t\"/L\"\n}";
    let result = parse_vdf_block(input);
    assert!(matches!(result, Err(VdfParseError::InvalidNumber(_))));
}

#[test]
fn test_vdf_file_malformed_is_parse_error() {
    let input = "\"libraryfolders\"\n{\n\t\"0\" { \"path\" \"/L\" }\n junk";
    let result = parse_vdf_file(input);
    assert!(matches!(result, Err(VdfParseError::ParseError(_))));
}

#[test]
fn test_vdf_unterminated_quote_is_parse_error() {
    let input = "\"libraryfolders\n{\n}";
    let result = parse_vdf_file(input);
    assert!(matches!(result, Err(VdfParseError::ParseError(_))));
}

#[test]
fn test_parse_key_value() {
    let input = r#"name="My Mod Name""#;
    let (remaining, (key, value)) = parse_key_value(input).unwrap();
    assert_eq!(key, "name");
    assert_eq!(value, "My Mod Name");
    assert_eq!(remaining, "");
}

#[test]
fn test_block_parser() {
    let input = "tags={ \"Galaxy Generation\" \"Gameplay\" }";
    let (_remaining, block_values) = parse_block_value(input).unwrap();
    assert_eq!(block_values.0, "tags");
    assert_eq!(block_values.1.len(), 2);
    assert_eq!(
        block_values.1.first().unwrap().to_string(),
        "Galaxy Generation"
    );
    assert_eq!(block_values.1.last().unwrap().to_string(), "Gameplay");
}

#[test]
fn nom_parser_test_empty_file() {
    let input = "";
    let parsed_file = parse_mod_file(input);
    assert!(matches!(parsed_file, Err(ModParseError::MissingField(_))))
}

#[test]
fn test_mod_file_all_fields() {
    let input = "name=\"My Mod Name\"\npath=\"/home/user/.local/share/Steam/steamapps/workshop/content/281990/12345\"\nremote_file_id=\"12345\"\npicture=\"thumbnail.png\"\nsupported_version=\"v4.2.*\"\nversion=\"1.1\"\ntags={ \"Galaxy Generation\" \"Gameplay\" }\n";
    let parsed_file = parse_mod_file(input).unwrap();
    assert_eq!(parsed_file.name, "My Mod Name");
    assert_eq!(
        parsed_file.path,
        "/home/user/.local/share/Steam/steamapps/workshop/content/281990/12345"
    );
    assert_eq!(parsed_file.remote_file_id, "12345");
    assert_eq!(parsed_file.picture.as_deref(), Some("thumbnail.png"));
    assert_eq!(parsed_file.supported_version, "v4.2.*");
    assert_eq!(parsed_file.version.as_deref(), Some("1.1"));
    assert_eq!(parsed_file.tags, vec!["Galaxy Generation", "Gameplay"]);
}

#[test]
fn test_mod_file_missing_each_required_field() {
    let name = "name=\"n\"\n";
    let path = "path=\"/p\"\n";
    let remote = "remote_file_id=\"1\"\n";
    let version = "supported_version=\"1.0\"\n";

    let missing_name = format!("{}{}{}", path, remote, version);
    match parse_mod_file(&missing_name) {
        Err(ModParseError::MissingField(f)) => assert_eq!(f, "name"),
        other => panic!("expected missing name, got {:?}", other),
    }

    let missing_path = format!("{}{}{}", name, remote, version);
    match parse_mod_file(&missing_path) {
        Err(ModParseError::MissingField(f)) => assert_eq!(f, "path"),
        other => panic!("expected missing path, got {:?}", other),
    }

    let missing_remote = format!("{}{}{}", name, path, version);
    match parse_mod_file(&missing_remote) {
        Err(ModParseError::MissingField(f)) => assert_eq!(f, "remote_file_id"),
        other => panic!("expected missing remote_file_id, got {:?}", other),
    }

    let missing_version = format!("{}{}{}", name, path, remote);
    match parse_mod_file(&missing_version) {
        Err(ModParseError::MissingField(f)) => assert_eq!(f, "supported_version"),
        other => panic!("expected missing supported_version, got {:?}", other),
    }
}

#[test]
fn test_mod_file_tags_round_trip() {
    let input =
        "name=\"n\"\npath=\"/p\"\nremote_file_id=\"1\"\nsupported_version=\"1.0\"\ntags={ \"A\" \"B\" }\n";
    let parsed = parse_mod_file(input).unwrap();
    assert_eq!(parsed.tags, vec!["A", "B"]);

    let no_tags = "name=\"n\"\npath=\"/p\"\nremote_file_id=\"1\"\nsupported_version=\"1.0\"\n";
    let parsed = parse_mod_file(no_tags).unwrap();
    assert_eq!(parsed.tags, Vec::<String>::new());
}

#[test]
fn test_mod_file_last_occurrence_wins() {
    let input =
        "name=\"first\"\nname=\"second\"\npath=\"/p\"\nremote_file_id=\"1\"\nsupported_version=\"1.0\"\n";
    let parsed = parse_mod_file(input).unwrap();
    assert_eq!(parsed.name, "second");
}

#[test]
fn test_mod_file_unknown_keys_ignored() {
    let input =
        "name=\"n\"\nfancy_new_key=\"x\"\npath=\"/p\"\nremote_file_id=\"1\"\nsupported_version=\"1.0\"\nfuture_list={ \"a\" }\n";
    let parsed = parse_mod_file(input).unwrap();
    assert_eq!(parsed.name, "n");
}

#[test]
fn test_mod_file_junk_is_parse_error() {
    let input = "name=\"n\" ???";
    let result = parse_mod_file(input);
    assert!(matches!(result, Err(ModParseError::ParseError(_))));
}

#[test]
fn test_no_tags() {
    let input =
        "name=\"Test\"\npath=\"/some/path\"\nsupported_version=\"1.0\"\nremote_file_id=\"123\"";
    let output = parse_mod_string(input).unwrap();
    assert_eq!(output.tags.len(), 0);
}

#[test]
fn mod_file_test_empty_file() {
    let input = "";
    let output = parse_mod_string(input);
    assert!(matches!(output, Err(ModParseError::MissingField(_))))
}

#[test]
fn test_mod_string_full_descriptor() {
    let input = "name=\"My Mod Name\"\npath=\"/p\"\nremote_file_id=\"12345\"\nsupported_version=\"v4.2.*\"\ntags={\n\t\"Galaxy Generation\"\n\t\"Gameplay\"\n}\n";
    let output = parse_mod_string(input).unwrap();
    assert_eq!(output.name, "My Mod Name");
    assert_eq!(output.path, "/p");
    assert_eq!(output.remote_file_id, "12345");
    assert_eq!(output.supported_version, "v4.2.*");
    assert_eq!(output.tags, vec!["Galaxy Generation", "Gameplay"]);
    assert_eq!(output.picture, None);
    assert_eq!(output.version, None);
}

#[test]
fn test_clean_key_value() {
    let cleaned = clean_key_value(("  \"name\" ", " \"My Mod\"  "));
    assert_eq!(cleaned.0, "name");
    assert_eq!(cleaned.1, "My Mod");
}

#[test]
fn test_parse_key_value_empty_value() {
    let (remaining, (key, value)) = parse_key_value("name=\"\"").unwrap();
    assert_eq!(remaining, "");
    assert_eq!(key, "name");
    assert_eq!(value, "");
}

#[test]
fn test_mod_file_empty_value_counts_as_set() {
    let input = "name=\"\"\npath=\"/p\"\nremote_file_id=\"1\"\nsupported_version=\"1.0\"\n";
    let parsed = parse_mod_file(input).unwrap();
    assert_eq!(parsed.name, "");
}

#[test]
fn test_mod_file_empty_tag_item() {
    let input =
        "name=\"n\"\npath=\"/p\"\nremote_file_id=\"1\"\nsupported_version=\"1.0\"\ntags={ \"\" \"A\" }\n";
    let parsed = parse_mod_file(input).unwrap();
    assert_eq!(parsed.tags, vec!["", "A"]);
}

#[test]
fn test_mod_string_foreign_block_is_not_tags() {
    let input = "name=\"n\"\npath=\"/p\"\nremote_file_id=\"1\"\nsupported_version=\"1.0\"\ndependencies={\n\t\"Other Mod\"\n}\ntags={\n\t\"A\"\n}\n";
    let output = parse_mod_string(input).unwrap();
    assert_eq!(output.tags, vec!["A"]);
}

#[test]
fn test_parse_u32_values() {
    assert_eq!(parse_u32_str("0"), Some(0));
    assert_eq!(parse_u32_str("281990"), Some(281990));
    assert_eq!(parse_u32_str("4294967295"), Some(u32::MAX));
    assert_eq!(parse_u32_str("4294967296"), None);
    assert_eq!(parse_u32_str(""), None);
    assert_eq!(parse_u32_str("12a"), None);
    assert_eq!(parse_u32_str("-1"), None);
}
