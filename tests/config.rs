use confix::{
    config_from_pairs, detect_format, format_from_parts, load_config_file, parse_config,
    ConfigMap, ConfigSource, ConfixError, FileContents, Format,
};

fn text_source(path: &str, text: &str) -> ConfigSource {
    ConfigSource { path: path.to_string(), contents: FileContents::Text(text.to_string()) }
}

// A dotenv file is recognised by its `env` extension (or the bare name `.env`),
// so the file here carries one.
#[test]
fn test_load_dotenv_file() {
    let source = text_source("settings.env", "DATABASE_URL=postgres://...\nAPI_KEY=12345\n");
    let config = load_config_file(&source).unwrap();
    assert_eq!(config.get("DATABASE_URL").unwrap(), "postgres://...");
    assert_eq!(config.get("API_KEY").unwrap(), "12345");
}

#[test]
fn test_load_json_file() {
    let source = text_source("./.tmpconfix.json", r#"{"DATABASE_URL": "json://...", "API_KEY": "abc"}"#);
    let config = load_config_file(&source).unwrap();
    assert_eq!(config.get("DATABASE_URL").unwrap(), "json://...");
    assert_eq!(config.get("API_KEY").unwrap(), "abc");
}

#[test]
fn test_load_toml_file() {
    let source = text_source("./.tmpconfix.toml", "DATABASE_URL = \"toml://...\"\nAPI_KEY = \"xyz\"");
    let config = load_config_file(&source).unwrap();
    assert_eq!(config.get("DATABASE_URL").unwrap(), "toml://...");
    assert_eq!(config.get("API_KEY").unwrap(), "xyz");
}

#[test]
fn test_load_dotenv_no_extension() {
    let source = text_source(".env", "SECRET=from-dotenv");
    let config = load_config_file(&source).unwrap();
    assert_eq!(config.get("SECRET").unwrap(), "from-dotenv");
}

#[test]
fn test_file_not_found() {
    let source = ConfigSource { path: "nonexistent.file".to_string(), contents: FileContents::Missing };
    let result = load_config_file(&source);
    assert!(matches!(result, Err(ConfixError::FileNotFound(_))));
}

#[test]
fn test_unsupported_format() {
    let source = text_source("./.tmpconfix.txt", "hello=world");
    let result = load_config_file(&source);
    assert!(matches!(result, Err(ConfixError::UnsupportedFormat(_))));
}

#[test]
fn missing_file_wins_over_every_extension() {
    for path in ["gone.json", "gone.toml", "gone.env", ".env", "gone.txt", "gone"] {
        let source = ConfigSource { path: path.to_string(), contents: FileContents::Missing };
        match load_config_file(&source) {
            Err(ConfixError::FileNotFound(p)) => assert_eq!(p, path),
            other => panic!("unexpected result for {}: {:?}", path, other),
        }
    }
}

#[test]
fn unsupported_format_names_the_exact_path() {
    for path in ["conf/app.txt", "app.ENV", "app.Json", "app.yaml", "noext", "dir/.envrc"] {
        let source = text_source(path, "A=1");
        match load_config_file(&source) {
            Err(ConfixError::UnsupportedFormat(p)) => assert_eq!(p, path),
            other => panic!("unexpected result for {}: {:?}", path, other),
        }
    }
}

#[test]
fn unsupported_format_comes_before_read_failure() {
    let source = ConfigSource {
        path: "app.ini".to_string(),
        contents: FileContents::Unreadable("permission denied".to_string()),
    };
    match load_config_file(&source) {
        Err(ConfixError::UnsupportedFormat(p)) => assert_eq!(p, "app.ini"),
        other => panic!("unexpected result: {:?}", other),
    }
}

#[test]
fn read_failure_of_supported_file_is_io_error() {
    let source = ConfigSource {
        path: "app.json".to_string(),
        contents: FileContents::Unreadable("permission denied".to_string()),
    };
    match load_config_file(&source) {
        Err(ConfixError::Io(m)) => assert_eq!(m, "permission denied"),
        other => panic!("unexpected result: {:?}", other),
    }
}

#[test]
fn three_formats_load_the_same_two_keys() {
    let sources = [
        text_source("a.env", "DATABASE_URL=postgres://...\nAPI_KEY=12345"),
        text_source("a.json", r#"{"DATABASE_URL": "postgres://...", "API_KEY": "12345"}"#),
        text_source("a.toml", "DATABASE_URL = \"postgres://...\"\nAPI_KEY = \"12345\""),
    ];
    for source in sources.iter() {
        let config = load_config_file(source).unwrap();
        assert_eq!(config.len(), 2);
        assert_eq!(config.get("DATABASE_URL").unwrap(), "postgres://...");
        assert_eq!(config.get("API_KEY").unwrap(), "12345");
    }
}

#[test]
fn json_with_non_string_value_is_json_error() {
    let result = load_config_file(&text_source("a.json", r#"{"PORT": 8080}"#));
    assert!(matches!(result, Err(ConfixError::Json(_))));
    let result = load_config_file(&text_source("a.json", r#"["A", "B"]"#));
    assert!(matches!(result, Err(ConfixError::Json(_))));
    let result = load_config_file(&text_source("a.json", "{"));
    assert!(matches!(result, Err(ConfixError::Json(_))));
}

#[test]
fn toml_with_nested_table_is_toml_error() {
    let result = load_config_file(&text_source("a.toml", "[server]\nhost = \"x\""));
    assert!(matches!(result, Err(ConfixError::Toml(_))));
    let result = load_config_file(&text_source("a.toml", "PORT = 8080"));
    assert!(matches!(result, Err(ConfixError::Toml(_))));
}

#[test]
fn malformed_dotenv_line_is_dotenv_error() {
    let result = load_config_file(&text_source("a.env", "GOOD=1\nBAD LINE HERE\n"));
    assert!(matches!(result, Err(ConfixError::Dotenv(_))));
}

#[test]
fn dotenv_later_line_wins() {
    let config = parse_config(Format::Dotenv, "A=1\nB=2\nA=3\n").unwrap();
    assert_eq!(config.len(), 2);
    assert_eq!(config.get("A").unwrap(), "3");
    assert_eq!(config.get("B").unwrap(), "2");
}

#[test]
fn empty_files_give_empty_maps() {
    assert_eq!(parse_config(Format::Dotenv, "").unwrap().len(), 0);
    assert_eq!(parse_config(Format::Json, "{}").unwrap().len(), 0);
    assert_eq!(parse_config(Format::Toml, "").unwrap().len(), 0);
}

#[test]
fn detect_format_by_extension_and_name() {
    assert_eq!(detect_format("dir/app.env"), Some(Format::Dotenv));
    assert_eq!(detect_format("dir/app.json"), Some(Format::Json));
    assert_eq!(detect_format("/etc/app.toml"), Some(Format::Toml));
    assert_eq!(detect_format("./.env"), Some(Format::Dotenv));
    assert_eq!(detect_format(".env"), Some(Format::Dotenv));
    assert_eq!(detect_format("app.tar.json"), Some(Format::Json));
    assert_eq!(detect_format("env"), None);
    assert_eq!(detect_format("json"), None);
    assert_eq!(detect_format(".json"), None);
    assert_eq!(detect_format("app.TOML"), None);
}

#[test]
fn format_from_parts_prefers_extension() {
    assert_eq!(format_from_parts(Some("json"), Some(".env")), Some(Format::Json));
    assert_eq!(format_from_parts(None, Some(".env")), Some(Format::Dotenv));
    assert_eq!(format_from_parts(Some("txt"), Some(".env")), Some(Format::Dotenv));
    assert_eq!(format_from_parts(Some("txt"), Some("a.txt")), None);
    assert_eq!(format_from_parts(None, None), None);
}

#[test]
fn pairs_later_value_wins() {
    let pairs = vec![
        ("K".to_string(), "1".to_string()),
        ("L".to_string(), "2".to_string()),
        ("K".to_string(), "3".to_string()),
    ];
    let config = config_from_pairs(pairs);
    assert_eq!(config.len(), 2);
    assert_eq!(config.get("K").unwrap(), "3");
    assert_eq!(config.get("L").unwrap(), "2");
    assert!(config.get("M").is_none());
}

#[test]
fn config_map_insert_and_extend() {
    let mut a = ConfigMap::new();
    assert_eq!(a.len(), 0);
    a.insert("X".to_string(), "1".to_string());
    a.insert("Y".to_string(), "2".to_string());
    a.insert("X".to_string(), "3".to_string());
    assert_eq!(a.len(), 2);
    let mut b = ConfigMap::new();
    b.insert("Y".to_string(), "9".to_string());
    b.insert("Z".to_string(), "8".to_string());
    a.extend(b);
    assert_eq!(a.len(), 3);
    assert_eq!(a.get("X").unwrap(), "3");
    assert_eq!(a.get("Y").unwrap(), "9");
    assert_eq!(a.get("Z").unwrap(), "8");
    assert_eq!(a.entries().len(), 3);
}

#[test]
fn error_messages() {
    let e = ConfixError::FileNotFound("a.env".to_string());
    assert_eq!(e.message(), "Configuration file not found: a.env");
    let e = ConfixError::UnsupportedFormat("a.txt".to_string());
    assert_eq!(e.message(), "Unsupported file format for: a.txt");
    let e = ConfixError::Io("denied".to_string());
    assert_eq!(e.message(), "IO error: denied");
    let e = ConfixError::CommandFailed("No command provided.".to_string());
    assert_eq!(e.message(), "Command execution failed: No command provided.");
    let e = load_config_file(&text_source("a.json", "{")).unwrap_err();
    assert!(e.message().starts_with("JSON parsing error: "));
    assert!(e.message().len() > "JSON parsing error: ".len());
}

#[test]
fn unreadable_dotenv_file_is_dotenv_error() {
    for path in ["secrets.env", ".env"] {
        let source = ConfigSource {
            path: path.to_string(),
            contents: FileContents::Unreadable("permission denied".to_string()),
        };
        match load_config_file(&source) {
            Err(e @ ConfixError::Dotenv(_)) => {
                assert_eq!(e.message(), "Dotenv error: permission denied")
            }
            other => panic!("unexpected result for {}: {:?}", path, other),
        }
    }
}

#[test]
fn parse_error_message_carries_the_parser_text() {
    match load_config_file(&text_source("a.json", "{")) {
        Err(ConfixError::Json(inner)) => {
            let e = ConfixError::Json(inner);
            let text = match &e {
                ConfixError::Json(i) => i.to_string(),
                _ => unreachable!(),
            };
            assert_eq!(e.message(), format!("JSON parsing error: {}", text));
        }
        other => panic!("unexpected result: {:?}", other),
    }
}

#[test]
fn dotenv_keys_come_from_the_text_whatever_the_values() {
    let text = "export FIRST=1\nSECOND=${FIRST}\nTHIRD=$CONFIX_SURELY_UNSET_NAME\n# note\n";
    let config = parse_config(Format::Dotenv, text).unwrap();
    assert_eq!(config.len(), 3);
    assert_eq!(config.get("FIRST").unwrap(), "1");
    assert!(config.get("SECOND").is_some());
    assert!(config.get("THIRD").is_some());
    assert!(config.get("note").is_none());
}
