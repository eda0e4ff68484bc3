use rust_ast_gen::config::{ConfigError, RustAstGenConfig};
use std::path::PathBuf;

fn text(path: &PathBuf) -> String {
    path.to_string_lossy().to_string()
}

/// Paths such as `C:\input` are absolute only where Windows path rules apply.
fn windows_paths() -> bool {
    std::path::MAIN_SEPARATOR == '\\'
}

/// Paths such as `/input` are absolute only where Unix path rules apply.
fn unix_paths() -> bool {
    std::path::MAIN_SEPARATOR == '/'
}

#[test]
fn test_make_output_path_for_input_file_success_unix() {
    if !unix_paths() {
        return;
    }
    let input_dir = PathBuf::from("/input");
    let output_dir = PathBuf::from("/output");
    let config = RustAstGenConfig::new(text(&input_dir), text(&output_dir), 1).ok().unwrap();

    let input_file = input_dir.join("subdir").join("file.rs");
    let output_file = config.make_output_path_for_input_file(&text(&input_file)).ok().unwrap();

    let expected_output_file = output_dir.join("subdir").join("file.rs.json");
    assert_eq!(output_file, text(&expected_output_file));
}

#[test]
fn test_make_output_path_for_input_file_success_windows() {
    if !windows_paths() {
        return;
    }
    let input_dir = PathBuf::from(r"C:\input");
    let output_dir = PathBuf::from(r"C:\output");
    let config = RustAstGenConfig::new(text(&input_dir), text(&output_dir), 1).ok().unwrap();

    let input_file = input_dir.join("subdir").join("file.rs");
    let output_file = config.make_output_path_for_input_file(&text(&input_file)).ok().unwrap();

    let expected_output_file = output_dir.join("subdir").join("file.rs.json");
    assert_eq!(output_file, text(&expected_output_file));
}

#[test]
fn test_make_output_path_for_input_file_not_under_input_dir_unix() {
    if !unix_paths() {
        return;
    }
    let input_dir = PathBuf::from("/input");
    let output_dir = PathBuf::from("/output");
    let config = RustAstGenConfig::new(text(&input_dir), text(&output_dir), 1).ok().unwrap();

    let other_file = PathBuf::from("/other/file.rs");
    let result = config.make_output_path_for_input_file(&text(&other_file));

    assert!(result.is_err());
    let error_message = result.err().unwrap().message();
    assert!(error_message.contains("not able to relativize"));
}

#[test]
fn test_make_output_path_for_input_file_not_under_input_dir_windows() {
    if !windows_paths() {
        return;
    }
    let input_dir = PathBuf::from(r"C:\input");
    let output_dir = PathBuf::from(r"C:\output");
    let config = RustAstGenConfig::new(text(&input_dir), text(&output_dir), 1).ok().unwrap();

    let other_file = PathBuf::from(r"C:\other\file.rs");
    let result = config.make_output_path_for_input_file(&text(&other_file));

    assert!(result.is_err());
    let error_message = result.err().unwrap().message();
    assert!(error_message.contains("not able to relativize"));
}

#[test]
fn relative_directories_are_refused() {
    let input = RustAstGenConfig::new("input".to_string(), "/output".to_string(), 4);
    match input {
        Err(ConfigError::InputNotAbsolute(p)) => assert_eq!(p, "input"),
        _ => panic!("expected the input directory to be refused"),
    }
    let output = RustAstGenConfig::new("/input".to_string(), "output".to_string(), 4);
    match output {
        Err(e) => assert_eq!(e.message(), "output path must be absolute: output"),
        Ok(_) => panic!("expected the output directory to be refused"),
    }
    let both = RustAstGenConfig::new("a".to_string(), "b".to_string(), 4);
    match both {
        Err(e) => assert_eq!(e.message(), "input path must be absolute: a"),
        Ok(_) => panic!("expected the input directory to be refused first"),
    }
}

#[test]
fn configuration_keeps_its_values() {
    let config = RustAstGenConfig::new("/in".to_string(), "/out".to_string(), 3).ok().unwrap();
    assert_eq!(config.input_dir_full_path, "/in");
    assert_eq!(config.output_dir_full_path, "/out");
    assert_eq!(config.cargo_worker_threads, 3);
}

#[test]
fn not_relativized_message_names_both_paths() {
    let config = RustAstGenConfig::new("/input".to_string(), "/output".to_string(), 1).ok().unwrap();
    let e = config.make_output_path_for_input_file(&"/inputs/a.rs".to_string()).err().unwrap();
    assert_eq!(e.message(), "not able to relativize /inputs/a.rs under /input");
}

#[test]
fn input_directory_itself_maps_to_output_directory_json() {
    let config = RustAstGenConfig::new("/input".to_string(), "/output".to_string(), 1).ok().unwrap();
    let out = config.make_output_path_for_input_file(&"/input/a.rs".to_string()).ok().unwrap();
    assert_eq!(out, "/output/a.rs.json");
}
