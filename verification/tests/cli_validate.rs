use rust_ast_gen::cli::{CliError, PathStatus, RustAstGenCliArgs};

fn args() -> RustAstGenCliArgs {
    RustAstGenCliArgs { input_dir: "/in".to_string(), output_dir: "/out".to_string() }
}

const DIR: PathStatus = PathStatus { exists: true, is_dir: true };
const FILE: PathStatus = PathStatus { exists: true, is_dir: false };
const MISSING: PathStatus = PathStatus { exists: false, is_dir: false };

#[test]
fn existing_directories_are_accepted() {
    assert!(args().validate(DIR, DIR).is_ok());
    assert!(args().validate(DIR, MISSING).is_ok());
}

#[test]
fn missing_input_is_refused() {
    match args().validate(MISSING, DIR) {
        Err(e) => {
            assert!(matches!(e, CliError::InputMissing(_)));
            assert_eq!(e.message(), "input path does not exist: /in");
        },
        Ok(()) => panic!("expected an error"),
    }
}

#[test]
fn input_file_is_refused() {
    match args().validate(FILE, FILE) {
        Err(e) => assert_eq!(e.message(), "input path is not a directory: /in"),
        Ok(()) => panic!("expected an error"),
    }
}

#[test]
fn output_file_is_refused() {
    match args().validate(DIR, FILE) {
        Err(e) => {
            assert!(matches!(e, CliError::OutputNotDir(_)));
            assert_eq!(e.message(), "output path is not a directory: /out");
        },
        Ok(()) => panic!("expected an error"),
    }
}
