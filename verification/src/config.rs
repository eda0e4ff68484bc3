//! Where the generator reads Rust sources and where it writes their JSON.

use vstd::prelude::*;
use vstd::string::StringExecFns;

verus! {

/// Whether std's `Path::is_absolute` holds of the path.
pub uninterp spec fn path_is_absolute(path: Seq<char>) -> bool;

/// What std's `Path::strip_prefix` leaves of `path` once `base` is removed
/// from its front, or `None` where `base` is not a prefix of it.
pub uninterp spec fn path_strip_prefix(path: Seq<char>, base: Seq<char>) -> Option<Seq<char>>;

/// The path that std's `Path::join` makes of `base` followed by `rest`.
pub uninterp spec fn path_join(base: Seq<char>, rest: Seq<char>) -> Seq<char>;

/// The path that std's `Path::with_added_extension` makes by adding
/// `extension` to the path.
pub uninterp spec fn path_with_added_extension(path: Seq<char>, extension: Seq<char>) -> Seq<char>;

/// Calls `std::path::Path::is_absolute` on the path.
/// Claimed: the result is the named `path_is_absolute`; std decides it by the
/// path grammar of the platform the crate is built for.
#[verifier::external_body]
fn is_absolute(path: &str) -> (res: bool)
    ensures
        res == path_is_absolute(path@),
{
    std::path::Path::new(path).is_absolute()
}

/// Calls `std::path::Path::strip_prefix` and gives the rest back as text.
/// Claimed: the result is the named `path_strip_prefix`; the rest of a path
/// given as text is text, so reading it back loses nothing.
#[verifier::external_body]
pub(crate) fn strip_prefix(path: &str, base: &str) -> (res: Option<String>)
    ensures
        match res {
            Some(rest) => path_strip_prefix(path@, base@) == Some(rest@),
            None => path_strip_prefix(path@, base@) is None,
        },
{
    std::path::Path::new(path).strip_prefix(base).ok().map(|rest| rest.to_string_lossy().into_owned())
}

/// Calls `std::path::Path::join` and gives the result back as text.
/// Claimed: the result is the named `path_join`.
#[verifier::external_body]
fn join(base: &str, rest: &str) -> (res: String)
    ensures
        res@ == path_join(base@, rest@),
{
    std::path::Path::new(base).join(rest).to_string_lossy().into_owned()
}

/// Calls `std::path::Path::with_added_extension` and gives the result back as
/// text. std panics on an extension that holds a path separator, so the
/// extension holds neither `/` nor `\`.
/// Claimed: the result is the named `path_with_added_extension`.
#[verifier::external_body]
fn with_added_extension(path: &str, extension: &str) -> (res: String)
    requires
        !extension@.contains('/'),
        !extension@.contains('\\'),
    ensures
        res@ == path_with_added_extension(path@, extension@),
{
    std::path::Path::new(path).with_added_extension(extension).to_string_lossy().into_owned()
}

/// Why a configuration or an output path could not be made.
#[derive(Debug)]
pub enum ConfigError {
    /// The input directory is not an absolute path.
    InputNotAbsolute(String),
    /// The output directory is not an absolute path.
    OutputNotAbsolute(String),
    /// A source file lies outside the input directory.
    NotUnderInputDir { file: String, dir: String },
}

impl ConfigError {
    /// The text that describes the error.
    pub open spec fn spec_message(&self) -> Seq<char> {
        match self {
            ConfigError::InputNotAbsolute(p) => "input path must be absolute: "@ + p@,
            ConfigError::OutputNotAbsolute(p) => "output path must be absolute: "@ + p@,
            ConfigError::NotUnderInputDir { file, dir } => "not able to relativize "@ + file@
                + " under "@ + dir@,
        }
    }

    /// The text that describes the error.
    pub fn message(&self) -> (res: String)
        ensures
            res@ == self.spec_message(),
    {
        match self {
            ConfigError::InputNotAbsolute(p) => {
                let mut m = "input path must be absolute: ".to_owned();
                m.append(p.as_str());
                m
            },
            ConfigError::OutputNotAbsolute(p) => {
                let mut m = "output path must be absolute: ".to_owned();
                m.append(p.as_str());
                m
            },
            ConfigError::NotUnderInputDir { file, dir } => {
                let mut m = "not able to relativize ".to_owned();
                m.append(file.as_str());
                m.append(" under ");
                m.append(dir.as_str());
                m
            },
        }
    }
}

/// Where the generator reads Rust sources and where it writes their JSON.
pub struct RustAstGenConfig {
    pub input_dir_full_path: String,
    pub output_dir_full_path: String,
    pub cargo_worker_threads: usize,
}

impl RustAstGenConfig {
    /// A configuration with the two directories, which must be absolute paths,
    /// and the number of worker threads.
    pub fn new(
        input_dir_full_path: String,
        output_dir_full_path: String,
        num_threads: usize,
    ) -> (res: Result<RustAstGenConfig, ConfigError>)
        ensures
            match res {
                Ok(c) => path_is_absolute(input_dir_full_path@) && path_is_absolute(output_dir_full_path@)
                    && c.input_dir_full_path@ == input_dir_full_path@
                    && c.output_dir_full_path@ == output_dir_full_path@
                    && c.cargo_worker_threads == num_threads,
                Err(e) => if !path_is_absolute(input_dir_full_path@) {
                    e == ConfigError::InputNotAbsolute(input_dir_full_path)
                } else {
                    !path_is_absolute(output_dir_full_path@)
                        && e == ConfigError::OutputNotAbsolute(output_dir_full_path)
                },
            },
    {
        match Self::ensure_paths_are_absolute(&input_dir_full_path, &output_dir_full_path) {
            Ok(()) => Ok(RustAstGenConfig {
                input_dir_full_path,
                output_dir_full_path,
                cargo_worker_threads: num_threads,
            }),
            Err(e) => Err(e),
        }
    }

    fn ensure_paths_are_absolute(input_path: &String, output_path: &String) -> (res: Result<(), ConfigError>)
        ensures
            match res {
                Ok(()) => path_is_absolute(input_path@) && path_is_absolute(output_path@),
                Err(e) => if !path_is_absolute(input_path@) {
                    e == ConfigError::InputNotAbsolute(*input_path)
                } else {
                    !path_is_absolute(output_path@) && e == ConfigError::OutputNotAbsolute(*output_path)
                },
            },
    {
        if !is_absolute(input_path.as_str()) {
            return Err(ConfigError::InputNotAbsolute(input_path.clone()));
        }
        if !is_absolute(output_path.as_str()) {
            return Err(ConfigError::OutputNotAbsolute(output_path.clone()));
        }
        Ok(())
    }

    /// The path of the JSON file for a source file: the file's path relative
    /// to the input directory, joined to the output directory, with `json`
    /// added as a further extension. A file outside the input directory has
    /// none.
    pub fn make_output_path_for_input_file(&self, input_file_path: &String) -> (res: Result<String, ConfigError>)
        ensures
            match path_strip_prefix(input_file_path@, self.input_dir_full_path@) {
                Some(rest) => res matches Ok(p) && p@ == path_with_added_extension(
                    path_join(self.output_dir_full_path@, rest),
                    "json"@,
                ),
                None => res == Err::<String, ConfigError>(ConfigError::NotUnderInputDir {
                    file: *input_file_path,
                    dir: self.input_dir_full_path,
                }),
            },
    {
        match strip_prefix(input_file_path.as_str(), self.input_dir_full_path.as_str()) {
            None => Err(ConfigError::NotUnderInputDir {
                file: input_file_path.clone(),
                dir: self.input_dir_full_path.clone(),
            }),
            Some(relative_to_input_path) => {
                let joined = join(self.output_dir_full_path.as_str(), relative_to_input_path.as_str());
                proof {
                    reveal_strlit("json");
                }
                Ok(with_added_extension(joined.as_str(), "json"))
            },
        }
    }
}

} // verus!
