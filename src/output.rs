use vstd::prelude::*;
use vstd::string::StringExecFns;
use std::path::Path;

verus! {

/// Directory, next to the working directory, that receives the results.
pub const OUTPUT_DIR: &'static str = "result";

/// Middle part of the name of the detailed result file.
pub const OUTPUT_DETAIL_FILE_RUST: &'static str = "_detailed_rust";

/// Middle part of the name of the short result file.
pub const OUTPUT_SHORT_FILE_RUST: &'static str = "_short_rust";

/// Extension of the result files.
pub const OUTPUT_SUFFIX: &'static str = ".csv";

/// The final component of a path, as `Path::file_name` gives it.
pub uninterp spec fn path_file_name(p: Seq<char>) -> Option<Seq<char>>;

/// The final component of a path without its extension, as
/// `Path::file_stem` gives it.
pub uninterp spec fn path_file_stem(p: Seq<char>) -> Option<Seq<char>>;

/// Two paths joined, as `Path::join` gives it.
pub uninterp spec fn path_join(a: Seq<char>, b: Seq<char>) -> Seq<char>;

/// Relies on `std::path::Path::file_name`: the final component of the path,
/// if there is one. A component of a `&str` path is valid UTF-8.
#[verifier::external_body]
fn file_name_of(p: &str) -> (r: Option<String>)
    ensures
        match r {
            Some(s) => path_file_name(p@) == Some(s@),
            None => path_file_name(p@) is None,
        },
{
    match Path::new(p).file_name() {
        Some(name) => name.to_str().map(str::to_owned),
        None => None,
    }
}

/// Relies on `std::path::Path::file_stem`: the final component of the path
/// without its extension, if there is one.
#[verifier::external_body]
fn file_stem_of(p: &str) -> (r: Option<String>)
    ensures
        match r {
            Some(s) => path_file_stem(p@) == Some(s@),
            None => path_file_stem(p@) is None,
        },
{
    match Path::new(p).file_stem() {
        Some(stem) => stem.to_str().map(str::to_owned),
        None => None,
    }
}

/// Relies on `std::path::Path::join`: `b` appended to `a` as a path. Joining
/// two `&str` paths gives valid UTF-8.
#[verifier::external_body]
fn join_path(a: &str, b: &str) -> (r: String)
    ensures
        r@ == path_join(a@, b@),
{
    Path::new(a).join(b).to_string_lossy().into_owned()
}

/// Why no result path could be derived from a building file's path.
#[derive(Debug, Clone, Copy, PartialEq, Eq, Structural)]
pub enum PathError {
    /// The path has no final component.
    NoFileName,
    /// The final component has no stem.
    NoFileStem,
}

/// The base path of the result files of a building file: the file's stem
/// in the result directory next to the working directory.
pub fn bim_basename_rust(path_to_file: &str) -> (r: Result<String, PathError>)
    ensures
        match path_file_name(path_to_file@) {
            None => r == Err::<String, PathError>(PathError::NoFileName),
            Some(name) => match path_file_stem(name) {
                None => r == Err::<String, PathError>(PathError::NoFileStem),
                Some(stem) => r matches Ok(s) && s@ == path_join(
                    path_join(".."@, OUTPUT_DIR@),
                    stem,
                ),
            },
        },
{
    let name = match file_name_of(path_to_file) {
        Some(n) => n,
        None => {
            return Err(PathError::NoFileName);
        },
    };
    let stem = match file_stem_of(name.as_str()) {
        Some(s) => s,
        None => {
            return Err(PathError::NoFileStem);
        },
    };
    let dir = join_path("..", OUTPUT_DIR);
    Ok(join_path(dir.as_str(), stem.as_str()))
}

/// The name of a result file: the base name, then the middle part, then the
/// suffix.
pub fn bim_create_file_name_rust(base_file_name: &str, middle_name: &str, suffix: &str) -> (r:
    String)
    ensures
        r@ == base_file_name@ + middle_name@ + suffix@,
{
    let mut name = base_file_name.to_owned();
    name.append(middle_name);
    name.append(suffix);
    name
}

} // verus!
