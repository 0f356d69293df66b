//! Source resolution: naming the cached compilation artifacts. An artifact
//! lies at `out/<SourceFile.sol>/<ContractName>.json`; its contract is named
//! after the file and its source file after the directory.

use vstd::prelude::*;
use crate::decode::opt_text;

verus! {

/// The file stem of a path (`Path::file_stem`), when it has one.
pub uninterp spec fn path_file_stem(path: Seq<char>) -> Option<Seq<char>>;

/// The parent of a path (`Path::parent`), when it has one.
pub uninterp spec fn path_parent(path: Seq<char>) -> Option<Seq<char>>;

/// The last component of a path (`Path::file_name`), when it is a name.
pub uninterp spec fn path_file_name(path: Seq<char>) -> Option<Seq<char>>;

/// `std::path::Path::file_stem`: the final component without its extension.
#[verifier::external_body]
fn file_stem(path: &str) -> (r: Option<String>)
    ensures
        opt_text(r) == path_file_stem(path@),
{
    std::path::Path::new(path).file_stem().and_then(|s| s.to_str()).map(|s| s.to_string())
}

/// `std::path::Path::parent`: the path without its final component.
#[verifier::external_body]
fn parent(path: &str) -> (r: Option<String>)
    ensures
        opt_text(r) == path_parent(path@),
{
    std::path::Path::new(path).parent().and_then(|p| p.to_str()).map(|s| s.to_string())
}

/// `std::path::Path::file_name`: the final component.
#[verifier::external_body]
fn file_name(path: &str) -> (r: Option<String>)
    ensures
        opt_text(r) == path_file_name(path@),
{
    std::path::Path::new(path).file_name().and_then(|s| s.to_str()).map(|s| s.to_string())
}

/// The name of an artifact's contract (its file stem, else `Unknown`) and
/// of its source file (the name of its directory, else `Unknown.sol`).
pub open spec fn artifact_names(stem: Option<Seq<char>>, dir_name: Option<Seq<char>>) -> (Seq<char>, Seq<char>) {
    (
        match stem {
            Some(s) => s,
            None => "Unknown"@,
        },
        match dir_name {
            Some(d) => d,
            None => "Unknown.sol"@,
        },
    )
}

/// The directory name of a path: the file name of its parent.
pub open spec fn dir_name_of(path: Seq<char>) -> Option<Seq<char>> {
    match path_parent(path) {
        Some(p) => path_file_name(p),
        None => None,
    }
}

/// Contract and source file names from the file stem and directory name of
/// an artifact's path, with their defaults.
pub fn artifact_names_from(stem: Option<String>, dir_name: Option<String>) -> (r: (String, String))
    ensures
        (r.0@, r.1@) == artifact_names(opt_text(stem), opt_text(dir_name)),
{
    let contract = match stem {
        Some(s) => s,
        None => "Unknown".to_owned(),
    };
    let source = match dir_name {
        Some(d) => d,
        None => "Unknown.sol".to_owned(),
    };
    (contract, source)
}

/// The contract name and source file name of a cached artifact at `path`
/// (`out/Token.sol/Token.json` -> (`Token`, `Token.sol`)).
pub fn artifact_identity(path: &str) -> (r: (String, String))
    ensures
        (r.0@, r.1@) == artifact_names(path_file_stem(path@), dir_name_of(path@)),
{
    let stem = file_stem(path);
    let dir = match parent(path) {
        Some(p) => file_name(p.as_str()),
        None => None,
    };
    artifact_names_from(stem, dir)
}

/// The source file of an artifact at `out/<D>/<C>.json` is `D`, the name of
/// the directory that holds it, whatever the artifact's own name; its
/// contract is `C`, the file stem, whatever the directory. So two artifacts
/// in one directory share their source file, and two with one file stem
/// share their contract name.
pub proof fn lemma_artifact_names_split(p1: Seq<char>, p2: Seq<char>)
    ensures
        path_parent(p1) == path_parent(p2) ==> artifact_names(path_file_stem(p1), dir_name_of(p1)).1
            == artifact_names(path_file_stem(p2), dir_name_of(p2)).1,
        path_file_stem(p1) == path_file_stem(p2) ==> artifact_names(path_file_stem(p1), dir_name_of(p1)).0
            == artifact_names(path_file_stem(p2), dir_name_of(p2)).0,
        match path_parent(p1) {
            Some(q) => match path_file_name(q) {
                Some(d) => artifact_names(path_file_stem(p1), dir_name_of(p1)).1 == d,
                None => artifact_names(path_file_stem(p1), dir_name_of(p1)).1 == "Unknown.sol"@,
            },
            None => artifact_names(path_file_stem(p1), dir_name_of(p1)).1 == "Unknown.sol"@,
        },
        match path_file_stem(p1) {
            Some(c) => artifact_names(path_file_stem(p1), dir_name_of(p1)).0 == c,
            None => artifact_names(path_file_stem(p1), dir_name_of(p1)).0 == "Unknown"@,
        },
{
}

} // verus!
