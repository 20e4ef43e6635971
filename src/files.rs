//! Saved histories in files named after their user, one per storage format.

use vstd::prelude::*;

verus! {

/// The extensions of the file formats.
pub open spec fn is_file_extension(ext: Seq<char>) -> bool {
    ext == "csv"@ || ext == "json"@
}

/// Whether `extension` names a file format.
pub fn validate_extension(extension: &str) -> (r: bool)
    ensures
        r == is_file_extension(extension@),
{
    let ext = String::from_str(extension);
    ext == String::from_str("csv") || ext == String::from_str("json")
}

/// The file a user's history is kept in, in the working directory.
pub open spec fn file_name_of(username: Seq<char>, extension: Seq<char>) -> Seq<char> {
    username + "."@ + extension
}

pub fn build_file_path(username: &str, extension: &str) -> (r: String)
    requires
        is_file_extension(extension@),
    ensures
        r@ == file_name_of(username@, extension@),
{
    let mut path = String::from_str(username);
    path.append(".");
    path.append(extension);
    path
}

/// Relies on `std::path::Path::exists`: whether something exists at `path`
/// at the moment of the call.
#[verifier::external_body]
pub(crate) fn path_exists(path: &str) -> (r: bool) {
    std::path::Path::new(path).exists()
}

/// Whether the user's history file in the given format exists.
pub fn check_if_file_exists(username: &str, extension: &str) -> (r: bool)
    requires
        is_file_extension(extension@),
{
    let path = build_file_path(username, extension);
    path_exists(path.as_str())
}

pub fn check_if_csv_exists(username: &str) -> (r: bool) {
    proof {
        reveal_strlit("csv");
    }
    check_if_file_exists(username, "csv")
}

/// The format to read: CSV where that file exists, else JSON where that one does.
pub fn first_existing_format(csv_exists: bool, json_exists: bool) -> (r: Option<&'static str>)
    ensures
        csv_exists ==> r is Some && r->0@ == "csv"@,
        !csv_exists && json_exists ==> r is Some && r->0@ == "json"@,
        !csv_exists && !json_exists ==> r is None,
{
    if csv_exists {
        Some("csv")
    } else if json_exists {
        Some("json")
    } else {
        None
    }
}

/// The format of the user's history file, looking for CSV first.
pub fn find_which_file_exists(username: &str) -> (r: Option<&'static str>)
    ensures
        r is Some ==> r->0@ == "csv"@ || r->0@ == "json"@,
{
    proof {
        reveal_strlit("csv");
        reveal_strlit("json");
    }
    let csv = check_if_file_exists(username, "csv");
    let json = check_if_file_exists(username, "json");
    first_existing_format(csv, json)
}

} // verus!
