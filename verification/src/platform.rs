use vstd::prelude::*;

verus! {

/// The lower-case form that std's `str::to_lowercase` gives to a text.
pub uninterp spec fn lowercase(s: Seq<char>) -> Seq<char>;

/// `str::to_lowercase` of std: the lower-case form of the whole text, by
/// the rules of Unicode. The result is what `lowercase` names.
#[verifier::external_body]
pub(crate) fn to_lowercase(s: &str) -> (lower: String)
    ensures
        lower@ == lowercase(s@),
{
    s.to_lowercase()
}

/// `dirs::home_dir`: the home directory of the user, where the system
/// knows one. It depends on the environment, so nothing is claimed of it.
#[verifier::external_body]
pub(crate) fn home_dir() -> (home: Option<String>) {
    dirs::home_dir().map(|dir| dir.display().to_string())
}

/// `Path::parent` of std: the path without its last part, where it has
/// one. What counts as a part depends on the system, so nothing is claimed
/// of the result.
#[verifier::external_body]
pub(crate) fn path_parent(path: &str) -> (parent: Option<String>) {
    std::path::Path::new(path).parent().and_then(|p| p.to_str()).map(|s| s.to_string())
}

/// `Path::file_stem` of std: the last part of the path without its
/// extension, where it has a last part. What counts as a part depends on
/// the system, so nothing is claimed of the result.
#[verifier::external_body]
pub(crate) fn path_file_stem(path: &str) -> (stem: Option<String>) {
    std::path::Path::new(path).file_stem().and_then(|s| s.to_str()).map(|s| s.to_string())
}

} // verus!
