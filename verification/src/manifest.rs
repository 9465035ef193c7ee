use vstd::prelude::*;

verus! {

// ---------------------------------------------------------------------------
// Reading a project manifest: the package name, and for the root project
// the workspace member directories. What a manifest text yields depends on
// the text alone, so the results carry names that the trusted wrappers tie
// the calls to.
// ---------------------------------------------------------------------------

/// Whether the manifest text is a well-formed document.
pub uninterp spec fn toml_parses(t: Seq<char>) -> bool;

/// The `package.name` string of the manifest text, if the document parses
/// and has one.
pub uninterp spec fn toml_package_name(t: Seq<char>) -> Option<Seq<char>>;

/// The string entries of the manifest text's `workspace.members` list, if
/// the document parses and has one.
pub uninterp spec fn toml_workspace_members(t: Seq<char>) -> Option<Seq<Seq<char>>>;

/// Relies on `toml::from_str::<toml::Value>`: it accepts or rejects a
/// document on the text alone.
#[verifier::external_body]
pub(crate) fn manifest_parses(text: &str) -> (r: bool)
    ensures
        r == toml_parses(text@),
{
    toml::from_str::<toml::Value>(text).is_ok()
}

/// Relies on `toml::from_str` and `toml::Value::{get, as_str}`: the
/// `package.name` string of the document, if it parses and has one.
#[verifier::external_body]
pub(crate) fn read_package_name(text: &str) -> (r: Option<String>)
    ensures
        (match r {
            Some(s) => toml_package_name(text@) == Some(s@),
            None => toml_package_name(text@) is None,
        }),
        !toml_parses(text@) ==> r is None,
{
    let v: toml::Value = toml::from_str(text).ok()?;
    let name = v.get("package")?.get("name")?.as_str()?;
    Some(String::from(name))
}

/// Relies on `toml::from_str` and `toml::Value::{get, as_array, as_str}`:
/// the string entries of the document's `workspace.members` list, if it
/// parses and has the list; entries that are not strings are not members.
#[verifier::external_body]
pub(crate) fn read_workspace_members(text: &str) -> (r: Option<Vec<String>>)
    ensures
        (match r {
            Some(v) => toml_workspace_members(text@) == Some(v.deep_view()),
            None => toml_workspace_members(text@) is None,
        }),
        !toml_parses(text@) ==> r is None,
{
    let v: toml::Value = toml::from_str(text).ok()?;
    let arr = v.get("workspace")?.get("members")?.as_array()?;
    Some(arr.iter().filter_map(|m| m.as_str().map(String::from)).collect())
}

/// The workspace member directories the root manifest names, if it parses
/// and has the list. The caller walks these directories and hands their
/// manifests and files back.
pub fn workspace_members(text: &str) -> (r: Option<Vec<String>>)
    ensures
        (match r {
            Some(v) => toml_workspace_members(text@) == Some(v.deep_view()),
            None => toml_workspace_members(text@) is None,
        }),
        !toml_parses(text@) ==> r is None,
{
    read_workspace_members(text)
}

} // verus!
