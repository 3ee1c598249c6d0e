use vstd::prelude::*;

verus! {

/// The text that group number `group` of the regular expression `pattern`
/// takes in the first match that the `regex` crate finds in `text`. `None`
/// where the crate refuses the pattern, where nothing matches, and where the
/// match goes without that group.
pub uninterp spec fn group_text(pattern: Seq<char>, text: Seq<char>, group: nat) -> Option<
    Seq<char>,
>;

/// Compiles `pattern` with `regex::Regex::new`, searches `text` with
/// `Regex::captures` and reads the group with `Captures::get`. The result is
/// what `group_text` names: nothing more is claimed of it.
#[verifier::external_body]
pub(crate) fn capture_group(pattern: &str, text: &str, group: usize) -> (found: Option<String>)
    ensures
        found is Some <==> group_text(pattern@, text@, group as nat) is Some,
        found matches Some(taken) ==> group_text(pattern@, text@, group as nat) == Some(taken@),
{
    let re = regex::Regex::new(pattern).ok()?;
    let caps = re.captures(text)?;
    Some(caps.get(group)?.as_str().to_string())
}

} // verus!
