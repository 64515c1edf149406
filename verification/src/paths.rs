//! File-system paths as text: what `std::path::Path` computes on them.
use vstd::prelude::*;
use crate::text::opt_view;

verus! {

/// What `Path::file_name` gives for the path `p`: its last component, or none
/// where the path ends in `..` or is a root or empty.
pub uninterp spec fn path_file_name(p: Seq<char>) -> Option<Seq<char>>;

/// What `Path::parent` gives for the path `p`.
pub uninterp spec fn path_parent(p: Seq<char>) -> Option<Seq<char>>;

/// What `Path::join` gives for `base` joined with `rest`.
pub uninterp spec fn path_join(base: Seq<char>, rest: Seq<char>) -> Seq<char>;

/// `Path::file_name` on the path `p`, its result named by `path_file_name`.
#[verifier::external_body]
pub fn file_name(p: &str) -> (r: Option<String>)
    ensures
        opt_view(r) == path_file_name(p@),
{
    std::path::Path::new(p).file_name().map(|n| n.to_string_lossy().into_owned())
}

/// `Path::parent` on the path `p`, its result named by `path_parent`.
#[verifier::external_body]
pub fn parent(p: &str) -> (r: Option<String>)
    ensures
        opt_view(r) == path_parent(p@),
{
    std::path::Path::new(p).parent().map(|q| q.to_string_lossy().into_owned())
}

/// `Path::join` of `base` and `rest`, its result named by `path_join`.
/// On Unix, as its documentation shows: an absolute `rest` (one starting
/// with `/`) replaces `base`; a relative `rest` extends a `base` that does
/// not end in `/` after a `/` separator. What it gives for an empty `base` or
/// one ending in `/` is left to the name.
#[verifier::external_body]
pub fn join(base: &str, rest: &str) -> (r: String)
    ensures
        r@ == path_join(base@, rest@),
        rest@.len() > 0 && rest@[0] == '/' ==> r@ == rest@,
        base@.len() > 0 && base@.last() != '/' && rest@.len() > 0 && rest@[0] != '/' ==> r@
            == base@ + seq!['/'] + rest@,
{
    std::path::Path::new(base).join(rest).to_string_lossy().into_owned()
}

} // verus!
