//! File paths as text: Unix `Path::join` and `Path::is_absolute`, and the
//! parts of a path as `std::path::Path` finds them.
use vstd::prelude::*;
use crate::config::opt_view;
use crate::text::{append_chars, str_chars, chars_to_string};

verus! {

/// A Unix path is absolute when it starts with `/`.
pub open spec fn is_absolute(p: Seq<char>) -> bool {
    p.len() > 0 && p[0] == '/'
}

/// `Path::new(base).join(p)` on Unix: `p` itself when it is absolute;
/// otherwise `p` after `base`, with a `/` between them where `base` is
/// not empty and does not already end in one.
pub open spec fn join_path(base: Seq<char>, p: Seq<char>) -> Seq<char> {
    if is_absolute(p) {
        p
    } else if base.len() > 0 && base.last() != '/' {
        base + seq!['/'] + p
    } else {
        base + p
    }
}

/// `Path::new(base).join(p)`, as characters.
pub fn join_path_chars(base: &Vec<char>, p: &Vec<char>) -> (r: Vec<char>)
    ensures
        r@ == join_path(base@, p@),
{
    if p.len() > 0 && p[0] == '/' {
        let mut out: Vec<char> = Vec::new();
        append_chars(&mut out, p);
        assert(out@ =~= p@);
        return out;
    }
    let mut out: Vec<char> = Vec::new();
    append_chars(&mut out, base);
    if base.len() > 0 && base[base.len() - 1] != '/' {
        out.push('/');
    }
    append_chars(&mut out, p);
    assert(out@ =~= join_path(base@, p@));
    out
}

/// `Path::new(base).join(p)`, as a string.
pub fn join_path_str(base: &str, p: &str) -> (r: String)
    ensures
        r@ == join_path(base@, p@),
{
    let b = str_chars(base);
    let q = str_chars(p);
    let j = join_path_chars(&b, &q);
    chars_to_string(&j)
}

/// What `Path::parent` gives for the path `p`.
pub uninterp spec fn path_parent(p: Seq<char>) -> Option<Seq<char>>;

/// What `Path::file_name` gives for the path `p`.
pub uninterp spec fn path_file_name(p: Seq<char>) -> Option<Seq<char>>;

/// What `Path::extension` gives for the path `p`.
pub uninterp spec fn path_extension(p: Seq<char>) -> Option<Seq<char>>;

/// `Path::new(p).parent()`, the path without its last component. Taken on
/// trust, and no more: the result is a function of `p`, named
/// `path_parent`.
#[verifier::external_body]
pub(crate) fn parent_of(p: &str) -> (r: Option<String>)
    ensures
        opt_view(r) == path_parent(p@),
{
    match std::path::Path::new(p).parent() {
        Some(q) => Some(q.to_string_lossy().into_owned()),
        None => None,
    }
}

/// `Path::new(p).file_name()`, the last component of the path. Taken on
/// trust, and no more: the result is a function of `p`, named
/// `path_file_name`.
#[verifier::external_body]
pub(crate) fn file_name_of(p: &str) -> (r: Option<String>)
    ensures
        opt_view(r) == path_file_name(p@),
{
    match std::path::Path::new(p).file_name() {
        Some(q) => Some(q.to_string_lossy().into_owned()),
        None => None,
    }
}

/// `Path::new(p).extension()`, what follows the last `.` of the file name.
/// Taken on trust, and no more: the result is a function of `p`, named
/// `path_extension`.
#[verifier::external_body]
pub(crate) fn extension_of(p: &str) -> (r: Option<String>)
    ensures
        opt_view(r) == path_extension(p@),
{
    match std::path::Path::new(p).extension() {
        Some(q) => Some(q.to_string_lossy().into_owned()),
        None => None,
    }
}

/// Whether a configuration file is read as TOML: its path has the
/// extension `toml`.
pub fn is_toml_path(p: &str) -> (r: bool)
    ensures
        r == (path_extension(p@) == Some("toml"@)),
{
    match extension_of(p) {
        Some(e) => {
            let c = str_chars(e.as_str());
            crate::text::eq_str(&c, "toml")
        },
        None => false,
    }
}

/// The directory of a path: `Path::parent`, or the empty path where there
/// is none.
pub fn parent_dir(p: &str) -> (r: String)
    ensures
        r@ == match path_parent(p@) {
            Some(q) => q,
            None => Seq::<char>::empty(),
        },
{
    match parent_of(p) {
        Some(q) => q,
        None => String::new(),
    }
}

} // verus!
