use vstd::prelude::*;
use vstd::string::*;
use std::cmp::Ordering;
use std::path::Path;

verus! {

/// How `std::path::Path` orders two paths, as -1 (less), 0 (equal) or 1 (greater).
/// Paths are compared component by component, so that `a//b`, `a/./b` and `a/b/` all
/// equal `a/b`.
pub uninterp spec fn path_order(a: Seq<char>, b: Seq<char>) -> i8;

/// The two paths name the same place as `std::path::Path` compares them.
pub open spec fn path_eq(a: Seq<char>, b: Seq<char>) -> bool {
    path_order(a, b) == 0
}

/// Compares two paths with `<Path as Ord>::cmp`.
///
/// Trusted: the result is the name `path_order` applied to the two paths; `Ord` for `Path`
/// is a total order, so swapping the arguments negates the result, and a path equals
/// itself.
#[verifier::external_body]
pub(crate) fn compare_paths(a: &str, b: &str) -> (r: i8)
    ensures
        r == path_order(a@, b@),
        -1 <= r <= 1,
        r == -path_order(b@, a@),
        a@ == b@ ==> r == 0,
{
    match Path::new(a).cmp(Path::new(b)) {
        Ordering::Less => -1,
        Ordering::Equal => 0,
        Ordering::Greater => 1,
    }
}

/// What `std::path::Path::parent` gives for a path.
pub uninterp spec fn path_parent_of(p: Seq<char>) -> Option<Seq<char>>;

/// The parent directory of a path, by `Path::parent`.
///
/// Trusted: the result is the name `path_parent_of` applied to the path. The parent of a
/// UTF-8 path is a prefix of it, so the text conversion loses nothing.
#[verifier::external_body]
pub(crate) fn path_parent(p: &str) -> (r: Option<String>)
    ensures
        r is Some <==> path_parent_of(p@) is Some,
        r matches Some(q) ==> path_parent_of(p@) == Some(q@),
{
    match Path::new(p).parent() {
        Some(q) => Some(q.to_string_lossy().into_owned()),
        None => None,
    }
}

/// What `std::path::Path::extension` gives for a path.
pub uninterp spec fn path_extension_of(p: Seq<char>) -> Option<Seq<char>>;

/// The extension of a path's file name, by `Path::extension`.
///
/// Trusted: the result is the name `path_extension_of` applied to the path. The extension
/// of a UTF-8 path is a part of it, so the text conversion loses nothing.
#[verifier::external_body]
pub(crate) fn path_extension(p: &str) -> (r: Option<String>)
    ensures
        r is Some <==> path_extension_of(p@) is Some,
        r matches Some(q) ==> path_extension_of(p@) == Some(q@),
{
    match Path::new(p).extension() {
        Some(e) => Some(e.to_string_lossy().into_owned()),
        None => None,
    }
}

/// What `str::to_lowercase` gives for a text.
pub uninterp spec fn lowercase_of(s: Seq<char>) -> Seq<char>;

/// The text in lower case, by `str::to_lowercase` (Unicode's `Lowercase` mapping).
///
/// Trusted: the result is the name `lowercase_of` applied to the text.
#[verifier::external_body]
pub(crate) fn to_lowercase(s: &str) -> (r: String)
    ensures
        r@ == lowercase_of(s@),
{
    s.to_lowercase()
}

/// `base` joined with `p` as `PathBuf::push` does it on Unix: an absolute `p` replaces
/// `base`; otherwise a separator is put between them when `base` is non-empty and does not
/// already end in one.
pub open spec fn joined(base: Seq<char>, p: Seq<char>) -> Seq<char> {
    if p.len() > 0 && p[0] == '/' {
        p
    } else if base.len() > 0 && base.last() != '/' {
        base + seq!['/'] + p
    } else {
        base + p
    }
}

/// Joins two paths (see `joined`).
pub fn join_path(base: &str, p: &str) -> (r: String)
    ensures
        r@ == joined(base@, p@),
{
    let plen = p.unicode_len();
    if plen > 0 && p.get_char(0) == '/' {
        return p.to_owned();
    }
    let blen = base.unicode_len();
    let mut out = base.to_owned();
    if blen > 0 && base.get_char(blen - 1) != '/' {
        out.append("/");
        proof { reveal_strlit("/"); }
    }
    out.append(p);
    out
}

/// Joining keeps both parts: an absolute path is the result itself; otherwise the result
/// starts with `base`, ends with `p`, and has exactly one `/` more than the two together
/// exactly when `base` is non-empty and does not end in `/`.
pub proof fn law_join_keeps_both_parts(base: Seq<char>, p: Seq<char>)
    ensures
        p.len() > 0 && p[0] == '/' ==> joined(base, p) == p,
        !(p.len() > 0 && p[0] == '/') ==> {
            let r = joined(base, p);
            let sep = base.len() > 0 && base[base.len() - 1] != '/';
            &&& r.len() == base.len() + p.len() + (if sep { 1int } else { 0int })
            &&& r.take(base.len() as int) == base
            &&& r.skip(r.len() - p.len()) == p
            &&& sep ==> r[base.len() as int] == '/'
        },
{
    if !(p.len() > 0 && p[0] == '/') {
        let r = joined(base, p);
        assert(r.take(base.len() as int) =~= base);
        assert(r.skip(r.len() - p.len()) =~= p);
    }
}

} // verus!
