//! Resolution of segment and playlist references against a manifest URL.
use crate::text::{
    append_chars, begins_with, find, from_chars, rfind_char, search_from, search_last_char,
    slice_of, starts_with, to_chars,
};
use vstd::prelude::*;

verus! {

/// Whether `s` already names an `http` or `https` resource.
pub open spec fn has_http_scheme(s: Seq<char>) -> bool {
    starts_with(s, "http://"@) || starts_with(s, "https://"@)
}

/// Where the query string of `base` begins: the position of its first `?`,
/// or its length where it has none.
pub open spec fn query_start(base: Seq<char>) -> int {
    match find(base, seq!['?']) {
        Some(q) => q,
        None => base.len() as int,
    }
}

/// The absolute form of `relative` seen from `base`.
///
/// An absolute reference stands for itself. Any other reference replaces
/// what follows the last `/` of `base`, a query string of `base` set aside
/// first; a base without a `/` leaves the reference as it is.
pub open spec fn resolved(base: Seq<char>, relative: Seq<char>) -> Seq<char> {
    if has_http_scheme(relative) {
        relative
    } else {
        match rfind_char(base, '/', query_start(base)) {
            Some(p) => base.take(p) + seq!['/'] + relative,
            None => relative,
        }
    }
}

/// Decides `has_http_scheme`.
pub fn is_absolute(s: &Vec<char>) -> (r: bool)
    ensures
        r == has_http_scheme(s@),
{
    let plain = to_chars("http://");
    let secure = to_chars("https://");
    begins_with(s, &plain) || begins_with(s, &secure)
}

/// `resolve_url` on character vectors.
pub fn resolve_chars(base: &Vec<char>, relative: &Vec<char>) -> (out: Vec<char>)
    ensures
        out@ == resolved(base@, relative@),
{
    if is_absolute(relative) {
        assert(relative@.subrange(0, relative@.len() as int) =~= relative@);
        return slice_of(relative, 0, relative.len());
    }
    let mark: Vec<char> = vec!['?'];
    assert(mark@ =~= seq!['?']);
    let q: usize = match search_from(base, &mark, 0) {
        Some(q) => q,
        None => base.len(),
    };
    assert(relative@.subrange(0, relative@.len() as int) =~= relative@);
    match search_last_char(base, '/', q) {
        Some(p) => {
            let mut out = slice_of(base, 0, p);
            out.push('/');
            append_chars(&mut out, relative);
            assert(out@ =~= base@.take(p as int) + seq!['/'] + relative@);
            out
        },
        None => slice_of(relative, 0, relative.len()),
    }
}

/// Resolves `relative` against `base`: the result is `resolved(base, relative)`.
pub fn resolve_url(base: &str, relative: &str) -> (out: String)
    ensures
        out@ == resolved(base@, relative@),
{
    let b = to_chars(base);
    let r = to_chars(relative);
    let out = resolve_chars(&b, &r);
    from_chars(&out)
}

} // verus!
