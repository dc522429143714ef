//! Display names: demangling raw symbols and shortening demangled names.

use vstd::prelude::*;

verus! {

/// Matches a leading run of lower-case path text and captures what follows.
pub const PREFIX_PATTERN: &'static str = "^([a-z0-9_:]+)(.*)";

/// Matches a lower-case module path ending in a capitalised name, which it
/// captures.
pub const PATH_PATTERN: &'static str = "(?:[a-z0-9_]+::)+([A-Z][a-z0-9_A-Z]+)";

/// Keeps the text after the leading run of [`PREFIX_PATTERN`].
pub const PREFIX_REPLACEMENT: &'static str = "$2";

/// Keeps the capitalised name that ends a path of [`PATH_PATTERN`].
pub const PATH_REPLACEMENT: &'static str = "$1";

/// The text that `regex` gives when `pattern` is compiled and every match of
/// it in `text` is replaced by `replacement`; `None` where the pattern is
/// refused.
pub uninterp spec fn regex_replaced(pattern: Seq<char>, text: Seq<char>, replacement: Seq<char>) -> Option<Seq<char>>;

/// The display text that `rustc_demangle` gives for a raw symbol name, in its
/// alternate form (without the trailing hash).
pub uninterp spec fn demangled(raw: Seq<char>) -> Seq<char>;

/// A name that no mangling scheme produces: it starts with a lower-case
/// letter and holds only lower-case letters, digits and underscores.
pub open spec fn plain_identifier(s: Seq<char>) -> bool {
    &&& s.len() > 0
    &&& 'a' <= s[0] <= 'z'
    &&& forall|i: int|
        0 <= i < s.len() ==> ('a' <= #[trigger] s[i] <= 'z' || '0' <= s[i] <= '9' || s[i] == '_')
}

/// Relies on `regex::Regex::new` to compile `pattern`, and on
/// `Regex::replace_all` to replace its matches: the outcome depends on the
/// three texts alone.
#[verifier::external_body]
fn replace_all(pattern: &str, text: &str, replacement: &str) -> (r: Option<String>)
    ensures
        match r {
            Some(s) => regex_replaced(pattern@, text@, replacement@) == Some(s@),
            None => regex_replaced(pattern@, text@, replacement@) is None,
        },
{
    match regex::Regex::new(pattern) {
        Ok(re) => Some(re.replace_all(text, replacement).into_owned()),
        Err(_) => None,
    }
}

/// Relies on `rustc_demangle::demangle` displayed with `{:#}`: the text depends
/// on the raw name alone, and a name that is neither legacy- nor v0-mangled
/// and holds no `.llvm.` suffix is displayed as it is.
#[verifier::external_body]
pub(crate) fn demangle_name(raw: &str) -> (r: String)
    ensures
        r@ == demangled(raw@),
        plain_identifier(raw@) ==> r@ == raw@,
{
    format!("{:#}", rustc_demangle::demangle(raw))
}

/// What [`compress_name`] gives for `n`: the leading run of lower-case path
/// text is stripped (the name stays whole where nothing would be left), then
/// each lower-case module path before a capitalised name is dropped.
pub open spec fn compressed(n: Seq<char>) -> Seq<char> {
    match regex_replaced(PREFIX_PATTERN@, n, PREFIX_REPLACEMENT@) {
        None => n,
        Some(s) => if s.len() == 0 {
            n
        } else {
            match regex_replaced(PATH_PATTERN@, s, PATH_REPLACEMENT@) {
                Some(t) => t,
                None => s,
            }
        },
    }
}

/// Shortens a demangled name for narrow display.
pub fn compress_name(n: &str) -> (r: String)
    ensures
        r@ == compressed(n@),
{
    match replace_all(PREFIX_PATTERN, n, PREFIX_REPLACEMENT) {
        None => n.to_owned(),
        Some(s) => {
            if s.as_str().unicode_len() == 0 {
                n.to_owned()
            } else {
                match replace_all(PATH_PATTERN, s.as_str(), PATH_REPLACEMENT) {
                    Some(t) => t,
                    None => s,
                }
            }
        },
    }
}

} // verus!
