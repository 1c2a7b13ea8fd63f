use vstd::prelude::*;
use vstd::string::StringExecFns;
use crate::text::str_eq;
use heck::ToLowerCamelCase;
use heck::ToPascalCase;

verus! {

/// The lower-camel-case rendering of a string. The rendering is computed by
/// an outside library; only facts stated on the trusted wrapper below are
/// known of it.
pub uninterp spec fn lower_camel_of(s: Seq<char>) -> Seq<char>;

/// The Pascal-case rendering of a string, computed by an outside library.
pub uninterp spec fn pascal_of(s: Seq<char>) -> Seq<char>;

/// Relies on heck's `ToLowerCamelCase` for `str`: the result is a pure
/// function of the input characters (word splitting, then case mapping).
#[verifier::external_body]
pub(crate) fn to_lower_camel(s: &str) -> (r: String)
    ensures
        r@ == lower_camel_of(s@),
{
    s.to_lower_camel_case()
}

/// Relies on heck's `ToPascalCase` for `str`: the result is a pure function
/// of the input characters (word splitting, then case mapping).
#[verifier::external_body]
pub(crate) fn to_pascal(s: &str) -> (r: String)
    ensures
        r@ == pascal_of(s@),
{
    s.to_pascal_case()
}

/// Whether a string is one of the target language's reserved words, which
/// cannot stand as a field or parameter identifier.
pub open spec fn is_reserved(s: Seq<char>) -> bool {
    ||| s == "type"@
    ||| s == "let"@
    ||| s == "module"@
    ||| s == "open"@
    ||| s == "include"@
    ||| s == "external"@
    ||| s == "if"@
    ||| s == "else"@
    ||| s == "switch"@
    ||| s == "when"@
    ||| s == "rec"@
    ||| s == "and"@
    ||| s == "as"@
    ||| s == "exception"@
    ||| s == "try"@
    ||| s == "catch"@
    ||| s == "while"@
    ||| s == "for"@
    ||| s == "in"@
    ||| s == "to"@
    ||| s == "downto"@
    ||| s == "assert"@
    ||| s == "lazy"@
    ||| s == "private"@
    ||| s == "mutable"@
    ||| s == "constraint"@
    ||| s == "of"@
    ||| s == "true"@
    ||| s == "false"@
    ||| s == "or"@
    ||| s == "not"@
    ||| s == "mod"@
    ||| s == "land"@
    ||| s == "lor"@
    ||| s == "lxor"@
    ||| s == "lsl"@
    ||| s == "lsr"@
    ||| s == "asr"@
    ||| s == "await"@
    ||| s == "async"@
}

/// Decides membership in the reserved word set.
pub fn is_reserved_word(s: &str) -> (r: bool)
    ensures
        r == is_reserved(s@),
{
    str_eq(s, "type") || str_eq(s, "let") || str_eq(s, "module") || str_eq(s, "open") || str_eq(
        s,
        "include",
    ) || str_eq(s, "external") || str_eq(s, "if") || str_eq(s, "else") || str_eq(s, "switch")
        || str_eq(s, "when") || str_eq(s, "rec") || str_eq(s, "and") || str_eq(s, "as") || str_eq(
        s,
        "exception",
    ) || str_eq(s, "try") || str_eq(s, "catch") || str_eq(s, "while") || str_eq(s, "for") || str_eq(
        s,
        "in",
    ) || str_eq(s, "to") || str_eq(s, "downto") || str_eq(s, "assert") || str_eq(s, "lazy")
        || str_eq(s, "private") || str_eq(s, "mutable") || str_eq(s, "constraint") || str_eq(
        s,
        "of",
    ) || str_eq(s, "true") || str_eq(s, "false") || str_eq(s, "or") || str_eq(s, "not") || str_eq(
        s,
        "mod",
    ) || str_eq(s, "land") || str_eq(s, "lor") || str_eq(s, "lxor") || str_eq(s, "lsl") || str_eq(
        s,
        "lsr",
    ) || str_eq(s, "asr") || str_eq(s, "await") || str_eq(s, "async")
}

/// A reserved word gets one trailing marker character; any other string
/// passes through unchanged.
pub open spec fn keyword_guard(s: Seq<char>) -> Seq<char> {
    if is_reserved(s) {
        s + "_"@
    } else {
        s
    }
}

/// Appends the disambiguating marker where the given identifier collides
/// with a reserved word.
pub fn guard_keyword(s: String) -> (r: String)
    ensures
        r@ == keyword_guard(s@),
{
    if is_reserved_word(s.as_str()) {
        let mut out = s;
        out.append("_");
        out
    } else {
        s
    }
}

/// The fully sanitized form of a field or parameter name: idiomatic casing
/// first, then disambiguation against the reserved word set.
pub open spec fn sanitized(s: Seq<char>) -> Seq<char> {
    keyword_guard(lower_camel_of(s))
}

/// Sanitize a field name: lower-camel casing, then the keyword guard.
pub fn sanitize_field_name(name: &str) -> (r: String)
    ensures
        r@ == sanitized(name@),
{
    let cased = to_lower_camel(name);
    guard_keyword(cased)
}

} // verus!
