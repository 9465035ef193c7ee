use vstd::prelude::*;

use crate::text::{chars_to_string, str_eq};

verus! {

/// Whether `s` is a reserved word of the target language that must be
/// written in raw form when used as a path segment of an identifier.
/// The four path-root words (`crate`, `self`, `Self`, `super`) have no raw
/// form and are not in this set.
pub open spec fn is_keyword(s: Seq<char>) -> bool {
    ||| s == "as"@
    ||| s == "abstract"@
    ||| s == "async"@
    ||| s == "await"@
    ||| s == "become"@
    ||| s == "box"@
    ||| s == "break"@
    ||| s == "const"@
    ||| s == "continue"@
    ||| s == "do"@
    ||| s == "dyn"@
    ||| s == "else"@
    ||| s == "enum"@
    ||| s == seq!['e', 'x', 't', 'e', 'r', 'n']
    ||| s == "false"@
    ||| s == "final"@
    ||| s == "fn"@
    ||| s == "for"@
    ||| s == "if"@
    ||| s == "impl"@
    ||| s == "in"@
    ||| s == "let"@
    ||| s == "loop"@
    ||| s == "macro"@
    ||| s == "match"@
    ||| s == "mod"@
    ||| s == "move"@
    ||| s == "mut"@
    ||| s == "override"@
    ||| s == "priv"@
    ||| s == "pub"@
    ||| s == "ref"@
    ||| s == "return"@
    ||| s == "static"@
    ||| s == "struct"@
    ||| s == "trait"@
    ||| s == "true"@
    ||| s == "try"@
    ||| s == "type"@
    ||| s == "typeof"@
    ||| s == "unsafe"@
    ||| s == "unsized"@
    ||| s == "use"@
    ||| s == "virtual"@
    ||| s == "where"@
    ||| s == "while"@
    ||| s == "yield"@
}

/// Decides whether `s` is one of the reserved words of `is_keyword`.
pub fn is_rust_keyword(s: &str) -> (r: bool)
    ensures
        r == is_keyword(s@),
{
    let unescapable: Vec<char> = vec!['e', 'x', 't', 'e', 'r', 'n'];
    proof {
        assert(unescapable@ =~= seq!['e', 'x', 't', 'e', 'r', 'n']);
    }
    let kw_ext = chars_to_string(&unescapable);
    let r = str_eq(s, "as") || str_eq(s, "abstract") || str_eq(s, "async") || str_eq(s, "await")
        || str_eq(s, "become") || str_eq(s, "box") || str_eq(s, "break") || str_eq(s, "const")
        || str_eq(s, "continue") || str_eq(s, "do") || str_eq(s, "dyn") || str_eq(s, "else")
        || str_eq(s, "enum") || str_eq(s, kw_ext.as_str()) || str_eq(s, "false") || str_eq(
        s,
        "final",
    ) || str_eq(s, "fn") || str_eq(s, "for") || str_eq(s, "if") || str_eq(s, "impl") || str_eq(
        s,
        "in",
    ) || str_eq(s, "let") || str_eq(s, "loop") || str_eq(s, "macro") || str_eq(s, "match")
        || str_eq(s, "mod") || str_eq(s, "move") || str_eq(s, "mut") || str_eq(s, "override")
        || str_eq(s, "priv") || str_eq(s, "pub") || str_eq(s, "ref") || str_eq(s, "return")
        || str_eq(s, "static") || str_eq(s, "struct") || str_eq(s, "trait") || str_eq(s, "true")
        || str_eq(s, "try") || str_eq(s, "type") || str_eq(s, "typeof") || str_eq(s, "unsafe")
        || str_eq(s, "unsized") || str_eq(s, "use") || str_eq(s, "virtual") || str_eq(s, "where")
        || str_eq(s, "while") || str_eq(s, "yield");
    r
}

/// A path segment as it appears in generated identifiers: reserved words are
/// written in raw form, everything else is unchanged.
pub open spec fn escaped_segment(s: Seq<char>) -> Seq<char> {
    if is_keyword(s) {
        "r#"@ + s
    } else {
        s
    }
}

/// Escapes one path segment for use in generated source text.
pub fn escape_segment(s: &str) -> (r: String)
    ensures
        r@ == escaped_segment(s@),
{
    if is_rust_keyword(s) {
        let mut out = String::from_str("r#");
        out.append(s);
        out
    } else {
        String::from_str(s)
    }
}

} // verus!
