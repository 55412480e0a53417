//! Rust identifiers as `proc_macro2::Ident::new` and `Ident::new_raw`
//! accept them: what each module name of a generated path must be.
//!
//! This follows proc-macro2's own (fallback) check. Inside a procedural
//! macro the compiler checks the name instead, after normalizing it to NFC
//! and with its own Unicode tables, so a few non-ASCII names may be judged
//! differently there.

use vstd::prelude::*;

use crate::text::same_text;

verus! {

/// Whether a character has the Unicode property `XID_Start`.
pub uninterp spec fn xid_start(c: char) -> bool;

/// Whether a character has the Unicode property `XID_Continue`.
pub uninterp spec fn xid_continue(c: char) -> bool;

/// ASCII letters.
pub open spec fn is_ascii_letter(c: char) -> bool {
    ('a' <= c && c <= 'z') || ('A' <= c && c <= 'Z')
}

/// ASCII digits.
pub open spec fn is_ascii_digit(c: char) -> bool {
    '0' <= c && c <= '9'
}

/// `unicode_ident::is_xid_start`: the ASCII letters among ASCII
/// characters, the property `xid_start` beyond.
pub open spec fn ident_start_char(c: char) -> bool {
    if c <= '\x7f' {
        is_ascii_letter(c)
    } else {
        xid_start(c)
    }
}

/// `unicode_ident::is_xid_continue`: the ASCII letters, digits and `_`
/// among ASCII characters, the property `xid_continue` beyond.
pub open spec fn ident_continue_char(c: char) -> bool {
    if c <= '\x7f' {
        is_ascii_letter(c) || is_ascii_digit(c) || c == '_'
    } else {
        xid_continue(c)
    }
}

/// Tests a character with `unicode_ident::is_xid_start`.
///
/// Trusted: the result is `ident_start_char(c)`; among ASCII characters the
/// crate's table admits exactly the letters.
#[verifier::external_body]
fn is_xid_start(c: char) -> (res: bool)
    ensures
        res == ident_start_char(c),
        c > '\x7f' ==> res == xid_start(c),
{
    unicode_ident::is_xid_start(c)
}

/// Tests a character with `unicode_ident::is_xid_continue`.
///
/// Trusted: the result is `ident_continue_char(c)`; among ASCII characters
/// the crate's table admits exactly the letters, the digits and `_`.
#[verifier::external_body]
fn is_xid_continue(c: char) -> (res: bool)
    ensures
        res == ident_continue_char(c),
        c > '\x7f' ==> res == xid_continue(c),
{
    unicode_ident::is_xid_continue(c)
}

/// The text is made of identifier characters: `_` or `XID_Start` first,
/// `XID_Continue` after.
pub open spec fn ident_chars_ok(s: Seq<char>) -> bool {
    &&& s.len() > 0
    &&& (s[0] == '_' || ident_start_char(s[0]))
    &&& forall|i: int| 1 <= i < s.len() ==> ident_continue_char(#[trigger] s[i])
}

/// Every character of the text is an ASCII digit.
pub open spec fn all_ascii_digits(s: Seq<char>) -> bool {
    forall|i: int| 0 <= i < s.len() ==> is_ascii_digit(#[trigger] s[i])
}

/// Why `Ident::new` or `Ident::new_raw` refuses a text.
#[derive(Clone, Copy, Debug, PartialEq, Eq)]
pub enum IdentProblem {
    /// The text is empty.
    Empty,
    /// The text is made of ASCII digits.
    Number,
    /// The text holds a character that cannot stand where it stands.
    Invalid,
    /// The name after `r#` cannot be a raw identifier.
    ReservedRaw,
}

/// Why `Ident::new` refuses a text, checked in its order: empty, a number,
/// then the characters; `None` where it accepts it.
pub open spec fn plain_identifier_problem(s: Seq<char>) -> Option<IdentProblem> {
    if s.len() == 0 {
        Some(IdentProblem::Empty)
    } else if all_ascii_digits(s) {
        Some(IdentProblem::Number)
    } else if !ident_chars_ok(s) {
        Some(IdentProblem::Invalid)
    } else {
        None
    }
}

/// A text that `Ident::new` accepts: not empty, not a number, and made of
/// identifier characters.
pub open spec fn is_plain_identifier(s: Seq<char>) -> bool {
    plain_identifier_problem(s) is None
}

/// The names that cannot be raw identifiers.
pub open spec fn is_reserved_raw(s: Seq<char>) -> bool {
    s == "_"@ || s == "super"@ || s == "self"@ || s == "Self"@ || s == "crate"@
}

/// The text begins with `r#`.
pub open spec fn has_raw_prefix(s: Seq<char>) -> bool {
    s.len() >= 2 && s[0] == 'r' && s[1] == '#'
}

/// Why `format_ident!` refuses a text: for `r#name`, the problem of `name`
/// as a plain identifier, else `ReservedRaw` for a reserved name; for any
/// other text, its problem as a plain identifier.
pub open spec fn identifier_problem(s: Seq<char>) -> Option<IdentProblem> {
    if has_raw_prefix(s) {
        match plain_identifier_problem(s.skip(2)) {
            Some(p) => Some(p),
            None => if is_reserved_raw(s.skip(2)) {
                Some(IdentProblem::ReservedRaw)
            } else {
                None
            },
        }
    } else {
        plain_identifier_problem(s)
    }
}

/// A text that `format_ident!` turns into an identifier.
pub open spec fn is_identifier(s: Seq<char>) -> bool {
    identifier_problem(s) is None
}

/// Why `Ident::new` refuses a text, if it does.
fn plain_problem(s: &str) -> (res: Option<IdentProblem>)
    ensures
        res == plain_identifier_problem(s@),
{
    let n = s.unicode_len();
    if n == 0 {
        return Some(IdentProblem::Empty);
    }
    let mut digits = true;
    let mut i: usize = 0;
    while i < n
        invariant
            n == s@.len(),
            i <= n,
            digits == (forall|k: int| 0 <= k < i ==> is_ascii_digit(#[trigger] s@[k])),
        decreases n - i,
    {
        let c = s.get_char(i);
        if !('0' <= c && c <= '9') {
            digits = false;
        }
        i += 1;
    }
    if digits {
        return Some(IdentProblem::Number);
    }
    let first = s.get_char(0);
    if !(first == '_' || is_xid_start(first)) {
        return Some(IdentProblem::Invalid);
    }
    let mut j: usize = 1;
    while j < n
        invariant
            n == s@.len(),
            1 <= j <= n,
            forall|k: int| 1 <= k < j ==> ident_continue_char(#[trigger] s@[k]),
        decreases n - j,
    {
        if !is_xid_continue(s.get_char(j)) {
            return Some(IdentProblem::Invalid);
        }
        j += 1;
    }
    None
}

/// Why `format_ident!` refuses a text, if it does: `None` exactly for the
/// texts it turns into identifiers.
pub fn identifier_problem_of(s: &str) -> (res: Option<IdentProblem>)
    ensures
        res == identifier_problem(s@),
{
    let n = s.unicode_len();
    if n >= 2 && s.get_char(0) == 'r' && s.get_char(1) == '#' {
        let name = s.substring_char(2, n);
        assert(name@ == s@.skip(2));
        match plain_problem(name) {
            Some(p) => Some(p),
            None => {
                if same_text(name, "_") || same_text(name, "super") || same_text(name, "self")
                    || same_text(name, "Self") || same_text(name, "crate") {
                    Some(IdentProblem::ReservedRaw)
                } else {
                    None
                }
            },
        }
    } else {
        plain_problem(s)
    }
}

/// Tests whether a text is accepted by `format_ident!` as an identifier.
pub fn check_identifier(s: &str) -> (res: bool)
    ensures
        res == is_identifier(s@),
{
    identifier_problem_of(s).is_none()
}

} // verus!
