//! Account identifiers and their well-formedness.
//!
//! An account identifier is between 2 and 64 characters long and is a
//! dot-separated list of parts, where each part is a run of lower-case
//! letters and digits optionally joined by single `-` or `_` characters.
//! Equivalently, at the character level: every character is a lower-case
//! letter, a digit or a separator (`.`, `-`, `_`); the first and the last
//! character are not separators; and no two separators are adjacent.

use vstd::prelude::*;
use vstd::string::StringExecFns;

verus! {

/// A lower-case letter or a digit: the characters account parts are made of.
pub open spec fn spec_is_symbol(c: char) -> bool {
    ('a' <= c && c <= 'z') || ('0' <= c && c <= '9')
}

/// A separator between parts or within a part: `.`, `-` or `_`.
pub open spec fn spec_is_separator(c: char) -> bool {
    c == '.' || c == '-' || c == '_'
}

/// A well-formed account identifier.
pub open spec fn valid_account_id(s: Seq<char>) -> bool {
    &&& 2 <= s.len() <= 64
    &&& forall|i: int|
        0 <= i < s.len() ==> spec_is_symbol(#[trigger] s[i]) || spec_is_separator(s[i])
    &&& spec_is_symbol(s[0])
    &&& spec_is_symbol(s[s.len() - 1])
    &&& forall|i: int|
        0 <= i < s.len() - 1 ==> !(spec_is_separator(#[trigger] s[i]) && spec_is_separator(
            s[i + 1],
        ))
}

fn is_symbol(c: char) -> (r: bool)
    ensures
        r == spec_is_symbol(c),
{
    ('a' <= c && c <= 'z') || ('0' <= c && c <= '9')
}

fn is_separator(c: char) -> (r: bool)
    ensures
        r == spec_is_separator(c),
{
    c == '.' || c == '-' || c == '_'
}

/// Decides whether `s` is a well-formed account identifier.
pub fn is_valid_account_id(s: &str) -> (r: bool)
    ensures
        r == valid_account_id(s@),
{
    let n = s.unicode_len();
    if n < 2 || n > 64 {
        return false;
    }
    let mut i: usize = 0;
    let mut prev_sep: bool = false;
    while i < n
        invariant
            s@.len() == n,
            2 <= n <= 64,
            0 <= i <= n,
            forall|j: int|
                0 <= j < i ==> spec_is_symbol(#[trigger] s@[j]) || spec_is_separator(s@[j]),
            i > 0 ==> spec_is_symbol(s@[0]),
            forall|j: int|
                0 <= j < i - 1 ==> !(spec_is_separator(#[trigger] s@[j]) && spec_is_separator(
                    s@[j + 1],
                )),
            i > 0 ==> prev_sep == spec_is_separator(s@[i - 1]),
        decreases n - i,
    {
        let c = s.get_char(i);
        let sym = is_symbol(c);
        let sep = is_separator(c);
        if !sym && !sep {
            return false;
        }
        if i == 0 && sep {
            return false;
        }
        if sep && prev_sep {
            return false;
        }
        prev_sep = sep;
        i = i + 1;
    }
    let last_sym = is_symbol(s.get_char(n - 1));
    if !last_sym {
        return false;
    }
    true
}

/// Joins a chosen suffix and its parent identity into the full sub-identity,
/// `<id>.<parent>`.
pub fn derive_sub_account(id: &str, parent: &str) -> (r: String)
    ensures
        r@ == id@ + seq!['.'] + parent@,
{
    proof {
        reveal_strlit(".");
        assert("."@ =~= seq!['.']);
    }
    let mut r = id.to_owned();
    r.append(".");
    r.append(parent);
    proof {
        assert(r@ =~= id@ + seq!['.'] + parent@);
    }
    r
}

} // verus!
