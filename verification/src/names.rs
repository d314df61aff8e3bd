//! Validation of list names.
//!
//! A usable list name starts with a lowercase letter and continues with
//! lowercase letters and digits, optionally separated by single
//! underscores; it has at least two characters and neither ends with an
//! underscore nor contains two adjacent ones. The literal name `none` is
//! reserved as the deselect sentinel and may never be created.

use crate::strutil::str_eq;
use vstd::prelude::*;

verus! {

/// Whether `c` is a lowercase ASCII letter.
pub open spec fn is_lower(c: char) -> bool {
    'a' <= c && c <= 'z'
}

/// Whether `c` is a lowercase ASCII letter or a decimal digit.
pub open spec fn is_lower_or_digit(c: char) -> bool {
    is_lower(c) || ('0' <= c && c <= '9')
}

/// A well-formed list name.
pub open spec fn valid_list_name(s: Seq<char>) -> bool {
    &&& s.len() >= 2
    &&& is_lower(s[0])
    &&& forall|i: int| 1 <= i < s.len() ==> is_lower_or_digit(#[trigger] s[i]) || s[i] == '_'
    &&& s[s.len() - 1] != '_'
    &&& forall|i: int| 0 <= i < s.len() - 1 ==> !((#[trigger] s[i]) == '_' && s[i + 1] == '_')
}

/// The reserved deselect sentinel.
pub open spec fn reserved_name() -> Seq<char> {
    seq!['n', 'o', 'n', 'e']
}

/// A name under which a list may be created: well formed and not reserved.
pub open spec fn creatable_list_name(s: Seq<char>) -> bool {
    valid_list_name(s) && s != reserved_name()
}

/// Decide whether `name` is a well-formed list name.
pub fn is_valid_list_name(name: &str) -> (r: bool)
    ensures
        r == valid_list_name(name@),
{
    let len = name.unicode_len();
    if len < 2 {
        return false;
    }
    let c0 = name.get_char(0);
    if !('a' <= c0 && c0 <= 'z') {
        return false;
    }
    let mut prev = c0;
    let mut i: usize = 1;
    while i < len
        invariant
            1 <= i <= len,
            len == name@.len(),
            2 <= len,
            is_lower(name@[0]),
            prev == name@[i - 1],
            forall|j: int| 1 <= j < i ==> is_lower_or_digit(#[trigger] name@[j]) || name@[j] == '_',
            forall|j: int|
                0 <= j < i - 1 ==> !((#[trigger] name@[j]) == '_' && name@[j + 1] == '_'),
        decreases len - i,
    {
        let c = name.get_char(i);
        let ok = ('a' <= c && c <= 'z') || ('0' <= c && c <= '9') || c == '_';
        if !ok {
            return false;
        }
        if c == '_' && prev == '_' {
            return false;
        }
        prev = c;
        i = i + 1;
    }
    if prev == '_' {
        proof {
            assert(name@[len - 1] == '_');
        }
        return false;
    }
    true
}

/// Decide whether a list may be created under `name`.
pub fn is_creatable_list_name(name: &str) -> (r: bool)
    ensures
        r == creatable_list_name(name@),
{
    proof {
        reveal_strlit("none");
        assert("none"@ =~= reserved_name());
    }
    is_valid_list_name(name) && !str_eq(name, "none")
}

} // verus!
