//! Endpoint names.

use vstd::prelude::*;

use crate::endpoint::spec::error::{SpecError, SpecErrorView};
use crate::text::chars_of;

verus! {

/// The longest explicit name.
pub const MAX_NAME_LEN: usize = 64;

/// Whether a name may hold `c`.
pub open spec fn is_name_char(c: char) -> bool {
    ('A' <= c <= 'Z') || ('a' <= c <= 'z') || ('0' <= c <= '9') || c == '_' || c == '-'
}

/// Whether `s` is one or more name characters.
pub open spec fn is_name_text(s: Seq<char>) -> bool {
    s.len() > 0 && forall|i: int| 0 <= i < s.len() ==> is_name_char(#[trigger] s[i])
}

/// Whether `s` is a valid explicit name: 1 to 64 name characters.
pub open spec fn is_name(s: Seq<char>) -> bool {
    is_name_text(s) && s.len() <= MAX_NAME_LEN
}

/// Whether a name may hold `c`.
pub fn name_char_ok(c: char) -> (r: bool)
    ensures
        r == is_name_char(c),
{
    (c >= 'A' && c <= 'Z') || (c >= 'a' && c <= 'z') || (c >= '0' && c <= '9') || c == '_' || c
        == '-'
}

/// Whether `s` is one or more name characters.
pub fn name_text_ok(s: &str) -> (r: bool)
    ensures
        r == is_name_text(s@),
{
    let cs = chars_of(s);
    if cs.len() == 0 {
        return false;
    }
    let mut i: usize = 0;
    while i < cs.len()
        invariant
            i <= cs@.len(),
            cs@ == s@,
            forall|j: int| 0 <= j < i ==> is_name_char(#[trigger] s@[j]),
        decreases cs@.len() - i,
    {
        if !name_char_ok(cs[i]) {
            assert(!is_name_char(s@[i as int]));
            return false;
        }
        i = i + 1;
    }
    true
}

/// Whether `name` is a valid explicit name, `[A-Za-z0-9_-]{1,64}`.
pub fn name_matches_regex(name: &str) -> (r: bool)
    ensures
        r == is_name(name@),
{
    name_text_ok(name) && chars_of(name).len() <= MAX_NAME_LEN
}

/// Refuse a name that is not a valid explicit name.
pub fn validate_name(name: &str) -> (r: Result<(), SpecError>)
    ensures
        match r {
            Ok(()) => is_name(name@),
            Err(e) => !is_name(name@) && e@ == SpecErrorView::InvalidName(name@),
        },
{
    if !name_matches_regex(name) {
        return Err(SpecError::InvalidName(name.to_owned()));
    }
    Ok(())
}

/// `c` where a name may hold it, an underscore otherwise.
pub open spec fn sanitized_char(c: char) -> char {
    if is_name_char(c) {
        c
    } else {
        '_'
    }
}

/// `s` with an underscore for every character that a name may not hold.
pub open spec fn sanitized(s: Seq<char>) -> Seq<char> {
    s.map_values(|c: char| sanitized_char(c))
}

/// Replace every character that a name may not hold by an underscore.
pub fn sanitize_for_name(text: &str) -> (r: String)
    ensures
        r@ == sanitized(text@),
{
    let cs = chars_of(text);
    let mut out = String::new();
    let mut i: usize = 0;
    while i < cs.len()
        invariant
            i <= cs@.len(),
            cs@ == text@,
            out@ == sanitized(text@).take(i as int),
        decreases cs@.len() - i,
    {
        let c = cs[i];
        if name_char_ok(c) {
            out.push(c);
        } else {
            out.push('_');
        }
        i = i + 1;
        assert(out@ =~= sanitized(text@).take(i as int));
    }
    assert(sanitized(text@).take(i as int) =~= sanitized(text@));
    out
}

/// Sanitized text holds name characters only, and sanitizing it again changes nothing.
pub proof fn law_sanitized_is_name_text(s: Seq<char>)
    ensures
        s.len() > 0 ==> is_name_text(sanitized(s)),
        sanitized(sanitized(s)) == sanitized(s),
        is_name_text(s) ==> sanitized(s) == s,
{
    assert(sanitized(sanitized(s)) =~= sanitized(s));
    if is_name_text(s) {
        assert(sanitized(s) =~= s);
    }
}

/// A name is 1 to 64 ASCII letters, digits, underscores and hyphens.
pub proof fn law_name_characters(s: Seq<char>)
    ensures
        is_name(s) <==> 1 <= s.len() <= 64 && forall|i: int|
            0 <= i < s.len() ==> ({
                let c = #[trigger] s[i];
                'A' <= c <= 'Z' || 'a' <= c <= 'z' || '0' <= c <= '9' || c == '_' || c == '-'
            }),
{
    if is_name(s) {
        assert forall|i: int| 0 <= i < s.len() implies ({
            let c = #[trigger] s[i];
            'A' <= c <= 'Z' || 'a' <= c <= 'z' || '0' <= c <= '9' || c == '_' || c == '-'
        }) by {
            assert(is_name_char(s[i]));
        }
    }
}

/// Sanitizing changes a character exactly where a name may not hold it, to an underscore.
pub proof fn law_sanitizing_is_exact(s: Seq<char>, i: int)
    requires
        0 <= i < s.len(),
    ensures
        sanitized(s).len() == s.len(),
        ({
            let c = s[i];
            if 'A' <= c <= 'Z' || 'a' <= c <= 'z' || '0' <= c <= '9' || c == '_' || c == '-' {
                sanitized(s)[i] == c
            } else {
                sanitized(s)[i] == '_'
            }
        }),
{
}

} // verus!
