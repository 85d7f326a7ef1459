//! The naming policy: which strings may serve as document names.
//!
//! A document name must be non-empty, at most 255 characters long, built
//! from ASCII letters, digits, `-`, `_` and `.` only, free of `..`
//! sequences, path separators and NUL, and must read
//! `doppelkopf-<stem>.json`. This policy is the store's security boundary:
//! it runs before any path is built, so no disk operation can be steered
//! outside the base directory.

use vstd::prelude::*;

use crate::errors::ValidationError;

verus! {

/// The greatest number of characters a document name may have.
pub const MAX_NAME_LEN: usize = 255;

/// Characters the naming policy allows: ASCII letters, digits, `-`, `_`, `.`.
pub open spec fn name_char_ok(c: char) -> bool {
    ||| 'a' <= c && c <= 'z'
    ||| 'A' <= c && c <= 'Z'
    ||| '0' <= c && c <= '9'
    ||| c == '-'
    ||| c == '_'
    ||| c == '.'
}

/// The character `c` occurs somewhere in `s`.
pub open spec fn has_char(s: Seq<char>, c: char) -> bool {
    exists|i: int| 0 <= i < s.len() && s[i] == c
}

/// Two consecutive dots occur somewhere in `s`.
pub open spec fn has_double_dot(s: Seq<char>) -> bool {
    exists|i: int| #![trigger s[i], s[i + 1]] 0 <= i && i + 1 < s.len() && s[i] == '.' && s[i + 1] == '.'
}

/// Every character of `s` is one the policy allows.
pub open spec fn all_chars_ok(s: Seq<char>) -> bool {
    forall|i: int| 0 <= i < s.len() ==> name_char_ok(#[trigger] s[i])
}

/// `s` holds a `..` sequence, a path separator, or a NUL character —
/// the material of a path-traversal attempt.
pub open spec fn has_forbidden(s: Seq<char>) -> bool {
    ||| has_double_dot(s)
    ||| has_char(s, '/')
    ||| has_char(s, '\\')
    ||| has_char(s, '\0')
}

/// The required trailing characters of every document name.
pub open spec fn json_suffix() -> Seq<char> {
    seq!['.', 'j', 's', 'o', 'n']
}

/// The required leading characters of every document name.
pub open spec fn name_prefix() -> Seq<char> {
    seq!['d', 'o', 'p', 'p', 'e', 'l', 'k', 'o', 'p', 'f', '-']
}

/// `s` ends with `.json`.
pub open spec fn ends_with_json(s: Seq<char>) -> bool {
    s.len() >= 5 && s.subrange(s.len() - 5, s.len() as int) == json_suffix()
}

/// `s` starts with `doppelkopf-`.
pub open spec fn starts_with_doppelkopf(s: Seq<char>) -> bool {
    s.len() >= 11 && s.subrange(0, 11) == name_prefix()
}

/// A name the policy accepts: every check of [`spec_validate`] passes.
pub open spec fn valid_name(s: Seq<char>) -> bool {
    &&& 0 < s.len() <= MAX_NAME_LEN
    &&& !has_forbidden(s)
    &&& all_chars_ok(s)
    &&& ends_with_json(s)
    &&& starts_with_doppelkopf(s)
}

/// The verdict of the naming policy, checks in order, first failure wins.
pub open spec fn spec_validate(s: Seq<char>) -> Result<(), ValidationError> {
    if s.len() == 0 {
        Err(ValidationError::Empty)
    } else if s.len() > MAX_NAME_LEN {
        Err(ValidationError::TooLong)
    } else if has_forbidden(s) {
        Err(ValidationError::ForbiddenSequence)
    } else if !all_chars_ok(s) {
        Err(ValidationError::InvalidCharacter)
    } else if !ends_with_json(s) {
        Err(ValidationError::MissingJsonSuffix)
    } else if !starts_with_doppelkopf(s) {
        Err(ValidationError::MissingPrefix)
    } else {
        Ok(())
    }
}

/// Whether the character `c` occurs in `name`.
fn scan_char(name: &str, c: char) -> (found: bool)
    ensures
        found == has_char(name@, c),
{
    let n: usize = name.unicode_len();
    let mut i: usize = 0;
    let mut found: bool = false;
    while i < n
        invariant
            n == name@.len(),
            i <= n,
            found == (exists|j: int| 0 <= j < i && name@[j] == c),
        decreases n - i,
    {
        if name.get_char(i) == c {
            found = true;
        }
        i = i + 1;
    }
    found
}

/// Whether two consecutive dots occur in `name`.
fn scan_double_dot(name: &str) -> (found: bool)
    ensures
        found == has_double_dot(name@),
{
    let n: usize = name.unicode_len();
    if n < 2 {
        return false;
    }
    let mut i: usize = 0;
    let mut found: bool = false;
    while i + 1 < n
        invariant
            n == name@.len(),
            i + 1 <= n,
            found == (exists|j: int| #![trigger name@[j], name@[j + 1]] 0 <= j < i && j + 1 < n
                && name@[j] == '.' && name@[j + 1] == '.'),
        decreases n - i,
    {
        if name.get_char(i) == '.' && name.get_char(i + 1) == '.' {
            found = true;
        }
        i = i + 1;
    }
    found
}

/// Whether every character of `name` is one the policy allows.
fn scan_charset(name: &str) -> (ok: bool)
    ensures
        ok == all_chars_ok(name@),
{
    let n: usize = name.unicode_len();
    let mut i: usize = 0;
    let mut ok: bool = true;
    while i < n
        invariant
            n == name@.len(),
            i <= n,
            ok == (forall|j: int| 0 <= j < i ==> name_char_ok(#[trigger] name@[j])),
        decreases n - i,
    {
        let c = name.get_char(i);
        let allowed = ('a' <= c && c <= 'z') || ('A' <= c && c <= 'Z') || ('0' <= c && c <= '9')
            || c == '-' || c == '_' || c == '.';
        if !allowed {
            ok = false;
        }
        i = i + 1;
    }
    ok
}

/// Whether `name` ends with `.json`.
fn check_json_suffix(name: &str) -> (r: bool)
    ensures
        r == ends_with_json(name@),
{
    let n: usize = name.unicode_len();
    if n < 5 {
        return false;
    }
    let r = name.get_char(n - 5) == '.' && name.get_char(n - 4) == 'j' && name.get_char(n - 3)
        == 's' && name.get_char(n - 2) == 'o' && name.get_char(n - 1) == 'n';
    proof {
        let s = name@;
        let tail = s.subrange(s.len() - 5, s.len() as int);
        if r {
            assert(tail =~= json_suffix());
        } else {
            if tail == json_suffix() {
                assert(s[s.len() - 5] == tail[0]);
                assert(s[s.len() - 4] == tail[1]);
                assert(s[s.len() - 3] == tail[2]);
                assert(s[s.len() - 2] == tail[3]);
                assert(s[s.len() - 1] == tail[4]);
            }
        }
    }
    r
}

/// Whether `name` starts with `doppelkopf-`.
fn check_prefix(name: &str) -> (r: bool)
    ensures
        r == starts_with_doppelkopf(name@),
{
    let n: usize = name.unicode_len();
    if n < 11 {
        return false;
    }
    let r = name.get_char(0) == 'd' && name.get_char(1) == 'o' && name.get_char(2) == 'p'
        && name.get_char(3) == 'p' && name.get_char(4) == 'e' && name.get_char(5) == 'l'
        && name.get_char(6) == 'k' && name.get_char(7) == 'o' && name.get_char(8) == 'p'
        && name.get_char(9) == 'f' && name.get_char(10) == '-';
    proof {
        let s = name@;
        let head = s.subrange(0, 11);
        if r {
            assert(head =~= name_prefix());
        } else {
            if head == name_prefix() {
                assert(s[0] == head[0]);
                assert(s[1] == head[1]);
                assert(s[2] == head[2]);
                assert(s[3] == head[3]);
                assert(s[4] == head[4]);
                assert(s[5] == head[5]);
                assert(s[6] == head[6]);
                assert(s[7] == head[7]);
                assert(s[8] == head[8]);
                assert(s[9] == head[9]);
                assert(s[10] == head[10]);
            }
        }
    }
    r
}

/// Runs the naming policy on a candidate document name.
///
/// The checks run in a fixed order — empty, over-long, forbidden
/// sequence, character set, `.json` suffix, `doppelkopf-` prefix — and the
/// first failing check decides the error. A name passes exactly when it is
/// a [`valid_name`].
pub fn validate_filename(name: &str) -> (r: Result<(), ValidationError>)
    ensures
        r == spec_validate(name@),
        r is Ok <==> valid_name(name@),
{
    let n: usize = name.unicode_len();
    if n == 0 {
        return Err(ValidationError::Empty);
    }
    if n > MAX_NAME_LEN {
        return Err(ValidationError::TooLong);
    }
    if scan_double_dot(name) || scan_char(name, '/') || scan_char(name, '\\') || scan_char(
        name,
        '\0',
    ) {
        return Err(ValidationError::ForbiddenSequence);
    }
    if !scan_charset(name) {
        return Err(ValidationError::InvalidCharacter);
    }
    if !check_json_suffix(name) {
        return Err(ValidationError::MissingJsonSuffix);
    }
    if !check_prefix(name) {
        return Err(ValidationError::MissingPrefix);
    }
    Ok(())
}

/// A name with a `../` sequence anywhere in it fails the naming policy:
/// every store operation rejects it during validation, before any path is
/// built or any filesystem state is touched.
pub proof fn lemma_traversal_rejected(s: Seq<char>, i: int)
    requires
        0 <= i,
        i + 2 < s.len(),
        s[i] == '.',
        s[i + 1] == '.',
        s[i + 2] == '/',
    ensures
        !valid_name(s),
        spec_validate(s) is Err,
{
    assert(has_double_dot(s));
}

/// A stem-and-affixes reading of a candidate name: `s` is the prefix
/// `doppelkopf-`, then the nonempty `stem` of allowed characters, then
/// the suffix `.json`.
pub open spec fn pattern_split(s: Seq<char>, stem: Seq<char>) -> bool {
    &&& s == name_prefix() + stem + json_suffix()
    &&& stem.len() >= 1
    &&& forall|i: int| 0 <= i < stem.len() ==> name_char_ok(#[trigger] stem[i])
}

/// `s` reads `doppelkopf-<stem>.json` with a nonempty stem of allowed
/// characters.
pub open spec fn matches_name_pattern(s: Seq<char>) -> bool {
    exists|stem: Seq<char>| pattern_split(s, stem)
}

/// The naming policy accepts exactly the names that read
/// `doppelkopf-<stem>.json` — nonempty stem over letters, digits, `-`,
/// `_` and `.` — and hold no `..` sequence. Two borderline families stand
/// outside this reading and are excluded by the premises: names beyond
/// 255 characters, which the policy rejects regardless of shape, and the
/// one name with an empty stem, which the policy's prefix and suffix
/// checks admit although the pattern asks for a stem character.
pub proof fn lemma_policy_is_pattern(s: Seq<char>)
    requires
        s.len() <= 255,
        s != name_prefix() + json_suffix(),
    ensures
        valid_name(s) <==> matches_name_pattern(s) && !has_double_dot(s),
{
    if valid_name(s) {
        let head = s.subrange(0, 11);
        let tail = s.subrange(s.len() - 5, s.len() as int);
        if s.len() <= 15 {
            assert(s[10] == head[10]);
            assert(s[10] == tail[10 - (s.len() - 5)]);
            assert(false);
        }
        if s.len() == 16 {
            assert(s =~= name_prefix() + json_suffix());
        }
        let stem = s.subrange(11, s.len() - 5);
        assert(s =~= name_prefix() + stem + json_suffix());
        assert forall|i: int| 0 <= i < stem.len() implies name_char_ok(#[trigger] stem[i]) by {
            assert(stem[i] == s[i + 11]);
        }
        assert(pattern_split(s, stem));
    }
    if matches_name_pattern(s) && !has_double_dot(s) {
        let stem = choose|stem: Seq<char>| pattern_split(s, stem);
        assert(s.len() == 16 + stem.len());
        assert forall|i: int| 0 <= i < s.len() implies name_char_ok(#[trigger] s[i]) by {
            if i < 11 {
                assert(s[i] == name_prefix()[i]);
            } else if i < 11 + stem.len() {
                assert(s[i] == stem[i - 11]);
            } else {
                assert(s[i] == json_suffix()[i - 11 - stem.len()]);
            }
        }
        assert(!has_char(s, '/')) by {
            if has_char(s, '/') {
                let j = choose|j: int| 0 <= j < s.len() && s[j] == '/';
                assert(name_char_ok(s[j]));
            }
        }
        assert(!has_char(s, '\\')) by {
            if has_char(s, '\\') {
                let j = choose|j: int| 0 <= j < s.len() && s[j] == '\\';
                assert(name_char_ok(s[j]));
            }
        }
        assert(!has_char(s, '\0')) by {
            if has_char(s, '\0') {
                let j = choose|j: int| 0 <= j < s.len() && s[j] == '\0';
                assert(name_char_ok(s[j]));
            }
        }
        assert(s.subrange(s.len() - 5, s.len() as int) =~= json_suffix());
        assert(s.subrange(0, 11) =~= name_prefix());
    }
}

} // verus!
