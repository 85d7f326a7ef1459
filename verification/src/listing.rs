//! The filename filter applied when the base directory is enumerated.
//!
//! Listing is best-effort: entries whose names cannot be decoded as text
//! are handed in as `None` and skipped, and only names that carry both the
//! `doppelkopf-` prefix and the `.json` suffix are reported. The filter is
//! a direct prefix/suffix check, deliberately independent of the naming
//! policy in `validate`.

use vstd::prelude::*;

use crate::validate::{ends_with_json, starts_with_doppelkopf};

verus! {

/// A directory entry the listing reports: prefixed `doppelkopf-` and
/// suffixed `.json`.
pub open spec fn storage_entry(s: Seq<char>) -> bool {
    starts_with_doppelkopf(s) && ends_with_json(s)
}

/// The names the listing keeps, in the order the entries came: decodable
/// ones that pass the prefix/suffix filter.
pub open spec fn storage_filter(entries: Seq<Option<String>>) -> Seq<Seq<char>>
    decreases entries.len(),
{
    if entries.len() == 0 {
        Seq::empty()
    } else {
        let kept = storage_filter(entries.drop_last());
        match entries.last() {
            Some(name) => if storage_entry(name@) {
                kept.push(name@)
            } else {
                kept
            },
            None => kept,
        }
    }
}

/// Whether the listing reports a directory entry of this name.
pub fn is_storage_entry(name: &str) -> (r: bool)
    ensures
        r == storage_entry(name@),
{
    let n: usize = name.unicode_len();
    if n < 11 {
        return false;
    }
    let prefixed = name.get_char(0) == 'd' && name.get_char(1) == 'o' && name.get_char(2) == 'p'
        && name.get_char(3) == 'p' && name.get_char(4) == 'e' && name.get_char(5) == 'l'
        && name.get_char(6) == 'k' && name.get_char(7) == 'o' && name.get_char(8) == 'p'
        && name.get_char(9) == 'f' && name.get_char(10) == '-';
    let suffixed = name.get_char(n - 5) == '.' && name.get_char(n - 4) == 'j' && name.get_char(
        n - 3,
    ) == 's' && name.get_char(n - 2) == 'o' && name.get_char(n - 1) == 'n';
    proof {
        let s = name@;
        let head = s.subrange(0, 11);
        if prefixed {
            assert(head =~= crate::validate::name_prefix());
        } else {
            if head == crate::validate::name_prefix() {
                assert(s[0] == head[0]);
                assert(s[1] == head[1]);
                assert(s[2] == head[2]);
                assert(s[3] == head[3]);
                assert(s[4] == head[4]);
                assert(s[5] == head[5]);
                assert(s[6] == head[6]);
                assert(s[7] == head[7]);
                assert(s[8] == head[8]);
                assert(s[9] == head[9]);
                assert(s[10] == head[10]);
            }
        }
        let tail = s.subrange(s.len() - 5, s.len() as int);
        if suffixed {
            assert(tail =~= crate::validate::json_suffix());
        } else {
            if tail == crate::validate::json_suffix() {
                assert(s[s.len() - 5] == tail[0]);
                assert(s[s.len() - 4] == tail[1]);
                assert(s[s.len() - 3] == tail[2]);
                assert(s[s.len() - 2] == tail[3]);
                assert(s[s.len() - 1] == tail[4]);
            }
        }
    }
    prefixed && suffixed
}

/// Folds a directory enumeration into the names the listing reports:
/// undecodable entries are skipped, the rest pass the prefix/suffix
/// filter, and a single bad entry never aborts the whole listing.
pub fn filter_storage_entries(entries: &Vec<Option<String>>) -> (r: Vec<String>)
    ensures
        r@.map_values(|s: String| s@) == storage_filter(entries@),
{
    let mut r: Vec<String> = Vec::new();
    let mut i: usize = 0;
    proof {
        assert(entries@.subrange(0, 0) =~= Seq::<Option<String>>::empty());
        assert(r@.map_values(|s: String| s@) =~= storage_filter(entries@.subrange(0, 0)));
    }
    while i < entries.len()
        invariant
            i <= entries.len(),
            r@.map_values(|s: String| s@) == storage_filter(entries@.subrange(0, i as int)),
        decreases entries.len() - i,
    {
        let ghost prefix = entries@.subrange(0, i as int);
        let ghost before = r@;
        match &entries[i] {
            Some(name) => {
                if is_storage_entry(name.as_str()) {
                    r.push(name.clone());
                }
            },
            None => {},
        }
        proof {
            let extended = entries@.subrange(0, i + 1 as int);
            assert(extended.drop_last() =~= prefix);
            assert(extended.last() == entries@[i as int]);
            match entries@[i as int] {
                Some(name) => {
                    if storage_entry(name@) {
                        assert(r@ =~= before.push(name));
                        assert(r@.map_values(|s: String| s@) =~= before.map_values(
                            |s: String| s@,
                        ).push(name@));
                    }
                },
                None => {},
            }
        }
        i = i + 1;
    }
    proof {
        assert(entries@.subrange(0, entries@.len() as int) =~= entries@);
    }
    r
}

} // verus!
