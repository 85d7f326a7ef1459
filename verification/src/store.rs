//! The document store: create, read, update, delete and list named
//! documents inside one flat base directory.
//!
//! The store is stated over an explicit directory state — whether the base
//! directory is present, and which file holds which content — so every
//! operation's effect on the directory is a proved contract. Each
//! operation runs the same preamble — validate the name, rebuild the
//! candidate path, re-check containment — before the directory state is
//! touched.

use vstd::prelude::*;

use crate::errors::StoreError;
use crate::listing::{is_storage_entry, storage_entry};
use crate::paths::resolve_document_path;
use crate::validate::{spec_validate, valid_name};

verus! {

/// The directory contents as a map, later entries shadowing earlier ones;
/// with unique keys, simply one binding per file.
spec fn entries_map(es: Seq<(String, String)>) -> Map<Seq<char>, Seq<char>>
    decreases es.len(),
{
    if es.len() == 0 {
        Map::empty()
    } else {
        entries_map(es.drop_last()).insert(es.last().0@, es.last().1@)
    }
}

/// Some entry carries the filename `k`.
spec fn has_key(es: Seq<(String, String)>, k: Seq<char>) -> bool {
    exists|i: int| 0 <= i < es.len() && (#[trigger] es[i]).0@ == k
}

/// No two entries carry the same filename.
spec fn unique_keys(es: Seq<(String, String)>) -> bool {
    forall|i: int, j: int|
        0 <= i < j < es.len() ==> (#[trigger] es[i]).0@ != (#[trigger] es[j]).0@
}

/// The entries that survive deleting the filename `k`, in their order.
spec fn filter_out(es: Seq<(String, String)>, k: Seq<char>) -> Seq<(String, String)>
    decreases es.len(),
{
    if es.len() == 0 {
        Seq::empty()
    } else {
        let rest = filter_out(es.drop_last(), k);
        if es.last().0@ == k {
            rest
        } else {
            rest.push(es.last())
        }
    }
}

proof fn lemma_map_domain(es: Seq<(String, String)>, k: Seq<char>)
    ensures
        entries_map(es).contains_key(k) <==> has_key(es, k),
    decreases es.len(),
{
    if es.len() == 0 {
    } else {
        lemma_map_domain(es.drop_last(), k);
        if has_key(es.drop_last(), k) {
            let i = choose|i: int|
                0 <= i < es.drop_last().len() && (#[trigger] es.drop_last()[i]).0@ == k;
            assert((es[i]).0@ == k);
        }
        if has_key(es, k) && es.last().0@ != k {
            let i = choose|i: int| 0 <= i < es.len() && (#[trigger] es[i]).0@ == k;
            assert(i < es.len() - 1);
            assert((es.drop_last()[i]).0@ == k);
        }
    }
}

proof fn lemma_map_value_at(es: Seq<(String, String)>, i: int)
    requires
        unique_keys(es),
        0 <= i < es.len(),
    ensures
        entries_map(es).contains_key(es[i].0@),
        entries_map(es)[es[i].0@] == es[i].1@,
    decreases es.len(),
{
    if i == es.len() - 1 {
    } else {
        assert(unique_keys(es.drop_last())) by {
            assert(forall|x: int, y: int|
                0 <= x < y < es.drop_last().len() ==> (#[trigger] es.drop_last()[x]).0@ != (
                #[trigger] es.drop_last()[y]).0@);
        }
        lemma_map_value_at(es.drop_last(), i);
        assert(es.drop_last()[i] == es[i]);
        assert(es[i].0@ != es.last().0@);
    }
}

proof fn lemma_filter_out(es: Seq<(String, String)>, k: Seq<char>)
    ensures
        entries_map(filter_out(es, k)) == entries_map(es).remove(k),
        !has_key(filter_out(es, k), k),
        forall|k2: Seq<char>| has_key(filter_out(es, k), k2) ==> has_key(es, k2),
        unique_keys(es) ==> unique_keys(filter_out(es, k)),
    decreases es.len(),
{
    if es.len() == 0 {
        assert(entries_map(filter_out(es, k)) =~= entries_map(es).remove(k));
    } else {
        let dl = es.drop_last();
        lemma_filter_out(dl, k);
        let lk = es.last().0@;
        let lv = es.last().1@;
        if lk == k {
            assert(filter_out(es, k) == filter_out(dl, k));
            assert(entries_map(es).remove(k) =~= entries_map(dl).remove(k));
            assert forall|k2: Seq<char>| has_key(filter_out(es, k), k2) implies has_key(
                es,
                k2,
            ) by {
                assert(has_key(filter_out(dl, k), k2));
                assert(has_key(dl, k2));
                let j = choose|j: int| 0 <= j < dl.len() && (#[trigger] dl[j]).0@ == k2;
                assert(dl[j] == es[j]);
                assert((es[j]).0@ == k2);
            }
        } else {
            let f = filter_out(dl, k).push(es.last());
            assert(filter_out(es, k) == f);
            assert(f.drop_last() =~= filter_out(dl, k));
            assert(f.last() == es.last());
            assert(entries_map(f) == entries_map(filter_out(dl, k)).insert(lk, lv));
            assert(entries_map(dl).remove(k).insert(lk, lv) =~= entries_map(dl).insert(
                lk,
                lv,
            ).remove(k));
            // the last element of `f` carries a key other than `k`, and the
            // rest came out of `filter_out(dl, k)`
            assert forall|k2: Seq<char>| has_key(f, k2) implies has_key(es, k2) by {
                let i = choose|i: int| 0 <= i < f.len() && (#[trigger] f[i]).0@ == k2;
                if i < f.len() - 1 {
                    assert(f[i] == filter_out(dl, k)[i]);
                    assert(has_key(filter_out(dl, k), k2));
                    assert(has_key(dl, k2));
                    let j = choose|j: int|
                        0 <= j < dl.len() && (#[trigger] dl[j]).0@ == k2;
                    assert(dl[j] == es[j]);
                    assert((es[j]).0@ == k2);
                } else {
                    assert((es[es.len() - 1]).0@ == k2);
                }
            }
            assert(!has_key(f, k)) by {
                if has_key(f, k) {
                    let i = choose|i: int| 0 <= i < f.len() && (#[trigger] f[i]).0@ == k;
                    if i < f.len() - 1 {
                        assert(has_key(filter_out(dl, k), k));
                    }
                }
            }
            if unique_keys(es) {
                assert(unique_keys(dl)) by {
                    assert(forall|x: int, y: int|
                        0 <= x < y < dl.len() ==> (#[trigger] dl[x]).0@ != (#[trigger] dl[y]).0@);
                }
                assert forall|x: int, y: int|
                    0 <= x < y < f.len() implies (#[trigger] f[x]).0@ != (#[trigger] f[y]).0@ by {
                    if y < f.len() - 1 {
                        assert(unique_keys(filter_out(dl, k)));
                    } else {
                        // f[y] is the old last entry, whose key differs from
                        // every key of dl, and f[x]'s key came out of dl
                        assert(f[x].0@ == filter_out(dl, k)[x].0@);
                        assert(has_key(filter_out(dl, k), f[x].0@));
                        assert(has_key(dl, f[x].0@));
                        let j = choose|j: int|
                            0 <= j < dl.len() && (#[trigger] dl[j]).0@ == f[x].0@;
                        assert(dl[j] == es[j]);
                        assert((es[j]).0@ == f[x].0@);
                        assert(es[j].0@ != es.last().0@);
                    }
                }
            }
        }
    }
}

/// Character-for-character string equality.
fn str_eq(a: &str, b: &str) -> (r: bool)
    ensures
        r == (a@ == b@),
{
    let al: usize = a.unicode_len();
    let bl: usize = b.unicode_len();
    if al != bl {
        return false;
    }
    let mut i: usize = 0;
    while i < al
        invariant
            al == a@.len(),
            bl == b@.len(),
            al == bl,
            i <= al,
            forall|j: int| 0 <= j < i ==> a@[j] == b@[j],
        decreases al - i,
    {
        if a.get_char(i) != b.get_char(i) {
            proof {
                if a@ == b@ {
                    assert(a@[i as int] == b@[i as int]);
                }
            }
            return false;
        }
        i = i + 1;
    }
    proof {
        assert(a@ =~= b@);
    }
    true
}

/// A flat directory of named documents under one base directory.
///
/// The state is explicit — base path, whether the directory is present,
/// and its entries — so the operations' contracts speak of the directory's
/// contents before and after each call. The host environment mirrors this
/// state onto the real filesystem.
pub struct DocumentStore {
    base: String,
    present: bool,
    entries: Vec<(String, String)>,
}

impl DocumentStore {
    /// The base directory's path.
    pub closed spec fn base_dir(self) -> Seq<char> {
        self.base@
    }

    /// Whether the base directory exists.
    pub closed spec fn dir_present(self) -> bool {
        self.present
    }

    /// The directory's contents: filename to document content.
    pub closed spec fn files(self) -> Map<Seq<char>, Seq<char>> {
        entries_map(self.entries@)
    }

    /// The store's invariant: one entry per filename.
    pub closed spec fn wf(self) -> bool {
        unique_keys(self.entries@)
    }

    /// A store over a base directory that has not been created yet.
    pub fn new(base: String) -> (s: Self)
        ensures
            s.wf(),
            s.base_dir() == base@,
            !s.dir_present(),
            s.files() == Map::<Seq<char>, Seq<char>>::empty(),
    {
        DocumentStore { base, present: false, entries: Vec::new() }
    }

    /// The host-assigned base directory path; idempotent, touches nothing.
    pub fn base_path(&self) -> (r: String)
        ensures
            r@ == self.base_dir(),
    {
        self.base.clone()
    }

    /// Guarantees the base directory exists, creating it if absent; the
    /// documents are untouched. (On a real filesystem creation can fail
    /// with an I/O error; on the directory state it cannot.)
    pub fn ensure_base(&mut self)
        requires
            old(self).wf(),
        ensures
            final(self).wf(),
            final(self).base_dir() == old(self).base_dir(),
            final(self).dir_present(),
            final(self).files() == old(self).files(),
    {
        self.present = true;
    }

    /// The surviving entries after the filename `name` is dropped.
    fn entries_without(&self, name: &str) -> (kept: Vec<(String, String)>)
        ensures
            kept@ == filter_out(self.entries@, name@),
    {
        let mut kept: Vec<(String, String)> = Vec::new();
        let mut i: usize = 0;
        proof {
            assert(self.entries@.subrange(0, 0) =~= Seq::<(String, String)>::empty());
            assert(kept@ =~= filter_out(self.entries@.subrange(0, 0), name@));
        }
        while i < self.entries.len()
            invariant
                i <= self.entries.len(),
                kept@ == filter_out(self.entries@.subrange(0, i as int), name@),
            decreases self.entries.len() - i,
        {
            let ghost prefix = self.entries@.subrange(0, i as int);
            let e = &self.entries[i];
            if !str_eq(e.0.as_str(), name) {
                kept.push((e.0.clone(), e.1.clone()));
            }
            proof {
                let extended = self.entries@.subrange(0, i + 1 as int);
                assert(extended.drop_last() =~= prefix);
                assert(extended.last() == self.entries@[i as int]);
            }
            i = i + 1;
        }
        proof {
            assert(self.entries@.subrange(0, self.entries@.len() as int) =~= self.entries@);
        }
        kept
    }

    /// Drops a file into the directory as an outside writer would: the
    /// directory comes into being if absent, the entry is created or
    /// overwritten, and no naming policy applies.
    pub fn place_file(&mut self, name: &str, content: &str)
        requires
            old(self).wf(),
        ensures
            final(self).wf(),
            final(self).base_dir() == old(self).base_dir(),
            final(self).dir_present(),
            final(self).files() == old(self).files().insert(name@, content@),
    {
        let ghost es = self.entries@;
        let mut kept = self.entries_without(name);
        let ghost filtered = kept@;
        kept.push((String::from_str(name), String::from_str(content)));
        self.entries = kept;
        self.present = true;
        proof {
            lemma_filter_out(es, name@);
            assert(self.entries@.drop_last() =~= filtered);
            assert(entries_map(self.entries@) == entries_map(filtered).insert(name@, content@));
            assert(entries_map(es).remove(name@).insert(name@, content@) =~= entries_map(
                es,
            ).insert(name@, content@));
            // the filtered entries are free of `name`, so the appended
            // entry keeps the keys unique
            assert forall|x: int, y: int|
                0 <= x < y < self.entries@.len() implies (#[trigger] self.entries@[x]).0@ != (
            #[trigger] self.entries@[y]).0@ by {
                if y < self.entries@.len() - 1 {
                    assert(unique_keys(filtered));
                } else {
                    assert(self.entries@[x] == filtered[x]);
                    assert(has_key(filtered, filtered[x].0@));
                }
            }
        }
    }

    /// Writes a document: validates the name, brings the base directory
    /// into being if absent, re-checks containment, and then creates or
    /// fully overwrites the document. Exactly the policy-accepted names
    /// are written; a rejected name changes nothing.
    pub fn write_document(&mut self, name: &str, content: &str) -> (r: Result<(), StoreError>)
        requires
            old(self).wf(),
        ensures
            final(self).wf(),
            final(self).base_dir() == old(self).base_dir(),
            valid_name(name@) ==> r is Ok && final(self).dir_present() && final(self).files()
                == old(self).files().insert(name@, content@),
            !valid_name(name@) ==> r == Err::<(), StoreError>(
                StoreError::Validation(spec_validate(name@)->Err_0),
            ) && final(self).files() == old(self).files() && final(self).dir_present() == old(
                self,
            ).dir_present(),
    {
        if let Err(e) = resolve_document_path(self.base.as_str(), name) {
            return Err(e);
        }
        self.place_file(name, content);
        Ok(())
    }

    /// Reads a document back verbatim: validates the name, re-checks
    /// containment, and returns the content stored under `name`, or
    /// `NotFound` when the directory or the document is absent.
    pub fn read_document(&self, name: &str) -> (r: Result<String, StoreError>)
        requires
            self.wf(),
        ensures
            valid_name(name@) && self.dir_present() && self.files().contains_key(name@) ==> r
                is Ok && r->Ok_0@ == self.files()[name@],
            valid_name(name@) && !(self.dir_present() && self.files().contains_key(name@)) ==> r
                == Err::<String, StoreError>(StoreError::NotFound),
            !valid_name(name@) ==> r == Err::<String, StoreError>(
                StoreError::Validation(spec_validate(name@)->Err_0),
            ),
    {
        if let Err(e) = resolve_document_path(self.base.as_str(), name) {
            return Err(e);
        }
        if !self.present {
            proof {
                lemma_map_domain(self.entries@, name@);
            }
            return Err(StoreError::NotFound);
        }
        let mut i: usize = 0;
        while i < self.entries.len()
            invariant
                self.wf(),
                valid_name(name@),
                self.present,
                i <= self.entries.len(),
                forall|j: int| 0 <= j < i ==> (#[trigger] self.entries@[j]).0@ != name@,
            decreases self.entries.len() - i,
        {
            let e = &self.entries[i];
            if str_eq(e.0.as_str(), name) {
                proof {
                    lemma_map_value_at(self.entries@, i as int);
                }
                return Ok(e.1.clone());
            }
            i = i + 1;
        }
        proof {
            lemma_map_domain(self.entries@, name@);
        }
        Err(StoreError::NotFound)
    }

    /// Deletes a document: validates the name, re-checks containment, and
    /// removes the document if it exists. A missing document is success,
    /// not an error — delete is idempotent.
    pub fn delete_document(&mut self, name: &str) -> (r: Result<(), StoreError>)
        requires
            old(self).wf(),
        ensures
            final(self).wf(),
            final(self).base_dir() == old(self).base_dir(),
            final(self).dir_present() == old(self).dir_present(),
            valid_name(name@) ==> r is Ok && final(self).files() == old(self).files().remove(
                name@,
            ),
            !valid_name(name@) ==> r == Err::<(), StoreError>(
                StoreError::Validation(spec_validate(name@)->Err_0),
            ) && final(self).files() == old(self).files(),
    {
        if let Err(e) = resolve_document_path(self.base.as_str(), name) {
            return Err(e);
        }
        let ghost es = self.entries@;
        let kept = self.entries_without(name);
        self.entries = kept;
        proof {
            lemma_filter_out(es, name@);
        }
        Ok(())
    }

    /// Lists the documents: the names in the directory that carry the
    /// `doppelkopf-` prefix and the `.json` suffix, each once, in the
    /// order the directory yields them. A missing base directory is an
    /// empty listing, not an error.
    pub fn list_documents(&self) -> (r: Vec<String>)
        requires
            self.wf(),
        ensures
            !self.dir_present() ==> r@.len() == 0,
            forall|i: int|
                0 <= i < r@.len() ==> self.files().contains_key(#[trigger] r@[i]@)
                    && storage_entry(r@[i]@),
            self.dir_present() ==> forall|k: Seq<char>|
                #[trigger] self.files().contains_key(k) && storage_entry(k) ==> exists|i: int|
                    0 <= i < r@.len() && #[trigger] r@[i]@ == k,
            forall|i: int, j: int|
                #![trigger r@[i], r@[j]]
                0 <= i < j < r@.len() ==> r@[i]@ != r@[j]@,
    {
        let mut r: Vec<String> = Vec::new();
        if !self.present {
            return r;
        }
        let mut i: usize = 0;
        while i < self.entries.len()
            invariant
                self.wf(),
                i <= self.entries.len(),
                forall|m: int|
                    #![trigger r@[m]]
                    0 <= m < r@.len() ==> exists|j: int|
                        0 <= j < i && (#[trigger] self.entries@[j]).0@ == r@[m]@,
                forall|m: int| 0 <= m < r@.len() ==> storage_entry((#[trigger] r@[m])@),
                forall|j: int|
                    0 <= j < i && storage_entry((#[trigger] self.entries@[j]).0@) ==> exists|
                        m: int,
                    | 0 <= m < r@.len() && r@[m]@ == self.entries@[j].0@,
                forall|m1: int, m2: int|
                    #![trigger r@[m1], r@[m2]]
                    0 <= m1 < m2 < r@.len() ==> r@[m1]@ != r@[m2]@,
            decreases self.entries.len() - i,
        {
            let ghost before = r@;
            let e = &self.entries[i];
            if is_storage_entry(e.0.as_str()) {
                r.push(e.0.clone());
                proof {
                    assert(r@ == before.push(self.entries@[i as int].0));
                    assert forall|m: int|
                        #![trigger r@[m]]
                        0 <= m < r@.len() implies exists|j: int|
                        0 <= j < i + 1 && (#[trigger] self.entries@[j]).0@ == r@[m]@ by {
                        if m < before.len() {
                            let j = choose|j: int|
                                0 <= j < i && (#[trigger] self.entries@[j]).0@ == before[m]@;
                            assert(r@[m] == before[m]);
                            assert(self.entries@[j].0@ == r@[m]@);
                        } else {
                            assert(self.entries@[i as int].0@ == r@[m]@);
                        }
                    }
                    assert forall|j: int|
                        0 <= j < i + 1 && storage_entry(
                            (#[trigger] self.entries@[j]).0@,
                        ) implies exists|m: int|
                        0 <= m < r@.len() && r@[m]@ == self.entries@[j].0@ by {
                        if j < i {
                            let m = choose|m: int|
                                0 <= m < before.len() && before[m]@ == self.entries@[j].0@;
                            assert(r@[m]@ == self.entries@[j].0@);
                        } else {
                            assert(r@[r@.len() - 1]@ == self.entries@[j].0@);
                        }
                    }
                    // the new element's key comes from entry `i`, which by
                    // uniqueness differs from every earlier entry's key
                    assert forall|m1: int, m2: int|
                        #![trigger r@[m1], r@[m2]]
                        0 <= m1 < m2 < r@.len() implies r@[m1]@ != r@[m2]@ by {
                        if m2 == r@.len() - 1 {
                            let j = choose|j: int|
                                0 <= j < i && (#[trigger] self.entries@[j]).0@ == before[m1]@;
                            assert(r@[m1] == before[m1]);
                            assert(self.entries@[j].0@ != self.entries@[i as int].0@);
                        } else {
                            assert(r@[m1] == before[m1]);
                            assert(r@[m2] == before[m2]);
                        }
                    }
                }
            } else {
                proof {
                    assert(!storage_entry(self.entries@[i as int].0@));
                    assert forall|j: int|
                        0 <= j < i + 1 && storage_entry(
                            (#[trigger] self.entries@[j]).0@,
                        ) implies exists|m: int|
                        0 <= m < r@.len() && r@[m]@ == self.entries@[j].0@ by {
                        assert(j < i);
                    }
                }
            }
            i = i + 1;
        }
        proof {
            assert forall|m: int|
                0 <= m < r@.len() implies self.files().contains_key(#[trigger] r@[m]@) by {
                lemma_map_domain(self.entries@, r@[m]@);
            }
            assert forall|k: Seq<char>|
                #[trigger] self.files().contains_key(k) && storage_entry(k) implies exists|i: int|
                0 <= i < r@.len() && #[trigger] r@[i]@ == k by {
                lemma_map_domain(self.entries@, k);
                let j = choose|j: int| 0 <= j < self.entries@.len() && (#[trigger] self.entries@[j]).0@ == k;
                let m = choose|m: int| 0 <= m < r@.len() && r@[m]@ == self.entries@[j].0@;
                assert(r@[m]@ == k);
            }
        }
        r
    }
}

/// Round trip: after a successful write of `content` under a
/// policy-accepted `name`, a read of the same name succeeds and returns
/// that very content — by the write's contract the directory then maps
/// `name` to `content`, which is the read's success case.
pub proof fn lemma_write_read_round_trip(
    files: Map<Seq<char>, Seq<char>>,
    name: Seq<char>,
    content: Seq<char>,
)
    requires
        valid_name(name),
    ensures
        files.insert(name, content).contains_key(name),
        files.insert(name, content)[name] == content,
{
}

/// Overwrite: a second write under the same name fully replaces the first
/// content — the directory after both writes is the directory after the
/// second alone, with no trace of the first.
pub proof fn lemma_second_write_overwrites(
    files: Map<Seq<char>, Seq<char>>,
    name: Seq<char>,
    first: Seq<char>,
    second: Seq<char>,
)
    requires
        valid_name(name),
    ensures
        files.insert(name, first).insert(name, second) == files.insert(name, second),
        files.insert(name, first).insert(name, second)[name] == second,
{
    assert(files.insert(name, first).insert(name, second) =~= files.insert(name, second));
}

/// Idempotent delete: deleting a name with no document behind it leaves
/// the directory exactly as it was — and, by the delete contract, still
/// returns success rather than `NotFound`.
pub proof fn lemma_delete_absent_is_noop(files: Map<Seq<char>, Seq<char>>, name: Seq<char>)
    requires
        !files.contains_key(name),
    ensures
        files.remove(name) == files,
{
    assert(files.remove(name) =~= files);
}

} // verus!
