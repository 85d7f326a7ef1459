//! Path construction and the second line of defense: the lexical
//! containment check applied to every resolved document path before a disk
//! operation, independently of the naming policy.

use vstd::prelude::*;

use crate::errors::StoreError;
use crate::validate::{spec_validate, valid_name, validate_filename};

verus! {

/// The path of the document `name` inside the directory `base`:
/// `base`, a separator, then `name`.
pub open spec fn joined_path(base: Seq<char>, name: Seq<char>) -> Seq<char> {
    base + seq!['/'] + name
}

/// `candidate` lies lexically inside the directory `base`: it extends
/// `base` by a separator and at least the separator itself.
pub open spec fn lexically_contained(base: Seq<char>, candidate: Seq<char>) -> bool {
    &&& candidate.len() > base.len()
    &&& candidate.subrange(0, base.len() as int) == base
    &&& candidate[base.len() as int] == '/'
}

/// Builds the path of the document `name` inside the directory `base`.
pub fn join_under(base: &str, name: &str) -> (r: String)
    ensures
        r@ == joined_path(base@, name@),
{
    let mut r = String::from_str(base);
    r.append("/");
    r.append(name);
    proof {
        reveal_strlit("/");
        assert(("/")@ =~= seq!['/']);
        assert(r@ =~= joined_path(base@, name@));
    }
    r
}

/// Whether `candidate` lies lexically inside the directory `base`.
pub fn contained_in(base: &str, candidate: &str) -> (r: bool)
    ensures
        r == lexically_contained(base@, candidate@),
{
    let bl: usize = base.unicode_len();
    let cl: usize = candidate.unicode_len();
    if cl <= bl {
        return false;
    }
    if candidate.get_char(bl) != '/' {
        return false;
    }
    let mut i: usize = 0;
    while i < bl
        invariant
            bl == base@.len(),
            cl == candidate@.len(),
            cl > bl,
            i <= bl,
            forall|j: int| 0 <= j < i ==> candidate@[j] == base@[j],
        decreases bl - i,
    {
        if candidate.get_char(i) != base.get_char(i) {
            proof {
                let head = candidate@.subrange(0, bl as int);
                if head == base@ {
                    assert(head[i as int] == base@[i as int]);
                }
            }
            return false;
        }
        i = i + 1;
    }
    proof {
        assert(candidate@.subrange(0, bl as int) =~= base@);
    }
    true
}

/// Every path the store builds for a policy-accepted name stays inside the
/// base directory: the containment check of [`resolve_document_path`] can
/// never fire after validation has passed. This holds for any base and any
/// name, since the join inserts the separator itself.
pub proof fn lemma_joined_path_contained(base: Seq<char>, name: Seq<char>)
    ensures
        lexically_contained(base, joined_path(base, name)),
{
    let p = joined_path(base, name);
    assert(p.len() == base.len() + 1 + name.len());
    assert(p.subrange(0, base.len() as int) =~= base);
    assert(p[base.len() as int] == '/');
}

/// The shared preamble of every disk operation: validate the name, build
/// the candidate path, and re-check containment before anything touches
/// the filesystem.
///
/// Exactly the policy-accepted names resolve; a rejected name surfaces its
/// validation error untouched, and the traversal branch is provably dead.
pub fn resolve_document_path(base: &str, name: &str) -> (r: Result<String, StoreError>)
    ensures
        r is Ok <==> valid_name(name@),
        r is Ok ==> r->Ok_0@ == joined_path(base@, name@),
        !valid_name(name@) ==> r == Err::<String, StoreError>(
            StoreError::Validation(spec_validate(name@)->Err_0),
        ),
{
    if let Err(e) = validate_filename(name) {
        return Err(StoreError::Validation(e));
    }
    let candidate = join_under(base, name);
    if !contained_in(base, candidate.as_str()) {
        proof {
            lemma_joined_path_contained(base@, name@);
        }
        return Err(StoreError::PathTraversal);
    }
    Ok(candidate)
}

} // verus!
