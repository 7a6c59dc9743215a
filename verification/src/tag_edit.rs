//! Editing tag lists: merging new tags in (first occurrence wins) and
//! dropping entries by position.

use vstd::prelude::*;

use itertools::Itertools;

use crate::entity_base::Tag;

verus! {

/// Whether some element of `del` equals position `i`.
pub open spec fn spec_contains_index(del: Seq<usize>, i: int) -> bool {
    exists|j: int| 0 <= j < del.len() && del[j] as int == i
}

/// The elements of `s` whose positions are not listed in `del`, in order.
pub open spec fn spec_keep_indexes<T>(s: Seq<T>, del: Seq<usize>) -> Seq<T>
    decreases s.len(),
{
    if s.len() == 0 {
        Seq::<T>::empty()
    } else {
        let prefix = spec_keep_indexes(s.drop_last(), del);
        if spec_contains_index(del, s.len() - 1) {
            prefix
        } else {
            prefix.push(s.last())
        }
    }
}

/// Whether position `pos` is listed in `indexes`.
fn contains_index(indexes: &Vec<usize>, pos: usize) -> (r: bool)
    ensures
        r == spec_contains_index(indexes@, pos as int),
{
    let mut j: usize = 0;
    while j < indexes.len()
        invariant
            0 <= j <= indexes@.len(),
            forall|k: int| 0 <= k < j ==> indexes@[k] as int != pos as int,
        decreases indexes@.len() - j,
    {
        if indexes[j] == pos {
            return true;
        }
        j = j + 1;
    }
    false
}

/// Keeps the elements whose positions are not listed, preserving order.
pub fn delete_indexes_in_vector<T>(base_vector: Vec<T>, delete_indexes: &Vec<usize>) -> (r: Vec<
    T,
>)
    ensures
        r@ == spec_keep_indexes(base_vector@, delete_indexes@),
{
    let ghost orig = base_vector@;
    let mut v = base_vector;
    let total = v.len();
    proof {
        assert(orig.len() == total);
    }
    let mut r: Vec<T> = Vec::new();
    let mut pos: usize = 0;
    while v.len() > 0
        invariant
            0 <= pos,
            pos + v@.len() == orig.len(),
            orig.len() <= usize::MAX,
            v@ =~= orig.skip(pos as int),
            r@ =~= spec_keep_indexes(orig.take(pos as int), delete_indexes@),
        decreases v@.len(),
    {
        proof {
            assert(orig.take(pos as int + 1).drop_last() =~= orig.take(pos as int));
            assert(orig.take(pos as int + 1).last() == orig[pos as int]);
            assert(v@[0] == orig[pos as int]);
        }
        let x = v.remove(0);
        if !contains_index(delete_indexes, pos) {
            r.push(x);
        }
        proof {
            assert(v@ =~= orig.skip(pos as int + 1));
            assert(r@ =~= spec_keep_indexes(orig.take(pos as int + 1), delete_indexes@));
        }
        pos = pos + 1;
    }
    proof {
        assert(orig.take(pos as int) =~= orig);
    }
    r
}

/// The list with every repeated tag dropped: the first occurrence of each
/// tag survives, in its original position order.
pub open spec fn spec_dedup_first(s: Seq<Seq<char>>) -> Seq<Seq<char>>
    decreases s.len(),
{
    if s.len() == 0 {
        Seq::<Seq<char>>::empty()
    } else {
        let prefix = spec_dedup_first(s.drop_last());
        if s.drop_last().contains(s.last()) {
            prefix
        } else {
            prefix.push(s.last())
        }
    }
}

/// Relies on itertools::Itertools::unique: yields the list's elements with
/// duplicates removed, keeping the first occurrence of each, in order;
/// duplicates are detected by string equality, which for `String` is
/// character-for-character equality.
#[verifier::external_body]
fn unique_tags(tags: Vec<Tag>) -> (r: Vec<Tag>)
    ensures
        r.deep_view() == spec_dedup_first(tags.deep_view()),
{
    tags.into_iter().unique().collect()
}

/// Extends a tag list by new tags and drops the duplicates, first
/// occurrence winning.
pub fn merge_tags(existing: Vec<Tag>, new_tags: Vec<Tag>) -> (r: Vec<Tag>)
    ensures
        r.deep_view() == spec_dedup_first(existing.deep_view() + new_tags.deep_view()),
{
    let ghost pre = existing.deep_view();
    let ghost add = new_tags.deep_view();
    let mut all = existing;
    let mut incoming = new_tags;
    all.append(&mut incoming);
    proof {
        assert(all.deep_view() =~~= pre + add);
    }
    unique_tags(all)
}

} // verus!
