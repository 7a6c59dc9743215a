//! Canonical, reversible encoding of relative paths into flat storage keys.
//!
//! A path is a byte string whose components are separated by `/`. It is
//! canonicalized purely lexically (`.` and empty components vanish, `..` pops
//! the previous component, escaping the root or starting at the root is an
//! error), then encoded by joining the components with one reserved separator
//! byte that no valid component may hold. Decoding splits the key again;
//! [`lemma_decode_encode`] proves the round trip and
//! [`lemma_encode_injective`] that two different canonical paths never share
//! a key.

use vstd::prelude::*;

verus! {

/// Joins encoded components inside one flat file name; a valid component
/// never holds this byte.
pub const NAME_SEPARATOR: u8 = 0x0A;

/// Separates components of a raw path.
pub const COMPONENT_SEPARATOR: u8 = 0x2F;

/// `.` as a byte.
pub const DOT_BYTE: u8 = 0x2E;

/// Rejections of a raw path.
#[derive(Debug, Clone, PartialEq, Eq)]
pub enum PathIDTError {
    /// The path starts at the filesystem root.
    UsingAbsolutePath(Vec<u8>),
    /// A `..` component would ascend above the root.
    UsingUnlocalPath(Vec<u8>),
    /// A component holds the reserved separator byte, so no collision-free
    /// key exists for it.
    SeparatorInName(Vec<u8>),
}

/// A canonical relative path: components in order, already free of `.`, `..`
/// and separator bytes.
#[derive(Debug, Clone, PartialEq, Eq)]
pub struct NormalizedPath {
    pub components: Vec<Vec<u8>>,
}

impl View for NormalizedPath {
    type V = Seq<Seq<u8>>;

    open spec fn view(&self) -> Seq<Seq<u8>> {
        self.components.deep_view()
    }
}

/// What a canonical component may look like: nonempty, not a dot form, free
/// of both separator bytes.
pub open spec fn spec_valid_component(c: Seq<u8>) -> bool {
    &&& c.len() > 0
    &&& c != seq![DOT_BYTE]
    &&& c != seq![DOT_BYTE, DOT_BYTE]
    &&& forall|i: int|
        0 <= i < c.len() ==> #[trigger] c[i] != COMPONENT_SEPARATOR && c[i] != NAME_SEPARATOR
}

pub open spec fn spec_wf_comps(cs: Seq<Seq<u8>>) -> bool {
    forall|i: int| 0 <= i < cs.len() ==> spec_valid_component(#[trigger] cs[i])
}

impl NormalizedPath {
    pub open spec fn wf(&self) -> bool {
        spec_wf_comps(self@)
    }
}

/// Splitting a byte string on `sep`, exactly as the components fall (empty
/// pieces kept); the result always holds at least one piece.
pub open spec fn spec_split(s: Seq<u8>, sep: u8) -> Seq<Seq<u8>>
    decreases s.len(),
{
    if s.len() == 0 {
        seq![Seq::<u8>::empty()]
    } else if s.last() == sep {
        spec_split(s.drop_last(), sep).push(Seq::<u8>::empty())
    } else {
        let prev = spec_split(s.drop_last(), sep);
        prev.update(prev.len() - 1, prev.last().push(s.last()))
    }
}

/// Joining pieces with `sep` between each two.
pub open spec fn spec_join(cs: Seq<Seq<u8>>, sep: u8) -> Seq<u8>
    decreases cs.len(),
{
    if cs.len() == 0 {
        Seq::<u8>::empty()
    } else if cs.len() == 1 {
        cs[0]
    } else {
        spec_join(cs.drop_last(), sep) + seq![sep] + cs.last()
    }
}

/// The nonempty pieces, in order.
pub open spec fn spec_nonempty_comps(cs: Seq<Seq<u8>>) -> Seq<Seq<u8>>
    decreases cs.len(),
{
    if cs.len() == 0 {
        Seq::<Seq<u8>>::empty()
    } else if cs.last().len() > 0 {
        spec_nonempty_comps(cs.drop_last()).push(cs.last())
    } else {
        spec_nonempty_comps(cs.drop_last())
    }
}

/// What decoding a storage key yields: the nonempty pieces between separator
/// bytes.
pub open spec fn spec_decode(key: Seq<u8>) -> Seq<Seq<u8>> {
    spec_nonempty_comps(spec_split(key, NAME_SEPARATOR))
}

pub proof fn lemma_split_len(s: Seq<u8>, sep: u8)
    ensures
        spec_split(s, sep).len() >= 1,
    decreases s.len(),
{
    if s.len() > 0 {
        lemma_split_len(s.drop_last(), sep);
    }
}

/// A string free of the separator splits into just itself.
proof fn lemma_split_no_sep(s: Seq<u8>, sep: u8)
    requires
        forall|i: int| 0 <= i < s.len() ==> #[trigger] s[i] != sep,
    ensures
        spec_split(s, sep) =~~= seq![s],
    decreases s.len(),
{
    if s.len() > 0 {
        lemma_split_no_sep(s.drop_last(), sep);
        assert(spec_split(s, sep) =~~= seq![s.drop_last().push(s.last())]);
        assert(s.drop_last().push(s.last()) =~= s);
    }
}

/// Appending a separator and a separator-free tail adds one piece.
proof fn lemma_split_append(x: Seq<u8>, y: Seq<u8>, sep: u8)
    requires
        forall|i: int| 0 <= i < y.len() ==> #[trigger] y[i] != sep,
    ensures
        spec_split(x + seq![sep] + y, sep) =~~= spec_split(x, sep).push(y),
    decreases y.len(),
{
    lemma_split_len(x, sep);
    if y.len() == 0 {
        assert(x + seq![sep] + y =~= x.push(sep));
        assert(x.push(sep).drop_last() =~= x);
    } else {
        lemma_split_append(x, y.drop_last(), sep);
        let s = x + seq![sep] + y;
        assert(s.last() == y.last());
        assert(s.drop_last() =~= x + seq![sep] + y.drop_last());
        let prev = spec_split(s.drop_last(), sep);
        assert(prev =~~= spec_split(x, sep).push(y.drop_last()));
        assert(prev.last().push(s.last()) =~= y);
        assert(spec_split(s, sep) =~~= prev.update(prev.len() - 1, y));
        assert(prev.update(prev.len() - 1, y) =~~= spec_split(x, sep).push(y));
    }
}

/// Splitting undoes joining, for components free of the separator.
proof fn lemma_split_join(cs: Seq<Seq<u8>>, sep: u8)
    requires
        forall|i: int, j: int|
            0 <= i < cs.len() && 0 <= j < cs[i].len() ==> #[trigger] cs[i][j] != sep,
        cs.len() >= 1,
    ensures
        spec_split(spec_join(cs, sep), sep) =~~= cs,
    decreases cs.len(),
{
    if cs.len() == 1 {
        assert(spec_join(cs, sep) == cs[0]);
        lemma_split_no_sep(cs[0], sep);
        assert(seq![cs[0]] =~~= cs);
    } else {
        lemma_split_join(cs.drop_last(), sep);
        lemma_split_append(spec_join(cs.drop_last(), sep), cs.last(), sep);
        assert(spec_split(spec_join(cs, sep), sep) =~~= spec_split(
            spec_join(cs.drop_last(), sep),
            sep,
        ).push(cs.last()));
        assert(cs.drop_last().push(cs.last()) =~= cs);
    }
}

/// Keeping the nonempty pieces of an all-nonempty list changes nothing.
proof fn lemma_nonempty_comps_id(cs: Seq<Seq<u8>>)
    requires
        forall|i: int| 0 <= i < cs.len() ==> #[trigger] cs[i].len() > 0,
    ensures
        spec_nonempty_comps(cs) =~~= cs,
    decreases cs.len(),
{
    if cs.len() > 0 {
        lemma_nonempty_comps_id(cs.drop_last());
        assert(cs.drop_last().push(cs.last()) =~= cs);
    }
}

/// Round trip: decoding the key of any well-formed canonical path returns
/// exactly its components.
pub proof fn lemma_decode_encode(cs: Seq<Seq<u8>>)
    requires
        spec_wf_comps(cs),
    ensures
        spec_decode(spec_join(cs, NAME_SEPARATOR)) =~~= cs,
{
    if cs.len() == 0 {
        assert(spec_join(cs, NAME_SEPARATOR) =~= Seq::<u8>::empty());
        let single = seq![Seq::<u8>::empty()];
        assert(spec_split(Seq::<u8>::empty(), NAME_SEPARATOR) == single);
        assert(single.last().len() == 0);
        assert(spec_nonempty_comps(single) == spec_nonempty_comps(single.drop_last()));
        assert(single.drop_last() =~= Seq::<Seq<u8>>::empty());
        assert(spec_nonempty_comps(Seq::<Seq<u8>>::empty()) =~~= Seq::<Seq<u8>>::empty());
        assert(cs =~~= Seq::<Seq<u8>>::empty());
    } else {
        assert(forall|i: int, j: int|
            0 <= i < cs.len() && 0 <= j < cs[i].len() ==> #[trigger] cs[i][j] != NAME_SEPARATOR) by {
            assert(forall|i: int| 0 <= i < cs.len() ==> spec_valid_component(#[trigger] cs[i]));
        }
        lemma_split_join(cs, NAME_SEPARATOR);
        assert(spec_split(spec_join(cs, NAME_SEPARATOR), NAME_SEPARATOR) == cs);
        assert(forall|i: int| 0 <= i < cs.len() ==> #[trigger] cs[i].len() > 0);
        lemma_nonempty_comps_id(cs);
    }
}

/// Collision freedom: two well-formed canonical paths with one key are one
/// path.
pub proof fn lemma_encode_injective(cs1: Seq<Seq<u8>>, cs2: Seq<Seq<u8>>)
    requires
        spec_wf_comps(cs1),
        spec_wf_comps(cs2),
        spec_join(cs1, NAME_SEPARATOR) == spec_join(cs2, NAME_SEPARATOR),
    ensures
        cs1 =~~= cs2,
{
    lemma_decode_encode(cs1);
    lemma_decode_encode(cs2);
}

/// Every piece of a split is free of the separator it was split on.
proof fn lemma_split_parts_no_sep(s: Seq<u8>, sep: u8)
    ensures
        forall|i: int, j: int|
            0 <= i < spec_split(s, sep).len() && 0 <= j < spec_split(s, sep)[i].len()
                ==> #[trigger] spec_split(s, sep)[i][j] != sep,
    decreases s.len(),
{
    if s.len() > 0 {
        lemma_split_parts_no_sep(s.drop_last(), sep);
        lemma_split_len(s.drop_last(), sep);
    }
}

/// A raw path addresses the filesystem root.
pub open spec fn spec_absolute(path: Seq<u8>) -> bool {
    path.len() > 0 && path[0] == COMPONENT_SEPARATOR
}

/// One step of lexical resolution: empty and `.` components vanish, `..`
/// pops (or escapes, `None`), anything else lands on the stack.
pub open spec fn spec_canon_step(state: Option<Seq<Seq<u8>>>, c: Seq<u8>) -> Option<
    Seq<Seq<u8>>,
> {
    match state {
        None => None,
        Some(stack) => if c.len() == 0 || c == seq![DOT_BYTE] {
            Some(stack)
        } else if c == seq![DOT_BYTE, DOT_BYTE] {
            if stack.len() > 0 {
                Some(stack.drop_last())
            } else {
                None
            }
        } else {
            Some(stack.push(c))
        },
    }
}

/// Lexical resolution of a component list, left to right; `None` means a
/// `..` ascended above the root.
pub open spec fn spec_canon_comps(cs: Seq<Seq<u8>>) -> Option<Seq<Seq<u8>>>
    decreases cs.len(),
{
    if cs.len() == 0 {
        Some(Seq::<Seq<u8>>::empty())
    } else {
        spec_canon_step(spec_canon_comps(cs.drop_last()), cs.last())
    }
}

/// The canonical component list of a raw relative path.
pub open spec fn spec_canon(path: Seq<u8>) -> Option<Seq<Seq<u8>>> {
    spec_canon_comps(spec_split(path, COMPONENT_SEPARATOR))
}

pub open spec fn spec_has_name_sep(c: Seq<u8>) -> bool {
    exists|i: int| 0 <= i < c.len() && c[i] == NAME_SEPARATOR
}

pub open spec fn spec_any_has_name_sep(cs: Seq<Seq<u8>>) -> bool {
    exists|i: int| 0 <= i < cs.len() && spec_has_name_sep(#[trigger] cs[i])
}

/// Once a prefix of the components escapes the root, the whole list does.
proof fn lemma_canon_none_persists(cs: Seq<Seq<u8>>, i: int)
    requires
        0 <= i <= cs.len(),
        spec_canon_comps(cs.take(i)) is None,
    ensures
        spec_canon_comps(cs) is None,
    decreases cs.len() - i,
{
    if i < cs.len() {
        assert(cs.take(i + 1).drop_last() =~~= cs.take(i));
        assert(spec_canon_comps(cs.take(i + 1)) is None);
        lemma_canon_none_persists(cs, i + 1);
    } else {
        assert(cs.take(i) =~~= cs);
    }
}

/// Copies a byte vector.
pub fn clone_bytes(v: &Vec<u8>) -> (r: Vec<u8>)
    ensures
        r@ == v@,
{
    let mut r: Vec<u8> = Vec::new();
    let mut i: usize = 0;
    while i < v.len()
        invariant
            0 <= i <= v@.len(),
            r@ == v@.take(i as int),
        decreases v@.len() - i,
    {
        r.push(v[i]);
        proof {
            assert(v@.take(i as int + 1) =~= v@.take(i as int).push(v@[i as int]));
        }
        i = i + 1;
    }
    proof {
        assert(v@.take(v@.len() as int) =~= v@);
    }
    r
}

/// Whether `v` holds the byte `b`.
pub fn contains_byte(v: &Vec<u8>, b: u8) -> (r: bool)
    ensures
        r == (exists|i: int| 0 <= i < v@.len() && v@[i] == b),
{
    let mut i: usize = 0;
    while i < v.len()
        invariant
            0 <= i <= v@.len(),
            forall|j: int| 0 <= j < i ==> v@[j] != b,
        decreases v@.len() - i,
    {
        if v[i] == b {
            return true;
        }
        i = i + 1;
    }
    false
}

/// Splits `s` on `sep`, keeping empty pieces, as [`spec_split`] describes.
pub fn split_bytes(s: &Vec<u8>, sep: u8) -> (r: Vec<Vec<u8>>)
    ensures
        r.deep_view() == spec_split(s@, sep),
{
    let mut done: Vec<Vec<u8>> = Vec::new();
    let mut cur: Vec<u8> = Vec::new();
    let mut i: usize = 0;
    while i < s.len()
        invariant
            0 <= i <= s@.len(),
            spec_split(s@.take(i as int), sep) =~~= done.deep_view().push(cur@),
        decreases s@.len() - i,
    {
        proof {
            assert(s@.take(i as int + 1).drop_last() =~= s@.take(i as int));
            assert(s@.take(i as int + 1).last() == s@[i as int]);
            lemma_split_len(s@.take(i as int), sep);
        }
        let ghost pre_done = done.deep_view();
        let ghost pre_cur = cur@;
        if s[i] == sep {
            done.push(cur);
            cur = Vec::new();
            proof {
                assert(done.deep_view() =~~= pre_done.push(pre_cur));
                assert(spec_split(s@.take(i as int + 1), sep) =~~= spec_split(
                    s@.take(i as int),
                    sep,
                ).push(Seq::<u8>::empty()));
                assert(spec_split(s@.take(i as int + 1), sep) =~~= done.deep_view().push(cur@));
            }
        } else {
            cur.push(s[i]);
            proof {
                let prev = spec_split(s@.take(i as int), sep);
                assert(prev.last() == pre_cur);
                assert(prev.update(prev.len() - 1, prev.last().push(s@[i as int])) =~~= pre_done
                    .push(pre_cur.push(s@[i as int])));
                assert(spec_split(s@.take(i as int + 1), sep) =~~= done.deep_view().push(cur@));
            }
        }
        i = i + 1;
    }
    proof {
        assert(s@.take(s@.len() as int) =~= s@);
    }
    let ghost pre_done = done.deep_view();
    let ghost pre_cur = cur@;
    done.push(cur);
    proof {
        assert(done.deep_view() =~~= pre_done.push(pre_cur));
        assert(done.deep_view() =~~= spec_split(s@, sep));
    }
    done
}

/// Resolves `.` and `..` lexically and checks the result can be encoded;
/// rejects absolute paths, paths escaping the root, and components holding
/// the reserved separator byte.
pub fn simplify_path_to_local(path: &Vec<u8>) -> (r: Result<NormalizedPath, PathIDTError>)
    ensures
        match r {
            Ok(p) => !spec_absolute(path@) && spec_canon(path@) == Some(p@) && p.wf()
                && !spec_any_has_name_sep(p@),
            Err(PathIDTError::UsingAbsolutePath(orig)) => orig@ == path@ && spec_absolute(
                path@,
            ),
            Err(PathIDTError::UsingUnlocalPath(orig)) => orig@ == path@ && !spec_absolute(path@)
                && spec_canon(path@) is None,
            Err(PathIDTError::SeparatorInName(orig)) => orig@ == path@ && !spec_absolute(path@)
                && spec_canon(path@) is Some && spec_any_has_name_sep(
                spec_canon(path@).unwrap(),
            ),
        },
{
    if path.len() > 0 && path[0] == COMPONENT_SEPARATOR {
        return Err(PathIDTError::UsingAbsolutePath(clone_bytes(path)));
    }
    let comps = split_bytes(path, COMPONENT_SEPARATOR);
    proof {
        lemma_split_parts_no_sep(path@, COMPONENT_SEPARATOR);
    }
    let mut stack: Vec<Vec<u8>> = Vec::new();
    let mut i: usize = 0;
    while i < comps.len()
        invariant
            0 <= i <= comps@.len(),
            !spec_absolute(path@),
            comps.deep_view() == spec_split(path@, COMPONENT_SEPARATOR),
            comps.deep_view().len() == comps@.len(),
            spec_canon_comps(comps.deep_view().take(i as int)) == Some(stack.deep_view()),
            forall|k: int, j: int|
                0 <= k < comps.deep_view().len() && 0 <= j < comps.deep_view()[k].len()
                    ==> #[trigger] comps.deep_view()[k][j] != COMPONENT_SEPARATOR,
            forall|k: int|
                0 <= k < stack.deep_view().len() ==> (#[trigger] stack.deep_view()[k]).len() > 0
                    && stack.deep_view()[k] != seq![DOT_BYTE] && stack.deep_view()[k] != seq![
                    DOT_BYTE,
                    DOT_BYTE,
                ] && (forall|j: int|
                    0 <= j < stack.deep_view()[k].len() ==> #[trigger] stack.deep_view()[k][j]
                        != COMPONENT_SEPARATOR),
        decreases comps@.len() - i,
    {
        proof {
            assert(comps.deep_view().take(i as int + 1).drop_last() =~= comps.deep_view().take(
                i as int,
            ));
            assert(comps.deep_view().take(i as int + 1).last() == comps.deep_view()[i as int]);
            assert(comps.deep_view()[i as int] == comps@[i as int]@);
        }
        let comp = clone_bytes(&comps[i]);
        let ghost pre_stack = stack.deep_view();
        if comp.len() == 0 {
            // an empty piece: a doubled or trailing slash
        } else if comp.len() == 1 && comp[0] == DOT_BYTE {
            proof {
                assert(comp@ =~= seq![DOT_BYTE]);
            }
        } else if comp.len() == 2 && comp[0] == DOT_BYTE && comp[1] == DOT_BYTE {
            proof {
                assert(comp@ =~= seq![DOT_BYTE, DOT_BYTE]);
            }
            if stack.len() > 0 {
                stack.pop();
                proof {
                    assert(stack.deep_view() =~~= pre_stack.drop_last());
                }
            } else {
                proof {
                    let dv = comps.deep_view();
                    assert(dv.take(i as int + 1).drop_last() =~~= dv.take(i as int));
                    assert(dv.take(i as int + 1).last() == dv[i as int]);
                    assert(spec_canon_comps(dv.take(i as int + 1)) is None);
                    lemma_canon_none_persists(dv, i as int + 1);
                }
                return Err(PathIDTError::UsingUnlocalPath(clone_bytes(path)));
            }
        } else {
            proof {
                assert(comp@ != seq![DOT_BYTE]);
                assert(comp@ != seq![DOT_BYTE, DOT_BYTE]);
            }
            stack.push(comp);
            proof {
                assert(stack.deep_view() =~~= pre_stack.push(comps.deep_view()[i as int]));
            }
        }
        i = i + 1;
    }
    proof {
        assert(comps.deep_view().take(comps@.len() as int) =~= comps.deep_view());
    }
    // the canonical components exist; reject any that cannot be encoded
    let mut j: usize = 0;
    while j < stack.len()
        invariant
            0 <= j <= stack@.len(),
            forall|k: int| 0 <= k < j ==> !spec_has_name_sep(#[trigger] stack.deep_view()[k]),
            spec_canon(path@) == Some(stack.deep_view()),
            !spec_absolute(path@),
            forall|k: int|
                0 <= k < stack.deep_view().len() ==> (#[trigger] stack.deep_view()[k]).len() > 0
                    && stack.deep_view()[k] != seq![DOT_BYTE] && stack.deep_view()[k] != seq![
                    DOT_BYTE,
                    DOT_BYTE,
                ] && (forall|jj: int|
                    0 <= jj < stack.deep_view()[k].len() ==> #[trigger] stack.deep_view()[k][jj]
                        != COMPONENT_SEPARATOR),
        decreases stack@.len() - j,
    {
        if contains_byte(&stack[j], NAME_SEPARATOR) {
            proof {
                assert(stack.deep_view()[j as int] == stack@[j as int]@);
                assert(spec_has_name_sep(stack.deep_view()[j as int]));
            }
            return Err(PathIDTError::SeparatorInName(clone_bytes(path)));
        }
        proof {
            assert(stack.deep_view()[j as int] == stack@[j as int]@);
        }
        j = j + 1;
    }
    let r = NormalizedPath { components: stack };
    proof {
        assert forall|k: int| 0 <= k < r@.len() implies spec_valid_component(#[trigger] r@[k]) by {
            assert(!spec_has_name_sep(r@[k]));
        }
    }
    Ok(r)
}

/// Encodes a canonical path as one flat file name: components joined by the
/// reserved separator byte.
pub fn serialize_path(path: &NormalizedPath) -> (r: Vec<u8>)
    ensures
        r@ == spec_join(path@, NAME_SEPARATOR),
{
    let mut r: Vec<u8> = Vec::new();
    let mut i: usize = 0;
    while i < path.components.len()
        invariant
            0 <= i <= path.components@.len(),
            path@.len() == path.components@.len(),
            r@ == spec_join(path@.take(i as int), NAME_SEPARATOR),
        decreases path.components@.len() - i,
    {
        proof {
            assert(path@.take(i as int + 1).drop_last() =~= path@.take(i as int));
            assert(path@.take(i as int + 1).last() == path@[i as int]);
            assert(path@[i as int] == path.components@[i as int]@);
        }
        if i > 0 {
            r.push(NAME_SEPARATOR);
        }
        r.extend_from_slice(path.components[i].as_slice());
        proof {
            if i == 0 {
                assert(path@.take(1)[0] == path@[0]);
                assert(r@ =~= spec_join(path@.take(1), NAME_SEPARATOR));
            } else {
                assert(r@ =~= spec_join(path@.take(i as int + 1), NAME_SEPARATOR));
            }
        }
        i = i + 1;
    }
    proof {
        assert(path@.take(path@.len() as int) =~= path@);
    }
    r
}

/// Canonicalizes a raw path and encodes it: the storage key under which the
/// path is filed.
pub fn standart_path_form(path: &Vec<u8>) -> (r: Result<Vec<u8>, PathIDTError>)
    ensures
        match r {
            Ok(key) => spec_path_encodable(path@) && key@ == spec_path_key(path@),
            Err(PathIDTError::UsingAbsolutePath(orig)) => orig@ == path@ && spec_absolute(
                path@,
            ),
            Err(PathIDTError::UsingUnlocalPath(orig)) => orig@ == path@ && !spec_absolute(path@)
                && spec_canon(path@) is None,
            Err(PathIDTError::SeparatorInName(orig)) => orig@ == path@ && !spec_absolute(path@)
                && spec_canon(path@) is Some && spec_any_has_name_sep(
                spec_canon(path@).unwrap(),
            ),
        },
{
    let simplified = match simplify_path_to_local(path) {
        Ok(p) => p,
        Err(e) => {
            return Err(e);
        },
    };
    Ok(serialize_path(&simplified))
}

/// Decodes a storage key back into the canonical path it was made from:
/// the nonempty pieces between separator bytes.
pub fn deserialize_spf(key: &Vec<u8>) -> (r: NormalizedPath)
    ensures
        r@ == spec_decode(key@),
{
    let parts = split_bytes(key, NAME_SEPARATOR);
    let mut components: Vec<Vec<u8>> = Vec::new();
    let mut i: usize = 0;
    while i < parts.len()
        invariant
            0 <= i <= parts@.len(),
            parts.deep_view() == spec_split(key@, NAME_SEPARATOR),
            parts.deep_view().len() == parts@.len(),
            components.deep_view() == spec_nonempty_comps(parts.deep_view().take(i as int)),
        decreases parts@.len() - i,
    {
        proof {
            assert(parts.deep_view().take(i as int + 1).drop_last() =~= parts.deep_view().take(
                i as int,
            ));
            assert(parts.deep_view().take(i as int + 1).last() == parts.deep_view()[i as int]);
            assert(parts.deep_view()[i as int] == parts@[i as int]@);
        }
        let ghost pre = components.deep_view();
        if parts[i].len() > 0 {
            components.push(clone_bytes(&parts[i]));
            proof {
                assert(components.deep_view() =~~= pre.push(parts.deep_view()[i as int]));
            }
        }
        proof {
            assert(components.deep_view() =~~= spec_nonempty_comps(parts.deep_view().take(
                i as int + 1,
            )));
        }
        i = i + 1;
    }
    proof {
        assert(parts.deep_view().take(parts@.len() as int) =~= parts.deep_view());
    }
    NormalizedPath { components }
}

/// Dropping a `.` (or empty) component anywhere leaves the canonical form
/// unchanged: half of the lexical-equivalence law.
pub proof fn lemma_canon_skip_trivial(xs: Seq<Seq<u8>>, c: Seq<u8>, ys: Seq<Seq<u8>>)
    requires
        c.len() == 0 || c == seq![DOT_BYTE],
    ensures
        spec_canon_comps(xs + seq![c] + ys) == spec_canon_comps(xs + ys),
    decreases ys.len(),
{
    if ys.len() == 0 {
        assert(xs + seq![c] + ys =~~= xs.push(c));
        assert(xs.push(c).drop_last() =~~= xs);
        assert(xs.push(c).last() == c);
        assert(xs + ys =~~= xs);
    } else {
        lemma_canon_skip_trivial(xs, c, ys.drop_last());
        assert((xs + seq![c] + ys).drop_last() =~~= xs + seq![c] + ys.drop_last());
        assert((xs + seq![c] + ys).last() == ys.last());
        assert((xs + ys).drop_last() =~~= xs + ys.drop_last());
        assert((xs + ys).last() == ys.last());
        assert((xs + seq![c] + ys).len() > 0);
        assert((xs + ys).len() > 0);
    }
}

/// Dropping a `name/..` pair anywhere leaves the canonical form unchanged:
/// the other half of the lexical-equivalence law.
pub proof fn lemma_canon_cancel_dotdot(xs: Seq<Seq<u8>>, c: Seq<u8>, ys: Seq<Seq<u8>>)
    requires
        c.len() > 0,
        c != seq![DOT_BYTE],
        c != seq![DOT_BYTE, DOT_BYTE],
    ensures
        spec_canon_comps(xs + seq![c, seq![DOT_BYTE, DOT_BYTE]] + ys) == spec_canon_comps(
            xs + ys,
        ),
    decreases ys.len(),
{
    let pair = seq![c, seq![DOT_BYTE, DOT_BYTE]];
    if ys.len() == 0 {
        let dd = seq![DOT_BYTE, DOT_BYTE];
        let whole = xs + pair + ys;
        assert(whole =~~= (xs.push(c)).push(dd));
        assert(whole.drop_last() =~~= xs.push(c));
        assert(whole.last() == dd);
        assert(xs.push(c).drop_last() =~~= xs);
        assert(xs.push(c).last() == c);
        assert(spec_canon_comps(xs.push(c)) == spec_canon_step(spec_canon_comps(xs), c));
        assert(spec_canon_comps(whole) == spec_canon_step(spec_canon_comps(xs.push(c)), dd));
        assert(xs + ys =~~= xs);
        if spec_canon_comps(xs) is Some {
            let stack = spec_canon_comps(xs).unwrap();
            assert(spec_canon_comps(xs.push(c)) == Some(stack.push(c)));
            assert(stack.push(c).len() > 0);
            assert(stack.push(c).drop_last() =~~= stack);
            assert(spec_canon_comps(whole) == Some(stack));
        }
    } else {
        lemma_canon_cancel_dotdot(xs, c, ys.drop_last());
        assert((xs + pair + ys).drop_last() =~~= xs + pair + ys.drop_last());
        assert((xs + pair + ys).last() == ys.last());
        assert((xs + ys).drop_last() =~~= xs + ys.drop_last());
        assert((xs + ys).last() == ys.last());
        assert((xs + pair + ys).len() > 0);
        assert((xs + ys).len() > 0);
    }
}

/// Whether a raw path has a storage key: relative, not escaping the root,
/// and free of the reserved separator byte after canonicalization.
pub open spec fn spec_path_encodable(path: Seq<u8>) -> bool {
    &&& !spec_absolute(path)
    &&& spec_canon(path) is Some
    &&& !spec_any_has_name_sep(spec_canon(path).unwrap())
}

/// The storage key of an encodable raw path.
pub open spec fn spec_path_key(path: Seq<u8>) -> Seq<u8> {
    spec_join(spec_canon(path).unwrap(), NAME_SEPARATOR)
}

} // verus!
