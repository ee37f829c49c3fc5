//! Path containment for archive member names.
//!
//! A member name is joined to the output root only after lexical
//! normalization: `/`-separated components are resolved without touching the
//! filesystem, `.` and empty components disappear, and `..` steps up one
//! level. A name that is absolute, that holds a forbidden byte (NUL, or a
//! backslash that another platform would read as a separator), or whose
//! `..` components would climb above the output root, is rejected outright,
//! so no file is ever created outside the root.

use vstd::prelude::*;

use crate::errors::UnzipError;

verus! {

/// The byte value of `/`, the separator ZIP member names use.
pub const SLASH: u8 = 47;

/// The byte value of `.`.
pub const DOT: u8 = 46;

/// The byte value of NUL, forbidden in a member name.
pub const NUL: u8 = 0;

/// The byte value of `\`, forbidden in a member name: ZIP names separate
/// directories with `/` alone, and a backslash smuggled into a component
/// could act as a separator on another platform.
pub const BACKSLASH: u8 = 92;

/// Whether a name holds a byte that is rejected wherever it stands.
pub open spec fn spec_has_forbidden_byte(name: Seq<u8>) -> bool {
    exists|i: int| 0 <= i < name.len() && (name[i] == NUL || name[i] == BACKSLASH)
}

/// Whether a name holds a forbidden byte.
pub fn has_forbidden_byte(name: &[u8]) -> (r: bool)
    ensures
        r == spec_has_forbidden_byte(name@),
{
    let mut i: usize = 0;
    while i < name.len()
        invariant
            i <= name.len(),
            forall|j: int| 0 <= j < i ==> name@[j] != NUL && name@[j] != BACKSLASH,
        decreases name.len() - i,
    {
        if name[i] == NUL || name[i] == BACKSLASH {
            return true;
        }
        i += 1;
    }
    false
}

/// The component `.`.
pub open spec fn dot() -> Seq<u8> {
    seq![DOT]
}

/// The component `..`.
pub open spec fn dotdot() -> Seq<u8> {
    seq![DOT, DOT]
}

/// A name's raw components: the pieces between `/` separators, kept even
/// when empty, so a name always has one more component than separators.
pub open spec fn spec_split(s: Seq<u8>) -> Seq<Seq<u8>>
    decreases s.len(),
{
    if s.len() == 0 {
        seq![Seq::<u8>::empty()]
    } else if s[0] == SLASH {
        seq![Seq::<u8>::empty()] + spec_split(s.drop_first())
    } else {
        let rest = spec_split(s.drop_first());
        seq![seq![s[0]] + rest[0]] + rest.drop_first()
    }
}

/// A split always yields at least one component.
pub proof fn lemma_split_nonempty(s: Seq<u8>)
    ensures
        spec_split(s).len() >= 1,
    decreases s.len(),
{
    if s.len() > 0 {
        lemma_split_nonempty(s.drop_first());
    }
}

/// How one more byte extends a split: a separator opens a fresh empty
/// component, any other byte grows the last one.
pub proof fn lemma_split_snoc(s: Seq<u8>, b: u8)
    ensures
        b == SLASH ==> spec_split(s.push(b)) == spec_split(s).push(Seq::<u8>::empty()),
        b != SLASH ==> spec_split(s.push(b)) == spec_split(s).update(
            spec_split(s).len() - 1,
            spec_split(s).last().push(b),
        ),
    decreases s.len(),
{
    lemma_split_nonempty(s);
    if s.len() == 0 {
        assert(s.push(b).drop_first() =~= s);
        if b == SLASH {
            assert(spec_split(s.push(b)) =~= spec_split(s).push(Seq::<u8>::empty()));
        } else {
            assert(spec_split(s.push(b)) =~= spec_split(s).update(
                0,
                spec_split(s).last().push(b),
            ));
        }
    } else {
        lemma_split_snoc(s.drop_first(), b);
        lemma_split_nonempty(s.drop_first());
        assert(s.push(b).drop_first() =~= s.drop_first().push(b));
        if b == SLASH {
            assert(spec_split(s.push(b)) =~= spec_split(s).push(Seq::<u8>::empty()));
        } else {
            assert(spec_split(s.push(b)) =~= spec_split(s).update(
                spec_split(s).len() - 1,
                spec_split(s).last().push(b),
            ));
        }
    }
}

/// Lexical normalization of raw components into the safe relative stack, or
/// `None` when a `..` would climb above the root.
pub open spec fn spec_normalize(cs: Seq<Seq<u8>>) -> Option<Seq<Seq<u8>>>
    decreases cs.len(),
{
    if cs.len() == 0 {
        Some(Seq::empty())
    } else {
        match spec_normalize(cs.drop_last()) {
            None => None,
            Some(stack) => {
                let c = cs.last();
                if c.len() == 0 || c == dot() {
                    Some(stack)
                } else if c == dotdot() {
                    if stack.len() == 0 {
                        None
                    } else {
                        Some(stack.drop_last())
                    }
                } else {
                    Some(stack.push(c))
                }
            },
        }
    }
}

/// Once a prefix of the components fails to normalize, the whole name fails.
pub proof fn lemma_normalize_prefix_none(cs: Seq<Seq<u8>>, k: int)
    requires
        0 <= k <= cs.len(),
        spec_normalize(cs.take(k)) is None,
    ensures
        spec_normalize(cs) is None,
    decreases cs.len() - k,
{
    if k == cs.len() {
        assert(cs.take(k) =~= cs);
    } else {
        assert(cs.take(k + 1).drop_last() =~= cs.take(k));
        lemma_normalize_prefix_none(cs, k + 1);
    }
}

/// The safe relative form of a member name: its components after lexical
/// normalization, or `None` when the name is absolute, holds a forbidden
/// byte (NUL or backslash), or escapes the root it would be joined to.
pub open spec fn spec_sanitize(name: Seq<u8>) -> Option<Seq<Seq<u8>>> {
    if name.len() > 0 && name[0] == SLASH {
        None
    } else if spec_has_forbidden_byte(name) {
        None
    } else {
        spec_normalize(spec_split(name))
    }
}

/// Whether a member name denotes a directory: it ends with a separator.
pub open spec fn spec_is_directory_name(name: Seq<u8>) -> bool {
    name.len() > 0 && name.last() == SLASH
}

/// Whether a member name denotes a directory entry rather than a file.
pub fn is_directory_name(name: &[u8]) -> (r: bool)
    ensures
        r == spec_is_directory_name(name@),
{
    name.len() > 0 && name[name.len() - 1] == SLASH
}

/// Split a member name into its raw `/`-separated components.
pub fn split_components(name: &[u8]) -> (r: Vec<Vec<u8>>)
    ensures
        r.deep_view() == spec_split(name@),
{
    let mut done: Vec<Vec<u8>> = Vec::new();
    let mut cur: Vec<u8> = Vec::new();
    let mut i: usize = 0;
    proof {
        assert(name@.take(0) =~= Seq::<u8>::empty());
        assert(done.deep_view().push(cur@) =~~= spec_split(name@.take(0)));
    }
    while i < name.len()
        invariant
            i <= name.len(),
            done.deep_view().push(cur@) == spec_split(name@.take(i as int)),
        decreases name.len() - i,
    {
        let b = name[i];
        proof {
            lemma_split_snoc(name@.take(i as int), b);
            assert(name@.take(i + 1) =~= name@.take(i as int).push(name@[i as int]));
            lemma_split_nonempty(name@.take(i as int));
        }
        if b == SLASH {
            done.push(cur);
            cur = Vec::new();
            proof {
                assert(done.deep_view().push(cur@) =~~= spec_split(name@.take(i + 1)));
            }
        } else {
            cur.push(b);
            proof {
                assert(done.deep_view().push(cur@) =~~= spec_split(name@.take(i + 1)));
            }
        }
        i += 1;
    }
    proof {
        assert(name@.take(i as int) =~= name@);
    }
    done.push(cur);
    proof {
        assert(done.deep_view() =~~= spec_split(name@));
    }
    done
}

/// Normalize raw components into the safe relative stack, rejecting any
/// name whose `..` components would climb above the root.
pub fn normalize_components(comps: &Vec<Vec<u8>>) -> (r: Result<Vec<Vec<u8>>, UnzipError>)
    ensures
        match r {
            Ok(stack) => spec_normalize(comps.deep_view()) == Some(stack.deep_view()),
            Err(e) => spec_normalize(comps.deep_view()) is None && e == UnzipError::PathUnsafe,
        },
{
    let ghost all = comps.deep_view();
    let mut stack: Vec<Vec<u8>> = Vec::new();
    proof {
        assert(all.take(0) =~= Seq::<Seq<u8>>::empty());
    }
    let n = comps.len();
    let mut it: usize = 0;
    while it < n
        invariant
            it <= n,
            n == comps.len(),
            all == comps.deep_view(),
            spec_normalize(all.take(it as int)) == Some(stack.deep_view()),
        decreases n - it,
    {
        let c = &comps[it];
        proof {
            assert(all.take(it + 1).drop_last() =~= all.take(it as int));
            assert(all.take(it + 1).last() == c@);
        }
        if c.len() == 0 || (c.len() == 1 && c[0] == DOT) {
            proof {
                assert(c@ =~= dot() || c@.len() == 0);
            }
        } else if c.len() == 2 && c[0] == DOT && c[1] == DOT {
            proof {
                assert(c@ =~= dotdot());
            }
            if stack.len() == 0 {
                proof {
                    lemma_normalize_prefix_none(all, it + 1);
                }
                return Err(UnzipError::PathUnsafe);
            }
            stack.pop();
            proof {
                assert(stack.deep_view() =~~= spec_normalize(all.take(it + 1)).unwrap());
            }
        } else {
            proof {
                assert(c@ != dot() && c@ != dotdot() && c@.len() > 0);
            }
            stack.push(clone_bytes(c));
            proof {
                assert(stack.deep_view() =~~= spec_normalize(all.take(it + 1)).unwrap());
            }
        }
        it += 1;
    }
    proof {
        assert(all.take(it as int) =~= all);
    }
    Ok(stack)
}

/// Copy a byte vector.
fn clone_bytes(v: &Vec<u8>) -> (r: Vec<u8>)
    ensures
        r@ == v@,
{
    let mut r: Vec<u8> = Vec::new();
    let mut i: usize = 0;
    while i < v.len()
        invariant
            i <= v.len(),
            r@ == v@.take(i as int),
        decreases v.len() - i,
    {
        r.push(v[i]);
        proof {
            assert(r@ =~= v@.take(i + 1));
        }
        i += 1;
    }
    proof {
        assert(v@.take(i as int) =~= v@);
    }
    r
}

/// Whether a component holds no separator byte.
pub open spec fn component_has_no_separator(c: Seq<u8>) -> bool {
    forall|j: int| 0 <= j < c.len() ==> c[j] != SLASH
}

/// Every piece of a split is free of separators.
pub proof fn lemma_split_no_separator(s: Seq<u8>)
    ensures
        forall|i: int|
            0 <= i < spec_split(s).len() ==> component_has_no_separator(
                #[trigger] spec_split(s)[i],
            ),
    decreases s.len(),
{
    if s.len() == 0 {
    } else {
        lemma_split_no_separator(s.drop_first());
        lemma_split_nonempty(s.drop_first());
        let rest = spec_split(s.drop_first());
        if s[0] == SLASH {
            assert forall|i: int| 0 <= i < spec_split(s).len() implies component_has_no_separator(
                #[trigger] spec_split(s)[i],
            ) by {
                if i > 0 {
                    assert(spec_split(s)[i] == rest[i - 1]);
                }
            }
        } else {
            assert forall|i: int| 0 <= i < spec_split(s).len() implies component_has_no_separator(
                #[trigger] spec_split(s)[i],
            ) by {
                if i == 0 {
                    assert(spec_split(s)[0] == seq![s[0]] + rest[0]);
                    assert(component_has_no_separator(rest[0]));
                } else {
                    assert(spec_split(s)[i] == rest[i]);
                }
            }
        }
    }
}

/// When a name holds no forbidden byte, neither does any piece of its
/// split.
pub proof fn lemma_split_no_forbidden(s: Seq<u8>)
    requires
        !spec_has_forbidden_byte(s),
    ensures
        forall|i: int|
            0 <= i < spec_split(s).len() ==> !spec_has_forbidden_byte(
                #[trigger] spec_split(s)[i],
            ),
    decreases s.len(),
{
    if s.len() == 0 {
        assert(!spec_has_forbidden_byte(spec_split(s)[0]));
    } else {
        assert forall|i: int| 0 <= i < s.drop_first().len() implies !(s.drop_first()[i] == NUL
            || s.drop_first()[i] == BACKSLASH) by {
            assert(s.drop_first()[i] == s[i + 1]);
        }
        lemma_split_no_forbidden(s.drop_first());
        lemma_split_nonempty(s.drop_first());
        let rest = spec_split(s.drop_first());
        if s[0] == SLASH {
            assert forall|i: int| 0 <= i < spec_split(s).len() implies !spec_has_forbidden_byte(
                #[trigger] spec_split(s)[i],
            ) by {
                if i == 0 {
                    assert(!spec_has_forbidden_byte(Seq::<u8>::empty()));
                } else {
                    assert(spec_split(s)[i] == rest[i - 1]);
                }
            }
        } else {
            assert forall|i: int| 0 <= i < spec_split(s).len() implies !spec_has_forbidden_byte(
                #[trigger] spec_split(s)[i],
            ) by {
                if i == 0 {
                    let piece = seq![s[0]] + rest[0];
                    assert(spec_split(s)[0] == piece);
                    assert(s[0] != NUL && s[0] != BACKSLASH);
                    assert(!spec_has_forbidden_byte(rest[0]));
                    assert forall|j: int| 0 <= j < piece.len() implies !(piece[j] == NUL
                        || piece[j] == BACKSLASH) by {
                        if j > 0 {
                            assert(piece[j] == rest[0][j - 1]);
                        }
                    }
                } else {
                    assert(spec_split(s)[i] == rest[i]);
                }
            }
        }
    }
}

/// Every component a successful normalization keeps is non-trivial — not
/// empty, not `.`, not `..` — and was one of the raw components.
pub proof fn lemma_normalize_result_safe(cs: Seq<Seq<u8>>)
    requires
        spec_normalize(cs) is Some,
    ensures
        forall|i: int|
            0 <= i < spec_normalize(cs).unwrap().len() ==> {
                let c = #[trigger] spec_normalize(cs).unwrap()[i];
                &&& c.len() > 0
                &&& c != dot()
                &&& c != dotdot()
                &&& exists|j: int| 0 <= j < cs.len() && c == cs[j]
            },
    decreases cs.len(),
{
    if cs.len() == 0 {
    } else {
        lemma_normalize_result_safe(cs.drop_last());
        let prev = spec_normalize(cs.drop_last()).unwrap();
        let st = spec_normalize(cs).unwrap();
        assert forall|i: int| 0 <= i < st.len() implies {
            let c = #[trigger] st[i];
            &&& c.len() > 0
            &&& c != dot()
            &&& c != dotdot()
            &&& exists|j: int| 0 <= j < cs.len() && c == cs[j]
        } by {
            let c = st[i];
            if i < prev.len() && c == prev[i] {
                let j = choose|j: int| 0 <= j < cs.drop_last().len() && prev[i] == cs.drop_last()[j];
                assert(cs.drop_last()[j] == cs[j]);
                assert(0 <= j < cs.len() && c == cs[j]);
            } else {
                // The only way to add a component is the push of `cs.last()`.
                assert(c == cs.last());
                assert(0 <= cs.len() - 1 < cs.len() && c == cs[cs.len() - 1]);
            }
        }
    }
}

/// Law: an accepted member name cannot escape. Every component that
/// sanitization yields is non-empty, is neither `.` nor `..`, and holds no
/// separator byte and no forbidden byte, so joining the components under
/// the output root stays lexically under the root.
pub proof fn lemma_sanitized_components_stay_under_root(name: Seq<u8>)
    requires
        spec_sanitize(name) is Some,
    ensures
        forall|i: int|
            0 <= i < spec_sanitize(name).unwrap().len() ==> {
                let c = #[trigger] spec_sanitize(name).unwrap()[i];
                &&& c.len() > 0
                &&& c != dot()
                &&& c != dotdot()
                &&& component_has_no_separator(c)
                &&& !spec_has_forbidden_byte(c)
            },
{
    lemma_split_no_separator(name);
    lemma_split_no_forbidden(name);
    lemma_normalize_result_safe(spec_split(name));
    let st = spec_sanitize(name).unwrap();
    assert forall|i: int| 0 <= i < st.len() implies {
        let c = #[trigger] st[i];
        &&& c.len() > 0
        &&& c != dot()
        &&& c != dotdot()
        &&& component_has_no_separator(c)
        &&& !spec_has_forbidden_byte(c)
    } by {
        let c = st[i];
        let j = choose|j: int| 0 <= j < spec_split(name).len() && c == spec_split(name)[j];
        assert(component_has_no_separator(spec_split(name)[j]));
        assert(!spec_has_forbidden_byte(spec_split(name)[j]));
    }
}

/// The safe relative components of a member name, or the path-unsafe error
/// exactly when the name is absolute or escapes the output root.
pub fn sanitize_member_name(name: &[u8]) -> (r: Result<Vec<Vec<u8>>, UnzipError>)
    ensures
        match r {
            Ok(stack) => spec_sanitize(name@) == Some(stack.deep_view()),
            Err(e) => spec_sanitize(name@) is None && e == UnzipError::PathUnsafe,
        },
{
    if name.len() > 0 && name[0] == SLASH {
        return Err(UnzipError::PathUnsafe);
    }
    if has_forbidden_byte(name) {
        return Err(UnzipError::PathUnsafe);
    }
    let comps = split_components(name);
    normalize_components(&comps)
}

} // verus!
