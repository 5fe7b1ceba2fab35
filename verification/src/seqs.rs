//! Searching and filtering lists.

use vstd::prelude::*;

verus! {

/// The first element of a list that satisfies `p`.
pub open spec fn first<T>(s: Seq<T>, p: spec_fn(T) -> bool) -> Option<T>
    decreases s.len(),
{
    if s.len() == 0 {
        None
    } else if p(s[0]) {
        Some(s[0])
    } else {
        first(s.drop_first(), p)
    }
}

pub proof fn lemma_first_step<T>(s: Seq<T>, p: spec_fn(T) -> bool, i: int)
    requires
        0 <= i < s.len(),
    ensures
        first(s.skip(i), p) == (if p(s[i]) {
            Some(s[i])
        } else {
            first(s.skip(i + 1), p)
        }),
{
    assert(s.skip(i).drop_first() =~= s.skip(i + 1));
}

/// The first match is an element of the list, and nothing before it matches;
/// where there is none, no element matches.
pub proof fn lemma_first<T>(s: Seq<T>, p: spec_fn(T) -> bool)
    ensures
        match first(s, p) {
            Some(x) => p(x) && exists|i: int|
                0 <= i < s.len() && #[trigger] s[i] == x && forall|j: int|
                    0 <= j < i ==> !p(#[trigger] s[j]),
            None => forall|i: int| 0 <= i < s.len() ==> !p(#[trigger] s[i]),
        },
    decreases s.len(),
{
    if s.len() > 0 {
        let rest = s.drop_first();
        lemma_first(rest, p);
        if p(s[0]) {
            assert(s[0] == first(s, p)->0);
        } else {
            match first(rest, p) {
                Some(x) => {
                    let i = choose|i: int|
                        0 <= i < rest.len() && #[trigger] rest[i] == x && forall|j: int|
                            0 <= j < i ==> !p(#[trigger] rest[j]);
                    assert(s[i + 1] == x);
                    assert forall|j: int| 0 <= j < i + 1 implies !p(#[trigger] s[j]) by {
                        if j > 0 {
                            assert(rest[j - 1] == s[j]);
                        }
                    }
                },
                None => {
                    assert forall|i: int| 0 <= i < s.len() implies !p(#[trigger] s[i]) by {
                        if i > 0 {
                            assert(rest[i - 1] == s[i]);
                        }
                    }
                },
            }
        }
    }
}

/// A match with none before it is the first.
pub proof fn lemma_first_is<T>(s: Seq<T>, p: spec_fn(T) -> bool, i: int)
    requires
        0 <= i < s.len(),
        p(s[i]),
        forall|j: int| 0 <= j < i ==> !p(#[trigger] s[j]),
    ensures
        first(s, p) == Some(s[i]),
{
    lemma_first(s, p);
    assert(first(s, p) is Some);
    let x = first(s, p)->0;
    let k = choose|k: int|
        0 <= k < s.len() && #[trigger] s[k] == x && forall|j: int|
            0 <= j < k ==> !p(#[trigger] s[j]);
    assert(k == i) by {
        if k < i {
            assert(!p(s[k]));
        }
    }
}

/// Where two lists match in the same places, so do their first matches.
pub proof fn lemma_first_of_both<T>(s: Seq<T>, t: Seq<T>, p: spec_fn(T) -> bool)
    requires
        s.len() == t.len(),
        forall|i: int| 0 <= i < s.len() ==> p(#[trigger] s[i]) == p(t[i]),
    ensures
        match first(s, p) {
            Some(x) => exists|i: int|
                0 <= i < s.len() && #[trigger] s[i] == x && p(x) && first(t, p) == Some(t[i]),
            None => first(t, p) is None,
        },
{
    lemma_first(s, p);
    lemma_first(t, p);
    match first(s, p) {
        Some(x) => {
            let i = choose|i: int|
                0 <= i < s.len() && #[trigger] s[i] == x && forall|j: int|
                    0 <= j < i ==> !p(#[trigger] s[j]);
            assert(p(s[i]) == p(t[i]));
            let y = first(t, p)->0;
            let k = choose|k: int|
                0 <= k < t.len() && #[trigger] t[k] == y && forall|j: int|
                    0 <= j < k ==> !p(#[trigger] t[j]);
            assert(p(s[k]) == p(t[k]));
            assert(i == k);
        },
        None => {
            assert forall|i: int| 0 <= i < t.len() implies !p(#[trigger] t[i]) by {
                assert(p(s[i]) == p(t[i]));
            }
        },
    }
}

/// A reference to the first element that satisfies a test.
pub(crate) fn find<'a, T, F: Fn(&T) -> bool>(
    v: &'a Vec<T>,
    test: F,
    Ghost(p): Ghost<spec_fn(T) -> bool>,
) -> (r: Option<&'a T>)
    requires
        forall|x: &T| #[trigger] test.requires((x,)),
        forall|x: &T, b: bool| #[trigger] test.ensures((x,), b) ==> b == p(*x),
    ensures
        match r {
            Some(x) => first(v@, p) == Some(*x),
            None => first(v@, p) is None,
        },
{
    let mut i: usize = 0;
    assert(v@.skip(0) =~= v@);
    while i < v.len()
        invariant
            forall|x: &T| #[trigger] test.requires((x,)),
            forall|x: &T, b: bool| #[trigger] test.ensures((x,), b) ==> b == p(*x),
            i <= v.len(),
            first(v@, p) == first(v@.skip(i as int), p),
        decreases v.len() - i,
    {
        proof {
            lemma_first_step(v@, p, i as int);
        }
        if test(&v[i]) {
            return Some(&v[i]);
        }
        i = i + 1;
    }
    None
}

/// The index of the first element that satisfies a test.
pub(crate) fn position<T, F: Fn(&T) -> bool>(
    v: &Vec<T>,
    test: F,
    Ghost(p): Ghost<spec_fn(T) -> bool>,
) -> (r: Option<usize>)
    requires
        forall|x: &T| #[trigger] test.requires((x,)),
        forall|x: &T, b: bool| #[trigger] test.ensures((x,), b) ==> b == p(*x),
    ensures
        match r {
            Some(i) => i < v.len() && p(v@[i as int]) && first(v@, p) == Some(v@[i as int])
                && forall|j: int| 0 <= j < i ==> !p(#[trigger] v@[j]),
            None => first(v@, p) is None && forall|j: int|
                0 <= j < v.len() ==> !p(#[trigger] v@[j]),
        },
{
    let mut i: usize = 0;
    assert(v@.skip(0) =~= v@);
    while i < v.len()
        invariant
            forall|x: &T| #[trigger] test.requires((x,)),
            forall|x: &T, b: bool| #[trigger] test.ensures((x,), b) ==> b == p(*x),
            i <= v.len(),
            first(v@, p) == first(v@.skip(i as int), p),
            forall|j: int| 0 <= j < i ==> !p(#[trigger] v@[j]),
        decreases v.len() - i,
    {
        proof {
            lemma_first_step(v@, p, i as int);
        }
        if test(&v[i]) {
            return Some(i);
        }
        i = i + 1;
    }
    None
}

} // verus!
