//! Size hints: a lower bound and an optional upper bound on the number of
//! bytes a synthesis call consumes, and the combinators that build them.

use vstd::prelude::*;

verus! {

/// A lower bound and, when known, an upper bound on bytes consumed.
pub type SizeHint = (usize, Option<usize>);

/// The nesting depth at which size hints stop unfolding recursive types.
pub const MAX_DEPTH: usize = 20;

/// Whether consuming `n` bytes lies within the range `h` describes.
pub open spec fn within(h: SizeHint, n: nat) -> bool {
    &&& h.0 <= n
    &&& match h.1 {
        Some(m) => n <= m,
        None => true,
    }
}

/// Two constituents consumed one after the other: the bounds add up; the
/// lower bound saturates, and the upper bound is lost on overflow.
pub open spec fn and_spec(a: SizeHint, b: SizeHint) -> SizeHint {
    (
        if a.0 + b.0 <= usize::MAX {
            (a.0 + b.0) as usize
        } else {
            usize::MAX
        },
        match (a.1, b.1) {
            (Some(x), Some(y)) => if x + y <= usize::MAX {
                Some((x + y) as usize)
            } else {
                None
            },
            _ => None,
        },
    )
}

/// One of two alternatives: the smaller lower bound, and the larger upper
/// bound when both are known.
pub open spec fn or_spec(a: SizeHint, b: SizeHint) -> SizeHint {
    (
        if a.0 <= b.0 {
            a.0
        } else {
            b.0
        },
        match (a.1, b.1) {
            (Some(x), Some(y)) => Some(
                if x >= y {
                    x
                } else {
                    y
                },
            ),
            _ => None,
        },
    )
}

/// One of several alternatives, combined from the left.
pub open spec fn or_all_spec(hs: Seq<SizeHint>) -> SizeHint
    decreases hs.len(),
{
    if hs.len() == 0 {
        (0, Some(0))
    } else if hs.len() == 1 {
        hs[0]
    } else {
        or_spec(or_all_spec(hs.drop_last()), hs.last())
    }
}

/// The hint of a recursive type at `depth`, given the hint `inner` of its
/// body one level deeper: past the ceiling nothing is unfolded.
pub open spec fn guard_spec(depth: usize, inner: SizeHint) -> SizeHint {
    if depth >= MAX_DEPTH {
        (0, None)
    } else {
        inner
    }
}

/// Exactly `n` bytes.
pub fn exactly(n: usize) -> (r: SizeHint)
    ensures
        r == (n, Some(n)),
{
    (n, Some(n))
}

/// At least `n` bytes, with no upper bound.
pub fn at_least(n: usize) -> (r: SizeHint)
    ensures
        r == (n, None::<usize>),
{
    (n, None)
}

/// Sequential composition.
pub fn and(a: SizeHint, b: SizeHint) -> (r: SizeHint)
    ensures
        r == and_spec(a, b),
{
    let lo = if a.0 <= usize::MAX - b.0 {
        a.0 + b.0
    } else {
        usize::MAX
    };
    let hi = match (a.1, b.1) {
        (Some(x), Some(y)) => if x <= usize::MAX - y {
            Some(x + y)
        } else {
            None
        },
        _ => None,
    };
    (lo, hi)
}

/// Alternative composition of two hints.
pub fn or(a: SizeHint, b: SizeHint) -> (r: SizeHint)
    ensures
        r == or_spec(a, b),
{
    let lo = if a.0 <= b.0 {
        a.0
    } else {
        b.0
    };
    let hi = match (a.1, b.1) {
        (Some(x), Some(y)) => Some(
            if x >= y {
                x
            } else {
                y
            },
        ),
        _ => None,
    };
    (lo, hi)
}

/// Alternative composition over all branches; `(0, Some(0))` for none.
pub fn or_all(hs: &[SizeHint]) -> (r: SizeHint)
    ensures
        r == or_all_spec(hs@),
{
    if hs.len() == 0 {
        return (0, Some(0));
    }
    let mut acc = hs[0];
    let mut i: usize = 1;
    while i < hs.len()
        invariant
            1 <= i <= hs@.len(),
            acc == or_all_spec(hs@.subrange(0, i as int)),
        decreases hs@.len() - i,
    {
        proof {
            let t = hs@.subrange(0, i + 1);
            assert(t.drop_last() =~= hs@.subrange(0, i as int));
        }
        acc = or(acc, hs[i]);
        i = i + 1;
    }
    assert(hs@.subrange(0, hs@.len() as int) =~= hs@);
    acc
}

/// The depth at which a recursive type's body is estimated, or `None` when
/// `depth` has reached the ceiling and the hint is `(0, None)`.
pub fn recursion_guard(depth: usize) -> (r: Option<usize>)
    ensures
        depth >= MAX_DEPTH ==> r is None,
        depth < MAX_DEPTH ==> r == Some((depth + 1) as usize),
{
    if depth >= MAX_DEPTH {
        None
    } else {
        Some(depth + 1)
    }
}

/// Sequential composition is sound: if each part stays within its hint, the
/// two parts together stay within the combined hint.
pub proof fn lemma_and_within(a: SizeHint, b: SizeHint, n: nat, m: nat)
    requires
        within(a, n),
        within(b, m),
    ensures
        within(and_spec(a, b), n + m),
{
}

/// Alternative composition is sound for either branch.
pub proof fn lemma_or_within(a: SizeHint, b: SizeHint, n: nat)
    requires
        within(a, n) || within(b, n),
    ensures
        within(or_spec(a, b), n),
{
}

/// Alternative composition over all branches is sound for each branch.
pub proof fn lemma_or_all_within(hs: Seq<SizeHint>, i: int, n: nat)
    requires
        0 <= i < hs.len(),
        within(hs[i], n),
    ensures
        within(or_all_spec(hs), n),
    decreases hs.len(),
{
    if hs.len() > 1 {
        if i < hs.len() - 1 {
            lemma_or_all_within(hs.drop_last(), i, n);
        }
        lemma_or_within(or_all_spec(hs.drop_last()), hs.last(), n);
    }
}

/// Past the ceiling a guarded hint admits every consumption.
pub proof fn lemma_guard_within(depth: usize, inner: SizeHint, n: nat)
    requires
        depth < MAX_DEPTH ==> within(inner, n),
    ensures
        within(guard_spec(depth, inner), n),
{
}

} // verus!
