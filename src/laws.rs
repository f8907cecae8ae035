//! Laws that relate synthesis to size hints and to the cursor.

use vstd::prelude::*;
use crate::cursor::{
    Unstructured, choice_from, char_from, bytes_from, uint_from, is_scalar, pow256,
    lemma_scalar_of, lemma_le_value_bound,
};
use crate::size_hint::{
    SizeHint, MAX_DEPTH, within, or_all_spec, lemma_and_within, lemma_or_all_within,
};
use crate::token::{
    span_from, spacing_from, delimiter_from, ident_from, punct_from, literal_from,
    literal_width, group_from, tree_from, stream_from, stream_hint,
    group_hint, tree_hint,
};

verus! {

/// Synthesis depends on the cursor's bytes alone: two cursors holding the
/// same bytes give the same value of every type, from the same number of
/// bytes.
pub proof fn lemma_deterministic(u1: Unstructured, u2: Unstructured)
    requires
        u1@ == u2@,
    ensures
        span_from(u1@) == span_from(u2@),
        spacing_from(u1@) == spacing_from(u2@),
        delimiter_from(u1@) == delimiter_from(u2@),
        ident_from(u1@) == ident_from(u2@),
        punct_from(u1@) == punct_from(u2@),
        literal_from(u1@) == literal_from(u2@),
        group_from(u1@) == group_from(u2@),
        tree_from(u1@) == tree_from(u2@),
        stream_from(u1@) == stream_from(u2@),
{
}

/// A cursor with no bytes left fails every synthesis.
pub proof fn lemma_empty_cursor_fails(d: Seq<u8>)
    requires
        d.len() == 0,
    ensures
        span_from(d) is None,
        spacing_from(d) is None,
        delimiter_from(d) is None,
        ident_from(d) is None,
        punct_from(d) is None,
        literal_from(d) is None,
        group_from(d) is None,
        tree_from(d) is None,
        stream_from(d) is None,
{
}

/// An identifier consumes what its text consumes, then what its span
/// consumes from where the text ended.
pub proof fn lemma_ident_sequential(d: Seq<u8>)
    ensures
        match ident_from(d) {
            Some((i, n)) => match bytes_from(d) {
                Some((text, n1)) => text == i.0 && match span_from(d.skip(n1 as int)) {
                    Some((span, n2)) => span == i.1 && n == n1 + n2,
                    None => false,
                },
                None => false,
            },
            None => bytes_from(d) is None || span_from(d.skip(bytes_from(d)->Some_0.1 as int)) is None,
        },
{
}

/// A punctuation mark consumes what its character consumes, then what its
/// spacing consumes from where the character ended.
pub proof fn lemma_punct_sequential(d: Seq<u8>)
    ensures
        match punct_from(d) {
            Some((p, n)) => match char_from(d) {
                Some((c, n1)) => p.ch == c as u32 && match spacing_from(d.skip(n1 as int)) {
                    Some((s, n2)) => s == p.spacing && n == n1 + n2,
                    None => false,
                },
                None => false,
            },
            None => char_from(d) is None || spacing_from(d.skip(char_from(d)->Some_0.1 as int)) is None,
        },
{
}

/// A group consumes what its delimiter consumes, then what its stream
/// consumes from where the delimiter ended.
pub proof fn lemma_group_sequential(d: Seq<u8>)
    ensures
        match group_from(d) {
            Some((g, n)) => match delimiter_from(d) {
                Some((delim, n1)) => delim == g.0 && match stream_from(d.skip(n1 as int)) {
                    Some((ts, n2)) => ts == g.1 && n == n1 + n2,
                    None => false,
                },
                None => false,
            },
            None => delimiter_from(d) is None || stream_from(d.skip(1)) is None,
        },
{
}

/// Past the depth ceiling the recursive types report `(0, None)` without
/// unfolding further.
pub proof fn lemma_recursion_bounded(depth: usize)
    requires
        depth >= MAX_DEPTH,
    ensures
        stream_hint(depth) == (0usize, None::<usize>),
        group_hint(depth) == (0usize, None::<usize>),
        tree_hint(depth) == (0usize, None::<usize>),
{
}

/// A stream consumes at least the boolean that ends it.
pub proof fn lemma_stream_hint_sound(d: Seq<u8>, depth: usize)
    requires
        stream_from(d) is Some,
    ensures
        within(stream_hint(depth), stream_from(d)->Some_0.1),
{
}

/// A group consumes at least what its hint says, at every depth.
pub proof fn lemma_group_hint_sound(d: Seq<u8>, depth: usize)
    requires
        group_from(d) is Some,
    ensures
        within(group_hint(depth), group_from(d)->Some_0.1),
{
    let n = stream_from(d.skip(1))->Some_0.1;
    lemma_stream_hint_sound(d.skip(1), (depth + 1) as usize);
    if depth < MAX_DEPTH {
        lemma_and_within((1, Some(1)), stream_hint((depth + 1) as usize), 1, n);
    }
}

/// A literal consumes at least two bytes, its choice and its payload.
pub proof fn lemma_literal_hint_sound(d: Seq<u8>)
    requires
        literal_from(d) is Some,
    ensures
        within((2, None), literal_from(d)->Some_0.1),
{
    let tag = choice_from(d, 31)->Some_0.0;
    assert(literal_width(tag) >= 1);
}

/// The types without recursion consume within their fixed hints.
pub proof fn lemma_fixed_hints_sound(d: Seq<u8>)
    ensures
        span_from(d) is Some ==> within((1, Some(1)), span_from(d)->Some_0.1),
        spacing_from(d) is Some ==> within((1, Some(1)), spacing_from(d)->Some_0.1),
        delimiter_from(d) is Some ==> within((1, Some(1)), delimiter_from(d)->Some_0.1),
        ident_from(d) is Some ==> within((2, None), ident_from(d)->Some_0.1),
        punct_from(d) is Some ==> within((5, Some(5)), punct_from(d)->Some_0.1),
        literal_from(d) is Some ==> within((2, None), literal_from(d)->Some_0.1),
{
    if literal_from(d) is Some {
        lemma_literal_hint_sound(d);
    }
}

/// Every literal synthesized names one of the 31 variants, and every
/// character synthesized is a Unicode scalar value.
pub proof fn lemma_well_formed(d: Seq<u8>)
    ensures
        literal_from(d) is Some ==> literal_from(d)->Some_0.0.tag < 31,
        literal_from(d) is Some && literal_from(d)->Some_0.0.tag == 28 ==> is_scalar(
            literal_from(d)->Some_0.0.value as nat,
        ),
        punct_from(d) is Some ==> is_scalar(punct_from(d)->Some_0.0.ch as nat),
{
    if d.len() >= 5 {
        lemma_char_fits(d.skip(1));
    }
    if d.len() >= 4 {
        lemma_char_fits(d);
    }
}

/// A character read from four bytes is a scalar value that fits in 32 bits.
proof fn lemma_char_fits(d: Seq<u8>)
    requires
        d.len() >= 4,
    ensures
        is_scalar(char_from(d)->Some_0.0),
        char_from(d)->Some_0.0 < 0x1_0000_0000,
{
    let v = uint_from(d, 4)->Some_0.0;
    lemma_le_value_bound(d.take(4));
    reveal_with_fuel(pow256, 5);
    lemma_scalar_of(v);
}

/// A token consumes at least what its hint says, at every depth.
pub proof fn lemma_tree_hint_sound(d: Seq<u8>, depth: usize)
    requires
        tree_from(d) is Some,
    ensures
        within(tree_hint(depth), tree_from(d)->Some_0.1),
{
    if depth < MAX_DEPTH {
        let d1 = (depth + 1) as usize;
        let rest = d.skip(1);
        let n = (tree_from(d)->Some_0.1 - 1) as nat;
        let hs: Seq<SizeHint> = seq![group_hint(d1), (2, None), (5, Some(5)), (2, None)];
        let tag = d[0] % 4;
        if tag == 0 {
            lemma_group_hint_sound(rest, d1);
            lemma_or_all_within(hs, 0, n);
        } else if tag == 1 {
            lemma_or_all_within(hs, 1, n);
        } else if tag == 2 {
            lemma_or_all_within(hs, 2, n);
        } else {
            lemma_literal_hint_sound(rest);
            lemma_or_all_within(hs, 3, n);
        }
        lemma_and_within((1, Some(1)), or_all_spec(hs), 1, n);
    }
}

} // verus!
