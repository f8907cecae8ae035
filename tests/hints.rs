use token_synth::cursor::Unstructured;
use token_synth::size_hint::{and, at_least, exactly, or, or_all, recursion_guard, SizeHint, MAX_DEPTH};
use token_synth::token::{
    Delimiter, Group, Ident, Literal, Punct, Spacing, Span, TokenStream, TokenTree,
};

fn within(h: SizeHint, n: usize) -> bool {
    h.0 <= n && h.1.map_or(true, |m| n <= m)
}

#[test]
fn delimiter_hint_is_one_choice_at_any_depth() {
    for depth in [0, 1, 19, 20, 21, usize::MAX] {
        assert_eq!(Delimiter::size_hint(depth), (1, Some(1)));
    }
}

#[test]
fn fixed_hints() {
    assert_eq!(Span::size_hint(0), (1, Some(1)));
    assert_eq!(Spacing::size_hint(0), (1, Some(1)));
    assert_eq!(Ident::size_hint(0), (2, None));
    assert_eq!(Punct::size_hint(0), (5, Some(5)));
    assert_eq!(Literal::size_hint(0), (2, None));
}

#[test]
fn recursive_hints() {
    assert_eq!(TokenStream::size_hint(0), (1, None));
    assert_eq!(Group::size_hint(0), (2, None));
    assert_eq!(TokenTree::size_hint(0), (3, None));
    assert_eq!(Group::size_hint(MAX_DEPTH - 1), (1, None));
    assert_eq!(TokenTree::size_hint(MAX_DEPTH - 2), (2, None));
}

#[test]
fn hints_stop_at_the_ceiling() {
    assert_eq!(TokenStream::size_hint(MAX_DEPTH), (0, None));
    assert_eq!(Group::size_hint(MAX_DEPTH), (0, None));
    assert_eq!(TokenTree::size_hint(MAX_DEPTH), (0, None));
    assert_eq!(TokenTree::size_hint(usize::MAX), (0, None));
    assert_eq!(recursion_guard(MAX_DEPTH), None);
    assert_eq!(recursion_guard(3), Some(4));
}

#[test]
fn combinators() {
    assert_eq!(and(exactly(2), exactly(3)), (5, Some(5)));
    assert_eq!(and(exactly(2), at_least(3)), (5, None));
    assert_eq!(and((usize::MAX, Some(usize::MAX)), exactly(1)), (usize::MAX, None));
    assert_eq!(or(exactly(2), exactly(7)), (2, Some(7)));
    assert_eq!(or(exactly(2), at_least(1)), (1, None));
    assert_eq!(or_all(&[]), (0, Some(0)));
    assert_eq!(or_all(&[exactly(4), exactly(1), exactly(9)]), (1, Some(9)));
}

#[test]
fn consumption_within_hints() {
    let cases: [&[u8]; 4] = [
        &[1, 1, 3, b'a', b'b', b'c', 0, 0],
        &[1, 0, 1, 1, 2, b'!', 0, 0, 0, 0, 0, 0],
        &[1, 3, 0, 7, 0],
        &[0],
    ];
    for bytes in cases {
        let mut u = Unstructured::new(bytes.to_vec());
        TokenStream::arbitrary(&mut u).unwrap();
        let used = bytes.len() - u.len();
        for depth in [0, 5, MAX_DEPTH] {
            assert!(within(TokenStream::size_hint(depth), used));
        }
    }
    let mut u = Unstructured::new(vec![2, 0, 0, 0, 9, 9, 9, 9, 1]);
    TokenTree::arbitrary(&mut u).unwrap();
    assert!(within(TokenTree::size_hint(0), 9 - u.len()));
    let mut u = Unstructured::new(vec![b'-', 0, 0, 0, 0]);
    Punct::arbitrary(&mut u).unwrap();
    assert!(within(Punct::size_hint(0), 5 - u.len()));
}
