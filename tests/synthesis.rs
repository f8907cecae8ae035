use token_synth::cursor::{Error, Unstructured};
use token_synth::token::{
    Delimiter, Group, Ident, Literal, Punct, Spacing, Span, TokenStream, TokenTree,
};

fn cursor(bytes: &[u8]) -> Unstructured {
    Unstructured::new(bytes.to_vec())
}

#[test]
fn stream_starting_with_identifier() {
    // continue, token kind 1 (identifier), text "abc", span `false`, stop
    let mut u = cursor(&[1, 1, 3, b'a', b'b', b'c', 0, 0]);
    let s = TokenStream::arbitrary(&mut u).unwrap();
    assert!(s.trees.len() >= 1);
    match &s.trees[0] {
        TokenTree::Ident(i) => {
            assert_eq!(i.text, b"abc".to_vec());
            assert_eq!(i.span, Span::MixedSite);
        }
        other => panic!("expected an identifier, got {:?}", other),
    }
    assert!(u.is_empty());
}

#[test]
fn empty_cursor_fails_everywhere() {
    assert_eq!(Span::arbitrary(&mut cursor(&[])), Err(Error::NotEnoughData));
    assert_eq!(Spacing::arbitrary(&mut cursor(&[])), Err(Error::NotEnoughData));
    assert_eq!(Delimiter::arbitrary(&mut cursor(&[])), Err(Error::NotEnoughData));
    assert_eq!(Ident::arbitrary(&mut cursor(&[])), Err(Error::NotEnoughData));
    assert_eq!(Punct::arbitrary(&mut cursor(&[])), Err(Error::NotEnoughData));
    assert_eq!(Literal::arbitrary(&mut cursor(&[])), Err(Error::NotEnoughData));
    assert_eq!(Group::arbitrary(&mut cursor(&[])), Err(Error::NotEnoughData));
    assert_eq!(TokenTree::arbitrary(&mut cursor(&[])), Err(Error::NotEnoughData));
    assert_eq!(TokenStream::arbitrary(&mut cursor(&[])), Err(Error::NotEnoughData));
}

#[test]
fn exhaustion_midway_fails() {
    // an identifier whose span is missing
    assert_eq!(Ident::arbitrary(&mut cursor(&[2, b'x', b'y'])), Err(Error::NotEnoughData));
    // a stream that never ends
    assert_eq!(TokenStream::arbitrary(&mut cursor(&[1, 2, 0x21, 0, 0, 0, 1])), Err(Error::NotEnoughData));
}

#[test]
fn span_and_spacing_follow_low_bit() {
    assert_eq!(Span::arbitrary(&mut cursor(&[1])), Ok(Span::CallSite));
    assert_eq!(Span::arbitrary(&mut cursor(&[2])), Ok(Span::MixedSite));
    assert_eq!(Spacing::arbitrary(&mut cursor(&[3])), Ok(Spacing::Alone));
    assert_eq!(Spacing::arbitrary(&mut cursor(&[0])), Ok(Spacing::Joint));
}

#[test]
fn delimiter_covers_all_four() {
    assert_eq!(Delimiter::arbitrary(&mut cursor(&[0])), Ok(Delimiter::Brace));
    assert_eq!(Delimiter::arbitrary(&mut cursor(&[1])), Ok(Delimiter::Bracket));
    assert_eq!(Delimiter::arbitrary(&mut cursor(&[2])), Ok(Delimiter::Parenthesis));
    assert_eq!(Delimiter::arbitrary(&mut cursor(&[3])), Ok(Delimiter::Invisible));
    assert_eq!(Delimiter::arbitrary(&mut cursor(&[6])), Ok(Delimiter::Parenthesis));
}

#[test]
fn punct_reads_char_then_spacing() {
    let mut u = cursor(&[b'+', 0, 0, 0, 1, 9]);
    assert_eq!(Punct::arbitrary(&mut u), Ok(Punct { ch: '+' as u32, spacing: Spacing::Alone }));
    assert_eq!(u.len(), 1);
}

#[test]
fn literal_variants() {
    assert_eq!(Literal::arbitrary(&mut cursor(&[0, 7])), Ok(Literal::U8Suffixed(7)));
    assert_eq!(Literal::arbitrary(&mut cursor(&[1, 0x34, 0x12])), Ok(Literal::U16Suffixed(0x1234)));
    assert_eq!(Literal::arbitrary(&mut cursor(&[6, 0xff])), Ok(Literal::I8Suffixed(-1)));
    assert_eq!(Literal::arbitrary(&mut cursor(&[19, 0x00, 0x80])), Ok(Literal::I16Unsuffixed(-32768)));
    assert_eq!(
        Literal::arbitrary(&mut cursor(&[11, 1, 0, 0, 0, 0, 0, 0, 0])),
        Ok(Literal::IsizeSuffixed(1))
    );
    assert_eq!(
        Literal::arbitrary(&mut cursor(&[24, 0x00, 0x00, 0x80, 0x3f])),
        Ok(Literal::F32Suffixed(1.0f32.to_bits()))
    );
    assert_eq!(Literal::arbitrary(&mut cursor(&[28, b'z', 0, 0, 0])), Ok(Literal::Character('z' as u32)));
    assert_eq!(Literal::arbitrary(&mut cursor(&[29, 2, b'h', b'i'])), Ok(Literal::Str(b"hi".to_vec())));
    assert_eq!(Literal::arbitrary(&mut cursor(&[30, 0])), Ok(Literal::ByteStr(vec![])));
    // the choice wraps around modulo the number of variants
    assert_eq!(Literal::arbitrary(&mut cursor(&[31, 5])), Ok(Literal::U8Suffixed(5)));
}

#[test]
fn literal_character_is_a_scalar() {
    // 0xD800 is a surrogate: halved until it is a scalar value
    assert_eq!(Literal::arbitrary(&mut cursor(&[28, 0x00, 0xD8, 0, 0])), Ok(Literal::Character(0x6C00)));
    assert_eq!(
        Literal::arbitrary(&mut cursor(&[28, 0xff, 0xff, 0xff, 0xff])),
        Ok(Literal::Character(0xF_FFFF))
    );
}

#[test]
fn nested_group() {
    // continue, kind 0 (group), bracket, continue, kind 2 (punct) '!' joint, stop, stop
    let mut u = cursor(&[1, 0, 1, 1, 2, b'!', 0, 0, 0, 0, 0, 0]);
    let s = TokenStream::arbitrary(&mut u).unwrap();
    let inner = TokenStream {
        trees: vec![TokenTree::Punct(Punct { ch: '!' as u32, spacing: Spacing::Joint })],
    };
    assert_eq!(
        s,
        TokenStream { trees: vec![TokenTree::Group(Group { delimiter: Delimiter::Bracket, stream: inner })] }
    );
    assert!(u.is_empty());
}

#[test]
fn same_bytes_same_tokens() {
    let bytes = [1, 3, 12, 200, 1, 1, 4, b'w', b'x', b'y', b'z', 1, 1, 0, 2, 0, 0, 0, 0];
    let a = TokenStream::arbitrary(&mut cursor(&bytes));
    let b = TokenStream::arbitrary(&mut cursor(&bytes));
    assert!(a.is_ok());
    assert_eq!(a, b);
}

#[test]
fn ident_consumes_text_then_span() {
    let bytes = [2, b'o', b'k', 1, 77];
    let mut whole = cursor(&bytes);
    Ident::arbitrary(&mut whole).unwrap();
    let used = bytes.len() - whole.len();

    let mut parts = cursor(&bytes);
    let text = parts.read_bytes().unwrap();
    let after_text = parts.len();
    Span::arbitrary(&mut parts).unwrap();
    let used_text = bytes.len() - after_text;
    let used_span = after_text - parts.len();
    assert_eq!(text, b"ok".to_vec());
    assert_eq!(used, used_text + used_span);
    assert_eq!(used, 4);
}
