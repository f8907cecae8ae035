//! The token model, its synthesizers and its size hints.
//!
//! Each type has `arbitrary`, which builds one value from the front of a
//! cursor, and `size_hint`, which bounds the bytes that call consumes. What
//! `arbitrary` returns is stated by a spec function of the cursor's bytes:
//! `span_from`, `ident_from`, and so on, each giving the value's model and
//! the number of bytes consumed, or `None` when the bytes run out.

use vstd::prelude::*;
use crate::cursor::{
    Error, Unstructured, bool_from, choice_from, uint_from, int_from, char_from, bytes_from,
    consumed,
};
use crate::size_hint::{
    SizeHint, and_spec, or_all_spec, guard_spec, exactly, at_least, and, or_all,
    recursion_guard,
};

verus! {

broadcast use {
    vstd::seq::group_seq_axioms,
    vstd::std_specs::vec::group_vec_axioms,
    crate::cursor::lemma_skip_skip,
};

/// Where a token's text came from.
#[derive(Clone, Copy, Debug, PartialEq, Eq, Structural)]
pub enum Span {
    CallSite,
    MixedSite,
}

/// Whether a punctuation mark stands alone or joins the next one.
#[derive(Clone, Copy, Debug, PartialEq, Eq, Structural)]
pub enum Spacing {
    Alone,
    Joint,
}

/// The delimiters that enclose a group.
#[derive(Clone, Copy, Debug, PartialEq, Eq, Structural)]
pub enum Delimiter {
    Brace,
    Bracket,
    Parenthesis,
    Invisible,
}

/// An identifier: its text and where it came from.
#[derive(Debug, PartialEq, Eq)]
pub struct Ident {
    pub text: Vec<u8>,
    pub span: Span,
}

/// A punctuation mark: a character, held as its scalar value, and its spacing.
#[derive(Clone, Copy, Debug, PartialEq, Eq, Structural)]
pub struct Punct {
    pub ch: u32,
    pub spacing: Spacing,
}

/// A literal. Pointer-sized integers are held at 64 bits, floating-point
/// numbers by their bit patterns, characters by their scalar values.
#[derive(Debug, PartialEq, Eq)]
pub enum Literal {
    U8Suffixed(u8),
    U16Suffixed(u16),
    U32Suffixed(u32),
    U64Suffixed(u64),
    U128Suffixed(u128),
    UsizeSuffixed(u64),
    I8Suffixed(i8),
    I16Suffixed(i16),
    I32Suffixed(i32),
    I64Suffixed(i64),
    I128Suffixed(i128),
    IsizeSuffixed(i64),
    U8Unsuffixed(u8),
    U16Unsuffixed(u16),
    U32Unsuffixed(u32),
    U64Unsuffixed(u64),
    U128Unsuffixed(u128),
    UsizeUnsuffixed(u64),
    I8Unsuffixed(i8),
    I16Unsuffixed(i16),
    I32Unsuffixed(i32),
    I64Unsuffixed(i64),
    I128Unsuffixed(i128),
    IsizeUnsuffixed(i64),
    F32Suffixed(u32),
    F32Unsuffixed(u32),
    F64Suffixed(u64),
    F64Unsuffixed(u64),
    Character(u32),
    Str(Vec<u8>),
    ByteStr(Vec<u8>),
}

/// A delimited token sequence.
#[derive(Debug, PartialEq, Eq)]
pub struct Group {
    pub delimiter: Delimiter,
    pub stream: TokenStream,
}

/// A single token.
#[derive(Debug, PartialEq, Eq)]
pub enum TokenTree {
    Group(Group),
    Ident(Ident),
    Punct(Punct),
    Literal(Literal),
}

/// An ordered sequence of tokens.
#[derive(Debug, PartialEq, Eq)]
pub struct TokenStream {
    pub trees: Vec<TokenTree>,
}

/// The model of a literal: the index of its variant in declaration order,
/// its numeric payload (zero for the two string variants) and its bytes
/// (empty for all others).
pub struct LiteralModel {
    pub tag: nat,
    pub value: int,
    pub bytes: Seq<u8>,
}

/// The model of a token.
pub enum TreeModel {
    Group(Delimiter, Seq<TreeModel>),
    Ident(Seq<u8>, Span),
    Punct(Punct),
    Literal(LiteralModel),
}

/// The model of a literal value.
pub open spec fn literal_model(l: Literal) -> LiteralModel {
    match l {
        Literal::U8Suffixed(x) => LiteralModel { tag: 0, value: x as int, bytes: seq![] },
        Literal::U16Suffixed(x) => LiteralModel { tag: 1, value: x as int, bytes: seq![] },
        Literal::U32Suffixed(x) => LiteralModel { tag: 2, value: x as int, bytes: seq![] },
        Literal::U64Suffixed(x) => LiteralModel { tag: 3, value: x as int, bytes: seq![] },
        Literal::U128Suffixed(x) => LiteralModel { tag: 4, value: x as int, bytes: seq![] },
        Literal::UsizeSuffixed(x) => LiteralModel { tag: 5, value: x as int, bytes: seq![] },
        Literal::I8Suffixed(x) => LiteralModel { tag: 6, value: x as int, bytes: seq![] },
        Literal::I16Suffixed(x) => LiteralModel { tag: 7, value: x as int, bytes: seq![] },
        Literal::I32Suffixed(x) => LiteralModel { tag: 8, value: x as int, bytes: seq![] },
        Literal::I64Suffixed(x) => LiteralModel { tag: 9, value: x as int, bytes: seq![] },
        Literal::I128Suffixed(x) => LiteralModel { tag: 10, value: x as int, bytes: seq![] },
        Literal::IsizeSuffixed(x) => LiteralModel { tag: 11, value: x as int, bytes: seq![] },
        Literal::U8Unsuffixed(x) => LiteralModel { tag: 12, value: x as int, bytes: seq![] },
        Literal::U16Unsuffixed(x) => LiteralModel { tag: 13, value: x as int, bytes: seq![] },
        Literal::U32Unsuffixed(x) => LiteralModel { tag: 14, value: x as int, bytes: seq![] },
        Literal::U64Unsuffixed(x) => LiteralModel { tag: 15, value: x as int, bytes: seq![] },
        Literal::U128Unsuffixed(x) => LiteralModel { tag: 16, value: x as int, bytes: seq![] },
        Literal::UsizeUnsuffixed(x) => LiteralModel { tag: 17, value: x as int, bytes: seq![] },
        Literal::I8Unsuffixed(x) => LiteralModel { tag: 18, value: x as int, bytes: seq![] },
        Literal::I16Unsuffixed(x) => LiteralModel { tag: 19, value: x as int, bytes: seq![] },
        Literal::I32Unsuffixed(x) => LiteralModel { tag: 20, value: x as int, bytes: seq![] },
        Literal::I64Unsuffixed(x) => LiteralModel { tag: 21, value: x as int, bytes: seq![] },
        Literal::I128Unsuffixed(x) => LiteralModel { tag: 22, value: x as int, bytes: seq![] },
        Literal::IsizeUnsuffixed(x) => LiteralModel { tag: 23, value: x as int, bytes: seq![] },
        Literal::F32Suffixed(x) => LiteralModel { tag: 24, value: x as int, bytes: seq![] },
        Literal::F32Unsuffixed(x) => LiteralModel { tag: 25, value: x as int, bytes: seq![] },
        Literal::F64Suffixed(x) => LiteralModel { tag: 26, value: x as int, bytes: seq![] },
        Literal::F64Unsuffixed(x) => LiteralModel { tag: 27, value: x as int, bytes: seq![] },
        Literal::Character(x) => LiteralModel { tag: 28, value: x as int, bytes: seq![] },
        Literal::Str(x) => LiteralModel { tag: 29, value: 0, bytes: x@ },
        Literal::ByteStr(x) => LiteralModel { tag: 30, value: 0, bytes: x@ },
    }
}

/// The model of a token value, with nested groups modelled in turn.
pub open spec fn tree_model(t: TokenTree) -> TreeModel
    decreases t,
{
    match t {
        TokenTree::Group(g) => TreeModel::Group(g.delimiter, trees_model(g.stream.trees@)),
        TokenTree::Ident(i) => TreeModel::Ident(i.text@, i.span),
        TokenTree::Punct(p) => TreeModel::Punct(p),
        TokenTree::Literal(l) => TreeModel::Literal(literal_model(l)),
    }
}

/// The models of a sequence of tokens, in order.
pub open spec fn trees_model(ts: Seq<TokenTree>) -> Seq<TreeModel>
    decreases ts,
{
    if ts.len() == 0 {
        seq![]
    } else {
        trees_model(ts.subrange(0, ts.len() - 1)).push(tree_model(ts[ts.len() - 1]))
    }
}

impl View for Ident {
    type V = (Seq<u8>, Span);

    open spec fn view(&self) -> (Seq<u8>, Span) {
        (self.text@, self.span)
    }
}

impl View for Literal {
    type V = LiteralModel;

    open spec fn view(&self) -> LiteralModel {
        literal_model(*self)
    }
}

impl View for Group {
    type V = (Delimiter, Seq<TreeModel>);

    open spec fn view(&self) -> (Delimiter, Seq<TreeModel>) {
        (self.delimiter, trees_model(self.stream.trees@))
    }
}

impl View for TokenTree {
    type V = TreeModel;

    open spec fn view(&self) -> TreeModel {
        tree_model(*self)
    }
}

impl View for TokenStream {
    type V = Seq<TreeModel>;

    open spec fn view(&self) -> Seq<TreeModel> {
        trees_model(self.trees@)
    }
}

// What synthesis reads, as functions of the cursor's bytes. Each gives the
// model of the value built and the number of bytes consumed.

/// Reading a span: one boolean.
pub open spec fn span_from(d: Seq<u8>) -> Option<(Span, nat)> {
    match bool_from(d) {
        Some((b, n)) => Some((if b { Span::CallSite } else { Span::MixedSite }, n)),
        None => None,
    }
}

/// Reading a spacing: one boolean.
pub open spec fn spacing_from(d: Seq<u8>) -> Option<(Spacing, nat)> {
    match bool_from(d) {
        Some((b, n)) => Some((if b { Spacing::Alone } else { Spacing::Joint }, n)),
        None => None,
    }
}

/// The delimiter chosen by index.
pub open spec fn delimiter_at(i: nat) -> Delimiter {
    if i == 0 {
        Delimiter::Brace
    } else if i == 1 {
        Delimiter::Bracket
    } else if i == 2 {
        Delimiter::Parenthesis
    } else {
        Delimiter::Invisible
    }
}

/// Reading a delimiter: one choice among four.
pub open spec fn delimiter_from(d: Seq<u8>) -> Option<(Delimiter, nat)> {
    match choice_from(d, 4) {
        Some((i, n)) => Some((delimiter_at(i), n)),
        None => None,
    }
}

/// Reading an identifier: its text, then its span.
pub open spec fn ident_from(d: Seq<u8>) -> Option<((Seq<u8>, Span), nat)> {
    match bytes_from(d) {
        Some((text, n1)) => match span_from(d.skip(n1 as int)) {
            Some((span, n2)) => Some(((text, span), n1 + n2)),
            None => None,
        },
        None => None,
    }
}

/// Reading a punctuation mark: its character, then its spacing.
pub open spec fn punct_from(d: Seq<u8>) -> Option<(Punct, nat)> {
    match char_from(d) {
        Some((c, n1)) => match spacing_from(d.skip(n1 as int)) {
            Some((spacing, n2)) => Some((Punct { ch: c as u32, spacing }, n1 + n2)),
            None => None,
        },
        None => None,
    }
}

/// The byte width of a numeric literal's payload, by variant index.
pub open spec fn literal_width(tag: nat) -> nat {
    if tag < 24 {
        seq![1nat, 2, 4, 8, 16, 8][(tag % 6) as int]
    } else if tag < 26 {
        4
    } else if tag < 28 {
        8
    } else {
        4
    }
}

/// Whether a literal variant holds a signed integer.
pub open spec fn literal_signed(tag: nat) -> bool {
    (6 <= tag < 12) || (18 <= tag < 24)
}

/// The payload of the literal variant `tag`, read from `d`.
pub open spec fn literal_payload_from(tag: nat, d: Seq<u8>) -> Option<(LiteralModel, nat)> {
    if tag == 28 {
        match char_from(d) {
            Some((c, n)) => Some((LiteralModel { tag, value: c as int, bytes: seq![] }, n)),
            None => None,
        }
    } else if tag >= 29 {
        match bytes_from(d) {
            Some((b, n)) => Some((LiteralModel { tag, value: 0, bytes: b }, n)),
            None => None,
        }
    } else if literal_signed(tag) {
        match int_from(d, literal_width(tag)) {
            Some((v, n)) => Some((LiteralModel { tag, value: v, bytes: seq![] }, n)),
            None => None,
        }
    } else {
        match uint_from(d, literal_width(tag)) {
            Some((v, n)) => Some((LiteralModel { tag, value: v as int, bytes: seq![] }, n)),
            None => None,
        }
    }
}

/// Reading a literal: one choice among 31 variants, then its payload.
pub open spec fn literal_from(d: Seq<u8>) -> Option<(LiteralModel, nat)> {
    match choice_from(d, 31) {
        Some((tag, n1)) => match literal_payload_from(tag, d.skip(n1 as int)) {
            Some((l, n2)) => Some((l, n1 + n2)),
            None => None,
        },
        None => None,
    }
}

/// Reading a group: a delimiter (one byte), then a token stream.
pub open spec fn group_from(d: Seq<u8>) -> Option<((Delimiter, Seq<TreeModel>), nat)>
    decreases d.len(),
{
    if d.len() == 0 {
        None
    } else {
        match stream_from(d.skip(1)) {
            Some((ts, n)) => Some(((delimiter_at((d[0] % 4) as nat), ts), n + 1)),
            None => None,
        }
    }
}

/// Reading a token: one choice among four kinds (one byte), then a token of
/// that kind.
pub open spec fn tree_from(d: Seq<u8>) -> Option<(TreeModel, nat)>
    decreases d.len(),
{
    if d.len() == 0 {
        None
    } else {
        let tag = d[0] % 4;
        let rest = d.skip(1);
        let r = if tag == 0 {
            match group_from(rest) {
                Some((g, n)) => Some((TreeModel::Group(g.0, g.1), n)),
                None => None,
            }
        } else if tag == 1 {
            match ident_from(rest) {
                Some((i, n)) => Some((TreeModel::Ident(i.0, i.1), n)),
                None => None,
            }
        } else if tag == 2 {
            match punct_from(rest) {
                Some((p, n)) => Some((TreeModel::Punct(p), n)),
                None => None,
            }
        } else {
            match literal_from(rest) {
                Some((l, n)) => Some((TreeModel::Literal(l), n)),
                None => None,
            }
        };
        match r {
            Some((t, n)) => Some((t, n + 1)),
            None => None,
        }
    }
}

/// Reading a token stream: while a boolean reads `true`, a token follows;
/// the first `false` ends the stream.
pub open spec fn stream_from(d: Seq<u8>) -> Option<(Seq<TreeModel>, nat)>
    decreases d.len(),
{
    if d.len() == 0 {
        None
    } else if d[0] % 2 == 0 {
        Some((seq![], 1))
    } else {
        match tree_from(d.skip(1)) {
            Some((t, n)) => if n + 1 <= d.len() {
                match stream_from(d.skip(n + 1 as int)) {
                    Some((ts, m)) => Some((seq![t] + ts, n + 1 + m)),
                    None => None,
                }
            } else {
                None
            },
            None => None,
        }
    }
}


impl Span {
    /// One boolean: `true` gives `CallSite`, `false` gives `MixedSite`.
    pub fn arbitrary(u: &mut Unstructured) -> (r: Result<Span, Error>)
        ensures
            match span_from(old(u)@) {
                Some((v, n)) => r == Ok::<Span, Error>(v) && consumed(old(u)@, final(u)@, n),
                None => r is Err,
            },
    {
        if u.read_bool()? {
            Ok(Span::CallSite)
        } else {
            Ok(Span::MixedSite)
        }
    }
}

impl Spacing {
    /// One boolean: `true` gives `Alone`, `false` gives `Joint`.
    pub fn arbitrary(u: &mut Unstructured) -> (r: Result<Spacing, Error>)
        ensures
            match spacing_from(old(u)@) {
                Some((v, n)) => r == Ok::<Spacing, Error>(v) && consumed(old(u)@, final(u)@, n),
                None => r is Err,
            },
    {
        if u.read_bool()? {
            Ok(Spacing::Alone)
        } else {
            Ok(Spacing::Joint)
        }
    }
}

impl Delimiter {
    /// One choice among the four delimiters, in declaration order.
    pub fn arbitrary(u: &mut Unstructured) -> (r: Result<Delimiter, Error>)
        ensures
            match delimiter_from(old(u)@) {
                Some((v, n)) => r == Ok::<Delimiter, Error>(v) && consumed(old(u)@, final(u)@, n),
                None => r is Err,
            },
    {
        let i = u.choose_index(4)?;
        if i == 0 {
            Ok(Delimiter::Brace)
        } else if i == 1 {
            Ok(Delimiter::Bracket)
        } else if i == 2 {
            Ok(Delimiter::Parenthesis)
        } else {
            Ok(Delimiter::Invisible)
        }
    }
}

impl Ident {
    /// The text, then the span.
    pub fn arbitrary(u: &mut Unstructured) -> (r: Result<Ident, Error>)
        ensures
            match ident_from(old(u)@) {
                Some((v, n)) => (match r {
                    Ok(x) => x@ == v,
                    Err(_) => false,
                }) && consumed(old(u)@, final(u)@, n),
                None => r is Err,
            },
    {
        let text = u.read_bytes()?;
        let span = Span::arbitrary(u)?;
        Ok(Ident { text, span })
    }
}

impl Punct {
    /// The character, then the spacing.
    pub fn arbitrary(u: &mut Unstructured) -> (r: Result<Punct, Error>)
        ensures
            match punct_from(old(u)@) {
                Some((v, n)) => r == Ok::<Punct, Error>(v) && consumed(old(u)@, final(u)@, n),
                None => r is Err,
            },
    {
        let ch = u.read_char()?;
        let spacing = Spacing::arbitrary(u)?;
        Ok(Punct { ch, spacing })
    }
}

impl Literal {
    /// One choice among the 31 variants, then that variant's payload.
    pub fn arbitrary(u: &mut Unstructured) -> (r: Result<Literal, Error>)
        ensures
            match literal_from(old(u)@) {
                Some((v, n)) => (match r {
                    Ok(x) => x@ == v,
                    Err(_) => false,
                }) && consumed(old(u)@, final(u)@, n),
                None => r is Err,
            },
    {
        let tag = u.choose_index(31)?;
        Literal::payload(tag, u)
    }

    /// The payload of the variant at index `tag`.
    #[verifier::spinoff_prover]
    #[verifier::rlimit(50)]
    fn payload(tag: u8, u: &mut Unstructured) -> (r: Result<Literal, Error>)
        requires
            tag < 31,
        ensures
            match literal_payload_from(tag as nat, old(u)@) {
                Some((v, n)) => (match r {
                    Ok(x) => x@ == v,
                    Err(_) => false,
                }) && consumed(old(u)@, final(u)@, n),
                None => r is Err,
            },
    {
        let lit = match tag {
            0 => Literal::U8Suffixed(u.read_u8()?),
            1 => Literal::U16Suffixed(u.read_u16()?),
            2 => Literal::U32Suffixed(u.read_u32()?),
            3 => Literal::U64Suffixed(u.read_u64()?),
            4 => Literal::U128Suffixed(u.read_u128()?),
            5 => Literal::UsizeSuffixed(u.read_u64()?),
            6 => Literal::I8Suffixed(u.read_i8()?),
            7 => Literal::I16Suffixed(u.read_i16()?),
            8 => Literal::I32Suffixed(u.read_i32()?),
            9 => Literal::I64Suffixed(u.read_i64()?),
            10 => Literal::I128Suffixed(u.read_i128()?),
            11 => Literal::IsizeSuffixed(u.read_i64()?),
            12 => Literal::U8Unsuffixed(u.read_u8()?),
            13 => Literal::U16Unsuffixed(u.read_u16()?),
            14 => Literal::U32Unsuffixed(u.read_u32()?),
            15 => Literal::U64Unsuffixed(u.read_u64()?),
            16 => Literal::U128Unsuffixed(u.read_u128()?),
            17 => Literal::UsizeUnsuffixed(u.read_u64()?),
            18 => Literal::I8Unsuffixed(u.read_i8()?),
            19 => Literal::I16Unsuffixed(u.read_i16()?),
            20 => Literal::I32Unsuffixed(u.read_i32()?),
            21 => Literal::I64Unsuffixed(u.read_i64()?),
            22 => Literal::I128Unsuffixed(u.read_i128()?),
            23 => Literal::IsizeUnsuffixed(u.read_i64()?),
            24 => Literal::F32Suffixed(u.read_u32()?),
            25 => Literal::F32Unsuffixed(u.read_u32()?),
            26 => Literal::F64Suffixed(u.read_u64()?),
            27 => Literal::F64Unsuffixed(u.read_u64()?),
            28 => Literal::Character(u.read_char()?),
            29 => Literal::Str(u.read_bytes()?),
            // the one index left is 30
            _ => Literal::ByteStr(u.read_bytes()?),
        };
        Ok(lit)
    }
}

/// Appending a token appends its model.
proof fn lemma_trees_model_push(ts: Seq<TokenTree>, t: TokenTree)
    ensures
        trees_model(ts.push(t)) == trees_model(ts).push(tree_model(t)),
{
    assert(ts.push(t).subrange(0, ts.len() as int) =~= ts);
}

/// A stream read after `prefix` has been read in `k` bytes.
pub open spec fn extend(prefix: Seq<TreeModel>, k: nat, r: Option<(Seq<TreeModel>, nat)>) -> Option<
    (Seq<TreeModel>, nat),
> {
    match r {
        Some((ts, m)) => Some((prefix + ts, k + m)),
        None => None,
    }
}

impl Group {
    /// The delimiter, then the enclosed stream.
    pub fn arbitrary(u: &mut Unstructured) -> (r: Result<Group, Error>)
        ensures
            match group_from(old(u)@) {
                Some((v, n)) => (match r {
                    Ok(x) => x@ == v,
                    Err(_) => false,
                }) && consumed(old(u)@, final(u)@, n),
                None => r is Err,
            },
        decreases old(u)@.len(), 1nat,
    {
        let delimiter = Delimiter::arbitrary(u)?;
        let stream = TokenStream::arbitrary(u)?;
        Ok(Group { delimiter, stream })
    }
}

impl TokenTree {
    /// One choice among the four kinds of token, then a token of that kind.
    pub fn arbitrary(u: &mut Unstructured) -> (r: Result<TokenTree, Error>)
        ensures
            match tree_from(old(u)@) {
                Some((v, n)) => (match r {
                    Ok(x) => x@ == v,
                    Err(_) => false,
                }) && consumed(old(u)@, final(u)@, n),
                None => r is Err,
            },
        decreases old(u)@.len(), 2nat,
    {
        let tag = u.choose_index(4)?;
        if tag == 0 {
            Ok(TokenTree::Group(Group::arbitrary(u)?))
        } else if tag == 1 {
            Ok(TokenTree::Ident(Ident::arbitrary(u)?))
        } else if tag == 2 {
            Ok(TokenTree::Punct(Punct::arbitrary(u)?))
        } else {
            Ok(TokenTree::Literal(Literal::arbitrary(u)?))
        }
    }
}

impl TokenStream {
    /// Tokens in order, each announced by a `true` boolean, until a `false`
    /// one ends the sequence.
    pub fn arbitrary(u: &mut Unstructured) -> (r: Result<TokenStream, Error>)
        ensures
            match stream_from(old(u)@) {
                Some((v, n)) => (match r {
                    Ok(x) => x@ == v,
                    Err(_) => false,
                }) && consumed(old(u)@, final(u)@, n),
                None => r is Err,
            },
        decreases old(u)@.len(), 0nat,
    {
        let ghost d0 = u@;
        let mut trees: Vec<TokenTree> = Vec::new();
        let ghost mut k: nat = 0;
        proof {
            assert(d0.skip(0) =~= d0);
            match stream_from(d0) {
                Some((ts, m)) => {
                    assert(trees_model(trees@) + ts =~= ts);
                },
                None => {},
            }
        }
        loop
            invariant
                consumed(d0, u@, k),
                d0 == old(u)@,
                stream_from(d0) == extend(trees_model(trees@), k, stream_from(u@)),
            decreases u@.len(),
        {
            let ghost cur = u@;
            let more = u.read_bool()?;
            if !more {
                proof {
                    assert(trees_model(trees@) + seq![] =~= trees_model(trees@));
                    k = k + 1;
                }
                return Ok(TokenStream { trees });
            }
            let t = TokenTree::arbitrary(u)?;
            proof {
                let n = (cur.len() - 1 - u@.len()) as nat;
                let rest = stream_from(u@);
                assert(u@ == cur.skip(n + 1 as int));
                lemma_trees_model_push(trees@, t);
                match rest {
                    Some((ts, m)) => {
                        assert(trees_model(trees@) + (seq![tree_model(t)] + ts) =~= trees_model(trees@).push(tree_model(t)) + ts);
                    },
                    None => {},
                }
                k = k + 1 + n;
            }
            trees.push(t);
        }
    }
}

// Size hints.

/// The hint of a token stream: at least its closing boolean.
pub open spec fn stream_hint(depth: usize) -> SizeHint {
    guard_spec(depth, (1, None))
}

/// The hint of a group: a delimiter, then a stream one level deeper.
pub open spec fn group_hint(depth: usize) -> SizeHint {
    guard_spec(depth, and_spec((1, Some(1)), stream_hint((depth + 1) as usize)))
}

/// The hint of a token: a choice, then any of the four kinds one level deeper.
pub open spec fn tree_hint(depth: usize) -> SizeHint {
    guard_spec(
        depth,
        and_spec(
            (1, Some(1)),
            or_all_spec(
                seq![group_hint((depth + 1) as usize), (2, None), (5, Some(5)), (2, None)],
            ),
        ),
    )
}

impl Span {
    /// One boolean.
    pub fn size_hint(depth: usize) -> (r: SizeHint)
        ensures
            r == (1usize, Some(1usize)),
    {
        exactly(1)
    }
}

impl Spacing {
    /// One boolean.
    pub fn size_hint(depth: usize) -> (r: SizeHint)
        ensures
            r == (1usize, Some(1usize)),
    {
        exactly(1)
    }
}

impl Delimiter {
    /// One choice.
    pub fn size_hint(depth: usize) -> (r: SizeHint)
        ensures
            r == (1usize, Some(1usize)),
    {
        exactly(1)
    }
}

impl Ident {
    /// A length byte and the text it announces, then a span.
    pub fn size_hint(depth: usize) -> (r: SizeHint)
        ensures
            r == (2usize, None::<usize>),
    {
        and(at_least(1), Span::size_hint(depth))
    }
}

impl Punct {
    /// Four bytes of character, then a spacing.
    pub fn size_hint(depth: usize) -> (r: SizeHint)
        ensures
            r == (5usize, Some(5usize)),
    {
        and(exactly(4), Spacing::size_hint(depth))
    }
}

impl Literal {
    /// One choice, then the payload of any variant.
    pub fn size_hint(depth: usize) -> (r: SizeHint)
        ensures
            r == (2usize, None::<usize>),
    {
        let payloads = [
            exactly(1),
            exactly(2),
            exactly(4),
            exactly(8),
            exactly(16),
            exactly(8),
            exactly(1),
            exactly(2),
            exactly(4),
            exactly(8),
            exactly(16),
            exactly(8),
            exactly(4),
            exactly(8),
            exactly(4),
            at_least(1),
            at_least(1),
        ];
        let p = or_all(&payloads);
        proof {
            reveal_with_fuel(or_all_spec, 18);
            assert(payloads@ == seq![
                (1usize, Some(1usize)), (2, Some(2)), (4, Some(4)), (8, Some(8)), (16, Some(16)),
                (8, Some(8)), (1, Some(1)), (2, Some(2)), (4, Some(4)), (8, Some(8)),
                (16, Some(16)), (8, Some(8)), (4, Some(4)), (8, Some(8)), (4, Some(4)),
                (1, None), (1, None)]);
        }
        and(exactly(1), p)
    }
}

impl TokenStream {
    /// At least the boolean that ends the sequence; no upper bound.
    pub fn size_hint(depth: usize) -> (r: SizeHint)
        ensures
            r == stream_hint(depth),
    {
        match recursion_guard(depth) {
            Some(_) => at_least(1),
            None => (0, None),
        }
    }
}

impl Group {
    /// A delimiter, then a stream one level deeper.
    pub fn size_hint(depth: usize) -> (r: SizeHint)
        ensures
            r == group_hint(depth),
    {
        match recursion_guard(depth) {
            Some(d) => and(Delimiter::size_hint(d), TokenStream::size_hint(d)),
            None => (0, None),
        }
    }
}

impl TokenTree {
    /// A choice, then any kind of token one level deeper.
    pub fn size_hint(depth: usize) -> (r: SizeHint)
        ensures
            r == tree_hint(depth),
    {
        match recursion_guard(depth) {
            Some(d) => {
                let kinds = [
                    Group::size_hint(d),
                    Ident::size_hint(d),
                    Punct::size_hint(d),
                    Literal::size_hint(d),
                ];
                let k = or_all(&kinds);
                proof {
                    assert(kinds@ == seq![group_hint(d), (2usize, None), (5, Some(5)), (2, None)]);
                }
                and(exactly(1), k)
            },
            None => (0, None),
        }
    }
}
} // verus!
