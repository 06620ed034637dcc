//! The rewriter: every `@` that is directly followed by a byte-string or
//! string literal is replaced, together with that literal, by the literal's
//! elements, separated by commas.

use crate::literal::{
    byte_string_value, character_text, read_byte_string, read_string, string_value,
    u8_suffixed_text, write_character, write_u8_suffixed,
};
use crate::token::{
    lemma_deep_view, tokens_view, ExpandError, Spacing, Span, Token, TokenView,
};
use vstd::prelude::*;
use vstd::std_specs::iter::IteratorSpec;

verus! {

/// The character that marks a literal for expansion.
pub const SIGIL: char = '@';

/// The elements of a literal that can be expanded.
#[derive(Debug, PartialEq, Eq)]
pub enum Elements {
    /// The bytes of a byte-string literal.
    Bytes(Vec<u8>),
    /// The characters of a string literal.
    Chars(String),
}

/// The mathematical value of [`Elements`].
pub enum ElementsView {
    Bytes(Seq<u8>),
    Chars(Seq<char>),
}

impl View for Elements {
    type V = ElementsView;

    open spec fn view(&self) -> ElementsView {
        match self {
            Elements::Bytes(bytes) => ElementsView::Bytes(bytes@),
            Elements::Chars(chars) => ElementsView::Chars(chars@),
        }
    }
}

impl DeepView for Elements {
    type V = ElementsView;

    open spec fn deep_view(&self) -> ElementsView {
        self.view()
    }
}

impl ElementsView {
    /// The number of elements.
    pub open spec fn len(self) -> nat {
        match self {
            ElementsView::Bytes(bytes) => bytes.len(),
            ElementsView::Chars(chars) => chars.len(),
        }
    }

    /// The literal token that stands for the element at `i`.
    pub open spec fn literal(self, i: int) -> TokenView
        recommends
            0 <= i < self.len(),
    {
        match self {
            ElementsView::Bytes(bytes) => byte_literal(bytes[i]),
            ElementsView::Chars(chars) => character_literal(chars[i]),
        }
    }

    /// The error reported when there is no element.
    pub open spec fn error(self) -> ExpandError {
        match self {
            ElementsView::Bytes(_) => ExpandError::EmptyByteString,
            ElementsView::Chars(_) => ExpandError::EmptyString,
        }
    }
}

/// Whether `token` is the sigil: the punctuation mark `@`, whatever its
/// spacing and span.
pub open spec fn is_sigil(token: TokenView) -> bool {
    token matches TokenView::Punct { ch, .. } && ch == SIGIL
}

/// The comma that separates two elements.
pub open spec fn comma() -> TokenView {
    TokenView::Punct { ch: ',', spacing: Spacing::Alone, span: Span::CallSite }
}

/// The literal token made for the byte `value`: an integer literal with the
/// suffix `u8`.
pub open spec fn byte_literal(value: u8) -> TokenView {
    TokenView::Literal { text: u8_suffixed_text(value), span: Span::CallSite }
}

/// The literal token made for the character `ch`.
pub open spec fn character_literal(ch: char) -> TokenView {
    TokenView::Literal { text: character_text(ch), span: Span::CallSite }
}

/// The elements of `token` where it is a literal that can be expanded. The
/// byte-string reading is tried first, the string reading second.
pub open spec fn elements_of(token: TokenView) -> Option<ElementsView> {
    match token {
        TokenView::Literal { text, .. } => match byte_string_value(text) {
            Some(bytes) => Some(ElementsView::Bytes(bytes)),
            None => match string_value(text) {
                Some(chars) => Some(ElementsView::Chars(chars)),
                None => None,
            },
        },
        _ => None,
    }
}

/// What stands in the output for a literal with the given elements, written
/// at `span`: for `n >= 1` elements their `n` literals with `n - 1` commas
/// between them, and for no element the marker of the error at `span`.
pub open spec fn expansion(elements: ElementsView, span: Span) -> Seq<TokenView> {
    if elements.len() == 0 {
        seq![TokenView::Fatal { error: elements.error(), span }]
    } else {
        Seq::new(
            (2 * elements.len() - 1) as nat,
            |k: int|
                if k % 2 == 0 {
                    elements.literal(k / 2)
                } else {
                    comma()
                },
        )
    }
}

/// The rewritten form of `input`.
///
/// Reading from the left:
/// - a group is replaced by the group, of the same delimiter, of its
///   rewritten content;
/// - a sigil followed by a literal that can be expanded is replaced, with
///   that literal, by the literal's [`expansion`]; where the literal is
///   empty, that is the error marker, and the output of this level ends with
///   it (a level above goes on after the group);
/// - a sigil followed by any other token is copied with that token, and
///   neither is looked at again: a group there is not rewritten, a second
///   sigil there marks nothing;
/// - every other token, a sigil at the very end too, is copied.
pub open spec fn expand_spec(input: Seq<TokenView>) -> Seq<TokenView>
    decreases input,
{
    if input.len() == 0 {
        Seq::empty()
    } else {
        match input[0] {
            TokenView::Group { delimiter, inner } => seq![
                TokenView::Group { delimiter, inner: expand_spec(inner) },
            ] + expand_spec(input.skip(1)),
            first => if !is_sigil(first) {
                seq![first] + expand_spec(input.skip(1))
            } else if input.len() == 1 {
                seq![first]
            } else {
                match elements_of(input[1]) {
                    None => seq![first, input[1]] + expand_spec(input.skip(2)),
                    Some(elements) => if elements.len() == 0 {
                        expansion(elements, input[1].span())
                    } else {
                        expansion(elements, input[1].span()) + expand_spec(input.skip(2))
                    },
                }
            },
        }
    }
}

/// Reads the elements of `token` where it is a literal that can be expanded:
/// the bytes of a byte-string literal, else the characters of a string
/// literal, else nothing.
pub fn read_elements(token: &Token) -> (elements: Option<Elements>)
    ensures
        elements.deep_view() == elements_of(token@),
{
    match token {
        Token::Literal { text, .. } => match read_byte_string(text.as_str()) {
            Some(bytes) => Some(Elements::Bytes(bytes)),
            None => match read_string(text.as_str()) {
                Some(chars) => Some(Elements::Chars(chars)),
                None => None,
            },
        },
        _ => None,
    }
}

/// The comma that separates two elements.
fn make_comma() -> (token: Token)
    ensures
        token@ == comma(),
{
    Token::Punct { ch: ',', spacing: Spacing::Alone, span: Span::CallSite }
}

/// Writes what stands in the output for a literal with the given elements,
/// written at `span`.
pub fn expand_elements(elements: &Elements, span: Span) -> (output: Vec<Token>)
    ensures
        output.deep_view() == expansion(elements@, span),
{
    let mut output: Vec<Token> = Vec::new();
    match elements {
        Elements::Bytes(bytes) => {
            let n = bytes.len();
            for i in 0..n
                invariant
                    n == bytes@.len(),
                    output@.len() == (if i == 0 { 0 } else { 2 * i - 1 }),
                    forall|k: int|
                        0 <= k < output@.len() ==> #[trigger] output@[k]@ == (if k % 2 == 0 {
                            byte_literal(bytes@[k / 2])
                        } else {
                            comma()
                        }),
            {
                if i > 0 {
                    output.push(make_comma());
                }
                output.push(Token::Literal { text: write_u8_suffixed(bytes[i]), span: Span::CallSite });
            }
        },
        Elements::Chars(chars) => {
            for ch in rest: chars.as_str().chars()
                invariant
                    rest.seq() == chars@,
                    output@.len() == (if rest.index() == 0 {
                        0
                    } else {
                        2 * rest.index() - 1
                    }),
                    forall|k: int|
                        0 <= k < output@.len() ==> #[trigger] output@[k]@ == (if k % 2 == 0 {
                            character_literal(chars@[k / 2])
                        } else {
                            comma()
                        }),
            {
                if output.len() > 0 {
                    output.push(make_comma());
                }
                output.push(Token::Literal { text: write_character(ch), span: Span::CallSite });
            }
        },
    }
    if output.len() == 0 {
        let error = match elements {
            Elements::Bytes(_) => ExpandError::EmptyByteString,
            Elements::Chars(_) => ExpandError::EmptyString,
        };
        output.push(Token::Fatal { error, span });
    }
    proof {
        lemma_deep_view(output);
        assert(output.deep_view() =~= expansion(elements@, span));
    }
    output
}

/// The views of tokens pushed one after another are pushed one after another.
proof fn lemma_view_push(tokens: Seq<Token>, token: Token)
    ensures
        tokens_view(tokens.push(token)) == tokens_view(tokens).push(token@),
{
    assert(tokens_view(tokens.push(token)) =~= tokens_view(tokens).push(token@));
}

/// The views of two runs of tokens, joined, are the joined views.
proof fn lemma_view_add(left: Seq<Token>, right: Seq<Token>)
    ensures
        tokens_view(left + right) == tokens_view(left) + tokens_view(right),
{
    assert(tokens_view(left + right) =~= tokens_view(left) + tokens_view(right));
}

impl Elements {
    /// Whether there is no element.
    pub fn is_empty(&self) -> (empty: bool)
        ensures
            empty == (self@.len() == 0),
    {
        match self {
            Elements::Bytes(bytes) => bytes.len() == 0,
            Elements::Chars(chars) => chars.as_str().is_empty(),
        }
    }
}

impl Token {
    /// Whether this token is the sigil.
    pub fn is_sigil(&self) -> (sigil: bool)
        ensures
            sigil == is_sigil(self@),
    {
        match self {
            Token::Punct { ch, .. } => *ch == SIGIL,
            _ => false,
        }
    }
}

/// Rewrites `input`: expands every literal that a sigil marks, at every
/// depth, and copies everything else. The result is [`expand_spec`] of the
/// input, exactly.
pub fn expand(input: Vec<Token>) -> (output: Vec<Token>)
    ensures
        output.deep_view() == expand_spec(input.deep_view()),
    decreases input,
{
    let ghost all = input@;
    let ghost source = tokens_view(all);
    proof {
        lemma_deep_view(input);
    }
    let mut output: Vec<Token> = Vec::new();
    // The sigil just read, while the token after it is still to come.
    let mut pending: Option<Token> = None;
    // Whether an empty literal has ended the output.
    let mut halted = false;
    proof {
        assert(source.skip(0) =~= source);
        assert(tokens_view(output@) + expand_spec(source) =~= expand_spec(source));
    }
    for token in rest: input
        invariant
            rest.seq() == all,
            source == tokens_view(all),
            all == input@,
            halted ==> pending is None && tokens_view(output@) == expand_spec(source),
            !halted && pending is None ==> tokens_view(output@) + expand_spec(
                source.skip(rest.index() as int),
            ) == expand_spec(source),
            pending matches Some(sigil) ==> {
                &&& rest.index() >= 1
                &&& sigil@ == source[rest.index() - 1]
                &&& is_sigil(sigil@)
                &&& tokens_view(output@) + expand_spec(source.skip(rest.index() - 1))
                    == expand_spec(source)
            },
    {
        let ghost k = rest.index() as int;
        assert(token == all[k]);
        assert(token@ == source[k]);
        assert(source.skip(k)[0] == source[k]);
        assert(source.skip(k).skip(1) =~= source.skip(k + 1));
        if halted {
        } else if pending.is_some() {
            let sigil = pending.unwrap();
            pending = None;
            assert(source.skip(k - 1)[0] == sigil@);
            assert(source.skip(k - 1)[1] == token@);
            assert(source.skip(k - 1).skip(2) =~= source.skip(k + 1));
            match read_elements(&token) {
                None => {
                    proof {
                        lemma_view_push(output@, sigil);
                        lemma_view_push(output@.push(sigil), token);
                        assert(tokens_view(output@).push(sigil@).push(token@) + expand_spec(
                            source.skip(k + 1),
                        ) =~= tokens_view(output@) + (seq![sigil@, token@] + expand_spec(
                            source.skip(k + 1),
                        )));
                    }
                    output.push(sigil);
                    output.push(token);
                },
                Some(elements) => {
                    let mut expanded = expand_elements(&elements, token.span());
                    proof {
                        lemma_deep_view(expanded);
                        lemma_view_add(output@, expanded@);
                        assert((tokens_view(output@) + tokens_view(expanded@)) + expand_spec(
                            source.skip(k + 1),
                        ) =~= tokens_view(output@) + (tokens_view(expanded@) + expand_spec(
                            source.skip(k + 1),
                        )));
                    }
                    halted = elements.is_empty();
                    output.append(&mut expanded);
                },
            }
        } else if token.is_sigil() {
            pending = Some(token);
        } else {
            match token {
                Token::Group { delimiter, inner } => {
                    let ghost old_inner = inner;
                    let inner = expand(inner);
                    let group = Token::Group { delimiter, inner };
                    proof {
                        lemma_deep_view(old_inner);
                        lemma_deep_view(inner);
                        lemma_view_push(output@, group);
                        assert(tokens_view(output@).push(group@) + expand_spec(source.skip(k + 1))
                            =~= tokens_view(output@) + (seq![group@] + expand_spec(
                            source.skip(k + 1),
                        )));
                    }
                    output.push(group);
                },
                other => {
                    proof {
                        lemma_view_push(output@, other);
                        assert(tokens_view(output@).push(other@) + expand_spec(source.skip(k + 1))
                            =~= tokens_view(output@) + (seq![other@] + expand_spec(
                            source.skip(k + 1),
                        )));
                    }
                    output.push(other);
                },
            }
        }
    }
    if let Some(sigil) = pending {
        proof {
            lemma_view_push(output@, sigil);
            assert(source.skip(all.len() - 1).len() == 1);
            assert(source.skip(all.len() - 1)[0] == sigil@);
            assert(tokens_view(output@).push(sigil@) =~= tokens_view(output@) + seq![sigil@]);
        }
        output.push(sigil);
    } else if !halted {
        assert(source.skip(all.len() as int).len() == 0);
        assert(tokens_view(output@) + Seq::<TokenView>::empty() =~= tokens_view(output@));
    }
    proof {
        lemma_deep_view(output);
    }
    output
}

} // verus!
