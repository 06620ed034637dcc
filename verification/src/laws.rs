//! What holds of the rewriter on every input.

use crate::literal::{byte_string_value, string_value, u8_suffixed_text};
use crate::rewriter::{
    byte_literal, character_literal, comma, elements_of, expand_spec, expansion, is_sigil,
    ElementsView,
};
use crate::token::{Delimiter, TokenView};
use vstd::prelude::*;

verus! {

/// Whether no token of `tokens` is the sigil, at any depth.
pub open spec fn sigil_free(tokens: Seq<TokenView>) -> bool
    decreases tokens,
{
    forall|i: int|
        0 <= i < tokens.len() ==> {
            &&& !is_sigil(#[trigger] tokens[i])
            &&& tokens[i] matches TokenView::Group { inner, .. } ==> sigil_free(inner)
        }
}

/// Whether the rewriter stops inside `input`, at its own level, on an empty
/// literal.
pub open spec fn halts(input: Seq<TokenView>) -> bool
    decreases input.len(),
{
    if input.len() == 0 {
        false
    } else if !is_sigil(input[0]) {
        halts(input.skip(1))
    } else if input.len() == 1 {
        false
    } else {
        match elements_of(input[1]) {
            None => halts(input.skip(2)),
            Some(elements) => elements.len() == 0 || halts(input.skip(2)),
        }
    }
}

/// Input without a sigil comes back unchanged, nesting included.
pub proof fn lemma_sigil_free_unchanged(input: Seq<TokenView>)
    requires
        sigil_free(input),
    ensures
        expand_spec(input) == input,
    decreases input,
{
    if input.len() == 0 {
        assert(expand_spec(input) =~= input);
    } else {
        let rest = input.skip(1);
        assert forall|i: int| 0 <= i < rest.len() implies {
            &&& !is_sigil(#[trigger] rest[i])
            &&& rest[i] matches TokenView::Group { inner, .. } ==> sigil_free(inner)
        } by {
            assert(rest[i] == input[i + 1]);
        }
        lemma_sigil_free_unchanged(rest);
        match input[0] {
            TokenView::Group { delimiter, inner } => {
                lemma_sigil_free_unchanged(inner);
            },
            _ => {},
        }
        assert(expand_spec(input) =~= input);
    }
}

/// A group keeps its delimiter and its place; its content is rewritten by
/// itself, and so is what follows it.
pub proof fn lemma_group_preserved(delimiter: Delimiter, inner: Seq<TokenView>, rest: Seq<TokenView>)
    ensures
        expand_spec(seq![TokenView::Group { delimiter, inner }] + rest) == seq![
            TokenView::Group { delimiter, inner: expand_spec(inner) },
        ] + expand_spec(rest),
{
    let input = seq![TokenView::Group { delimiter, inner }] + rest;
    assert(input.skip(1) =~= rest);
}

/// Any token but a group or a sigil is copied, and what follows it is
/// rewritten by itself.
pub proof fn lemma_plain_token_copied(token: TokenView, rest: Seq<TokenView>)
    requires
        !(token is Group),
        !is_sigil(token),
    ensures
        expand_spec(seq![token] + rest) == seq![token] + expand_spec(rest),
{
    let input = seq![token] + rest;
    assert(input.skip(1) =~= rest);
}

/// A sigil followed by a token that cannot be expanded is copied together
/// with that token; what follows the two is rewritten by itself.
pub proof fn lemma_sigil_passes_through(sigil: TokenView, next: TokenView, rest: Seq<TokenView>)
    requires
        is_sigil(sigil),
        elements_of(next) is None,
    ensures
        expand_spec(seq![sigil, next] + rest) == seq![sigil, next] + expand_spec(rest),
{
    let input = seq![sigil, next] + rest;
    assert(input.skip(2) =~= rest);
}

/// A sigil with nothing after it is copied.
pub proof fn lemma_lone_sigil_copied(sigil: TokenView)
    requires
        is_sigil(sigil),
    ensures
        expand_spec(seq![sigil]) == seq![sigil],
{
}

/// Where the input ends in a sigil and the rewriter does not stop on an
/// empty literal, the output ends in that sigil.
pub proof fn lemma_trailing_sigil_kept(input: Seq<TokenView>)
    requires
        input.len() > 0,
        is_sigil(input.last()),
        !halts(input),
    ensures
        expand_spec(input).len() > 0,
        expand_spec(input).last() == input.last(),
    decreases input.len(),
{
    if input.len() == 1 {
    } else if !is_sigil(input[0]) {
        let rest = input.skip(1);
        assert(rest.last() == input.last());
        lemma_trailing_sigil_kept(rest);
    } else {
        let rest = input.skip(2);
        if input.len() == 2 {
            assert(elements_of(input[1]) is None);
            assert(expand_spec(rest) =~= Seq::<TokenView>::empty());
        } else {
            assert(rest.last() == input.last());
            lemma_trailing_sigil_kept(rest);
        }
    }
}

/// A sigil followed by an empty literal ends the output with the marker of
/// that literal's error, at the literal's span: nothing that follows is
/// written.
pub proof fn lemma_empty_literal_is_fatal(
    sigil: TokenView,
    literal: TokenView,
    rest: Seq<TokenView>,
)
    requires
        is_sigil(sigil),
        elements_of(literal) matches Some(elements) && elements.len() == 0,
    ensures
        expand_spec(seq![sigil, literal] + rest) == seq![
            TokenView::Fatal {
                error: elements_of(literal).unwrap().error(),
                span: literal.span(),
            },
        ],
{
}

/// A sigil followed by a literal of `n >= 1` elements is replaced, with that
/// literal, by `2 * n - 1` tokens: the literal of each element, in order, at
/// the even places, and a comma at each odd place. What follows is rewritten
/// by itself.
pub proof fn lemma_elements_expanded(sigil: TokenView, literal: TokenView, rest: Seq<TokenView>)
    requires
        is_sigil(sigil),
        elements_of(literal) matches Some(elements) && elements.len() >= 1,
    ensures
        ({
            let elements = elements_of(literal).unwrap();
            let written = expansion(elements, literal.span());
            &&& expand_spec(seq![sigil, literal] + rest) == written + expand_spec(rest)
            &&& written.len() == 2 * elements.len() - 1
            &&& forall|i: int|
                0 <= i < elements.len() ==> #[trigger] written[2 * i] == elements.literal(i)
            &&& forall|i: int| 0 <= i < elements.len() - 1 ==> #[trigger] written[2 * i + 1] == comma()
        }),
{
    let input = seq![sigil, literal] + rest;
    assert(input.skip(2) =~= rest);
}

/// The law of [`lemma_elements_expanded`] for a byte string: each of the
/// `n` literals is the `u8` literal of the byte at its place.
pub proof fn lemma_byte_string_expanded(
    sigil: TokenView,
    literal: TokenView,
    bytes: Seq<u8>,
    rest: Seq<TokenView>,
)
    requires
        is_sigil(sigil),
        literal matches TokenView::Literal { text, .. } && byte_string_value(text) == Some(bytes),
        bytes.len() >= 1,
    ensures
        ({
            let written = expansion(ElementsView::Bytes(bytes), literal.span());
            &&& expand_spec(seq![sigil, literal] + rest) == written + expand_spec(rest)
            &&& written.len() == 2 * bytes.len() - 1
            &&& forall|i: int|
                0 <= i < bytes.len() ==> #[trigger] written[2 * i] == byte_literal(bytes[i])
            &&& forall|i: int| 0 <= i < bytes.len() - 1 ==> #[trigger] written[2 * i + 1] == comma()
        }),
{
    lemma_elements_expanded(sigil, literal, rest);
}

/// The law of [`lemma_elements_expanded`] for a string: each of the `n`
/// literals is the character literal of the character at its place.
pub proof fn lemma_string_expanded(
    sigil: TokenView,
    literal: TokenView,
    chars: Seq<char>,
    rest: Seq<TokenView>,
)
    requires
        is_sigil(sigil),
        literal matches TokenView::Literal { text, .. } && byte_string_value(text) is None
            && string_value(text) == Some(chars),
        chars.len() >= 1,
    ensures
        ({
            let written = expansion(ElementsView::Chars(chars), literal.span());
            &&& expand_spec(seq![sigil, literal] + rest) == written + expand_spec(rest)
            &&& written.len() == 2 * chars.len() - 1
            &&& forall|i: int|
                0 <= i < chars.len() ==> #[trigger] written[2 * i] == character_literal(chars[i])
            &&& forall|i: int| 0 <= i < chars.len() - 1 ==> #[trigger] written[2 * i + 1] == comma()
        }),
{
    lemma_elements_expanded(sigil, literal, rest);
}

/// The literal written for a byte tells which byte it is: two bytes with the
/// same literal are the same byte.
pub proof fn lemma_byte_literal_tells_byte(a: u8, b: u8)
    requires
        byte_literal(a) == byte_literal(b),
    ensures
        a == b,
{
    let x = u8_suffixed_text(a);
    let y = u8_suffixed_text(b);
    assert(x == y);
    assert(x.len() == y.len());
    assert(x[0] == y[0]);
    assert(x[1] == y[1]);
    assert(x[2] == y[2]);
}

} // verus!
