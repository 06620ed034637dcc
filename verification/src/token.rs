//! The token tree that the rewriter reads and writes.
//!
//! A [`Token`] is executable data; its view, a [`TokenView`], is the same tree
//! over mathematical sequences, and is what every contract speaks of.

use vstd::prelude::*;

verus! {

/// The bracket kind that encloses a group.
#[derive(Clone, Copy, Debug, PartialEq, Eq, Structural)]
pub enum Delimiter {
    /// `( ... )`
    Parenthesis,
    /// `{ ... }`
    Brace,
    /// `[ ... ]`
    Bracket,
    /// No visible bracket: the group only holds its tokens together.
    Invisible,
}

/// Whether a punctuation mark is directly followed by another one.
#[derive(Clone, Copy, Debug, PartialEq, Eq, Structural)]
pub enum Spacing {
    /// The mark stands by itself.
    Alone,
    /// The mark is the first part of a longer operator such as `..` or `+=`.
    Joint,
}

/// Where a token comes from.
#[derive(Clone, Copy, Debug, PartialEq, Eq, Structural)]
pub enum Span {
    /// The place where the rewriter was invoked. Every token that the
    /// rewriter makes itself carries this span.
    CallSite,
    /// A place in the source text, under the number that the tree's builder
    /// gave it.
    Source(u64),
}

/// Why a literal could not be expanded.
#[derive(Clone, Copy, Debug, PartialEq, Eq, Structural)]
pub enum ExpandError {
    /// The byte string after the sigil holds no byte.
    EmptyByteString,
    /// The string after the sigil holds no character.
    EmptyString,
}

impl ExpandError {
    /// The text shown to the user for this error.
    pub open spec fn message_spec(self) -> Seq<char> {
        match self {
            ExpandError::EmptyByteString => "can't expand an empty byte string"@,
            ExpandError::EmptyString => "can't expand an empty string"@,
        }
    }

    /// The text shown to the user for this error.
    pub fn message(self) -> (text: &'static str)
        ensures
            text@ == self.message_spec(),
    {
        match self {
            ExpandError::EmptyByteString => "can't expand an empty byte string",
            ExpandError::EmptyString => "can't expand an empty string",
        }
    }
}

/// One node of a token tree.
#[derive(Debug, PartialEq, Eq)]
pub enum Token {
    /// A bracketed sub-tree.
    Group { delimiter: Delimiter, inner: Vec<Token> },
    /// A literal, kept as the text it was written with, such as `b"ab"`,
    /// `"ab"`, `7u8` or `'x'`.
    Literal { text: String, span: Span },
    /// An identifier or keyword.
    Ident { name: String, span: Span },
    /// A single punctuation character.
    Punct { ch: char, spacing: Spacing, span: Span },
    /// A marker that stands for "stop compiling and report `error` at `span`".
    Fatal { error: ExpandError, span: Span },
}

/// The mathematical value of a [`Token`].
pub enum TokenView {
    Group { delimiter: Delimiter, inner: Seq<TokenView> },
    Literal { text: Seq<char>, span: Span },
    Ident { name: Seq<char>, span: Span },
    Punct { ch: char, spacing: Spacing, span: Span },
    Fatal { error: ExpandError, span: Span },
}

/// The views of a sequence of tokens, in order.
pub open spec fn tokens_view(tokens: Seq<Token>) -> Seq<TokenView>
    decreases tokens, 0int,
{
    Seq::new(
        tokens.len(),
        |i: int|
            if 0 <= i < tokens.len() {
                token_view(tokens[i])
            } else {
                arbitrary()
            },
    )
}

/// The view of one token.
pub open spec fn token_view(token: Token) -> TokenView
    decreases token, 1int,
{
    match token {
        Token::Group { delimiter, inner } => TokenView::Group {
            delimiter,
            inner: tokens_view(inner@),
        },
        Token::Literal { text, span } => TokenView::Literal { text: text@, span },
        Token::Ident { name, span } => TokenView::Ident { name: name@, span },
        Token::Punct { ch, spacing, span } => TokenView::Punct { ch, spacing, span },
        Token::Fatal { error, span } => TokenView::Fatal { error, span },
    }
}

impl View for Token {
    type V = TokenView;

    open spec fn view(&self) -> TokenView {
        token_view(*self)
    }
}

impl DeepView for Token {
    type V = TokenView;

    open spec fn deep_view(&self) -> TokenView {
        token_view(*self)
    }
}

/// The deep view of a vector of tokens is the sequence of their views.
pub proof fn lemma_deep_view(tokens: Vec<Token>)
    ensures
        tokens.deep_view() == tokens_view(tokens@),
        tokens.deep_view().len() == tokens@.len(),
        forall|i: int| 0 <= i < tokens@.len() ==> #[trigger] tokens.deep_view()[i] == tokens@[i]@,
{
    assert(tokens.deep_view() =~= tokens_view(tokens@));
}

impl TokenView {
    /// The span of this token; for a group, which has none, the call site.
    pub open spec fn span(self) -> Span {
        match self {
            TokenView::Group { .. } => Span::CallSite,
            TokenView::Literal { span, .. } => span,
            TokenView::Ident { span, .. } => span,
            TokenView::Punct { span, .. } => span,
            TokenView::Fatal { span, .. } => span,
        }
    }
}

impl Token {
    /// The span of this token; for a group, which has none, the call site.
    pub fn span(&self) -> (span: Span)
        ensures
            span == self@.span(),
    {
        match self {
            Token::Group { .. } => Span::CallSite,
            Token::Literal { span, .. } => *span,
            Token::Ident { span, .. } => *span,
            Token::Punct { span, .. } => *span,
            Token::Fatal { span, .. } => *span,
        }
    }
}

impl Clone for Token {
    /// A copy of the whole tree under this token.
    fn clone(&self) -> (copy: Token)
        ensures
            copy@ == self@,
        decreases self,
    {
        match self {
            Token::Group { delimiter, inner } => {
                let mut copies: Vec<Token> = Vec::new();
                for i in 0..inner.len()
                    invariant
                        decreases_to!(*self => *inner),
                        copies@.len() == i,
                        forall|k: int| 0 <= k < i ==> #[trigger] copies@[k]@ == inner@[k]@,
                {
                    copies.push(inner[i].clone());
                }
                proof {
                    assert forall|k: int| 0 <= k < copies@.len() implies tokens_view(copies@)[k]
                        == tokens_view(inner@)[k] by {
                        assert(copies@[k]@ == inner@[k]@);
                    }
                    assert(tokens_view(copies@) =~= tokens_view(inner@));
                }
                Token::Group { delimiter: *delimiter, inner: copies }
            },
            Token::Literal { text, span } => Token::Literal { text: text.clone(), span: *span },
            Token::Ident { name, span } => Token::Ident { name: name.clone(), span: *span },
            Token::Punct { ch, spacing, span } => Token::Punct {
                ch: *ch,
                spacing: *spacing,
                span: *span,
            },
            Token::Fatal { error, span } => Token::Fatal { error: *error, span: *span },
        }
    }
}

} // verus!
