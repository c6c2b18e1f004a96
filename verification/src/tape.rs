//! The token tape the rules read and the engine writes: each token of a
//! name with the takings that rules recorded on it.
//!
//! A taking says which rule used a token (or a byte range of its text) and
//! as what. A held taking records a value but leaves the token free, so a
//! title may still claim the word.

use std::ops::Range;

use vstd::prelude::*;
use vstd::utf8::{decode_utf8, encode_utf8};

use crate::element::{ElementKind, Span};
use crate::rule::RuleName;
use crate::text::push_str;

verus! {

/// What a token is made of.
#[derive(Clone, Copy, Debug, PartialEq, Eq, Structural, Hash)]
pub enum Shape {
    Word,
    Delimiter,
    Bracket,
}

/// How a run of tokens spells its value: with every delimiter as written,
/// or with each delimiter token folded to one space.
#[derive(Clone, Copy, Debug, PartialEq, Eq, Structural, Hash)]
pub enum Delimiters {
    Kept,
    Folded,
}

/// One rule's use of a token: the kind it read, the byte range of the
/// token's text it used, and whether it left the token free.
#[derive(Debug, PartialEq, Eq)]
pub struct Taking {
    pub by: RuleName,
    pub kind: ElementKind,
    pub part: Range<usize>,
    pub held: bool,
}

/// One token of a name.
#[derive(Debug, PartialEq, Eq)]
pub struct Token {
    pub shape: Shape,
    pub text: String,
    /// The token's bytes in the name.
    pub span: Span,
    /// Inside brackets.
    pub enclosed: bool,
    /// The kind of the keyword the token spells, when the table knows it.
    pub keyword: Option<ElementKind>,
    /// Every taking, oldest first.
    pub taken: Vec<Taking>,
}

/// A token as the specifications see it.
#[verifier::ext_equal]
pub ghost struct TokenView {
    pub shape: Shape,
    pub text: Seq<char>,
    pub span: Span,
    pub enclosed: bool,
    pub keyword: Option<ElementKind>,
    pub taken: Seq<Taking>,
}

impl View for Token {
    type V = TokenView;

    open spec fn view(&self) -> TokenView {
        TokenView {
            shape: self.shape,
            text: self.text@,
            span: self.span,
            enclosed: self.enclosed,
            keyword: self.keyword,
            taken: self.taken@,
        }
    }
}

/// The UTF-8 length of a token's text.
pub open spec fn text_len(t: TokenView) -> nat {
    encode_utf8(t.text).len()
}

/// The byte range covering a token's whole text.
pub open spec fn whole(t: TokenView) -> Range<usize> {
    Range { start: 0usize, end: text_len(t) as usize }
}

/// The chars of the bytes `part` of a token's text.
pub open spec fn part_text(t: TokenView, part: Range<usize>) -> Seq<char> {
    decode_utf8(encode_utf8(t.text).subrange(part.start as int, part.end as int))
}

/// A token no rule has taken outright.
pub open spec fn free(t: TokenView) -> bool {
    forall|i: int| 0 <= i < t.taken.len() ==> (#[trigger] t.taken[i]).held
}

/// The token with one more taking.
pub open spec fn with_taking(t: TokenView, taking: Taking) -> TokenView {
    TokenView { taken: t.taken.push(taking), ..t }
}

/// The kind of the last taking by `name`.
pub open spec fn last_taken_by(taken: Seq<Taking>, name: RuleName) -> Option<ElementKind>
    decreases taken.len(),
{
    if taken.len() == 0 {
        None
    } else if taken.last().by == name {
        Some(taken.last().kind)
    } else {
        last_taken_by(taken.drop_last(), name)
    }
}

/// The text a token contributes to a run's value.
pub open spec fn spelled(t: TokenView, delimiters: Delimiters) -> Seq<char> {
    if delimiters == Delimiters::Folded && t.shape == Shape::Delimiter {
        seq![' ']
    } else {
        t.text
    }
}

/// The value of the tokens `start..end`.
pub open spec fn run_value(tokens: Seq<TokenView>, start: int, end: int, delimiters: Delimiters) -> Seq<char>
    decreases end - start,
{
    if end <= start {
        Seq::empty()
    } else {
        run_value(tokens, start, end - 1, delimiters) + spelled(tokens[end - 1], delimiters)
    }
}

impl Token {
    pub fn new(shape: Shape, text: String, span: Span, enclosed: bool, keyword: Option<ElementKind>) -> (token: Token)
        ensures
            token@ == (TokenView { shape, text: text@, span, enclosed, keyword, taken: Seq::empty() }),
    {
        Token { shape, text, span, enclosed, keyword, taken: Vec::new() }
    }

    /// No rule has taken this token outright.
    pub fn is_free(&self) -> (is_free: bool)
        ensures
            is_free == free(self@),
    {
        let mut i: usize = 0;
        while i < self.taken.len()
            invariant
                i <= self.taken@.len(),
                forall|j: int| 0 <= j < i ==> (#[trigger] self.taken@[j]).held,
            decreases self.taken@.len() - i,
        {
            if !self.taken[i].held {
                return false;
            }
            i = i + 1;
        }
        true
    }

    pub fn is_delimiter(&self) -> (is_delimiter: bool)
        ensures
            is_delimiter == (self.shape == Shape::Delimiter),
    {
        self.shape == Shape::Delimiter
    }

    pub fn is_bracket(&self) -> (is_bracket: bool)
        ensures
            is_bracket == (self.shape == Shape::Bracket),
    {
        self.shape == Shape::Bracket
    }

    /// Records that `by` used the bytes `part` of this token as `kind`.
    pub fn take(&mut self, by: RuleName, kind: ElementKind, part: Range<usize>, held: bool)
        ensures
            final(self)@ == with_taking(old(self)@, Taking { by, kind, part, held }),
    {
        self.taken.push(Taking { by, kind, part, held });
    }
}

/// The tokens of one name, in order.
#[derive(Debug, PartialEq, Eq)]
pub struct Tape {
    pub tokens: Vec<Token>,
}

/// The views of a tape's tokens.
pub open spec fn tokens_view(tokens: Seq<Token>) -> Seq<TokenView> {
    tokens.map_values(|t: Token| t@)
}

impl View for Tape {
    type V = Seq<TokenView>;

    open spec fn view(&self) -> Seq<TokenView> {
        tokens_view(self.tokens@)
    }
}

impl Tape {
    pub fn new(tokens: Vec<Token>) -> (tape: Tape)
        ensures
            tape.tokens@ == tokens@,
    {
        Tape { tokens }
    }

    pub fn len(&self) -> (len: usize)
        ensures
            len == self@.len(),
    {
        self.tokens.len()
    }

    /// Records a taking of the whole token at `at`.
    pub fn take(&mut self, at: usize, by: RuleName, kind: ElementKind, held: bool)
        requires
            at < old(self)@.len(),
        ensures
            final(self)@ == old(self)@.update(
                at as int,
                with_taking(old(self)@[at as int], Taking { by, kind, part: whole(old(self)@[at as int]), held }),
            ),
    {
        let len = self.tokens[at].text.as_str().len();
        proof {
            assert(self@[at as int] == self.tokens@[at as int]@);
        }
        let mut token = self.tokens.remove(at);
        token.take(by, kind, 0..len, held);
        self.tokens.insert(at, token);
        assert(self@ =~= old(self)@.update(
            at as int,
            with_taking(old(self)@[at as int], Taking { by, kind, part: whole(old(self)@[at as int]), held }),
        ));
    }


    /// Records a taking of the bytes `part` of the token at `at`.
    pub fn take_part(&mut self, at: usize, by: RuleName, kind: ElementKind, part: Range<usize>, held: bool)
        requires
            at < old(self)@.len(),
        ensures
            final(self)@ == old(self)@.update(at as int, with_taking(old(self)@[at as int], Taking { by, kind, part, held })),
    {
        proof {
            assert(self@[at as int] == self.tokens@[at as int]@);
        }
        let mut token = self.tokens.remove(at);
        token.take(by, kind, part, held);
        self.tokens.insert(at, token);
        assert(self@ =~= old(self)@.update(at as int, with_taking(old(self)@[at as int], Taking { by, kind, part, held })));
    }

    /// The kind of the last taking by `name` of the token at `at`.
    pub fn last_taken_by(&self, at: usize, name: RuleName) -> (kind: Option<ElementKind>)
        requires
            at < self@.len(),
        ensures
            kind == last_taken_by(self@[at as int].taken, name),
    {
        let taken = &self.tokens[at].taken;
        proof {
            assert(self@[at as int].taken == taken@);
        }
        let mut k: usize = taken.len();
        assert(taken@.take(k as int) =~= taken@);
        while k > 0
            invariant
                k <= taken@.len(),
                at < self@.len(),
                self@[at as int].taken == taken@,
                last_taken_by(taken@.take(k as int), name) == last_taken_by(taken@, name),
            decreases k,
        {
            assert(taken@.take(k as int).drop_last() =~= taken@.take(k - 1));
            if taken[k - 1].by == name {
                return Some(taken[k - 1].kind);
            }
            k = k - 1;
        }
        assert(taken@.take(0) =~= Seq::<Taking>::empty());
        None
    }

    /// The bytes of the name that the tokens `run` cover.
    pub fn span(&self, run: Range<usize>) -> (span: Span)
        requires
            run.start < run.end <= self@.len(),
        ensures
            span == (Span { start: self@[run.start as int].span.start, end: self@[run.end - 1].span.end }),
    {
        Span { start: self.tokens[run.start].span.start, end: self.tokens[run.end - 1].span.end }
    }

    /// The value the tokens `run` spell.
    pub fn value(&self, run: Range<usize>, delimiters: Delimiters) -> (value: String)
        requires
            run.start <= run.end <= self@.len(),
        ensures
            value@ == run_value(self@, run.start as int, run.end as int, delimiters),
    {
        let mut value = String::new();
        let mut i: usize = run.start;
        while i < run.end
            invariant
                run.start <= i <= run.end <= self@.len(),
                value@ == run_value(self@, run.start as int, i as int, delimiters),
            decreases run.end - i,
        {
            let token = &self.tokens[i];
            if delimiters == Delimiters::Folded && token.shape == Shape::Delimiter {
                push_str(&mut value, " ");
                proof {
                    reveal_strlit(" ");
                }
            } else {
                push_str(&mut value, token.text.as_str());
            }
            i = i + 1;
        }
        value
    }
}

} // verus!
