//! The rule engine: a rule's verdict, and the step that applies it.
//!
//! A rule is pure: it reads the tape and what earlier rules read, and
//! answers with a [`Verdict`]. The engine is the tape's only writer, so a
//! rule test compares verdicts, no rule can see a later rule's work, and
//! no rule can half-apply a decision it then abandons.

use std::ops::Range;

use vstd::prelude::*;
use vstd::string::StringSliceAdditionalSpecFns;
use vstd::utf8::{encode_utf8, is_char_boundary};

use crate::element::{
    ElementKind, Elements, Fact, FactView, Span, facts_view, has_kind, is_first, is_first_with,
};
use crate::reading::{Alternative, AlternativeView, Certainty, Reading, Sense, alternatives_view};
use crate::rule::RuleName;
use crate::tape::{
    Delimiters, Tape, Taking, TokenView, free, last_taken_by, part_text, run_value, text_len,
    whole, with_taking,
};
use crate::text::{chars_of, leading_number, spec_leading_number};

verus! {

/// One thing a verdict does.
#[derive(Debug)]
pub enum Op {
    /// A fact and a taking. `part` narrows the taking to a byte range of
    /// the token's text and `value` overrides the text as the fact's value.
    Take { kind: ElementKind, at: usize, part: Option<Range<usize>>, value: Option<String>, held: bool },
    /// A fact spelled by a run of tokens, every free one of which is taken.
    TakeRun { kind: ElementKind, run: Range<usize>, delimiters: Delimiters },
    /// A taking without a fact: the `Ep.` before a number, the dash that
    /// set one off, the letters of `S01E06` around its digits.
    Spend { kind: ElementKind, at: usize, part: Option<Range<usize>> },
    Retract { kind: ElementKind, value: String },
    /// A doubt: the token at `at` was read as the rule's kind but could be
    /// `passed` instead.
    Instead { at: usize, passed: Sense },
}

/// An operation as the specifications see it.
pub ghost enum OpView {
    Take { kind: ElementKind, at: usize, part: Option<Range<usize>>, value: Option<Seq<char>>, held: bool },
    TakeRun { kind: ElementKind, run: Range<usize>, delimiters: Delimiters },
    Spend { kind: ElementKind, at: usize, part: Option<Range<usize>> },
    Retract { kind: ElementKind, value: Seq<char> },
    Instead { at: usize, passed: Sense },
}

impl View for Op {
    type V = OpView;

    open spec fn view(&self) -> OpView {
        match self {
            Op::Take { kind, at, part, value, held } => OpView::Take {
                kind: *kind,
                at: *at,
                part: *part,
                value: match value {
                    Some(v) => Some(v@),
                    None => None,
                },
                held: *held,
            },
            Op::TakeRun { kind, run, delimiters } => OpView::TakeRun { kind: *kind, run: *run, delimiters: *delimiters },
            Op::Spend { kind, at, part } => OpView::Spend { kind: *kind, at: *at, part: *part },
            Op::Retract { kind, value } => OpView::Retract { kind: *kind, value: value@ },
            Op::Instead { at, passed } => OpView::Instead { at: *at, passed: *passed },
        }
    }
}

/// A rule's answer: what it read, what it used up, what it doubted.
/// Applied whole or not at all.
#[derive(Debug)]
pub struct Verdict {
    ops: Vec<Op>,
    provisional: bool,
}

/// The views of some operations.
pub open spec fn ops_view(ops: Seq<Op>) -> Seq<OpView> {
    ops.map_values(|op: Op| op@)
}

impl Verdict {
    /// The operations, in the order the rule gave them.
    pub closed spec fn spec_ops(&self) -> Seq<OpView> {
        ops_view(self.ops@)
    }

    /// The episode read here is one of possibly two numbering schemes.
    pub closed spec fn spec_provisional(&self) -> bool {
        self.provisional
    }

    /// Nothing to say. The common answer.
    pub fn nothing() -> (verdict: Verdict)
        ensures
            verdict.spec_ops() == Seq::<OpView>::empty(),
            !verdict.spec_provisional(),
    {
        let verdict = Verdict { ops: Vec::new(), provisional: false };
        assert(verdict.spec_ops() =~= Seq::<OpView>::empty());
        verdict
    }

    pub fn is_nothing(&self) -> (nothing: bool)
        ensures
            nothing == (self.spec_ops().len() == 0 && !self.spec_provisional()),
    {
        self.ops.len() == 0 && !self.provisional
    }

    fn with(self, op: Op) -> (verdict: Verdict)
        ensures
            verdict.spec_ops() == self.spec_ops().push(op@),
            verdict.spec_provisional() == self.spec_provisional(),
    {
        let mut verdict = self;
        verdict.ops.push(op);
        assert(verdict.spec_ops() =~= self.spec_ops().push(op@));
        verdict
    }

    /// Reads `kind` off one token, value and span the token's own, and
    /// takes the token so no later rule may use it.
    pub fn take(self, kind: ElementKind, at: usize) -> (verdict: Verdict)
        ensures
            verdict.spec_ops() == self.spec_ops().push(OpView::Take { kind, at, part: None, value: None, held: false }),
            verdict.spec_provisional() == self.spec_provisional(),
    {
        self.with(Op::Take { kind, at, part: None, value: None, held: false })
    }

    /// Reads `kind` off part of one token's text with a value of the rule's
    /// choosing: `05v2` is the episode `05` and the version `2`.
    pub fn take_part(self, kind: ElementKind, at: usize, part: Range<usize>, value: &str) -> (verdict: Verdict)
        ensures
            verdict.spec_ops() == self.spec_ops().push(
                OpView::Take { kind, at, part: Some(part), value: Some(value@), held: false },
            ),
            verdict.spec_provisional() == self.spec_provisional(),
    {
        self.with(Op::Take { kind, at, part: Some(part), value: Some(value.to_owned()), held: false })
    }

    /// Reads `kind` off a run of tokens.
    pub fn take_run(self, kind: ElementKind, run: Range<usize>, delimiters: Delimiters) -> (verdict: Verdict)
        ensures
            verdict.spec_ops() == self.spec_ops().push(OpView::TakeRun { kind, run, delimiters }),
            verdict.spec_provisional() == self.spec_provisional(),
    {
        self.with(Op::TakeRun { kind, run, delimiters })
    }

    /// Reads a value and leaves the token free: an unidentifiable term
    /// stays available to a title.
    pub fn hold(self, kind: ElementKind, at: usize) -> (verdict: Verdict)
        ensures
            verdict.spec_ops() == self.spec_ops().push(OpView::Take { kind, at, part: None, value: None, held: true }),
            verdict.spec_provisional() == self.spec_provisional(),
    {
        self.with(Op::Take { kind, at, part: None, value: None, held: true })
    }

    /// Reads a value of the rule's choosing off a token and leaves the
    /// token free.
    pub fn hold_part(self, kind: ElementKind, at: usize, part: Range<usize>, value: &str) -> (verdict: Verdict)
        ensures
            verdict.spec_ops() == self.spec_ops().push(
                OpView::Take { kind, at, part: Some(part), value: Some(value@), held: true },
            ),
            verdict.spec_provisional() == self.spec_provisional(),
    {
        self.with(Op::Take { kind, at, part: Some(part), value: Some(value.to_owned()), held: true })
    }

    /// Takes a token without reading a value.
    pub fn spend(self, kind: ElementKind, at: usize) -> (verdict: Verdict)
        ensures
            verdict.spec_ops() == self.spec_ops().push(OpView::Spend { kind, at, part: None }),
            verdict.spec_provisional() == self.spec_provisional(),
    {
        self.with(Op::Spend { kind, at, part: None })
    }

    /// Takes part of a token without reading a value.
    pub fn spend_part(self, kind: ElementKind, at: usize, part: Range<usize>) -> (verdict: Verdict)
        ensures
            verdict.spec_ops() == self.spec_ops().push(OpView::Spend { kind, at, part: Some(part) }),
            verdict.spec_provisional() == self.spec_provisional(),
    {
        self.with(Op::Spend { kind, at, part: Some(part) })
    }

    /// Drops a value an earlier rule read, and records it as what the
    /// text could have been: the passed sense is the value's kind, read by
    /// the legacy passes, whatever rule the retracted fact names.
    pub fn retract(self, kind: ElementKind, value: &str) -> (verdict: Verdict)
        ensures
            verdict.spec_ops() == self.spec_ops().push(OpView::Retract { kind, value: value@ }),
            verdict.spec_provisional() == self.spec_provisional(),
    {
        self.with(Op::Retract { kind, value: value.to_owned() })
    }

    /// Records the reading this verdict displaced for the token at `at`.
    pub fn instead(self, at: usize, passed: Sense) -> (verdict: Verdict)
        ensures
            verdict.spec_ops() == self.spec_ops().push(OpView::Instead { at, passed }),
            verdict.spec_provisional() == self.spec_provisional(),
    {
        self.with(Op::Instead { at, passed })
    }

    /// Marks the episode read here as one of possibly two numbering
    /// schemes; see [`settle_scheme`].
    pub fn provisional(self) -> (verdict: Verdict)
        ensures
            verdict.spec_ops() == self.spec_ops(),
            verdict.spec_provisional(),
    {
        let mut verdict = self;
        verdict.provisional = true;
        verdict
    }

    /// The verdict takes a token as `kind`, outright.
    pub fn takes(&self, kind: ElementKind) -> (takes: bool)
        ensures
            takes == spec_takes(self.spec_ops(), kind),
    {
        let mut i: usize = 0;
        while i < self.ops.len()
            invariant
                i <= self.ops@.len(),
                forall|j: int| 0 <= j < i ==> !takes_outright(#[trigger] ops_view(self.ops@)[j], kind),
            decreases self.ops@.len() - i,
        {
            let hit = match &self.ops[i] {
                Op::Take { kind: k, held, .. } => *k == kind && !*held,
                Op::TakeRun { kind: k, .. } => *k == kind,
                _ => false,
            };
            if hit {
                assert(takes_outright(ops_view(self.ops@)[i as int], kind));
                return true;
            }
            i = i + 1;
        }
        false
    }
}

/// The operation takes a token as `kind` and does not leave it free.
pub open spec fn takes_outright(op: OpView, kind: ElementKind) -> bool {
    match op {
        OpView::Take { kind: k, held, .. } => k == kind && !held,
        OpView::TakeRun { kind: k, .. } => k == kind,
        _ => false,
    }
}

pub open spec fn spec_takes(ops: Seq<OpView>, kind: ElementKind) -> bool {
    exists|i: int| 0 <= i < ops.len() && takes_outright(#[trigger] ops[i], kind)
}

/// The kind the operation would bring as a fact, when it brings one that
/// refuses a second.
pub open spec fn brings(op: OpView) -> Option<ElementKind> {
    match op {
        OpView::Take { kind, held, .. } => if held { None } else { Some(kind) },
        OpView::TakeRun { kind, .. } => Some(kind),
        _ => None,
    }
}

/// Whether the verdict brings a second fact of a kind that keeps its first.
pub open spec fn refuses(ops: Seq<OpView>, facts: Seq<FactView>) -> bool {
    exists|i: int|
        0 <= i < ops.len() && match brings(#[trigger] ops[i]) {
            Some(kind) => kind.spec_is_singular() && has_kind_v(facts, kind),
            None => false,
        }
}

pub open spec fn has_kind_v(facts: Seq<FactView>, kind: ElementKind) -> bool {
    exists|i: int| 0 <= i < facts.len() && #[trigger] facts[i].kind == kind
}

pub open spec fn is_first_v(facts: Seq<FactView>, i: int, kind: ElementKind) -> bool {
    &&& 0 <= i < facts.len()
    &&& facts[i].kind == kind
    &&& forall|j: int| 0 <= j < i ==> #[trigger] facts[j].kind != kind
}

pub open spec fn is_first_with_v(facts: Seq<FactView>, i: int, kind: ElementKind, value: Seq<char>) -> bool {
    &&& 0 <= i < facts.len()
    &&& facts[i].kind == kind
    &&& facts[i].value == value
    &&& forall|j: int| 0 <= j < i ==> !(#[trigger] facts[j].kind == kind && facts[j].value == value)
}

/// The facts with one more; an empty value is no fact at all.
pub open spec fn pushed(facts: Seq<FactView>, fact: FactView) -> Seq<FactView> {
    if fact.value.len() == 0 {
        facts
    } else {
        facts.push(fact)
    }
}

/// A number as the scheme settlement compares it: a text without a
/// leading number compares above every number.
pub open spec fn scheme_number(text: Seq<char>) -> u32 {
    match spec_leading_number(text) {
        Some(n) => n,
        None => u32::MAX,
    }
}

/// What a provisional episode does to the facts and to the kind a new
/// episode number `new` lands as.
pub open spec fn settled(facts: Seq<FactView>, new: Seq<char>) -> (Seq<FactView>, Option<ElementKind>) {
    if !has_kind_v(facts, ElementKind::EpisodeNumber) {
        (facts, Some(ElementKind::EpisodeNumber))
    } else {
        let i = choose|i: int| is_first_v(facts, i, ElementKind::EpisodeNumber);
        let old = scheme_number(facts[i].value);
        let n = scheme_number(new);
        if n > old {
            (facts, Some(ElementKind::EpisodeNumberAlt))
        } else if n < old {
            (facts.update(i, FactView { kind: ElementKind::EpisodeNumberAlt, ..facts[i] }), Some(ElementKind::EpisodeNumber))
        } else {
            (facts, None)
        }
    }
}

/// What the engine holds while it applies a verdict.
#[verifier::ext_equal]
pub ghost struct EngineView {
    pub tokens: Seq<TokenView>,
    pub facts: Seq<FactView>,
    pub alternatives: Seq<AlternativeView>,
    pub provisional: bool,
}

pub open spec fn engine_view(tape: Tape, reading: Reading) -> EngineView {
    EngineView {
        tokens: tape@,
        facts: facts_view(reading.spec_elements()),
        alternatives: alternatives_view(reading.spec_alternatives()),
        provisional: reading.spec_provisional_episode(),
    }
}

/// The byte range an operation names, or the whole token.
pub open spec fn part_or_whole(part: Option<Range<usize>>, t: TokenView) -> Range<usize> {
    match part {
        Some(p) => p,
        None => whole(t),
    }
}

/// The tokens of `run` each taken as `kind` where still free.
pub open spec fn taken_run(tokens: Seq<TokenView>, run: Range<usize>, name: RuleName, kind: ElementKind) -> Seq<TokenView> {
    Seq::new(
        tokens.len(),
        |j: int|
            if run.start <= j < run.end && free(tokens[j]) {
                with_taking(tokens[j], Taking { by: name, kind, part: whole(tokens[j]), held: false })
            } else {
                tokens[j]
            },
    )
}

/// What one operation does.
pub open spec fn step(name: RuleName, certainty: Certainty, op: OpView, st: EngineView) -> EngineView {
    match op {
        OpView::Take { kind, at, part, value, held } => {
            let t = st.tokens[at as int];
            let part = part_or_whole(part, t);
            let value = match value {
                Some(v) => v,
                None => part_text(t, part),
            };
            let span = Span { start: (t.span.start + part.start) as usize, end: (t.span.start + part.end) as usize };
            let (facts, landed) = if kind == ElementKind::EpisodeNumber && st.provisional {
                settled(st.facts, value)
            } else {
                (st.facts, Some(kind))
            };
            let taken_as = match landed {
                Some(k) => k,
                None => ElementKind::EpisodeNumber,
            };
            EngineView {
                tokens: st.tokens.update(at as int, with_taking(t, Taking { by: name, kind: taken_as, part, held })),
                facts: match landed {
                    Some(k) => pushed(facts, FactView { kind: k, value, span, by: name, certainty }),
                    None => facts,
                },
                ..st
            }
        },
        OpView::TakeRun { kind, run, delimiters } => {
            let value = run_value(st.tokens, run.start as int, run.end as int, delimiters);
            let span = Span { start: st.tokens[run.start as int].span.start, end: st.tokens[run.end - 1].span.end };
            EngineView {
                tokens: taken_run(st.tokens, run, name, kind),
                facts: pushed(st.facts, FactView { kind, value, span, by: name, certainty }),
                ..st
            }
        },
        OpView::Spend { kind, at, part } => {
            let t = st.tokens[at as int];
            EngineView {
                tokens: st.tokens.update(
                    at as int,
                    with_taking(t, Taking { by: name, kind, part: part_or_whole(part, t), held: false }),
                ),
                ..st
            }
        },
        OpView::Retract { kind, value } => {
            if exists|i: int| is_first_with_v(st.facts, i, kind, value) {
                let i = choose|i: int| is_first_with_v(st.facts, i, kind, value);
                let f = st.facts[i];
                EngineView {
                    facts: st.facts.remove(i),
                    alternatives: st.alternatives.push(
                        AlternativeView {
                            span: f.span,
                            text: f.value,
                            taken: Sense { kind: None, rule: name },
                            passed: Sense { kind: Some(f.kind), rule: RuleName::Legacy },
                        },
                    ),
                    ..st
                }
            } else {
                st
            }
        },
        OpView::Instead { at, passed } => {
            let t = st.tokens[at as int];
            EngineView {
                alternatives: st.alternatives.push(
                    AlternativeView {
                        span: t.span,
                        text: t.text,
                        taken: Sense { kind: last_taken_by(t.taken, name), rule: name },
                        passed,
                    },
                ),
                ..st
            }
        },
    }
}

/// What the operations do, first to last.
pub open spec fn steps(name: RuleName, certainty: Certainty, ops: Seq<OpView>, st: EngineView) -> EngineView
    decreases ops.len(),
{
    if ops.len() == 0 {
        st
    } else {
        step(name, certainty, ops.last(), steps(name, certainty, ops.drop_last(), st))
    }
}

/// Two token sequences that differ at most in their takings.
pub open spec fn same_layout(a: Seq<TokenView>, b: Seq<TokenView>) -> bool {
    &&& a.len() == b.len()
    &&& forall|j: int| 0 <= j < a.len() ==> (#[trigger] a[j]).text == b[j].text && a[j].span == b[j].span && a[j].shape == b[j].shape
}

/// The operation names tokens and byte ranges that the tape has.
pub open spec fn fits(op: OpView, tokens: Seq<TokenView>) -> bool {
    match op {
        OpView::Take { at, part, value, .. } => {
            &&& at < tokens.len()
            &&& match (part, value) {
                // A value of the rule's own: the part only places the fact.
                (Some(p), Some(_)) => tokens[at as int].span.start + p.start <= usize::MAX && tokens[at as int].span.start
                    + p.end <= usize::MAX,
                // The value is the part's own text, so the part must lie on
                // char boundaries within the token.
                (Some(p), None) => {
                    &&& p.start <= p.end <= text_len(tokens[at as int])
                    &&& tokens[at as int].span.start + text_len(tokens[at as int]) <= usize::MAX
                    &&& is_char_boundary(encode_utf8(tokens[at as int].text), p.start as int)
                    &&& is_char_boundary(encode_utf8(tokens[at as int].text), p.end as int)
                },
                (None, _) => tokens[at as int].span.start + text_len(tokens[at as int]) <= usize::MAX,
            }
        },
        OpView::TakeRun { run, .. } => run.start < run.end <= tokens.len(),
        OpView::Spend { at, .. } => at < tokens.len(),
        OpView::Retract { .. } => true,
        OpView::Instead { at, .. } => at < tokens.len(),
    }
}

pub open spec fn all_fit(ops: Seq<OpView>, tokens: Seq<TokenView>) -> bool {
    forall|i: int| 0 <= i < ops.len() ==> fits(#[trigger] ops[i], tokens)
}

proof fn lemma_fits_same_layout(op: OpView, a: Seq<TokenView>, b: Seq<TokenView>)
    requires
        fits(op, a),
        same_layout(a, b),
    ensures
        fits(op, b),
{
    match op {
        OpView::Take { at, .. } => {
            assert(a[at as int].text == b[at as int].text);
        },
        _ => {},
    }
}

proof fn lemma_step_layout(name: RuleName, certainty: Certainty, op: OpView, st: EngineView)
    requires
        fits(op, st.tokens),
    ensures
        same_layout(st.tokens, step(name, certainty, op, st).tokens),
{
    let after = step(name, certainty, op, st).tokens;
    match op {
        OpView::TakeRun { kind, run, .. } => {
            assert forall|j: int| 0 <= j < st.tokens.len() implies (#[trigger] st.tokens[j]).text == after[j].text
                && st.tokens[j].span == after[j].span && st.tokens[j].shape == after[j].shape by {}
        },
        _ => {
            assert forall|j: int| 0 <= j < st.tokens.len() implies (#[trigger] st.tokens[j]).text == after[j].text
                && st.tokens[j].span == after[j].span && st.tokens[j].shape == after[j].shape by {}
        },
    }
}

proof fn lemma_first_views(facts: Seq<Fact>, kind: ElementKind)
    ensures
        has_kind(facts, kind) == has_kind_v(facts_view(facts), kind),
        forall|i: int| is_first(facts, i, kind) <==> is_first_v(facts_view(facts), i, kind),
{
    let v = facts_view(facts);
    if has_kind(facts, kind) {
        let i = choose|i: int| 0 <= i < facts.len() && #[trigger] facts[i].kind == kind;
        assert(v[i].kind == kind);
    }
    if has_kind_v(v, kind) {
        let i = choose|i: int| 0 <= i < v.len() && #[trigger] v[i].kind == kind;
        assert(facts[i].kind == kind);
    }
    assert forall|i: int| is_first(facts, i, kind) <==> is_first_v(v, i, kind) by {
        if is_first(facts, i, kind) {
            assert forall|j: int| 0 <= j < i implies #[trigger] v[j].kind != kind by {
                assert(facts[j].kind != kind);
            }
        }
        if is_first_v(v, i, kind) {
            assert forall|j: int| 0 <= j < i implies #[trigger] facts[j].kind != kind by {
                assert(v[j].kind != kind);
            }
        }
    }
}

proof fn lemma_first_with_views(facts: Seq<Fact>, kind: ElementKind, value: Seq<char>)
    ensures
        forall|i: int| is_first_with(facts, i, kind, value) <==> is_first_with_v(facts_view(facts), i, kind, value),
{
    let v = facts_view(facts);
    assert forall|i: int| is_first_with(facts, i, kind, value) <==> is_first_with_v(v, i, kind, value) by {
        if is_first_with(facts, i, kind, value) {
            assert forall|j: int| 0 <= j < i implies !(#[trigger] v[j].kind == kind && v[j].value == value) by {
                assert(!(facts[j].kind == kind && facts[j].value@ == value));
            }
        }
        if is_first_with_v(v, i, kind, value) {
            assert forall|j: int| 0 <= j < i implies !(#[trigger] facts[j].kind == kind && facts[j].value@ == value) by {
                assert(!(v[j].kind == kind && v[j].value == value));
            }
        }
    }
}

/// `Ep. 08 - 05v2` is one episode under two numbering schemes. The rule that
/// reads an episode off a prefix marks the reading provisional, so a later
/// episode does not lose to it: the lower number is the episode and the
/// higher becomes `EpisodeNumberAlt`; an equal number is one reading, not
/// two. Returns the kind the new number lands as, or `None` to drop it.
pub fn settle_scheme(elements: &mut Elements, new: &str) -> (landed: Option<ElementKind>)
    ensures
        (facts_view(final(elements)@), landed) == settled(facts_view(old(elements)@), new@),
{
    proof {
        lemma_first_views(elements@, ElementKind::EpisodeNumber);
    }
    let n = match leading_number(chars_of(new).as_slice()) {
        Some(n) => n,
        None => u32::MAX,
    };
    let ghost v = facts_view(elements@);
    let ghost first = choose|i: int| is_first_v(v, i, ElementKind::EpisodeNumber);
    let existing = match elements.fact(ElementKind::EpisodeNumber) {
        None => {
            return Some(ElementKind::EpisodeNumber);
        },
        Some(found) => {
            proof {
                let i = choose|i: int| is_first(elements@, i, ElementKind::EpisodeNumber) && *found == elements@[i];
                crate::element::lemma_first_unique(elements@, i, ElementKind::EpisodeNumber);
                assert(is_first_v(v, i, ElementKind::EpisodeNumber));
                assert(is_first(elements@, first, ElementKind::EpisodeNumber));
                assert(first == i);
            }
            match leading_number(chars_of(found.value.as_str()).as_slice()) {
                Some(o) => o,
                None => u32::MAX,
            }
        },
    };
    if n > existing {
        Some(ElementKind::EpisodeNumberAlt)
    } else if n < existing {
        elements.retag_first(ElementKind::EpisodeNumber, ElementKind::EpisodeNumberAlt);
        proof {
            assert(is_first(old(elements)@, first, ElementKind::EpisodeNumber));
            assert(facts_view(elements@) =~= v.update(first, FactView { kind: ElementKind::EpisodeNumberAlt, ..v[first] }));
        }
        Some(ElementKind::EpisodeNumber)
    } else {
        None
    }
}

proof fn lemma_first_with_unique_v(facts: Seq<FactView>, i: int, kind: ElementKind, value: Seq<char>)
    requires
        is_first_with_v(facts, i, kind, value),
    ensures
        (choose|j: int| is_first_with_v(facts, j, kind, value)) == i,
{
    let j = choose|j: int| is_first_with_v(facts, j, kind, value);
    if j < i {
        assert(facts[j].kind == kind && facts[j].value == value);
    } else if j > i {
        assert(facts[i].kind == kind && facts[i].value == value);
    }
}

/// The kind an operation brings that keeps its first fact, if any.
fn brought(op: &Op) -> (kind: Option<ElementKind>)
    ensures
        kind == brings(op@),
{
    match op {
        Op::Take { kind, held, .. } => if *held {
            None
        } else {
            Some(*kind)
        },
        Op::TakeRun { kind, .. } => Some(*kind),
        _ => None,
    }
}

/// The kind a value read off a token lands as, without recording it.
fn landing(reading: &Reading, kind: ElementKind, value: &str) -> (landed: Option<ElementKind>)
    ensures
        landed == (if kind == ElementKind::EpisodeNumber && reading.spec_provisional_episode() {
            settled(facts_view(reading.spec_elements()), value@).1
        } else {
            Some(kind)
        }),
{
    if kind == ElementKind::EpisodeNumber && reading.provisional_episode() {
        let elements = reading.elements();
        proof {
            lemma_first_views(elements@, ElementKind::EpisodeNumber);
        }
        let ghost v = facts_view(elements@);
        let ghost first = choose|i: int| is_first_v(v, i, ElementKind::EpisodeNumber);
        match elements.fact(ElementKind::EpisodeNumber) {
            None => Some(ElementKind::EpisodeNumber),
            Some(found) => {
                proof {
                    let i = choose|i: int| is_first(elements@, i, ElementKind::EpisodeNumber) && *found == elements@[i];
                    crate::element::lemma_first_unique(elements@, i, ElementKind::EpisodeNumber);
                    assert(is_first_v(v, i, ElementKind::EpisodeNumber));
                    assert(is_first(elements@, first, ElementKind::EpisodeNumber));
                    assert(first == i);
                }
                let existing = scheme_value(found.value.as_str());
                let n = scheme_value(value);
                if n > existing {
                    Some(ElementKind::EpisodeNumberAlt)
                } else if n < existing {
                    Some(ElementKind::EpisodeNumber)
                } else {
                    None
                }
            },
        }
    } else {
        Some(kind)
    }
}

/// A number as the scheme settlement compares it.
fn scheme_value(text: &str) -> (n: u32)
    ensures
        n == scheme_number(text@),
{
    match leading_number(chars_of(text).as_slice()) {
        Some(n) => n,
        None => u32::MAX,
    }
}

/// Records a value read off a token, and returns the kind it landed as: a
/// provisional episode settles a second episode number by size.
fn record(reading: &mut Reading, kind: ElementKind, value: String, span: Span, by: RuleName, certainty: Certainty) -> (landed: Option<ElementKind>)
    ensures
        ({
            let (facts, k) = if kind == ElementKind::EpisodeNumber && old(reading).spec_provisional_episode() {
                settled(facts_view(old(reading).spec_elements()), value@)
            } else {
                (facts_view(old(reading).spec_elements()), Some(kind))
            };
            &&& landed == k
            &&& facts_view(final(reading).spec_elements()) == match k {
                Some(k) => pushed(facts, FactView { kind: k, value: value@, span, by, certainty }),
                None => facts,
            }
        }),
        final(reading).spec_alternatives() == old(reading).spec_alternatives(),
        final(reading).spec_provisional_episode() == old(reading).spec_provisional_episode(),
        final(reading).spec_options() == old(reading).spec_options(),
{
    let landed = if kind == ElementKind::EpisodeNumber && reading.provisional_episode() {
        settle_scheme(reading.elements_mut(), value.as_str())
    } else {
        Some(kind)
    };
    match landed {
        Some(k) => push_fact(reading, Fact { kind: k, value, span, by, certainty }),
        None => {},
    }
    landed
}

/// Appends a fact to the reading.
fn push_fact(reading: &mut Reading, fact: Fact)
    ensures
        facts_view(final(reading).spec_elements()) == pushed(facts_view(old(reading).spec_elements()), fact@),
        final(reading).spec_alternatives() == old(reading).spec_alternatives(),
        final(reading).spec_provisional_episode() == old(reading).spec_provisional_episode(),
        final(reading).spec_options() == old(reading).spec_options(),
{
    let ghost before = reading.spec_elements();
    reading.elements_mut().push(fact);
    proof {
        if fact.value@.len() != 0 {
            assert(facts_view(before.push(fact)) =~= facts_view(before).push(fact@));
        }
    }
}

/// The view of an optional owned value.
pub open spec fn value_view(value: &Option<String>) -> Option<Seq<char>> {
    match value {
        Some(v) => Some(v@),
        None => None,
    }
}

pub open spec fn take_view(kind: ElementKind, at: usize, part: &Option<Range<usize>>, value: &Option<String>, held: bool) -> OpView {
    OpView::Take { kind, at, part: *part, value: value_view(value), held }
}

/// Applies a taking.
fn apply_take(
    name: RuleName,
    certainty: Certainty,
    kind: ElementKind,
    at: usize,
    part: &Option<Range<usize>>,
    value: &Option<String>,
    held: bool,
    tape: &mut Tape,
    reading: &mut Reading,
)
    requires
        fits(take_view(kind, at, part, value, held), old(tape)@),
    ensures
        engine_view(*final(tape), *final(reading)) == step(name, certainty, take_view(kind, at, part, value, held), engine_view(*old(tape), *old(reading))),
        final(reading).spec_options() == old(reading).spec_options(),
{
    let ghost st = engine_view(*tape, *reading);
    let ghost op = take_view(kind, at, part, value, held);
    let ghost t = tape@[at as int];
    proof {
        assert(t == tape.tokens@[at as int]@);
    }
    let len = tape.tokens[at].text.as_str().len();
    let range: Range<usize> = match part {
        Some(p) => p.start..p.end,
        None => 0..len,
    };
    assert(range == part_or_whole(*part, t));
    let read: String = match value {
        Some(v) => v.clone(),
        None => {
            let text = tape.tokens[at].text.as_str();
            proof {
                vstd::utf8::encode_utf8_valid_utf8(text@);
                vstd::utf8::is_char_boundary_start_end_of_seq(text.spec_bytes());
            }
            let slice = Span { start: range.start, end: range.end }.slice(text);
            proof {
                vstd::utf8::encode_utf8_decode_utf8(slice@);
            }
            slice.to_owned()
        },
    };
    assert(read@ == match value_view(value) {
        Some(v) => v,
        None => part_text(t, range),
    });
    let start = tape.tokens[at].span.start;
    let span = Span { start: start + range.start, end: start + range.end };
    let landing = landing(reading, kind, read.as_str());
    let taken_as = match landing {
        Some(k) => k,
        None => ElementKind::EpisodeNumber,
    };
    tape.take_part(at, name, taken_as, range, held);
    let landed = record(reading, kind, read, span, name, certainty);
    assert(landed == landing);
}

/// Applies one operation.
fn apply_op(name: RuleName, certainty: Certainty, op: &Op, tape: &mut Tape, reading: &mut Reading)
    requires
        fits(op@, old(tape)@),
    ensures
        engine_view(*final(tape), *final(reading)) == step(name, certainty, op@, engine_view(*old(tape), *old(reading))),
        final(reading).spec_options() == old(reading).spec_options(),
{
    let ghost st = engine_view(*tape, *reading);
    match op {
        Op::Take { kind, at, part, value, held } => {
            assert(op@ == take_view(*kind, *at, part, value, *held));
            apply_take(name, certainty, *kind, *at, part, value, *held, tape, reading);
        },
        Op::TakeRun { kind, run, delimiters } => {
            let value = tape.value(run.start..run.end, *delimiters);
            let span = tape.span(run.start..run.end);
            let ghost orig = tape@;
            let mut at: usize = run.start;
            while at < run.end
                invariant
                    run.start <= at <= run.end <= orig.len(),
                    tape.tokens@.len() == orig.len(),
                    tape@ =~= taken_run(orig, Range { start: run.start, end: at }, name, *kind),
                decreases run.end - at,
            {
                proof {
                    assert(tape@[at as int] == tape.tokens@[at as int]@);
                    assert(tape@[at as int] == orig[at as int]);
                }
                if tape.tokens[at].is_free() {
                    tape.take(at, name, *kind, false);
                }
                at = at + 1;
                assert(tape@ =~= taken_run(orig, Range { start: run.start, end: at }, name, *kind));
            }
            push_fact(reading, Fact { kind: *kind, value, span, by: name, certainty });
        },
        Op::Spend { kind, at, part } => {
            let at = *at;
            proof {
                assert(tape@[at as int] == tape.tokens@[at as int]@);
            }
            let len = tape.tokens[at].text.as_str().len();
            let part: Range<usize> = match part {
                Some(p) => p.start..p.end,
                None => 0..len,
            };
            tape.take_part(at, name, *kind, part, false);
        },
        Op::Retract { kind, value } => {
            proof {
                lemma_first_with_views(reading.spec_elements(), *kind, value@);
            }
            let ghost before = reading.spec_elements();
            match reading.elements().first_with(*kind, value.as_str()) {
                Some(fact) => {
                    let ghost i = choose|i: int| is_first_with(before, i, *kind, value@) && *fact == before[i];
                    proof {
                        lemma_first_with_unique_v(facts_view(before), i, *kind, value@);
                    }
                    let alternative = Alternative {
                        span: fact.span,
                        text: fact.value.clone(),
                        taken: Sense { kind: None, rule: name },
                        passed: Sense { kind: Some(fact.kind), rule: RuleName::Legacy },
                    };
                    let ghost alts = reading.spec_alternatives();
                    reading.push_alternative(alternative);
                    reading.elements_mut().retract(*kind, value.as_str());
                    proof {
                        assert(alternatives_view(alts.push(alternative)) =~= alternatives_view(alts).push(alternative@));
                        assert(facts_view(before.remove(i)) =~= facts_view(before).remove(i));
                    }
                },
                None => {
                    assert forall|i: int| !is_first_with_v(st.facts, i, *kind, value@) by {
                        assert(!is_first_with(before, i, *kind, value@));
                    }
                },
            }
        },
        Op::Instead { at, passed } => {
            let at = *at;
            proof {
                assert(tape@[at as int] == tape.tokens@[at as int]@);
            }
            let taken = tape.last_taken_by(at, name);
            let token = &tape.tokens[at];
            let alternative = Alternative {
                span: token.span,
                text: token.text.clone(),
                taken: Sense { kind: taken, rule: name },
                passed: *passed,
            };
            let ghost alts = reading.spec_alternatives();
            reading.push_alternative(alternative);
            proof {
                assert(alternatives_view(alts.push(alternative)) =~= alternatives_view(alts).push(alternative@));
            }
        },
    }
}

/// Applies one verdict, or refuses it whole when it brings a second fact
/// of a kind that keeps its first.
pub fn apply(name: RuleName, certainty: Certainty, verdict: Verdict, tape: &mut Tape, reading: &mut Reading)
    requires
        !refuses(verdict.spec_ops(), facts_view(old(reading).spec_elements())) ==> all_fit(verdict.spec_ops(), old(tape)@),
    ensures
        final(reading).spec_options() == old(reading).spec_options(),
        engine_view(*final(tape), *final(reading)) == (if refuses(verdict.spec_ops(), facts_view(old(reading).spec_elements())) {
            engine_view(*old(tape), *old(reading))
        } else {
            let applied = steps(name, certainty, verdict.spec_ops(), engine_view(*old(tape), *old(reading)));
            EngineView { provisional: applied.provisional || verdict.spec_provisional(), ..applied }
        }),
{
    let ghost ops = verdict.spec_ops();
    let ghost start = engine_view(*tape, *reading);
    let mut i: usize = 0;
    while i < verdict.ops.len()
        invariant
            i <= verdict.ops@.len(),
            ops == ops_view(verdict.ops@),
            start.facts == facts_view(reading.spec_elements()),
            forall|j: int| 0 <= j < i ==> match brings(#[trigger] ops[j]) {
                Some(kind) => !(kind.spec_is_singular() && has_kind_v(start.facts, kind)),
                None => true,
            },
        decreases verdict.ops@.len() - i,
    {
        match brought(&verdict.ops[i]) {
            Some(kind) => {
                proof {
                    lemma_first_views(reading.spec_elements(), kind);
                }
                if kind.is_singular() && reading.elements().contains(kind) {
                    assert(match brings(ops[i as int]) {
                        Some(kind) => kind.spec_is_singular() && has_kind_v(start.facts, kind),
                        None => false,
                    });
                    return;
                }
            },
            None => {},
        }
        i = i + 1;
    }
    assert(!refuses(ops, start.facts));
    let ghost options = reading.spec_options();
    let mut i: usize = 0;
    while i < verdict.ops.len()
        invariant
            i <= verdict.ops@.len(),
            ops == ops_view(verdict.ops@),
            reading.spec_options() == options,
            all_fit(ops, start.tokens),
            same_layout(start.tokens, tape@),
            engine_view(*tape, *reading) == steps(name, certainty, ops.take(i as int), start),
        decreases verdict.ops@.len() - i,
    {
        let ghost before = engine_view(*tape, *reading);
        proof {
            assert(fits(ops[i as int], start.tokens));
            lemma_fits_same_layout(ops[i as int], start.tokens, tape@);
            lemma_step_layout(name, certainty, ops[i as int], before);
        }
        apply_op(name, certainty, &verdict.ops[i], tape, reading);
        proof {
            assert(ops.take(i + 1).drop_last() =~= ops.take(i as int));
            assert(ops.take(i + 1).last() == ops[i as int]);
        }
        i = i + 1;
    }
    assert(ops.take(ops.len() as int) =~= ops);
    if verdict.provisional {
        reading.set_provisional_episode();
    }
}

} // verus!
