//! What the word rules share: turning a numbering read off a word into the
//! takings of a verdict.

use vstd::prelude::*;
use vstd::string::StringSliceAdditionalSpecFns;
use vstd::utf8::{decode_utf8, encode_utf8, is_char_boundary};

use crate::element::Span;
use crate::engine::{OpView, Verdict};
use crate::keyword::KeywordTable;
use crate::numbering::{Extent, Numbering, NumberingView, PieceView, pieces_view, read, shifted, spec_read, within};

verus! {

/// The text from byte `from` of `word` to its end.
pub open spec fn text_from(word: Seq<char>, from: int) -> Seq<char> {
    decode_utf8(encode_utf8(word).subrange(from, encode_utf8(word).len() as int))
}

/// The takings a numbering stands for at token `at`: each piece read off
/// the bytes it came from, held ones left free, then the bytes the shape
/// used up spent.
pub open spec fn piece_ops(numbering: NumberingView, at: usize, extent: Extent) -> Seq<OpView> {
    numbering.pieces.map_values(
        |p: PieceView|
            OpView::Take {
                kind: p.kind,
                at,
                part: Some(p.part.start as usize..p.part.end as usize),
                value: Some(p.part.text),
                held: p.held,
            },
    ).push(
        OpView::Spend {
            kind: extent.spec_number(),
            at,
            part: Some(numbering.used_start as usize..numbering.used_end as usize),
        },
    )
}

/// The takings for the number that starts at byte `from` of `word`: what
/// the word shapes read there, or that part taken whole as the number.
pub open spec fn number_ops(word: Seq<char>, from: int, at: usize, extent: Extent, table: KeywordTable) -> Seq<OpView> {
    let tail = text_from(word, from);
    match spec_read(tail, extent, table) {
        Some(numbering) => piece_ops(shifted(numbering, from), at, extent),
        None => seq![
            OpView::Take {
                kind: extent.spec_number(),
                at,
                part: Some(from as usize..encode_utf8(word).len() as usize),
                value: Some(tail),
                held: false,
            },
        ],
    }
}

/// Every piece is taken as the bytes it came from, and the bytes the shape
/// used up are spent so no stray letter is left for a title.
pub fn take_pieces(verdict: Verdict, at: usize, numbering: Numbering, extent: Extent) -> (taken: Verdict)
    ensures
        taken.spec_ops() == verdict.spec_ops() + piece_ops(numbering@, at, extent),
        taken.spec_provisional() == verdict.spec_provisional(),
{
    let ghost n = numbering@;
    let ghost before = verdict.spec_ops();
    let ghost provisional = verdict.spec_provisional();
    let Numbering { pieces, used, decides: _ } = numbering;
    let mut verdict = verdict;
    let mut i: usize = 0;
    while i < pieces.len()
        invariant
            i <= pieces@.len(),
            n.pieces == pieces_view(pieces@),
            verdict.spec_ops() == before + piece_ops(n, at, extent).take(i as int),
            verdict.spec_provisional() == provisional,
        decreases pieces@.len() - i,
    {
        let piece = &pieces[i];
        assert(n.pieces[i as int] == piece@);
        verdict = if piece.held {
            verdict.hold_part(piece.kind, at, piece.part.at.start..piece.part.at.end, piece.part.text.as_str())
        } else {
            verdict.take_part(piece.kind, at, piece.part.at.start..piece.part.at.end, piece.part.text.as_str())
        };
        assert(piece_ops(n, at, extent).take(i + 1) =~= piece_ops(n, at, extent).take(i as int).push(
            piece_ops(n, at, extent)[i as int],
        ));
        i = i + 1;
    }
    let taken = verdict.spend_part(extent.number(), at, used.start..used.end);
    assert(piece_ops(n, at, extent) =~= piece_ops(n, at, extent).take(pieces@.len() as int).push(
        piece_ops(n, at, extent).last(),
    ));
    taken
}

/// Reads the number that starts at byte `from` of the word at `at` through
/// the word shapes, or takes that part whole.
pub fn take_number_from(
    verdict: Verdict,
    at: usize,
    word: &str,
    from: usize,
    extent: Extent,
    table: &KeywordTable,
) -> (taken: Verdict)
    requires
        word.spec_bytes().len() <= usize::MAX,
        from <= word.spec_bytes().len(),
        is_char_boundary(word.spec_bytes(), from as int),
    ensures
        taken.spec_ops() == verdict.spec_ops() + number_ops(word@, from as int, at, extent, *table),
        taken.spec_provisional() == verdict.spec_provisional(),
{
    proof {
        vstd::utf8::encode_utf8_valid_utf8(word@);
        vstd::utf8::is_char_boundary_start_end_of_seq(word.spec_bytes());
    }
    let tail = Span { start: from, end: word.len() }.slice(word);
    proof {
        vstd::utf8::encode_utf8_decode_utf8(tail@);
        crate::text::lemma_offset_monotone(tail@, 0, tail@.len() as int);
    }
    assert(tail@ == text_from(word@, from as int));
    match read(tail, extent, table) {
        Some(numbering) => {
            assert(within(Some(numbering@), usize::MAX - from));
            let shifted_numbering = numbering.shift(from);
            take_pieces(verdict, at, shifted_numbering, extent)
        },
        None => {
            let taken = verdict.take_part(extent.number(), at, from..word.len(), tail);
            assert(piece_ops(NumberingView { pieces: Seq::empty(), used_start: 0, used_end: 0, decides: false }, at, extent).len() == 1);
            taken
        },
    }
}

/// Reads the number at `at` through the word shapes, or takes it whole.
pub fn take_number(verdict: Verdict, at: usize, word: &str, extent: Extent, table: &KeywordTable) -> (taken: Verdict)
    requires
        word.spec_bytes().len() <= usize::MAX,
    ensures
        taken.spec_ops() == verdict.spec_ops() + number_ops(word@, 0, at, extent, *table),
        taken.spec_provisional() == verdict.spec_provisional(),
{
    proof {
        vstd::utf8::encode_utf8_valid_utf8(word@);
        vstd::utf8::is_char_boundary_start_end_of_seq(word.spec_bytes());
    }
    take_number_from(verdict, at, word, 0, extent, table)
}

} // verus!
