//! The word-level cursor the shapes share, and the two reads that have to
//! rewind when they fail.
//!
//! The cursor walks chars; every part it reads carries the byte range of
//! the word it came from.

use std::ops::Range;

use vstd::prelude::*;
use vstd::utf8::encode_utf8;

use crate::text::{byte_offset, char_width, chars_of, digit, is_ascii_digit, lemma_offset_monotone, lemma_offset_step, string_of_range};

verus! {

/// A piece of a word: the value it spells and the byte range it was read
/// from, in the word.
#[derive(Debug, PartialEq, Eq)]
pub struct Part {
    pub text: String,
    pub at: Range<usize>,
}

#[verifier::ext_equal]
pub ghost struct PartView {
    pub text: Seq<char>,
    pub start: int,
    pub end: int,
}

impl View for Part {
    type V = PartView;

    open spec fn view(&self) -> PartView {
        PartView { text: self.text@, start: self.at.start as int, end: self.at.end as int }
    }
}

pub open spec fn part_view(part: Option<Part>) -> Option<PartView> {
    match part {
        Some(p) => Some(p@),
        None => None,
    }
}

/// A part read off `chars` lies within their encoding.
pub open spec fn bounded(part: Option<PartView>, chars: Seq<char>) -> bool {
    match part {
        Some(p) => 0 <= p.start <= p.end <= byte_offset(chars, chars.len() as int),
        None => true,
    }
}

/// The value a read found, if any.
pub open spec fn found<T>(read: Option<(T, int)>) -> Option<T> {
    match read {
        Some((value, _)) => Some(value),
        None => None,
    }
}

/// Where the cursor stands after a read that rewinds when it fails.
pub open spec fn after<T>(read: Option<(T, int)>, pos: int) -> int {
    match read {
        Some((_, p)) => p,
        None => pos,
    }
}

/// How many ascii digits, at most `max`, stand at `pos`.
pub open spec fn digit_count(chars: Seq<char>, pos: int, max: int) -> int
    decreases chars.len() - pos,
{
    if max <= 0 || pos < 0 || pos >= chars.len() || !is_ascii_digit(chars[pos]) {
        0
    } else {
        1 + digit_count(chars, pos + 1, max - 1)
    }
}

/// The digits at `pos`, at most `max`, and the position after them.
pub open spec fn read_digits(chars: Seq<char>, pos: int, max: int) -> Option<(PartView, int)> {
    let n = digit_count(chars, pos, max);
    if n == 0 {
        None
    } else {
        Some((
            PartView { text: chars.subrange(pos, pos + n), start: byte_offset(chars, pos), end: byte_offset(chars, pos + n) },
            pos + n,
        ))
    }
}

/// The position after `c`, when `c` stands at `pos`.
pub open spec fn read_char(chars: Seq<char>, pos: int, c: char) -> Option<int> {
    if 0 <= pos < chars.len() && chars[pos] == c {
        Some(pos + 1)
    } else {
        None
    }
}

/// The position after one of `options`, when one stands at `pos`.
pub open spec fn read_any(chars: Seq<char>, pos: int, options: Seq<char>) -> Option<int> {
    if 0 <= pos < chars.len() && options.contains(chars[pos]) {
        Some(pos + 1)
    } else {
        None
    }
}

/// The position after an optional char of `options`.
pub open spec fn skip_any(chars: Seq<char>, pos: int, options: Seq<char>) -> int {
    match read_any(chars, pos, options) {
        Some(p) => p,
        None => pos,
    }
}

/// `v2`: a version letter and its digit, the part spanning both.
pub open spec fn read_version(chars: Seq<char>, pos: int) -> Option<(PartView, int)> {
    match read_any(chars, pos, seq!['v', 'V']) {
        None => None,
        Some(p) => match read_digits(chars, p, 1) {
            None => None,
            Some((digit, q)) => Some((PartView { text: digit.text, start: byte_offset(chars, pos), end: digit.end }, q)),
        },
    }
}

/// `E`, `x`, or a separator and then `E`: where the episode of a season
/// word begins.
pub open spec fn read_episode_separator(chars: Seq<char>, pos: int) -> Option<int> {
    let separated = match read_any(chars, pos, seq![' ', '.', '_', '-', ':', 'x', 'X']) {
        Some(p) => read_any(chars, p, seq!['E', 'e']),
        None => None,
    };
    match separated {
        Some(q) => Some(q),
        None => read_any(chars, pos, seq!['E', 'e', 'x', 'X']),
    }
}

pub struct Scanner {
    chars: Vec<char>,
    /// Byte offset of every char, then the text's length.
    starts: Vec<usize>,
    pos: usize,
}

impl Scanner {
    pub closed spec fn spec_chars(&self) -> Seq<char> {
        self.chars@
    }

    pub closed spec fn spec_pos(&self) -> int {
        self.pos as int
    }

    pub closed spec fn wf(&self) -> bool {
        &&& self.starts@.len() == self.chars@.len() + 1
        &&& self.pos <= self.chars@.len()
        &&& forall|i: int| 0 <= i <= self.chars@.len() ==> #[trigger] self.starts@[i] == byte_offset(self.chars@, i)
    }

    pub fn new(text: &str) -> (scanner: Scanner)
        requires
            encode_utf8(text@).len() <= usize::MAX,
        ensures
            scanner.wf(),
            scanner.spec_chars() == text@,
            scanner.spec_pos() == 0,
    {
        let chars = chars_of(text);
        let mut starts: Vec<usize> = Vec::new();
        let mut offset: usize = 0;
        let mut i: usize = 0;
        proof {
            lemma_offset_monotone(chars@, 0, chars@.len() as int);
            assert(chars@.take(0) =~= Seq::<char>::empty());
        }
        while i < chars.len()
            invariant
                i <= chars@.len(),
                chars@ == text@,
                encode_utf8(text@).len() <= usize::MAX,
                starts@.len() == i,
                offset == byte_offset(chars@, i as int),
                forall|k: int| 0 <= k < i ==> #[trigger] starts@[k] == byte_offset(chars@, k),
            decreases chars@.len() - i,
        {
            starts.push(offset);
            proof {
                lemma_offset_step(chars@, i as int);
                lemma_offset_monotone(chars@, i + 1, chars@.len() as int);
            }
            offset = offset + char_width(chars[i]);
            i = i + 1;
        }
        starts.push(offset);
        Scanner { chars, starts, pos: 0 }
    }

    pub fn peek(&self) -> (next: Option<char>)
        requires
            self.wf(),
        ensures
            next == (if self.spec_pos() < self.spec_chars().len() {
                Some(self.spec_chars()[self.spec_pos()])
            } else {
                None
            }),
    {
        if self.pos < self.chars.len() {
            Some(self.chars[self.pos])
        } else {
            None
        }
    }

    /// The byte offset of the cursor.
    pub fn offset(&self) -> (offset: usize)
        requires
            self.wf(),
        ensures
            offset == byte_offset(self.spec_chars(), self.spec_pos()),
    {
        self.starts[self.pos]
    }

    /// Where the cursor stands.
    pub fn position(&self) -> (pos: usize)
        ensures
            pos == self.spec_pos(),
    {
        self.pos
    }

    /// Puts the cursor back where a failed read began.
    pub fn rewind(&mut self, to: usize)
        requires
            old(self).wf(),
            to <= old(self).spec_chars().len(),
        ensures
            final(self).wf(),
            final(self).spec_chars() == old(self).spec_chars(),
            final(self).spec_pos() == to,
    {
        self.pos = to;
    }

    pub fn eat(&mut self, expected: char) -> (ate: bool)
        requires
            old(self).wf(),
        ensures
            final(self).wf(),
            final(self).spec_chars() == old(self).spec_chars(),
            ate == read_char(old(self).spec_chars(), old(self).spec_pos(), expected) is Some,
            final(self).spec_pos() == after_char(read_char(old(self).spec_chars(), old(self).spec_pos(), expected), old(self).spec_pos()),
    {
        if self.pos < self.chars.len() && self.chars[self.pos] == expected {
            self.pos = self.pos + 1;
            true
        } else {
            false
        }
    }

    pub fn eat_any(&mut self, options: &[char]) -> (ate: bool)
        requires
            old(self).wf(),
        ensures
            final(self).wf(),
            final(self).spec_chars() == old(self).spec_chars(),
            ate == read_any(old(self).spec_chars(), old(self).spec_pos(), options@) is Some,
            final(self).spec_pos() == after_char(read_any(old(self).spec_chars(), old(self).spec_pos(), options@), old(self).spec_pos()),
    {
        if self.pos < self.chars.len() && one_of(options, self.chars[self.pos]) {
            self.pos = self.pos + 1;
            true
        } else {
            false
        }
    }

    /// The ascii digits at the cursor, at most `max` of them.
    pub fn digits(&mut self, max: usize) -> (part: Option<Part>)
        requires
            old(self).wf(),
        ensures
            final(self).wf(),
            final(self).spec_chars() == old(self).spec_chars(),
            part_view(part) == found(read_digits(old(self).spec_chars(), old(self).spec_pos(), max as int)),
            read_digits(old(self).spec_chars(), old(self).spec_pos(), max as int) is Some ==> old(self).spec_pos() < final(self).spec_pos(),
            bounded(part_view(part), old(self).spec_chars()),
            final(self).spec_pos() == after(read_digits(old(self).spec_chars(), old(self).spec_pos(), max as int), old(self).spec_pos()),
    {
        let start = self.pos;
        let ghost chars = self.chars@;
        while self.pos - start < max && self.pos < self.chars.len() && digit(self.chars[self.pos])
            invariant
                self.wf(),
                self.chars@ == chars,
                start <= self.pos <= chars.len(),
                self.pos - start <= max,
                digit_count(chars, start as int, max as int) == (self.pos - start) + digit_count(
                    chars,
                    self.pos as int,
                    max - (self.pos - start),
                ),
            decreases chars.len() - self.pos,
        {
            self.pos = self.pos + 1;
        }
        proof {
            lemma_offset_monotone(chars, start as int, self.pos as int);
        }
        if self.pos > start {
            let text = string_of_range(self.chars.as_slice(), start, self.pos);
            Some(Part { text, at: self.starts[start]..self.starts[self.pos] })
        } else {
            None
        }
    }

    pub fn done(&self) -> (done: bool)
        requires
            self.wf(),
        ensures
            done == (self.spec_pos() == self.spec_chars().len()),
    {
        self.pos == self.chars.len()
    }
}

/// Whether `c` is one of `options`.
fn one_of(options: &[char], c: char) -> (found: bool)
    ensures
        found == options@.contains(c),
{
    let mut i: usize = 0;
    while i < options.len()
        invariant
            i <= options@.len(),
            forall|k: int| 0 <= k < i ==> options@[k] != c,
        decreases options@.len() - i,
    {
        if options[i] == c {
            assert(options@[i as int] == c);
            return true;
        }
        i = i + 1;
    }
    false
}

/// Where the cursor stands after a char read.
pub open spec fn after_char(read: Option<int>, pos: int) -> int {
    match read {
        Some(p) => p,
        None => pos,
    }
}

/// `v2`: the version digit, spanning the `v` too so nothing of the suffix
/// is left for a title. Rewinds when there is none.
pub fn version(scanner: &mut Scanner) -> (part: Option<Part>)
    requires
        old(scanner).wf(),
    ensures
        final(scanner).wf(),
        final(scanner).spec_chars() == old(scanner).spec_chars(),
        part_view(part) == found(read_version(old(scanner).spec_chars(), old(scanner).spec_pos())),
        bounded(part_view(part), old(scanner).spec_chars()),
        final(scanner).spec_pos() == after(read_version(old(scanner).spec_chars(), old(scanner).spec_pos()), old(scanner).spec_pos()),
{
    let saved = scanner.position();
    let start = scanner.offset();
    proof {
        lemma_offset_monotone(scanner.spec_chars(), scanner.spec_pos(), scanner.spec_chars().len() as int);
    }
    if !scanner.eat_any(&['v', 'V']) {
        return None;
    }
    proof {
        lemma_offset_monotone(scanner.spec_chars(), saved as int, saved + 1);
    }
    match scanner.digits(1) {
        Some(digit) => Some(Part { text: digit.text, at: start..digit.at.end }),
        None => {
            scanner.rewind(saved);
            None
        },
    }
}

/// Eats what sets a season's episode apart: `E`, `x`, or a separator and
/// then `E`.
pub fn eat_episode_separator(scanner: &mut Scanner) -> (ate: bool)
    requires
        old(scanner).wf(),
    ensures
        final(scanner).wf(),
        final(scanner).spec_chars() == old(scanner).spec_chars(),
        ate == read_episode_separator(old(scanner).spec_chars(), old(scanner).spec_pos()) is Some,
        final(scanner).spec_pos() == after_char(read_episode_separator(old(scanner).spec_chars(), old(scanner).spec_pos()), old(scanner).spec_pos()),
{
    // A colon separates the two only in a title a person wrote (`S1:E1`); no
    // release name spells it that way, and a colon never sits inside a word.
    let saved = scanner.position();
    if scanner.eat_any(&[' ', '.', '_', '-', ':', 'x', 'X']) {
        if scanner.eat_any(&['E', 'e']) {
            return true;
        }
        scanner.rewind(saved);
    }
    scanner.eat_any(&['E', 'e', 'x', 'X'])
}

} // verus!
