//! Word-level tests the readers share: whether a word is a video
//! resolution, and whether a word stands whole in a text.

use vstd::prelude::*;

use crate::element::{ElementKind, Elements, Fact, FactView, Span, facts_view};
use crate::keyword::{KeywordTable, first_match};
use crate::players::{first_at, lemma_first_at};
use crate::reading::{Certainty, Options};
use crate::rule::RuleName;
use crate::text::{
    byte_offset, chars_of, digit, digit_run, encode_len_split, eq_ignore_ascii_case, is_ascii_digit, occurs_at,
    offset_of, same_ignoring_ascii_case, string_of, alphanumeric, is_ascii_alphanumeric, string_of_range, to_ascii_upper,
    upper_seq,
};
use vstd::utf8::encode_utf8;

verus! {

/// A width or height of a resolution: three or four digits.
pub open spec fn spec_dimension(n: nat) -> bool {
    3 <= n <= 4
}

/// `1280x720`, `1920X1080` and `640×480` are dimensions; `720p`, `1080P` and
/// `1080i` are scanlines. Anything else is not a resolution.
pub open spec fn spec_is_resolution(word: Seq<char>) -> bool {
    let width = digit_run(word);
    &&& spec_dimension(width)
    &&& width < word.len()
    &&& {
        let mark = word[width as int];
        if mark == 'x' || mark == 'X' || mark == '×' {
            let rest = word.skip((width + 1) as int);
            spec_dimension(digit_run(rest)) && digit_run(rest) == rest.len()
        } else if mark == 'p' || mark == 'P' || mark == 'i' || mark == 'I' {
            word.len() == width + 1
        } else {
            false
        }
    }
}

/// How many ASCII digits `chars` holds from `from` on.
fn run_from(chars: &[char], from: usize) -> (run: usize)
    requires
        from <= chars@.len(),
    ensures
        run == digit_run(chars@.skip(from as int)),
        from + run <= chars@.len(),
{
    let mut end = from;
    while end < chars.len() && digit(chars[end])
        invariant
            from <= end <= chars@.len(),
            digit_run(chars@.skip(from as int)) == (end - from) + digit_run(chars@.skip(end as int)),
        decreases chars@.len() - end,
    {
        assert(chars@.skip(end as int).drop_first() =~= chars@.skip(end + 1));
        end = end + 1;
    }
    end - from
}

pub fn is_resolution(word: &str) -> (resolution: bool)
    ensures
        resolution == spec_is_resolution(word@),
{
    let chars = chars_of(word);
    assert(chars@.skip(0) =~= chars@);
    let width = run_from(chars.as_slice(), 0);
    if width < 3 || width > 4 || width >= chars.len() {
        return false;
    }
    let mark = chars[width];
    if mark == 'x' || mark == 'X' || mark == '×' {
        let height = run_from(chars.as_slice(), width + 1);
        height >= 3 && height <= 4 && height == chars.len() - (width + 1)
    } else if mark == 'p' || mark == 'P' || mark == 'i' || mark == 'I' {
        chars.len() == width + 1
    } else {
        false
    }
}

/// Whether a char is a letter or a digit of any script, as
/// `char::is_alphanumeric` says.
pub uninterp spec fn unicode_alphanumeric(c: char) -> bool;

/// Calls `char::is_alphanumeric`, whose result is whether the char is
/// alphabetic or numeric in Unicode's tables: a function of the char alone.
/// Among ASCII chars those are exactly the letters and the digits.
#[verifier::external_body]
fn alphanumeric_char(c: char) -> (alphanumeric: bool)
    ensures
        alphanumeric == unicode_alphanumeric(c),
        (c as u32) < 128 ==> (alphanumeric <==> crate::text::is_ascii_alphanumeric(c)),
{
    c.is_alphanumeric()
}

/// A char that belongs to a word: an ASCII letter or digit, or a non-ASCII
/// char `char::is_alphanumeric` accepts.
pub open spec fn word_char(c: char) -> bool {
    if (c as u32) < 128 {
        crate::text::is_ascii_alphanumeric(c)
    } else {
        unicode_alphanumeric(c)
    }
}

/// Whether `text[start..end]` is one of the pieces splitting `text` at every
/// char that is not alphanumeric gives.
pub open spec fn is_piece(text: Seq<char>, start: int, end: int) -> bool {
    &&& 0 <= start <= end <= text.len()
    &&& (start == 0 || !word_char(text[start - 1]))
    &&& (end == text.len() || !word_char(text[end]))
    &&& forall|k: int| start <= k < end ==> #[trigger] word_char(text[k])
}

/// Whether `word` appears whole in `text`, case-insensitively, between
/// chars that are not alphanumeric or the ends.
pub open spec fn spec_has_word(text: Seq<char>, word: Seq<char>) -> bool {
    exists|start: int, end: int| #[trigger] is_piece(text, start, end) && eq_ignore_ascii_case(text.subrange(start, end), word)
}

/// Whether `word` appears whole in `text`, case-insensitively.
pub fn has_word(text: &str, word: &str) -> (found: bool)
    ensures
        found == spec_has_word(text@, word@),
{
    let chars = chars_of(text);
    let pattern = chars_of(word);
    let mut start: usize = 0;
    let mut i: usize = 0;
    while i <= chars.len()
        invariant
            chars@ == text@,
            pattern@ == word@,
            start <= i <= chars@.len() + 1,
            i <= chars@.len() ==> start <= i,
            start <= chars@.len(),
            start == 0 || !word_char(chars@[start - 1]),
            forall|k: int| start <= k < i && k < chars@.len() ==> #[trigger] word_char(chars@[k]),
            forall|s: int, e: int|
                #[trigger] is_piece(chars@, s, e) && e < i && eq_ignore_ascii_case(chars@.subrange(s, e), pattern@)
                    ==> false,
        decreases chars@.len() + 1 - i,
    {
        if i == chars.len() || !alphanumeric_char(chars[i]) {
            let piece = crate::text::string_of_range(chars.as_slice(), start, i);
            let piece = chars_of(piece.as_str());
            if same_ignoring_ascii_case(piece.as_slice(), pattern.as_slice()) {
                assert(is_piece(chars@, start as int, i as int));
                return true;
            }
            proof {
                assert forall|s: int, e: int|
                    #[trigger] is_piece(chars@, s, e) && e < i + 1 && eq_ignore_ascii_case(chars@.subrange(s, e), pattern@)
                        implies false by {
                    if e == i {
                        if s < start {
                            assert(!word_char(chars@[start - 1]));
                        } else if s > start {
                            assert(word_char(chars@[s - 1]));
                        }
                    }
                }
            }
            if i == chars.len() {
                proof {
                    assert forall|s: int, e: int| #[trigger] is_piece(chars@, s, e) implies !eq_ignore_ascii_case(
                        chars@.subrange(s, e),
                        pattern@,
                    ) by {}
                }
                return false;
            }
            start = i + 1;
        } else {
            proof {
                assert forall|s: int, e: int|
                    #[trigger] is_piece(chars@, s, e) && e < i + 1 && eq_ignore_ascii_case(chars@.subrange(s, e), pattern@)
                        implies false by {
                    if e == i {
                        assert(word_char(chars@[i as int]));
                    }
                }
            }
        }
        i = i + 1;
    }
    false
}

/// `text` with the chars from `at` to `end` taken out.
pub open spec fn cut(text: Seq<char>, at: int, end: int) -> Seq<char> {
    text.take(at) + text.skip(end)
}

/// The text with each occurrence of `needle` from `from` on taken out, left
/// to right, every search starting where the last cut was, and `origin`
/// with the entries of the cut bytes dropped alongside; and whether
/// anything was cut. An empty needle cuts nothing.
pub open spec fn cut_all(text: Seq<char>, origin: Seq<usize>, needle: Seq<char>, from: int) -> (Seq<char>, Seq<usize>, bool)
    decreases text.len(),
{
    if needle.len() == 0 {
        (text, origin, false)
    } else {
        match first_at(text, needle, from) {
            Some(at) => {
                proof {
                    lemma_first_at(text, needle, from);
                }
                let end = at + needle.len();
                let rest = cut_all(
                    cut(text, at, end),
                    origin.take(byte_offset(text, at)) + origin.skip(byte_offset(text, end)),
                    needle,
                    at,
                );
                (rest.0, rest.1, true)
            },
            None => (text, origin, false),
        }
    }
}

/// The first `k` needles cut from the text in turn.
pub open spec fn cut_needles(text: Seq<char>, origin: Seq<usize>, needles: Seq<Seq<char>>, k: int) -> (Seq<char>, Seq<usize>, bool)
    decreases k,
{
    if k <= 0 {
        (text, origin, false)
    } else {
        let before = cut_needles(text, origin, needles, k - 1);
        let after = cut_all(before.0, before.1, needles[k - 1], 0);
        (after.0, after.1, before.2 || after.2)
    }
}

/// Every byte offset of a text of `len` bytes, and its end.
pub open spec fn identity_origin(len: nat) -> Seq<usize> {
    Seq::new(len + 1, |i: int| i as usize)
}

/// The text with every ignored string removed, and, when one was found,
/// the byte offset in the input of every byte of the shortened text and of
/// its end.
pub open spec fn spec_remove_ignored(text: Seq<char>, ignored: Seq<Seq<char>>) -> (Seq<char>, Option<Seq<usize>>) {
    let (left, origin, found) = cut_needles(text, identity_origin(encode_utf8(text).len()), ignored, ignored.len() as int);
    (left, if found { Some(origin) } else { None })
}

/// `origin` says where each byte of `left` came from in `input`: one entry
/// per byte of `left` and one for its end, in increasing order, each byte
/// found again in the input at its entry, and the end at the input's end.
pub open spec fn maps_back(input: Seq<u8>, left: Seq<u8>, origin: Seq<usize>) -> bool {
    &&& origin.len() == left.len() + 1
    &&& origin[left.len() as int] == input.len()
    &&& forall|i: int| 0 <= i < left.len() ==> (#[trigger] origin[i]) < input.len() && input[origin[i] as int] == left[i]
    &&& forall|i: int, j: int| #![trigger origin[i], origin[j]] 0 <= i < j < origin.len() ==> origin[i] < origin[j]
}

/// Dropping bytes `a..b` of `left` and their entries keeps the map.
proof fn lemma_drop_keeps_map(input: Seq<u8>, left: Seq<u8>, origin: Seq<usize>, a: int, b: int)
    requires
        maps_back(input, left, origin),
        0 <= a <= b <= left.len(),
    ensures
        maps_back(input, left.take(a) + left.skip(b), origin.take(a) + origin.skip(b)),
{
    let l2 = left.take(a) + left.skip(b);
    let o2 = origin.take(a) + origin.skip(b);
    assert(o2.len() == l2.len() + 1);
    assert(o2[l2.len() as int] == origin[left.len() as int]);
    assert forall|i: int| 0 <= i < l2.len() implies (#[trigger] o2[i]) < input.len() && input[o2[i] as int] == l2[i] by {
        if i < a {
            assert(o2[i] == origin[i] && l2[i] == left[i]);
        } else {
            assert(o2[i] == origin[i - a + b] && l2[i] == left[i - a + b]);
        }
    }
    assert forall|i: int, j: int| #![trigger o2[i], o2[j]] 0 <= i < j < o2.len() implies o2[i] < o2[j] by {
        let oi = if i < a { i } else { i - a + b };
        let oj = if j < a { j } else { j - a + b };
        assert(o2[i] == origin[oi] && o2[j] == origin[oj]);
        assert(origin[oi] < origin[oj]);
    }
}

/// Cutting the chars `at..end` out of a text, and the entries of their
/// bytes out of its map, keeps the map.
proof fn lemma_cut_keeps_map(input: Seq<u8>, text: Seq<char>, origin: Seq<usize>, at: int, end: int)
    requires
        maps_back(input, encode_utf8(text), origin),
        0 <= at <= end <= text.len(),
    ensures
        maps_back(
            input,
            encode_utf8(cut(text, at, end)),
            origin.take(byte_offset(text, at)) + origin.skip(byte_offset(text, end)),
        ),
{
    let bytes = encode_utf8(text);
    let a = byte_offset(text, at);
    let b = byte_offset(text, end);
    encode_len_split(text, at, end);
    crate::text::lemma_encode_concat(text.take(at), text.skip(at));
    crate::text::lemma_encode_concat(text.take(end), text.skip(end));
    crate::text::lemma_encode_concat(text.take(at), text.skip(end));
    assert(text.take(at) + text.skip(at) =~= text);
    assert(text.take(end) + text.skip(end) =~= text);
    assert(bytes.take(a) =~= encode_utf8(text.take(at)));
    assert(bytes.skip(b) =~= encode_utf8(text.skip(end)));
    lemma_drop_keeps_map(input, bytes, origin, a, b);
}

/// Every cut of one needle keeps the map, and a needle that cuts nothing
/// leaves the text and the map alone.
proof fn lemma_cut_all_keeps_map(input: Seq<u8>, text: Seq<char>, origin: Seq<usize>, needle: Seq<char>, from: int)
    requires
        maps_back(input, encode_utf8(text), origin),
    ensures
        maps_back(input, encode_utf8(cut_all(text, origin, needle, from).0), cut_all(text, origin, needle, from).1),
        !cut_all(text, origin, needle, from).2 ==> cut_all(text, origin, needle, from).0 == text,
    decreases text.len(),
{
    if needle.len() != 0 {
        match first_at(text, needle, from) {
            Some(at) => {
                lemma_first_at(text, needle, from);
                let end = at + needle.len();
                lemma_cut_keeps_map(input, text, origin, at, end);
                let next = origin.take(byte_offset(text, at)) + origin.skip(byte_offset(text, end));
                lemma_cut_all_keeps_map(input, cut(text, at, end), next, needle, at);
            },
            None => {},
        }
    }
}

proof fn lemma_cut_needles_keeps_map(input: Seq<u8>, text: Seq<char>, origin: Seq<usize>, needles: Seq<Seq<char>>, k: int)
    requires
        maps_back(input, encode_utf8(text), origin),
    ensures
        maps_back(input, encode_utf8(cut_needles(text, origin, needles, k).0), cut_needles(text, origin, needles, k).1),
        !cut_needles(text, origin, needles, k).2 ==> cut_needles(text, origin, needles, k).0 == text,
    decreases k,
{
    if k > 0 {
        lemma_cut_needles_keeps_map(input, text, origin, needles, k - 1);
        let before = cut_needles(text, origin, needles, k - 1);
        lemma_cut_all_keeps_map(input, before.0, before.1, needles[k - 1], 0);
    }
}

/// Removing ignored strings keeps a way back to the input: when one was
/// found, the origin holds, for every byte of what is left and for its
/// end, the offset in the input of that same byte, in increasing order;
/// when none was, the text is as it was.
pub proof fn lemma_remove_ignored_maps_back(text: Seq<char>, ignored: Seq<Seq<char>>)
    requires
        encode_utf8(text).len() <= usize::MAX,
    ensures
        match spec_remove_ignored(text, ignored).1 {
            Some(origin) => maps_back(encode_utf8(text), encode_utf8(spec_remove_ignored(text, ignored).0), origin),
            None => spec_remove_ignored(text, ignored).0 == text,
        },
{
    let bytes = encode_utf8(text);
    let start = identity_origin(bytes.len());
    assert(maps_back(bytes, bytes, start));
    lemma_cut_needles_keeps_map(bytes, text, start, ignored, ignored.len() as int);
}

/// The first place from `from` on where `pattern` occurs in `text`.
fn find_from(text: &[char], pattern: &[char], from: usize) -> (at: Option<usize>)
    requires
        from <= text@.len(),
    ensures
        match at {
            Some(at) => first_at(text@, pattern@, from as int) == Some(at as int),
            None => first_at(text@, pattern@, from as int) is None,
        },
{
    if pattern.len() > text.len() - from {
        proof {
            lemma_no_room_from(text@, pattern@, from as int);
        }
        return None;
    }
    let mut at: usize = from;
    while at <= text.len() - pattern.len()
        invariant
            from <= at,
            pattern@.len() <= text@.len(),
            at <= text@.len() - pattern@.len() + 1,
            first_at(text@, pattern@, from as int) == first_at(text@, pattern@, at as int),
        decreases text@.len() - pattern@.len() + 1 - at,
    {
        let mut k: usize = 0;
        let n = text.len();
        while k < pattern.len() && text[at + k] == pattern[k]
            invariant
                n == text@.len(),
                pattern@.len() <= text@.len(),
                at + pattern@.len() <= text@.len(),
                k <= pattern@.len(),
                forall|j: int| 0 <= j < k ==> text@[at + j] == pattern@[j],
            decreases pattern@.len() - k,
        {
            k = k + 1;
        }
        if k == pattern.len() {
            assert(text@.subrange(at as int, at + pattern@.len()) =~= pattern@);
            return Some(at);
        }
        assert(text@.subrange(at as int, at + pattern@.len())[k as int] != pattern@[k as int]);
        at = at + 1;
    }
    proof {
        lemma_no_room_from(text@, pattern@, at as int);
    }
    None
}

proof fn lemma_no_room_from(text: Seq<char>, pattern: Seq<char>, i: int)
    requires
        i > text.len() - pattern.len(),
    ensures
        first_at(text, pattern, i) is None,
    decreases text.len() + 1 - i,
{
    if i < 0 || i > text.len() {
    } else {
        lemma_no_room_from(text, pattern, i + 1);
    }
}

/// The chars of `text` from `at` to `end` taken out.
fn cut_chars(text: &[char], at: usize, end: usize) -> (rest: Vec<char>)
    requires
        at <= end <= text@.len(),
    ensures
        rest@ == cut(text@, at as int, end as int),
{
    let mut rest: Vec<char> = Vec::new();
    let mut i: usize = 0;
    while i < at
        invariant
            i <= at <= end <= text@.len(),
            rest@ == text@.take(i as int),
        decreases at - i,
    {
        rest.push(text[i]);
        assert(rest@ =~= text@.take(i + 1));
        i = i + 1;
    }
    let mut j: usize = end;
    while j < text.len()
        invariant
            at <= end <= j <= text@.len(),
            rest@ == text@.take(at as int) + text@.subrange(end as int, j as int),
        decreases text@.len() - j,
    {
        rest.push(text[j]);
        assert(rest@ =~= text@.take(at as int) + text@.subrange(end as int, j + 1));
        j = j + 1;
    }
    assert(text@.subrange(end as int, text@.len() as int) =~= text@.skip(end as int));
    rest
}

/// The entries of `origin` from `a` to `b` dropped.
fn drain_range(origin: &[usize], a: usize, b: usize) -> (rest: Vec<usize>)
    requires
        a <= b <= origin@.len(),
    ensures
        rest@ == origin@.take(a as int) + origin@.skip(b as int),
{
    let mut rest: Vec<usize> = Vec::new();
    let mut i: usize = 0;
    while i < a
        invariant
            i <= a <= b <= origin@.len(),
            rest@ == origin@.take(i as int),
        decreases a - i,
    {
        rest.push(origin[i]);
        assert(rest@ =~= origin@.take(i + 1));
        i = i + 1;
    }
    let mut j: usize = b;
    while j < origin.len()
        invariant
            a <= b <= j <= origin@.len(),
            rest@ == origin@.take(a as int) + origin@.subrange(b as int, j as int),
        decreases origin@.len() - j,
    {
        rest.push(origin[j]);
        assert(rest@ =~= origin@.take(a as int) + origin@.subrange(b as int, j + 1));
        j = j + 1;
    }
    assert(origin@.subrange(b as int, origin@.len() as int) =~= origin@.skip(b as int));
    rest
}

/// Removes every ignored string from `text`. When one was found, returns
/// the byte offset in the caller's input of every byte of the shortened
/// text and of its end, so token spans can be mapped back; spans need no
/// mapping otherwise.
pub fn remove_ignored(text: &mut String, ignored: &[String]) -> (origin: Option<Vec<usize>>)
    requires
        encode_utf8(old(text)@).len() < usize::MAX,
    ensures
        final(text)@ == spec_remove_ignored(old(text)@, crate::players::texts(ignored@)).0,
        match origin {
            Some(origin) => spec_remove_ignored(old(text)@, crate::players::texts(ignored@)).1 == Some(origin@),
            None => spec_remove_ignored(old(text)@, crate::players::texts(ignored@)).1 is None,
        },
{
    let ghost needles = crate::players::texts(ignored@);
    let mut chars = chars_of(text.as_str());
    let total = offset_of(chars.as_slice(), chars.len());
    proof {
        assert(chars@.take(chars@.len() as int) =~= chars@);
    }
    let mut origin: Vec<usize> = Vec::new();
    let mut b: usize = 0;
    while b <= total
        invariant
            total == encode_utf8(chars@).len(),
            total < usize::MAX,
            b <= total + 1,
            origin@ == identity_origin(total as nat).take(b as int),
        decreases total + 1 - b,
    {
        origin.push(b);
        assert(origin@ =~= identity_origin(total as nat).take(b + 1));
        b = b + 1;
    }
    assert(origin@ =~= identity_origin(total as nat));
    let ghost start_chars = chars@;
    let mut found = false;
    let mut k: usize = 0;
    while k < ignored.len()
        invariant
            k <= ignored@.len(),
            needles == crate::players::texts(ignored@),
            start_chars == old(text)@,
            total == encode_utf8(start_chars).len(),
            (chars@, origin@, found) == cut_needles(start_chars, identity_origin(total as nat), needles, k as int),
            origin@.len() == encode_utf8(chars@).len() + 1,
            encode_utf8(chars@).len() < usize::MAX,
        decreases ignored@.len() - k,
    {
        let pattern = chars_of(ignored[k].as_str());
        let ghost at_start = (chars@, origin@);
        let mut here = false;
        let mut from: usize = 0;
        if pattern.len() != 0 {
            while from <= chars.len()
                invariant
                    pattern@ == needles[k as int],
                    pattern@.len() != 0,
                    from <= chars@.len() + 1,
                    origin@.len() == encode_utf8(chars@).len() + 1,
                    encode_utf8(chars@).len() < usize::MAX,
                    ({
                        let goal = cut_all(at_start.0, at_start.1, pattern@, 0);
                        let now = cut_all(chars@, origin@, pattern@, from as int);
                        &&& now.0 == goal.0
                        &&& now.1 == goal.1
                        &&& (here || now.2) == goal.2
                    }),
                ensures
                    cut_all(chars@, origin@, pattern@, from as int) == (chars@, origin@, false),
                    origin@.len() == encode_utf8(chars@).len() + 1,
                    encode_utf8(chars@).len() < usize::MAX,
                    ({
                        let goal = cut_all(at_start.0, at_start.1, pattern@, 0);
                        let now = cut_all(chars@, origin@, pattern@, from as int);
                        &&& now.0 == goal.0
                        &&& now.1 == goal.1
                        &&& (here || now.2) == goal.2
                    }),
                decreases chars@.len() + 2 - from,
            {
                let at = match find_from(chars.as_slice(), pattern.as_slice(), from) {
                    Some(at) => at,
                    None => break,
                };
                proof {
                    lemma_first_at(chars@, pattern@, from as int);
                }
                let end = at + pattern.len();
                let a = offset_of(chars.as_slice(), at);
                let z = offset_of(chars.as_slice(), end);
                proof {
                    encode_len_split(chars@, at as int, end as int);
                }
                let next_origin = drain_range(origin.as_slice(), a, z);
                let next_chars = cut_chars(chars.as_slice(), at, end);
                chars = next_chars;
                origin = next_origin;
                here = true;
                from = at;
            }
        }
        proof {
            if pattern@.len() == 0 {
                assert(cut_all(at_start.0, at_start.1, pattern@, 0) == (at_start.0, at_start.1, false));
            }
            assert(cut_needles(start_chars, identity_origin(total as nat), needles, k + 1) == (
                chars@,
                origin@,
                found || here,
            ));
        }
        found = found || here;
        k = k + 1;
    }
    *text = string_of(chars.as_slice());
    if found {
        Some(origin)
    } else {
        None
    }
}

/// Where the last `.` of `text` stands, searching from the end of its
/// first `n` chars.
pub open spec fn last_dot(text: Seq<char>, n: int) -> Option<int>
    decreases n,
{
    if n <= 0 {
        None
    } else if text[n - 1] == '.' {
        Some(n - 1)
    } else {
        last_dot(text, n - 1)
    }
}

proof fn lemma_last_dot(text: Seq<char>, n: int)
    ensures
        match last_dot(text, n) {
            Some(dot) => 0 <= dot < n && text[dot] == '.',
            None => true,
        },
    decreases n,
{
    if n > 0 && text[n - 1] != '.' {
        lemma_last_dot(text, n - 1);
    }
}

/// Where the dot before a known extension stands: the part after the last
/// `.`, one to four ASCII letters or digits that the table knows, in upper
/// case, as a file extension. Only when the options ask for extensions.
pub open spec fn extension_dot(text: Seq<char>, options: Options, table: KeywordTable) -> Option<int> {
    if !options.parse_file_extension {
        None
    } else {
        match last_dot(text, text.len() as int) {
            None => None,
            Some(dot) => {
                let extension = text.skip(dot + 1);
                if 1 <= extension.len() <= 4 && (forall|i: int| 0 <= i < extension.len() ==> is_ascii_alphanumeric(#[trigger] extension[i]))
                    && first_match(table.spec_entries(), upper_seq(extension), Some(ElementKind::FileExtension)) is Some {
                    Some(dot)
                } else {
                    None
                }
            },
        }
    }
}

/// The extension after the dot at `dot`, as written, spanning the bytes
/// after the dot.
pub open spec fn extension_fact(input: Seq<char>, dot: int) -> FactView {
    FactView {
        kind: ElementKind::FileExtension,
        value: input.skip(dot + 1),
        span: Span { start: (byte_offset(input, dot) + 1) as usize, end: encode_utf8(input).len() as usize },
        by: RuleName::Prelude,
        certainty: Certainty::Stated,
    }
}

proof fn lemma_last_dot_before(stem: Seq<char>, extension: Seq<char>, m: int)
    requires
        stem.len() < m <= stem.len() + 1 + extension.len(),
        forall|i: int| 0 <= i < extension.len() ==> is_ascii_alphanumeric(#[trigger] extension[i]),
    ensures
        last_dot(stem + seq!['.'] + extension, m) == Some(stem.len() as int),
    decreases m,
{
    let s = stem + seq!['.'] + extension;
    if m > stem.len() + 1 {
        assert(s[m - 1] == extension[m - 1 - stem.len() - 1]);
        assert(is_ascii_alphanumeric(extension[m - 1 - stem.len() - 1]));
        lemma_last_dot_before(stem, extension, m - 1);
    } else {
        assert(s[m - 1] == '.');
    }
}

/// A name that ends in a dot and one to four ASCII letters or digits that
/// the table knows, in upper case, as a file extension has that extension
/// cut at that dot, whatever comes before it, when the options ask for
/// extensions.
pub proof fn lemma_known_extension_is_cut(stem: Seq<char>, extension: Seq<char>, options: Options, table: KeywordTable)
    requires
        options.parse_file_extension,
        1 <= extension.len() <= 4,
        forall|i: int| 0 <= i < extension.len() ==> is_ascii_alphanumeric(#[trigger] extension[i]),
        first_match(table.spec_entries(), upper_seq(extension), Some(ElementKind::FileExtension)) is Some,
    ensures
        extension_dot(stem + seq!['.'] + extension, options, table) == Some(stem.len() as int),
{
    let s = stem + seq!['.'] + extension;
    lemma_last_dot_before(stem, extension, s.len() as int);
    assert(s.skip(stem.len() + 1int) =~= extension);
}

/// Cuts a known extension off `text` and records it, as written, as the
/// file's extension, spanning the bytes after the dot; leaves both alone
/// otherwise.
pub fn strip_extension(text: &mut String, options: &Options, table: &KeywordTable, elements: &mut Elements)
    requires
        encode_utf8(old(text)@).len() <= usize::MAX,
    ensures
        match extension_dot(old(text)@, *options, *table) {
            Some(dot) => {
                &&& final(text)@ == old(text)@.take(dot)
                &&& final(text)@ + seq!['.'] + final(elements)@.last().value@ == old(text)@
                &&& final(elements)@.len() == old(elements)@.len() + 1
                &&& final(elements)@.take(old(elements)@.len() as int) == old(elements)@
                &&& final(elements)@.last()@ == extension_fact(old(text)@, dot)
            },
            None => final(text)@ == old(text)@ && final(elements)@ == old(elements)@,
        },
{
    if !options.parse_file_extension {
        return;
    }
    let chars = chars_of(text.as_str());
    let mut k: usize = chars.len();
    while k > 0 && chars[k - 1] != '.'
        invariant
            k <= chars@.len(),
            last_dot(chars@, chars@.len() as int) == last_dot(chars@, k as int),
        decreases k,
    {
        k = k - 1;
    }
    if k == 0 {
        return;
    }
    let dot = k - 1;
    assert(last_dot(chars@, chars@.len() as int) == Some(dot as int));
    assert(chars@[dot as int] == '.');
    let ghost extension = chars@.skip(k as int);
    let length = chars.len() - k;
    if length < 1 || length > 4 {
        return;
    }
    let mut upper: Vec<char> = Vec::new();
    let mut i: usize = k;
    while i < chars.len()
        invariant
            k <= i <= chars@.len(),
            k == dot + 1,
            1 <= chars@.len() - k <= 4,
            options.parse_file_extension,
            chars@ == text@,
            text@ == old(text)@,
            *elements == *old(elements),
            last_dot(chars@, chars@.len() as int) == Some(dot as int),
            extension == chars@.skip(k as int),
            upper@ == upper_seq(extension.take(i - k)),
            forall|j: int| 0 <= j < i - k ==> is_ascii_alphanumeric(#[trigger] extension[j]),
        decreases chars@.len() - i,
    {
        assert(extension[i - k] == chars@[i as int]);
        if !alphanumeric(chars[i]) {
            assert(!is_ascii_alphanumeric(extension[i - k]));
            assert(!(forall|j: int| 0 <= j < extension.len() ==> is_ascii_alphanumeric(#[trigger] extension[j])));
            return;
        }
        upper.push(to_ascii_upper(chars[i]));
        assert(extension.take(i + 1 - k) =~= extension.take(i - k).push(extension[i - k]));
        assert(upper@ =~= upper_seq(extension.take(i + 1 - k)));
        i = i + 1;
    }
    assert(extension.take(extension.len() as int) =~= extension);
    let upper_text = string_of(upper.as_slice());
    if table.find(ElementKind::FileExtension, upper_text.as_str()).is_none() {
        return;
    }
    proof {
        crate::text::lemma_offset_step(chars@, dot as int);
        crate::text::lemma_width('.');
        crate::text::lemma_offset_monotone(chars@, dot + 1, chars@.len() as int);
    }
    let start = offset_of(chars.as_slice(), dot) + 1;
    let end = text.as_str().len();
    let value = string_of_range(chars.as_slice(), k, chars.len());
    assert(value@ == extension);
    elements.push(
        Fact { kind: ElementKind::FileExtension, value, span: Span { start, end }, by: RuleName::Prelude, certainty: Certainty::Stated },
    );
    *text = string_of_range(chars.as_slice(), 0, dot);
    assert(text@ =~= chars@.take(dot as int));
    assert(text@ + seq!['.'] + extension =~= chars@);
}

/// What the reader has of a name before it tokenizes it.
pub struct Prelude {
    /// The name without a known extension and with every ignored string
    /// taken out.
    pub text: String,
    /// The extension when one was cut, then the file name.
    pub elements: Elements,
    /// Where each byte of `text`, and its end, stands in the input, when an
    /// ignored string was taken out; offsets need no mapping otherwise.
    pub origin: Option<Vec<usize>>,
}

/// The name with a known extension cut off.
pub open spec fn stripped(input: Seq<char>, options: Options, table: KeywordTable) -> Seq<char> {
    match extension_dot(input, options, table) {
        Some(dot) => input.take(dot),
        None => input,
    }
}

/// Where in the input what is left of the name ends.
pub open spec fn name_end(left: Seq<char>, origin: Option<Seq<usize>>) -> usize {
    match origin {
        Some(origin) => origin.last(),
        None => encode_utf8(left).len() as usize,
    }
}

/// The file name: what is left of the name, spanning the input up to
/// where it ends.
pub open spec fn name_fact(left: Seq<char>, end: usize) -> FactView {
    FactView {
        kind: ElementKind::FileName,
        value: left,
        span: Span { start: 0, end },
        by: RuleName::Prelude,
        certainty: Certainty::Stated,
    }
}

/// The facts of the prelude: the extension when one was cut, then the file
/// name when anything is left of it.
pub open spec fn prelude_facts(input: Seq<char>, options: Options, table: KeywordTable) -> Seq<FactView> {
    let (left, origin) = spec_remove_ignored(stripped(input, options, table), crate::players::texts(options.ignored_strings@));
    (match extension_dot(input, options, table) {
        Some(dot) => seq![extension_fact(input, dot)],
        None => Seq::empty(),
    }) + (if left.len() > 0 {
        seq![name_fact(left, name_end(left, origin))]
    } else {
        Seq::empty()
    })
}

/// Reads what comes before tokenizing: a known extension is cut off and
/// recorded, every ignored string is taken out with a map back to the
/// input, and what is left is recorded as the file name.
pub fn prelude(input: &str, options: &Options, table: &KeywordTable) -> (read: Prelude)
    requires
        encode_utf8(input@).len() < usize::MAX,
    ensures
        ({
            let (left, origin) = spec_remove_ignored(
                stripped(input@, *options, *table),
                crate::players::texts(options.ignored_strings@),
            );
            &&& read.text@ == left
            &&& match read.origin {
                Some(map) => origin == Some(map@),
                None => origin is None,
            }
            &&& facts_view(read.elements@) == prelude_facts(input@, *options, *table)
        }),
{
    let mut text = input.to_owned();
    let mut elements = Elements::new();
    strip_extension(&mut text, options, table, &mut elements);
    let ghost cut_text = text@;
    proof {
        match extension_dot(input@, *options, *table) {
            Some(dot) => {
                lemma_last_dot(input@, input@.len() as int);
                crate::text::lemma_offset_monotone(input@, dot, input@.len() as int);
                assert(input@.take(input@.len() as int) =~= input@);
            },
            None => {},
        }
        assert(cut_text == stripped(input@, *options, *table));
        assert(facts_view(elements@) =~= match extension_dot(input@, *options, *table) {
            Some(dot) => seq![extension_fact(input@, dot)],
            None => Seq::<FactView>::empty(),
        });
    }
    let ghost before = elements@;
    let origin = remove_ignored(&mut text, options.ignored_strings.as_slice());
    proof {
        lemma_remove_ignored_maps_back(cut_text, crate::players::texts(options.ignored_strings@));
    }
    let end = match &origin {
        Some(map) => map[map.len() - 1],
        None => text.as_str().len(),
    };
    elements.push(
        Fact { kind: ElementKind::FileName, value: text.clone(), span: Span { start: 0, end }, by: RuleName::Prelude, certainty: Certainty::Stated },
    );
    assert(facts_view(elements@) =~= facts_view(before) + (if text@.len() > 0 {
        seq![name_fact(text@, end)]
    } else {
        Seq::<FactView>::empty()
    }));
    Prelude { text, elements, origin }
}

} // verus!
