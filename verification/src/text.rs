//! Character-level helpers the readers share: going between `str`, `String`
//! and sequences of `char`, and the character classes the rules test.

use vstd::prelude::*;
use vstd::std_specs::iter::IteratorSpec;
use vstd::utf8::{encode_scalar, encode_utf8};

verus! {

/// Every char of `s`, in order.
pub fn chars_of(s: &str) -> (chars: Vec<char>)
    ensures
        chars@ == s@,
{
    let mut chars: Vec<char> = Vec::new();
    for c in it: s.chars()
        invariant
            chars@ == it.seq().take(it.index() as int),
    {
        chars.push(c);
    }
    chars
}

/// Appends one char to a string (`String::push`).
#[verifier::external_body]
pub(crate) fn push_char(s: &mut String, c: char)
    ensures
        final(s)@ == old(s)@.push(c),
{
    s.push(c);
}

/// Appends every char of `t`.
pub fn push_str(s: &mut String, t: &str)
    ensures
        final(s)@ == old(s)@ + t@,
{
    let chars = chars_of(t);
    let mut i: usize = 0;
    while i < chars.len()
        invariant
            i <= chars@.len(),
            chars@ == t@,
            s@ == old(s)@ + chars@.take(i as int),
        decreases chars@.len() - i,
    {
        push_char(s, chars[i]);
        i = i + 1;
        assert(s@ =~= old(s)@ + chars@.take(i as int));
    }
    assert(chars@.take(chars@.len() as int) =~= chars@);
}

/// The string spelled by `chars`.
pub fn string_of(chars: &[char]) -> (s: String)
    ensures
        s@ == chars@,
{
    let mut s = String::new();
    let mut i: usize = 0;
    while i < chars.len()
        invariant
            i <= chars@.len(),
            s@ == chars@.take(i as int),
        decreases chars@.len() - i,
    {
        push_char(&mut s, chars[i]);
        i = i + 1;
        assert(s@ =~= chars@.take(i as int));
    }
    assert(chars@.take(chars@.len() as int) =~= chars@);
    s
}

/// The string spelled by `chars[start..end]`.
pub fn string_of_range(chars: &[char], start: usize, end: usize) -> (s: String)
    requires
        start <= end <= chars@.len(),
    ensures
        s@ == chars@.subrange(start as int, end as int),
{
    let mut s = String::new();
    let mut i: usize = start;
    while i < end
        invariant
            start <= i <= end <= chars@.len(),
            s@ == chars@.subrange(start as int, i as int),
        decreases end - i,
    {
        push_char(&mut s, chars[i]);
        i = i + 1;
        assert(s@ =~= chars@.subrange(start as int, i as int));
    }
    s
}

/// Whether two char sequences are the same.
pub fn same_chars(a: &[char], b: &[char]) -> (same: bool)
    ensures
        same == (a@ == b@),
{
    if a.len() != b.len() {
        return false;
    }
    let mut i: usize = 0;
    while i < a.len()
        invariant
            i <= a@.len(),
            a@.len() == b@.len(),
            forall|j: int| 0 <= j < i ==> a@[j] == b@[j],
        decreases a@.len() - i,
    {
        if a[i] != b[i] {
            return false;
        }
        i = i + 1;
    }
    assert(a@ =~= b@);
    true
}

/// Whether two strings spell the same chars.
pub fn same_text(a: &str, b: &str) -> (same: bool)
    ensures
        same == (a@ == b@),
{
    let a = chars_of(a);
    let b = chars_of(b);
    same_chars(a.as_slice(), b.as_slice())
}

/// Unicode `White_Space`, the class `char::is_whitespace` tests.
pub open spec fn is_whitespace(c: char) -> bool {
    let v = c as u32;
    ||| 0x09 <= v <= 0x0D
    ||| v == 0x20
    ||| v == 0x85
    ||| v == 0xA0
    ||| v == 0x1680
    ||| 0x2000 <= v <= 0x200A
    ||| v == 0x2028
    ||| v == 0x2029
    ||| v == 0x202F
    ||| v == 0x205F
    ||| v == 0x3000
}

pub fn char_is_whitespace(c: char) -> (b: bool)
    ensures
        b == is_whitespace(c),
{
    let v = c as u32;
    (0x09 <= v && v <= 0x0D) || v == 0x20 || v == 0x85 || v == 0xA0 || v == 0x1680 || (0x2000
        <= v && v <= 0x200A) || v == 0x2028 || v == 0x2029 || v == 0x202F || v == 0x205F || v
        == 0x3000
}

/// Nothing but whitespace, the empty text included: what `trim` leaves
/// empty.
pub open spec fn is_blank(s: Seq<char>) -> bool {
    forall|i: int| 0 <= i < s.len() ==> #[trigger] is_whitespace(s[i])
}

pub fn blank(s: &str) -> (b: bool)
    ensures
        b == is_blank(s@),
{
    let chars = chars_of(s);
    let mut i: usize = 0;
    while i < chars.len()
        invariant
            i <= chars@.len(),
            chars@ == s@,
            forall|j: int| 0 <= j < i ==> #[trigger] is_whitespace(chars@[j]),
        decreases chars@.len() - i,
    {
        if !char_is_whitespace(chars[i]) {
            return false;
        }
        i = i + 1;
    }
    true
}

pub open spec fn is_ascii_digit(c: char) -> bool {
    '0' <= c && c <= '9'
}

pub open spec fn is_ascii_alpha(c: char) -> bool {
    ('a' <= c && c <= 'z') || ('A' <= c && c <= 'Z')
}

pub open spec fn is_ascii_alphanumeric(c: char) -> bool {
    is_ascii_digit(c) || is_ascii_alpha(c)
}

pub open spec fn ascii_lower(c: char) -> char {
    if 'A' <= c && c <= 'Z' {
        ((c as u32) + 32) as char
    } else {
        c
    }
}

pub open spec fn ascii_upper(c: char) -> char {
    if 'a' <= c && c <= 'z' {
        ((c as u32) - 32) as char
    } else {
        c
    }
}

pub fn digit(c: char) -> (b: bool)
    ensures
        b == is_ascii_digit(c),
{
    '0' <= c && c <= '9'
}

pub fn alphanumeric(c: char) -> (b: bool)
    ensures
        b == is_ascii_alphanumeric(c),
{
    ('0' <= c && c <= '9') || ('a' <= c && c <= 'z') || ('A' <= c && c <= 'Z')
}

pub fn to_ascii_lower(c: char) -> (l: char)
    ensures
        l == ascii_lower(c),
{
    if 'A' <= c && c <= 'Z' {
        let v = (c as u32) + 32;
        assert(0x61 <= v <= 0x7A);
        char_from_ascii(v)
    } else {
        c
    }
}

pub fn to_ascii_upper(c: char) -> (u: char)
    ensures
        u == ascii_upper(c),
{
    if 'a' <= c && c <= 'z' {
        let v = (c as u32) - 32;
        char_from_ascii(v)
    } else {
        c
    }
}

/// The ASCII char with code `v`.
pub(crate) fn char_from_ascii(v: u32) -> (c: char)
    requires
        v < 128,
    ensures
        c == v as char,
        c as u32 == v,
{
    let b = v as u8;
    let c = b as char;
    assert(c as u32 == v);
    c
}

/// The chars of `s` with ASCII letters lowered.
pub open spec fn lower_seq(s: Seq<char>) -> Seq<char> {
    s.map_values(|c: char| ascii_lower(c))
}

/// The chars of `s` with ASCII letters raised.
pub open spec fn upper_seq(s: Seq<char>) -> Seq<char> {
    s.map_values(|c: char| ascii_upper(c))
}

pub fn lower_chars(s: &[char]) -> (l: Vec<char>)
    ensures
        l@ == lower_seq(s@),
{
    let mut l: Vec<char> = Vec::new();
    let mut i: usize = 0;
    while i < s.len()
        invariant
            i <= s@.len(),
            l@ == lower_seq(s@.take(i as int)),
        decreases s@.len() - i,
    {
        l.push(to_ascii_lower(s[i]));
        i = i + 1;
        assert(l@ =~= lower_seq(s@.take(i as int)));
    }
    assert(s@.take(s@.len() as int) =~= s@);
    l
}

pub fn upper_chars(s: &[char]) -> (u: Vec<char>)
    ensures
        u@ == upper_seq(s@),
{
    let mut u: Vec<char> = Vec::new();
    let mut i: usize = 0;
    while i < s.len()
        invariant
            i <= s@.len(),
            u@ == upper_seq(s@.take(i as int)),
        decreases s@.len() - i,
    {
        u.push(to_ascii_upper(s[i]));
        i = i + 1;
        assert(u@ =~= upper_seq(s@.take(i as int)));
    }
    assert(s@.take(s@.len() as int) =~= s@);
    u
}

/// Equal once ASCII letters are folded to one case
/// (`eq_ignore_ascii_case`).
pub open spec fn eq_ignore_ascii_case(a: Seq<char>, b: Seq<char>) -> bool {
    lower_seq(a) == lower_seq(b)
}

pub fn same_ignoring_ascii_case(a: &[char], b: &[char]) -> (same: bool)
    ensures
        same == eq_ignore_ascii_case(a@, b@),
{
    let la = lower_chars(a);
    let lb = lower_chars(b);
    same_chars(la.as_slice(), lb.as_slice())
}

/// The value of a run of ASCII digits.
pub open spec fn decimal_value(s: Seq<char>) -> nat
    decreases s.len(),
{
    if s.len() == 0 {
        0
    } else {
        decimal_value(s.drop_last()) * 10 + ((s.last() as u32) - ('0' as u32)) as nat
    }
}

/// How many ASCII digits `s` starts with.
pub open spec fn digit_run(s: Seq<char>) -> nat
    decreases s.len(),
{
    if s.len() == 0 || !is_ascii_digit(s[0]) {
        0
    } else {
        1 + digit_run(s.drop_first())
    }
}

/// The number the text starts with: its leading ASCII digits, or `None`
/// when there are none or they overflow a `u32`.
pub open spec fn spec_leading_number(s: Seq<char>) -> Option<u32> {
    let run = digit_run(s);
    if run == 0 || decimal_value(s.take(run as int)) > u32::MAX {
        None
    } else {
        Some(decimal_value(s.take(run as int)) as u32)
    }
}

pub proof fn lemma_digit_run(s: Seq<char>)
    ensures
        digit_run(s) <= s.len(),
        forall|i: int| 0 <= i < digit_run(s) ==> #[trigger] is_ascii_digit(s[i]),
        digit_run(s) < s.len() ==> !is_ascii_digit(s[digit_run(s) as int]),
    decreases s.len(),
{
    if s.len() > 0 && is_ascii_digit(s[0]) {
        lemma_digit_run(s.drop_first());
        assert forall|i: int| 0 <= i < digit_run(s) implies #[trigger] is_ascii_digit(s[i]) by {
            if i > 0 {
                assert(s[i] == s.drop_first()[i - 1]);
            }
        }
    }
}

/// Extending a digit run never makes its value smaller.
proof fn lemma_decimal_value_grows(s: Seq<char>, i: int, j: int)
    requires
        0 <= i <= j <= s.len(),
        forall|k: int| 0 <= k < j ==> #[trigger] is_ascii_digit(s[k]),
    ensures
        decimal_value(s.take(i)) <= decimal_value(s.take(j)),
    decreases j - i,
{
    if i < j {
        lemma_decimal_value_grows(s, i, j - 1);
        assert(s.take(j).drop_last() =~= s.take(j - 1));
    }
}

/// The number `text` starts with; see [`spec_leading_number`].
pub fn leading_number(text: &[char]) -> (number: Option<u32>)
    ensures
        number == spec_leading_number(text@),
{
    proof {
        lemma_digit_run(text@);
    }
    let mut value: u64 = 0;
    let mut i: usize = 0;
    while i < text.len() && digit(text[i])
        invariant
            i <= text@.len(),
            i <= digit_run(text@),
            digit_run(text@) <= text@.len(),
            forall|k: int| 0 <= k < digit_run(text@) ==> #[trigger] is_ascii_digit(text@[k]),
            digit_run(text@) < text@.len() ==> !is_ascii_digit(text@[digit_run(text@) as int]),
            value == decimal_value(text@.take(i as int)),
            value <= u32::MAX,
        decreases text@.len() - i,
    {
        let d = (text[i] as u32) - ('0' as u32);
        let next = value * 10 + d as u64;
        assert(text@.take(i + 1).drop_last() =~= text@.take(i as int));
        i = i + 1;
        if next > u32::MAX as u64 {
            proof {
                lemma_decimal_value_grows(text@, i as int, digit_run(text@) as int);
            }
            return None;
        }
        value = next;
    }
    if i == 0 {
        None
    } else {
        Some(value as u32)
    }
}

/// The UTF-8 encoding of a concatenation is the concatenation of the
/// encodings.
pub proof fn lemma_encode_concat(a: Seq<char>, b: Seq<char>)
    ensures
        encode_utf8(a + b) == encode_utf8(a) + encode_utf8(b),
    decreases a.len(),
{
    if a.len() == 0 {
        assert(a + b =~= b);
        assert(encode_utf8(a) =~= Seq::<u8>::empty());
        assert(encode_utf8(a) + encode_utf8(b) =~= encode_utf8(b));
    } else {
        assert((a + b).drop_first() =~= a.drop_first() + b);
        lemma_encode_concat(a.drop_first(), b);
        assert(encode_utf8(a + b) =~= encode_scalar(a[0] as u32) + encode_utf8(a.drop_first() + b));
    }
}

/// The byte offset of char `i` of `chars` in its UTF-8 encoding.
pub open spec fn byte_offset(chars: Seq<char>, i: int) -> int {
    encode_utf8(chars.take(i)).len() as int
}

/// Each char adds its own width to the offset.
pub proof fn lemma_offset_step(chars: Seq<char>, i: int)
    requires
        0 <= i < chars.len(),
    ensures
        byte_offset(chars, i + 1) == byte_offset(chars, i) + encode_utf8(seq![chars[i]]).len(),
        1 <= encode_utf8(seq![chars[i]]).len() <= 4,
{
    assert(chars.take(i + 1) =~= chars.take(i) + seq![chars[i]]);
    lemma_encode_concat(chars.take(i), seq![chars[i]]);
    lemma_width(chars[i]);
}

pub proof fn lemma_width(c: char)
    ensures
        1 <= encode_utf8(seq![c]).len() <= 4,
        encode_utf8(seq![c]).len() == (if (c as u32) <= 0x7F {
            1int
        } else if (c as u32) <= 0x7FF {
            2int
        } else if (c as u32) <= 0xFFFF {
            3int
        } else {
            4int
        }),
{
    vstd::utf8::char_is_scalar(c);
    assert(seq![c].drop_first() =~= Seq::<char>::empty());
    assert(encode_utf8(seq![c]) =~= encode_scalar(c as u32) + encode_utf8(Seq::<char>::empty()));
}

proof fn lemma_offset_lt(chars: Seq<char>, i: int, j: int)
    requires
        0 <= i <= j <= chars.len(),
    ensures
        byte_offset(chars, i) <= byte_offset(chars, j),
        i < j ==> byte_offset(chars, i) < byte_offset(chars, j),
    decreases j - i,
{
    if i < j {
        lemma_offset_step(chars, j - 1);
        lemma_offset_lt(chars, i, j - 1);
    }
}

/// Offsets grow with the index and stay within the encoding.
pub proof fn lemma_offset_monotone(chars: Seq<char>, i: int, j: int)
    requires
        0 <= i <= j <= chars.len(),
    ensures
        byte_offset(chars, i) <= byte_offset(chars, j) <= byte_offset(chars, chars.len() as int),
        byte_offset(chars, chars.len() as int) == encode_utf8(chars).len(),
        i < j ==> byte_offset(chars, i) < byte_offset(chars, j),
{
    assert(chars.take(chars.len() as int) =~= chars);
    lemma_offset_lt(chars, i, j);
    lemma_offset_lt(chars, j, chars.len() as int);
}

/// The UTF-8 length of a char.
pub fn char_width(c: char) -> (width: usize)
    ensures
        width == encode_utf8(seq![c]).len(),
        1 <= width <= 4,
{
    proof {
        lemma_width(c);
    }
    let v = c as u32;
    if v <= 0x7F {
        1
    } else if v <= 0x7FF {
        2
    } else if v <= 0xFFFF {
        3
    } else {
        4
    }
}

/// The encoding of a run of chars is as long as the offsets it spans.
pub proof fn lemma_run_bytes(chars: Seq<char>, a: int, b: int)
    requires
        0 <= a <= b <= chars.len(),
    ensures
        encode_utf8(chars.subrange(a, b)).len() == byte_offset(chars, b) - byte_offset(chars, a),
{
    assert(chars.take(b) =~= chars.take(a) + chars.subrange(a, b));
    lemma_encode_concat(chars.take(a), chars.subrange(a, b));
}

/// The byte offset of char `i`.
pub fn offset_of(chars: &[char], i: usize) -> (offset: usize)
    requires
        i <= chars@.len(),
        encode_utf8(chars@).len() <= usize::MAX,
    ensures
        offset == byte_offset(chars@, i as int),
{
    let mut offset: usize = 0;
    let mut k: usize = 0;
    proof {
        assert(chars@.take(0) =~= Seq::<char>::empty());
        lemma_offset_monotone(chars@, 0, chars@.len() as int);
    }
    while k < i
        invariant
            k <= i <= chars@.len(),
            encode_utf8(chars@).len() <= usize::MAX,
            offset == byte_offset(chars@, k as int),
        decreases i - k,
    {
        proof {
            lemma_offset_step(chars@, k as int);
            lemma_offset_monotone(chars@, k + 1, chars@.len() as int);
        }
        offset = offset + char_width(chars[k]);
        k = k + 1;
    }
    offset
}

/// The lower-case form of a text, as `str::to_lowercase` gives it.
pub uninterp spec fn lowercase(text: Seq<char>) -> Seq<char>;

/// Calls `str::to_lowercase`, whose result is the text with every char
/// mapped to its Unicode lower case; an empty text stays empty, and an
/// ASCII text has its ASCII letters lowered and nothing else changed.
#[verifier::external_body]
pub(crate) fn to_lowercase(text: &str) -> (lower: String)
    ensures
        lower@ == lowercase(text@),
        text@.len() == 0 ==> lower@.len() == 0,
        (forall|i: int| 0 <= i < text@.len() ==> ((#[trigger] text@[i]) as u32) < 128) ==> lower@ == lower_seq(text@),
{
    text.to_lowercase()
}

/// Whether `pattern` occurs in `text` at `at`.
pub open spec fn occurs_at(text: Seq<char>, pattern: Seq<char>, at: int) -> bool {
    0 <= at && at + pattern.len() <= text.len() && text.subrange(at, at + pattern.len()) == pattern
}

/// Whether `pattern` occurs anywhere in `text`.
pub open spec fn contains_text(text: Seq<char>, pattern: Seq<char>) -> bool {
    exists|at: int| occurs_at(text, pattern, at)
}

/// `str::contains` for a text pattern.
pub fn contains(text: &[char], pattern: &[char]) -> (found: bool)
    ensures
        found == contains_text(text@, pattern@),
{
    if pattern.len() > text.len() {
        assert forall|at: int| !occurs_at(text@, pattern@, at) by {}
        return false;
    }
    let mut at: usize = 0;
    while at <= text.len() - pattern.len()
        invariant
            pattern@.len() <= text@.len(),
            at <= text@.len() - pattern@.len() + 1,
            forall|k: int| 0 <= k < at ==> !occurs_at(text@, pattern@, k),
        decreases text@.len() - pattern@.len() + 1 - at,
    {
        let mut k: usize = 0;
        let n = text.len();
        while k < pattern.len() && text[at + k] == pattern[k]
            invariant
                n == text@.len(),
                pattern@.len() <= text@.len(),
                at + pattern@.len() <= text@.len(),
                k <= pattern@.len(),
                forall|j: int| 0 <= j < k ==> text@[at + j] == pattern@[j],
            decreases pattern@.len() - k,
        {
            k = k + 1;
        }
        if k == pattern.len() {
            assert(text@.subrange(at as int, at + pattern@.len()) =~= pattern@);
            assert(occurs_at(text@, pattern@, at as int));
            return true;
        }
        assert(text@.subrange(at as int, at + pattern@.len())[k as int] != pattern@[k as int]);
        at = at + 1;
    }
    assert forall|a: int| !occurs_at(text@, pattern@, a) by {
        if 0 <= a && a < at {
        }
    }
    false
}

/// The decimal digits of a natural number.
pub open spec fn decimal_digits(n: nat) -> Seq<char>
    decreases n,
{
    if n < 10 {
        seq![((48 + n) as u32) as char]
    } else {
        decimal_digits(n / 10) + seq![((48 + n % 10) as u32) as char]
    }
}

/// An integer as `Display` writes it: its digits, after a minus sign when
/// it is negative.
pub open spec fn int_text(v: int) -> Seq<char> {
    if v < 0 {
        seq!['-'] + decimal_digits((-v) as nat)
    } else {
        decimal_digits(v as nat)
    }
}

fn digits_of(n: u64) -> (out: Vec<char>)
    ensures
        out@ == decimal_digits(n as nat),
    decreases n,
{
    if n < 10 {
        let mut out: Vec<char> = Vec::new();
        out.push(char_from_ascii(48 + n as u32));
        out
    } else {
        let mut out = digits_of(n / 10);
        out.push(char_from_ascii(48 + (n % 10) as u32));
        out
    }
}

/// Appends an integer as `Display` writes it.
pub fn push_int(s: &mut String, v: i64)
    ensures
        final(s)@ == old(s)@ + int_text(v as int),
{
    let magnitude: u64 = if v < 0 {
        if v == i64::MIN {
            0x8000_0000_0000_0000u64
        } else {
            (-v) as u64
        }
    } else {
        v as u64
    };
    let digits = digits_of(magnitude);
    if v < 0 {
        push_char(s, '-');
    }
    let ghost before = s@;
    let mut i: usize = 0;
    while i < digits.len()
        invariant
            i <= digits@.len(),
            s@ == before + digits@.take(i as int),
        decreases digits@.len() - i,
    {
        push_char(s, digits[i]);
        assert(digits@.take(i + 1) =~= digits@.take(i as int).push(digits@[i as int]));
        i = i + 1;
    }
    assert(digits@.take(digits@.len() as int) =~= digits@);
    assert(old(s)@ + int_text(v as int) =~= before + digits@);
}

/// Appends a natural number's decimal digits.
pub fn push_u64(s: &mut String, n: u64)
    ensures
        final(s)@ == old(s)@ + decimal_digits(n as nat),
{
    let digits = digits_of(n);
    let ghost before = s@;
    let mut i: usize = 0;
    while i < digits.len()
        invariant
            i <= digits@.len(),
            s@ == before + digits@.take(i as int),
        decreases digits@.len() - i,
    {
        push_char(s, digits[i]);
        assert(digits@.take(i + 1) =~= digits@.take(i as int).push(digits@[i as int]));
        i = i + 1;
    }
    assert(digits@.take(digits@.len() as int) =~= digits@);
}

/// Cutting the chars from `a` to `b` out of a text cuts the bytes from
/// their offsets out of its encoding.
pub proof fn encode_len_split(chars: Seq<char>, a: int, b: int)
    requires
        0 <= a <= b <= chars.len(),
    ensures
        byte_offset(chars, a) <= byte_offset(chars, b) <= encode_utf8(chars).len(),
        encode_utf8(chars.take(a) + chars.skip(b)).len() == encode_utf8(chars).len() - (byte_offset(chars, b)
            - byte_offset(chars, a)),
{
    lemma_offset_monotone(chars, a, b);
    lemma_offset_monotone(chars, b, chars.len() as int);
    assert(chars.take(chars.len() as int) =~= chars);
    lemma_encode_concat(chars.take(a), chars.skip(b));
    lemma_encode_concat(chars.take(b), chars.skip(b));
    assert(chars.take(b) + chars.skip(b) =~= chars);
}

} // verus!
