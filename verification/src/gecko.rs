//! Gecko browsers. Firefox and its forks publish a media session under an
//! app user model id that is a hash of the install directory: CityHash64
//! (Version 1) of the directory's UTF-16 bytes as sixteen uppercase hex
//! digits. A private window appends `;PrivateBrowsingAUMID`, which a
//! substring match on the bare hash still catches.
//!
//! Reading the registry is the shell's part; this module computes the id
//! and reads the executable out of a browser's open command.

use vstd::prelude::*;

use crate::city::{city_hash_64, spec_city_hash_64};
use crate::players::Player;
use crate::text::{chars_of, char_is_whitespace, is_whitespace, push_char, string_of_range};

verus! {

pub open spec fn is_hex_digit(c: char) -> bool {
    ('0' <= c && c <= '9') || ('a' <= c && c <= 'f') || ('A' <= c && c <= 'F')
}

/// The index of the first `c` in `s`, or its length.
pub open spec fn index_of(s: Seq<char>, c: char, from: int) -> int
    decreases s.len() - from,
{
    if from < 0 || from >= s.len() {
        s.len() as int
    } else if s[from] == c {
        from
    } else {
        index_of(s, c, from + 1)
    }
}

/// What stands before the first `c`.
pub open spec fn before(s: Seq<char>, c: char) -> Seq<char> {
    s.take(index_of(s, c, 0))
}

/// Sixteen hex digits, with or without a suffix after a `;`.
pub open spec fn spec_is_install_hash(app_id: Seq<char>) -> bool {
    let hash = before(app_id, ';');
    hash.len() == 16 && forall|i: int| 0 <= i < hash.len() ==> #[trigger] is_hex_digit(hash[i])
}

proof fn lemma_index_of(s: Seq<char>, c: char, from: int)
    requires
        0 <= from <= s.len(),
    ensures
        from <= index_of(s, c, from) <= s.len(),
        forall|i: int| from <= i < index_of(s, c, from) ==> #[trigger] s[i] != c,
        index_of(s, c, from) < s.len() ==> s[index_of(s, c, from)] == c,
    decreases s.len() - from,
{
    if from < s.len() && s[from] != c {
        lemma_index_of(s, c, from + 1);
    }
}

/// Whether an unmatched app id has the shape of an install hash, so a
/// fresh discovery is worth a try.
pub fn is_install_hash(app_id: &str) -> (hash: bool)
    ensures
        hash == spec_is_install_hash(app_id@),
{
    let chars = chars_of(app_id);
    proof {
        lemma_index_of(chars@, ';', 0);
    }
    let mut i: usize = 0;
    while i < chars.len() && chars[i] != ';'
        invariant
            i <= chars@.len(),
            chars@ == app_id@,
            index_of(chars@, ';', 0) == index_of(chars@, ';', i as int),
        decreases chars@.len() - i,
    {
        i = i + 1;
    }
    if i != 16 {
        return false;
    }
    let mut k: usize = 0;
    while k < 16
        invariant
            k <= 16 <= chars@.len(),
            chars@ == app_id@,
            i == 16,
            index_of(chars@, ';', 0) == 16,
            forall|j: int| 0 <= j < k ==> #[trigger] is_hex_digit(chars@[j]),
        decreases 16 - k,
    {
        let c = chars[k];
        if !(('0' <= c && c <= '9') || ('a' <= c && c <= 'f') || ('A' <= c && c <= 'F')) {
            assert(before(chars@, ';')[k as int] == c);
            assert(!is_hex_digit(before(app_id@, ';')[k as int]));
            return false;
        }
        k = k + 1;
    }
    assert forall|j: int| 0 <= j < 16 implies #[trigger] is_hex_digit(before(chars@, ';')[j]) by {
        assert(before(chars@, ';')[j] == chars@[j]);
    }
    true
}

/// The UTF-16 code units of a char.
pub open spec fn utf16_units(c: char) -> Seq<u16> {
    let v = c as u32;
    if v < 0x10000 {
        seq![v as u16]
    } else {
        let u = (v - 0x10000) as u32;
        seq![(0xD800u32 + (u >> 10u32)) as u16, (0xDC00u32 + (u & 0x3FFu32)) as u16]
    }
}

pub open spec fn le_bytes(units: Seq<u16>) -> Seq<u8>
    decreases units.len(),
{
    if units.len() == 0 {
        Seq::empty()
    } else {
        le_bytes(units.drop_last()) + seq![(units.last() & 0xFFu16) as u8, (units.last() >> 8u16) as u8]
    }
}

/// The UTF-16 little-endian bytes of a text.
pub open spec fn utf16_le(chars: Seq<char>) -> Seq<u8>
    decreases chars.len(),
{
    if chars.len() == 0 {
        Seq::empty()
    } else {
        utf16_le(chars.drop_last()) + le_bytes(utf16_units(chars.last()))
    }
}

/// The uppercase hex digit for a nibble.
pub open spec fn hex_digit(n: u64) -> char {
    seq!['0', '1', '2', '3', '4', '5', '6', '7', '8', '9', 'A', 'B', 'C', 'D', 'E', 'F'][n as int]
}

/// A word as sixteen uppercase hex digits, most significant first.
pub open spec fn hex16(x: u64) -> Seq<char> {
    Seq::new(16, |i: int| hex_digit((x >> ((60 - 4 * i) as u64)) & 0xFu64))
}

fn push_units(bytes: &mut Vec<u8>, c: char)
    ensures
        final(bytes)@ == old(bytes)@ + le_bytes(utf16_units(c)),
{
    let v = c as u32;
    if v < 0x10000 {
        let unit = v as u16;
        bytes.push((unit & 0xFFu16) as u8);
        bytes.push((unit >> 8u16) as u8);
        proof {
            let units = seq![unit];
            assert(le_bytes(Seq::<u16>::empty()) =~= Seq::<u8>::empty());
            assert(units.drop_last() =~= Seq::<u16>::empty());
            assert(units.last() == unit);
            assert(le_bytes(units) =~= seq![(unit & 0xFFu16) as u8, (unit >> 8u16) as u8]);
            assert(utf16_units(c) == units);
            assert(bytes@ =~= old(bytes)@ + le_bytes(units));
        }
    } else {
        let u = v - 0x10000;
        assert((u >> 10u32) < 0x400u32) by (bit_vector)
            requires
                u < 0x100000u32,
        ;
        assert((u & 0x3FFu32) <= 0x3FFu32) by (bit_vector);
        let high = (0xD800u32 + (u >> 10u32)) as u16;
        let low = (0xDC00u32 + (u & 0x3FFu32)) as u16;
        bytes.push((high & 0xFFu16) as u8);
        bytes.push((high >> 8u16) as u8);
        bytes.push((low & 0xFFu16) as u8);
        bytes.push((low >> 8u16) as u8);
        proof {
            let units = seq![high, low];
            assert(le_bytes(Seq::<u16>::empty()) =~= Seq::<u8>::empty());
            assert(units.drop_last() =~= seq![high]);
            assert(units.last() == low);
            assert(seq![high].drop_last() =~= Seq::<u16>::empty());
            assert(seq![high].last() == high);
            assert(le_bytes(seq![high]) =~= seq![(high & 0xFFu16) as u8, (high >> 8u16) as u8]);
            assert(le_bytes(units) =~= seq![(high & 0xFFu16) as u8, (high >> 8u16) as u8, (low & 0xFFu16) as u8, (low
                >> 8u16) as u8]);
            assert(utf16_units(c) == units);
            assert(bytes@ =~= old(bytes)@ + le_bytes(units));
        }
    }
}

/// The bytes the id is the hash of.
fn utf16_bytes(text: &str) -> (bytes: Vec<u8>)
    ensures
        bytes@ == utf16_le(text@),
{
    let chars = chars_of(text);
    let mut bytes: Vec<u8> = Vec::new();
    let mut i: usize = 0;
    while i < chars.len()
        invariant
            i <= chars@.len(),
            bytes@ == utf16_le(chars@.take(i as int)),
        decreases chars@.len() - i,
    {
        push_units(&mut bytes, chars[i]);
        assert(chars@.take(i + 1).drop_last() =~= chars@.take(i as int));
        i = i + 1;
    }
    assert(chars@.take(chars@.len() as int) =~= chars@);
    bytes
}

/// The id Firefox computes for an install directory: CityHash64 of the
/// canonical path's UTF-16 bytes, no trailing separator, uppercase hex.
pub fn hash_of(canonical_dir: &str) -> (id: String)
    ensures
        id@ == hex16(spec_city_hash_64(utf16_le(canonical_dir@))),
{
    let bytes = utf16_bytes(canonical_dir);
    let hash = city_hash_64(bytes.as_slice());
    let mut id = String::new();
    let mut i: u64 = 0;
    while i < 16
        invariant
            i <= 16,
            id@ == hex16(hash).take(i as int),
        decreases 16 - i,
    {
        let shift = 60 - 4 * i;
        let nibble = (hash >> shift) & 0xFu64;
        assert(((hash >> shift) & 0xFu64) < 16u64) by (bit_vector);
        let digits = ['0', '1', '2', '3', '4', '5', '6', '7', '8', '9', 'A', 'B', 'C', 'D', 'E', 'F'];
        let c = digits[nibble as usize];
        assert(digits@ =~= seq!['0', '1', '2', '3', '4', '5', '6', '7', '8', '9', 'A', 'B', 'C', 'D', 'E', 'F']);
        assert(c == hex_digit(nibble));
        push_char(&mut id, c);
        assert(id@ =~= hex16(hash).take(i + 1));
        i = i + 1;
    }
    id
}

/// The text without Unicode whitespace at either end.
pub open spec fn trimmed(s: Seq<char>) -> Seq<char> {
    let start = lead_space(s, 0);
    s.subrange(start, trail_space(s, start, s.len() as int))
}

pub open spec fn lead_space(s: Seq<char>, i: int) -> int
    decreases s.len() - i,
{
    if 0 <= i < s.len() && is_whitespace(s[i]) {
        lead_space(s, i + 1)
    } else {
        i
    }
}

pub open spec fn trail_space(s: Seq<char>, lo: int, e: int) -> int
    decreases e,
{
    if 0 <= lo < e <= s.len() && is_whitespace(s[e - 1]) {
        trail_space(s, lo, e - 1)
    } else {
        e
    }
}

/// `.exe` in any case starts at `i`.
pub open spec fn exe_at(s: Seq<char>, i: int) -> bool {
    0 <= i && i + 4 <= s.len() && s[i] == '.' && (s[i + 1] == 'e' || s[i + 1] == 'E') && (s[i + 2] == 'x' || s[i
        + 2] == 'X') && (s[i + 3] == 'e' || s[i + 3] == 'E')
}

/// The index of the first `.exe` at or after `from`, in any case.
pub open spec fn exe_index(s: Seq<char>, from: int) -> Option<int>
    decreases s.len() - from,
{
    if from < 0 || from + 4 > s.len() {
        None
    } else if exe_at(s, from) {
        Some(from)
    } else {
        exe_index(s, from + 1)
    }
}

/// The executable named by a `shell\open\command` value. Quoted commands
/// end at the closing quote; bare ones end at the first `.exe`, since an
/// unquoted path may contain spaces.
pub open spec fn spec_executable(command: Seq<char>) -> Option<Seq<char>> {
    let command = trimmed(command);
    let path = if command.len() > 0 && command[0] == '"' {
        before(command.drop_first(), '"')
    } else {
        match exe_index(command, 0) {
            Some(at) => command.take(at + 4),
            None => before(command, ' '),
        }
    };
    if path.len() == 0 {
        None
    } else {
        Some(path)
    }
}

/// The executable named by a `shell\open\command` value.
pub fn executable(command: &str) -> (path: Option<String>)
    ensures
        match path {
            Some(p) => spec_executable(command@) == Some(p@),
            None => spec_executable(command@) is None,
        },
{
    let chars = chars_of(command);
    let mut start: usize = 0;
    while start < chars.len() && char_is_whitespace(chars[start])
        invariant
            start <= chars@.len(),
            lead_space(chars@, 0) == lead_space(chars@, start as int),
        decreases chars@.len() - start,
    {
        start = start + 1;
    }
    let mut end: usize = chars.len();
    while end > start && char_is_whitespace(chars[end - 1])
        invariant
            start <= end <= chars@.len(),
            trail_space(chars@, start as int, chars@.len() as int) == trail_space(chars@, start as int, end as int),
        decreases end,
    {
        end = end - 1;
    }
    let ghost t = chars@.subrange(start as int, end as int);
    assert(t == trimmed(command@));
    let (from, to) = if start < end && chars[start] == '"' {
        let mut k: usize = start + 1;
        proof {
            lemma_index_of(t.drop_first(), '"', 0);
        }
        while k < end && chars[k] != '"'
            invariant
                start + 1 <= k <= end <= chars@.len(),
                t == chars@.subrange(start as int, end as int),
                index_of(t.drop_first(), '"', 0) == index_of(t.drop_first(), '"', k - start - 1),
            decreases end - k,
        {
            assert(t.drop_first()[k - start - 1] == chars@[k as int]);
            k = k + 1;
        }
        assert(chars@.subrange(start + 1, k as int) =~= before(t.drop_first(), '"'));
        (start + 1, k)
    } else {
        let mut at: usize = start;
        let mut found = false;
        while !found && end - at >= 4
            invariant
                start <= at <= end <= chars@.len(),
                t == chars@.subrange(start as int, end as int),
                found ==> exe_index(t, 0) == Some(at - start) && at + 4 <= end,
                !found ==> exe_index(t, 0) == exe_index(t, at - start),
            decreases end - at + (if found { 0int } else { 1int }),
        {
            let dot = chars[at] == '.';
            let e1 = chars[at + 1] == 'e' || chars[at + 1] == 'E';
            let x = chars[at + 2] == 'x' || chars[at + 2] == 'X';
            let e2 = chars[at + 3] == 'e' || chars[at + 3] == 'E';
            assert(t[at - start] == chars@[at as int]);
            assert(t[at - start + 1] == chars@[at + 1]);
            assert(t[at - start + 2] == chars@[at + 2]);
            assert(t[at - start + 3] == chars@[at + 3]);
            if dot && e1 && x && e2 {
                found = true;
            } else {
                at = at + 1;
            }
        }
        if found {
            assert(chars@.subrange(start as int, at + 4) =~= t.take(at - start + 4));
            (start, at + 4)
        } else {
            let mut k: usize = start;
            proof {
                lemma_index_of(t, ' ', 0);
            }
            while k < end && chars[k] != ' '
                invariant
                    start <= k <= end <= chars@.len(),
                    t == chars@.subrange(start as int, end as int),
                    index_of(t, ' ', 0) == index_of(t, ' ', k - start),
                decreases end - k,
            {
                assert(t[k - start] == chars@[k as int]);
                k = k + 1;
            }
            assert(chars@.subrange(start as int, k as int) =~= before(t, ' '));
            (start, k)
        }
    };
    assert(chars@.subrange(from as int, to as int) =~= (if t.len() > 0 && t[0] == '"' {
        before(t.drop_first(), '"')
    } else {
        match exe_index(t, 0) {
            Some(at) => t.take(at + 4),
            None => before(t, ' '),
        }
    }));
    if from == to {
        return None;
    }
    Some(string_of_range(chars.as_slice(), from, to))
}

/// The prefix `canonicalize` puts before a path on Windows.
pub open spec fn verbatim_prefix() -> Seq<char> {
    "\\\\?\\"@
}

/// `text` without the backslashes at its end.
pub open spec fn trim_backslashes(text: Seq<char>) -> Seq<char>
    decreases text.len(),
{
    if text.len() > 0 && text.last() == '\\' {
        trim_backslashes(text.drop_last())
    } else {
        text
    }
}

/// The on-disk spelling of a resolved path as Firefox hashes it: without
/// the verbatim prefix and without trailing separators.
pub open spec fn spec_canonical_text(resolved: Seq<char>) -> Seq<char> {
    let prefix = verbatim_prefix();
    let rest = if resolved.len() >= prefix.len() && resolved.take(prefix.len() as int) == prefix {
        resolved.skip(prefix.len() as int)
    } else {
        resolved
    };
    trim_backslashes(rest)
}

pub fn canonical_text(resolved: &str) -> (text: String)
    ensures
        text@ == spec_canonical_text(resolved@),
{
    let chars = chars_of(resolved);
    let prefix = chars_of("\\\\?\\");
    let mut start: usize = 0;
    if chars.len() >= prefix.len() {
        let mut k: usize = 0;
        while k < prefix.len() && chars[k] == prefix[k]
            invariant
                k <= prefix@.len() <= chars@.len(),
                forall|j: int| 0 <= j < k ==> chars@[j] == prefix@[j],
            decreases prefix@.len() - k,
        {
            k = k + 1;
        }
        if k == prefix.len() {
            assert(chars@.take(prefix@.len() as int) =~= prefix@);
            start = prefix.len();
        } else {
            assert(chars@.take(prefix@.len() as int)[k as int] != prefix@[k as int]);
        }
    }
    let ghost rest = chars@.skip(start as int);
    assert(rest == if chars@.len() >= prefix@.len() && chars@.take(prefix@.len() as int) == prefix@ {
        chars@.skip(prefix@.len() as int)
    } else {
        chars@
    });
    let mut end: usize = chars.len();
    while end > start && chars[end - 1] == '\\'
        invariant
            start <= end <= chars@.len(),
            rest == chars@.skip(start as int),
            trim_backslashes(rest) == trim_backslashes(chars@.subrange(start as int, end as int)),
        decreases end - start,
    {
        assert(chars@.subrange(start as int, end as int).drop_last() =~= chars@.subrange(start as int, end - 1));
        end = end - 1;
    }
    proof {
        if start == 0 {
            assert(chars@.skip(0) =~= chars@.subrange(0, chars@.len() as int));
        } else {
            assert(chars@.skip(start as int) =~= chars@.subrange(start as int, chars@.len() as int));
        }
    }
    string_of_range(chars.as_slice(), start, end)
}

/// The file name at the end of a Windows path: what follows its last
/// backslash, or the whole path when it has none.
pub open spec fn spec_file_name(path: Seq<char>) -> Seq<char>
    decreases path.len(),
{
    if path.len() == 0 {
        path
    } else if path.last() == '\\' {
        Seq::empty()
    } else {
        spec_file_name(path.drop_last()).push(path.last())
    }
}

pub fn file_name(path: &str) -> (name: String)
    ensures
        name@ == spec_file_name(path@),
{
    let chars = chars_of(path);
    let mut start: usize = chars.len();
    assert(chars@.take(chars@.len() as int) =~= chars@);
    assert(chars@.skip(chars@.len() as int) =~= Seq::<char>::empty());
    assert(spec_file_name(chars@) =~= spec_file_name(chars@.take(start as int)) + chars@.skip(start as int));
    while start > 0 && chars[start - 1] != '\\'
        invariant
            start <= chars@.len(),
            spec_file_name(chars@) == spec_file_name(chars@.take(start as int)) + chars@.skip(start as int),
        decreases start,
    {
        assert(chars@.take(start as int).drop_last() =~= chars@.take(start - 1));
        assert(chars@.skip(start - 1) =~= seq![chars@[start - 1]] + chars@.skip(start as int));
        start = start - 1;
    }
    assert(spec_file_name(chars@.take(start as int)) =~= Seq::<char>::empty());
    proof {
        assert(chars@.skip(start as int) =~= chars@.subrange(start as int, chars@.len() as int));
    }
    string_of_range(chars.as_slice(), start, chars.len())
}

/// The name a registered browser goes by: its display name when it has a
/// non-empty one, else its registry key.
pub open spec fn browser_name(key: Seq<char>, display_name: Option<String>) -> Seq<char> {
    match display_name {
        Some(name) if name@.len() > 0 => name@,
        _ => key,
    }
}

/// The player a registered browser becomes. Its id is the one pinned in the
/// registry for its install directory when there is one, since Firefox
/// looks there first, else the hash of the directory's canonical spelling;
/// its executable is the file its open command names.
pub fn discovered(
    key: String,
    display_name: Option<String>,
    exe_file: String,
    canonical_dir: &str,
    pinned: Option<String>,
) -> (player: Player)
    ensures
        player.name@ == browser_name(key@, display_name),
        player.smtc_app_ids@.len() == 1,
        player.smtc_app_ids@[0]@ == match pinned {
            Some(id) => id@,
            None => hex16(spec_city_hash_64(utf16_le(canonical_dir@))),
        },
        player.mpris_ids@.len() == 0,
        player.executables@ == seq![exe_file],
        !player.hidden,
{
    let name = match display_name {
        Some(name) => if name.as_str().is_empty() {
            key
        } else {
            name
        },
        None => key,
    };
    let id = match pinned {
        Some(id) => id,
        None => hash_of(canonical_dir),
    };
    let player = Player { name, smtc_app_ids: vec![id], mpris_ids: Vec::new(), executables: vec![exe_file], hidden: false };
    assert(player.executables@ =~= seq![exe_file]);
    player
}

} // verus!
