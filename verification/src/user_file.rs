//! What every file a person may edit has in common. The built-ins live in
//! the program and the file holds only what the person wrote. A problem
//! never stops the app and drops only the part it is in: a bad value or row
//! falls back to the built-in under it, an unknown key is ignored, and a
//! file that is not TOML at all applies nothing. Every problem is said, once
//! per file, in words the person can act on.
//!
//! The files are TOML; a read hands the document over as a [`TomlValue`]
//! tree, which holds what the readers look at.

use vstd::prelude::*;

use crate::players::texts;
use crate::text::{
    byte_offset, char_width, chars_of, char_is_whitespace, decimal_digits, is_whitespace, push_char, push_str, push_u64, same_text,
    string_of_range,
};
use vstd::utf8::encode_utf8;

verus! {

/// A TOML value as the readers see it: text, numbers, flags, lists and
/// tables, with the value of a float or a date left unread.
pub enum TomlValue {
    String(String),
    Integer(i64),
    Float,
    Boolean(bool),
    Datetime,
    Array(Vec<TomlValue>),
    Table(Vec<TomlEntry>),
}

/// One key of a table and its value, in the table's order; a key occurs
/// once.
pub struct TomlEntry {
    pub key: String,
    pub value: TomlValue,
}

impl TomlValue {
    /// The name TOML gives the value's type, as problems say it.
    pub open spec fn spec_type_str(&self) -> Seq<char> {
        match self {
            TomlValue::String(..) => "string"@,
            TomlValue::Integer(..) => "integer"@,
            TomlValue::Float => "float"@,
            TomlValue::Boolean(..) => "boolean"@,
            TomlValue::Datetime => "datetime"@,
            TomlValue::Array(..) => "array"@,
            TomlValue::Table(..) => "table"@,
        }
    }

    pub fn type_str(&self) -> (name: &'static str)
        ensures
            name@ == self.spec_type_str(),
    {
        match self {
            TomlValue::String(..) => "string",
            TomlValue::Integer(..) => "integer",
            TomlValue::Float => "float",
            TomlValue::Boolean(..) => "boolean",
            TomlValue::Datetime => "datetime",
            TomlValue::Array(..) => "array",
            TomlValue::Table(..) => "table",
        }
    }
}

/// The value under `key`, the first entry that has it.
pub open spec fn lookup(table: Seq<TomlEntry>, key: Seq<char>) -> Option<TomlValue>
    decreases table.len(),
{
    if table.len() == 0 {
        None
    } else if table[0].key@ == key {
        Some(table[0].value)
    } else {
        lookup(table.drop_first(), key)
    }
}

/// The value under `key`.
pub fn get<'a>(table: &'a [TomlEntry], key: &str) -> (value: Option<&'a TomlValue>)
    ensures
        match value {
            Some(value) => lookup(table@, key@) == Some(*value),
            None => lookup(table@, key@) is None,
        },
{
    let mut i: usize = 0;
    assert(table@.skip(0) =~= table@);
    while i < table.len()
        invariant
            i <= table@.len(),
            lookup(table@, key@) == lookup(table@.skip(i as int), key@),
        decreases table@.len() - i,
    {
        assert(table@.skip(i as int).drop_first() =~= table@.skip(i + 1));
        if same_text(table[i].key.as_str(), key) {
            return Some(&table[i].value);
        }
        i = i + 1;
    }
    None
}

/// The texts of a list of `&str`.
pub open spec fn strs(list: Seq<&str>) -> Seq<Seq<char>> {
    list.map_values(|text: &str| text@)
}

/// The keys of `table` that are not in `known`, in the table's order.
pub open spec fn unknown_keys_of(table: Seq<TomlEntry>, known: Seq<Seq<char>>) -> Seq<Seq<char>>
    decreases table.len(),
{
    if table.len() == 0 {
        Seq::empty()
    } else {
        let earlier = unknown_keys_of(table.drop_last(), known);
        if known.contains(table.last().key@) {
            earlier
        } else {
            earlier.push(table.last().key@)
        }
    }
}

fn is_known(known: &[&str], key: &str) -> (found: bool)
    ensures
        found == strs(known@).contains(key@),
{
    let mut i: usize = 0;
    while i < known.len()
        invariant
            i <= known@.len(),
            forall|k: int| 0 <= k < i ==> strs(known@)[k] != key@,
        decreases known@.len() - i,
    {
        if same_text(known[i], key) {
            assert(strs(known@)[i as int] == key@);
            return true;
        }
        i = i + 1;
    }
    false
}

/// The keys of `table` that are not in `known`, in the table's order.
pub fn unknown_keys(table: &[TomlEntry], known: &[&str]) -> (keys: Vec<String>)
    ensures
        texts(keys@) == unknown_keys_of(table@, strs(known@)),
{
    let mut keys: Vec<String> = Vec::new();
    let mut i: usize = 0;
    while i < table.len()
        invariant
            i <= table@.len(),
            texts(keys@) == unknown_keys_of(table@.take(i as int), strs(known@)),
        decreases table@.len() - i,
    {
        assert(table@.take(i + 1).drop_last() =~= table@.take(i as int));
        if !is_known(known, table[i].key.as_str()) {
            let ghost before = keys@;
            keys.push(table[i].key.clone());
            assert(texts(keys@) =~= texts(before).push(table@[i as int].key@));
        }
        i = i + 1;
    }
    assert(table@.take(table@.len() as int) =~= table@);
    keys
}

/// A file in the data folder that a person may edit. The tag is its file
/// name.
#[derive(Clone, Copy, Debug, PartialEq, Eq, Structural)]
pub enum UserFile {
    Settings,
    Players,
}

impl UserFile {
    pub open spec fn spec_file_name(self) -> Seq<char> {
        match self {
            UserFile::Settings => "settings.toml"@,
            UserFile::Players => "players.toml"@,
        }
    }

    pub fn file_name(self) -> (name: &'static str)
        ensures
            name@ == self.spec_file_name(),
    {
        match self {
            UserFile::Settings => "settings.toml",
            UserFile::Players => "players.toml",
        }
    }

    /// Human-readable label.
    pub fn label(self) -> (label: &'static str)
        ensures
            label@ == match self {
                UserFile::Settings => "Settings"@,
                UserFile::Players => "Players"@,
            },
    {
        match self {
            UserFile::Settings => "Settings",
            UserFile::Players => "Players",
        }
    }
}

/// What one read of a person's file found.
pub struct Loaded<T> {
    /// What the file says over the built-ins, or `None` when it could not
    /// be read or is not TOML, so nothing in it applies. A missing file is
    /// the built-ins: the person wrote nothing.
    pub value: Option<T>,
    /// One sentence per problem, each saying what was dropped.
    pub problems: Vec<String>,
}

impl<T> Loaded<T> {
    /// Whether the file can be written without losing anything in it.
    pub fn is_clean(&self) -> (clean: bool)
        ensures
            clean == (self.problems@.len() == 0),
    {
        self.problems.len() == 0
    }
}

/// The text `Debug` writes for a string: quoted, with what needs it escaped.
pub uninterp spec fn debug_quote(text: Seq<char>) -> Seq<char>;

/// Calls `format!("{:?}", text)`, whose result is the quoted, escaped form
/// `Debug` gives a `str`; a function of the text alone.
#[verifier::external_body]
pub(crate) fn debug_quoted(text: &str) -> (quoted: String)
    ensures
        quoted@ == debug_quote(text@),
{
    format!("{:?}", text)
}

/// `text` without the whitespace at its start.
pub open spec fn trim_start(text: Seq<char>) -> Seq<char>
    decreases text.len(),
{
    if text.len() > 0 && is_whitespace(text[0]) {
        trim_start(text.drop_first())
    } else {
        text
    }
}

/// `text` without the whitespace at its end.
pub open spec fn trim_end(text: Seq<char>) -> Seq<char>
    decreases text.len(),
{
    if text.len() > 0 && is_whitespace(text.last()) {
        trim_end(text.drop_last())
    } else {
        text
    }
}

/// `text` without the whitespace at either end, as `str::trim` leaves it.
pub open spec fn spec_trim(text: Seq<char>) -> Seq<char> {
    trim_end(trim_start(text))
}

/// `str::trim`, as a new string.
pub fn trimmed(text: &str) -> (trimmed: String)
    ensures
        trimmed@ == spec_trim(text@),
{
    let chars = chars_of(text);
    let mut start: usize = 0;
    assert(chars@.skip(0) =~= chars@);
    while start < chars.len() && char_is_whitespace(chars[start])
        invariant
            start <= chars@.len(),
            trim_start(chars@) == trim_start(chars@.skip(start as int)),
        decreases chars@.len() - start,
    {
        assert(chars@.skip(start as int).drop_first() =~= chars@.skip(start + 1));
        start = start + 1;
    }
    assert(trim_start(chars@) == chars@.skip(start as int));
    let ghost front = chars@.skip(start as int);
    let mut end: usize = chars.len();
    while end > start && char_is_whitespace(chars[end - 1])
        invariant
            start <= end <= chars@.len(),
            front == chars@.skip(start as int),
            trim_end(front) == trim_end(chars@.subrange(start as int, end as int)),
        decreases end - start,
    {
        assert(chars@.subrange(start as int, end as int).drop_last() =~= chars@.subrange(
            start as int,
            end - 1,
        ));
        end = end - 1;
    }
    assert(trim_end(chars@.subrange(start as int, end as int)) == chars@.subrange(start as int, end as int));
    string_of_range(chars.as_slice(), start, end)
}

/// How many times `c` occurs in `s`.
pub open spec fn count_of(s: Seq<char>, c: char) -> nat
    decreases s.len(),
{
    if s.len() == 0 {
        0
    } else {
        count_of(s.drop_last(), c) + if s.last() == c {
            1nat
        } else {
            0nat
        }
    }
}

/// The chars after the last newline of `s`, or all of them.
pub open spec fn last_line(s: Seq<char>) -> Seq<char>
    decreases s.len(),
{
    if s.len() == 0 {
        s
    } else if s.last() == '\n' {
        Seq::empty()
    } else {
        last_line(s.drop_last()).push(s.last())
    }
}

/// `s` on one line: every newline becomes `, `.
pub open spec fn one_line(s: Seq<char>) -> Seq<char>
    decreases s.len(),
{
    if s.len() == 0 {
        s
    } else if s.last() == '\n' {
        one_line(s.drop_last()) + ", "@
    } else {
        one_line(s.drop_last()).push(s.last())
    }
}

/// Whether byte `at` of `text` starts a char or ends the text.
pub open spec fn on_boundary(text: Seq<char>, at: int) -> bool {
    exists|c: int| 0 <= c <= text.len() && byte_offset(text, c) == at
}

/// A parse problem as a person can place it: the line and column of the
/// byte it starts at, then what is wrong, on one line and trimmed. A
/// problem with no place, or a place that is not a char boundary of the
/// text, is said without one.
pub open spec fn spec_placed_problem(text: Seq<char>, message: Seq<char>, start: Option<usize>) -> Seq<char> {
    let said = one_line(spec_trim(message));
    match start {
        Some(at) if on_boundary(text, at as int) => {
            let before = text.take(choose|c: int| 0 <= c <= text.len() && byte_offset(text, c) == at);
            "line "@ + decimal_digits(count_of(before, '\n') + 1) + ", column "@ + decimal_digits(last_line(before).len() + 1)
                + ": "@ + said
        },
        _ => said,
    }
}

/// Replaces every newline of `text` with `, `.
fn on_one_line(text: &str) -> (line: String)
    ensures
        line@ == one_line(text@),
{
    let chars = chars_of(text);
    let mut line = String::new();
    let mut i: usize = 0;
    while i < chars.len()
        invariant
            i <= chars@.len(),
            line@ == one_line(chars@.take(i as int)),
        decreases chars@.len() - i,
    {
        assert(chars@.take(i + 1).drop_last() =~= chars@.take(i as int));
        if chars[i] == '\n' {
            push_str(&mut line, ", ");
        } else {
            push_char(&mut line, chars[i]);
        }
        i = i + 1;
    }
    assert(chars@.take(chars@.len() as int) =~= chars@);
    line
}

/// Places a parse problem in the text it came from; see
/// [`spec_placed_problem`].
pub fn placed_problem(text: &str, message: &str, start: Option<usize>) -> (problem: String)
    requires
        encode_utf8(text@).len() < usize::MAX,
    ensures
        problem@ == spec_placed_problem(text@, message@, start),
{
    let said = on_one_line(trimmed(message).as_str());
    let at = match start {
        Some(at) => at,
        None => return said,
    };
    let chars = chars_of(text);
    proof {
        crate::text::lemma_offset_monotone(chars@, 0, chars@.len() as int);
        assert(chars@.take(0) =~= Seq::<char>::empty());
    }
    let mut c: usize = 0;
    let mut offset: usize = 0;
    let mut lines: usize = 0;
    let mut column: usize = 0;
    while c < chars.len() && offset < at
        invariant
            c <= chars@.len(),
            chars@ == text@,
            encode_utf8(chars@).len() < usize::MAX,
            offset == byte_offset(chars@, c as int),
            lines == count_of(chars@.take(c as int), '\n'),
            column == last_line(chars@.take(c as int)).len(),
            lines <= c,
            column <= c,
            c <= offset <= encode_utf8(chars@).len(),
            forall|k: int| 0 <= k < c ==> byte_offset(chars@, k) < at,
        decreases chars@.len() - c,
    {
        proof {
            crate::text::lemma_offset_step(chars@, c as int);
            crate::text::lemma_offset_monotone(chars@, c + 1, chars@.len() as int);
            assert(chars@.take(c + 1).drop_last() =~= chars@.take(c as int));
        }
        offset = offset + char_width(chars[c]);
        if chars[c] == '\n' {
            lines = lines + 1;
            column = 0;
        } else {
            column = column + 1;
        }
        c = c + 1;
    }
    if offset != at {
        proof {
            assert forall|k: int| 0 <= k <= chars@.len() implies byte_offset(chars@, k) != at by {
                if k < c {
                } else {
                    crate::text::lemma_offset_monotone(chars@, c as int, k);
                }
            }
        }
        return said;
    }
    proof {
        assert(byte_offset(chars@, c as int) == at);
        let chosen = choose|k: int| 0 <= k <= chars@.len() && byte_offset(chars@, k) == at;
        if chosen != c {
            if chosen < c {
                crate::text::lemma_offset_monotone(chars@, chosen, c as int);
            } else {
                crate::text::lemma_offset_monotone(chars@, c as int, chosen);
            }
        }
    }
    let mut problem = String::new();
    push_str(&mut problem, "line ");
    push_u64(&mut problem, (lines + 1) as u64);
    push_str(&mut problem, ", column ");
    push_u64(&mut problem, (column + 1) as u64);
    push_str(&mut problem, ": ");
    push_str(&mut problem, said.as_str());
    problem
}

/// What a person is told of a file that is not TOML, `placed` saying where.
pub fn not_toml_problem(placed: &str) -> (problem: String)
    ensures
        problem@ == "It isn't valid TOML ("@ + placed@ + "), so none of it applies."@,
{
    let mut problem = String::new();
    push_str(&mut problem, "It isn't valid TOML (");
    push_str(&mut problem, placed);
    push_str(&mut problem, "), so none of it applies.");
    problem
}

/// What a person is told of a file that could not be read, `detail` saying
/// why.
pub fn unreadable_problem(detail: &str) -> (problem: String)
    ensures
        problem@ == "It couldn't be read ("@ + detail@ + "), so none of it applies."@,
{
    let mut problem = String::new();
    push_str(&mut problem, "It couldn't be read (");
    push_str(&mut problem, detail);
    push_str(&mut problem, "), so none of it applies.");
    problem
}

/// The `toml` crate's value type, carried through the conversion below.
#[verifier::external_type_specification]
#[verifier::external_body]
pub struct ExTomlValue(toml::Value);

/// Why a text is not TOML, as the parser said it: its message, and the byte
/// its problem starts at when it names one.
pub struct TomlProblem {
    pub message: String,
    pub start: Option<usize>,
}

/// What `toml`'s parser makes of a text: the top-level table's entries, in
/// the table's order, or its message and the byte the problem starts at.
pub uninterp spec fn toml_parsed(text: Seq<char>) -> Result<Seq<TomlEntry>, (Seq<char>, Option<usize>)>;

/// Turns one `toml::Value` into the library's value, variant for variant,
/// the float and datetime values left unread. It is the conversion
/// `parse_toml`'s body makes, and promises nothing by itself.
#[verifier::external_body]
fn toml_value(value: toml::Value) -> TomlValue {
    match value {
        toml::Value::String(text) => TomlValue::String(text),
        toml::Value::Integer(n) => TomlValue::Integer(n),
        toml::Value::Float(_) => TomlValue::Float,
        toml::Value::Boolean(b) => TomlValue::Boolean(b),
        toml::Value::Datetime(_) => TomlValue::Datetime,
        toml::Value::Array(items) => TomlValue::Array(items.into_iter().map(toml_value).collect()),
        toml::Value::Table(table) => TomlValue::Table(
            table.into_iter().map(|(key, value)| TomlEntry { key, value: toml_value(value) }).collect(),
        ),
    }
}

/// Parses `text` with `text.parse::<toml::Table>()` and hands over the
/// table's entries in its order, each value converted variant for variant;
/// a text that does not parse gives the parser's message and the start of
/// the span it names. The result depends on the text alone.
#[verifier::external_body]
pub fn parse_toml(text: &str) -> (parsed: Result<Vec<TomlEntry>, TomlProblem>)
    ensures
        match parsed {
            Ok(table) => toml_parsed(text@) == Ok::<Seq<TomlEntry>, (Seq<char>, Option<usize>)>(table@),
            Err(problem) => toml_parsed(text@) == Err::<Seq<TomlEntry>, (Seq<char>, Option<usize>)>((problem.message@, problem.start)),
        },
{
    match text.parse::<toml::Table>() {
        Ok(table) => Ok(table.into_iter().map(|(key, value)| TomlEntry { key, value: toml_value(value) }).collect()),
        Err(err) => Err(TomlProblem { message: err.message().to_owned(), start: err.span().map(|span| span.start) }),
    }
}

/// The sentence a person is told of a text that is not TOML: placed by line
/// and column when the text is short enough to count in.
pub open spec fn spec_not_toml(text: Seq<char>, message: Seq<char>, start: Option<usize>) -> Seq<char> {
    let placed = if encode_utf8(text).len() < usize::MAX {
        spec_placed_problem(text, message, start)
    } else {
        spec_placed_problem(Seq::empty(), message, None)
    };
    "It isn't valid TOML ("@ + placed + "), so none of it applies."@
}

/// What a file's text reads as: the entries of its table, or the one
/// sentence that says why none of it applies.
pub fn read_document(text: &str) -> (read: Result<Vec<TomlEntry>, String>)
    requires
        encode_utf8(text@).len() <= usize::MAX,
    ensures
        match toml_parsed(text@) {
            Ok(table) => read matches Ok(entries) && entries@ == table,
            Err((message, start)) => read matches Err(problem) && problem@ == spec_not_toml(text@, message, start),
        },
{
    match parse_toml(text) {
        Ok(table) => Ok(table),
        Err(problem) => {
            let placed = if text.len() < usize::MAX {
                placed_problem(text, problem.message.as_str(), problem.start)
            } else {
                proof {
                    assert(""@ =~= Seq::<char>::empty()) by {
                        reveal_strlit("");
                    }
                }
                placed_problem("", problem.message.as_str(), None)
            };
            Err(not_toml_problem(placed.as_str()))
        },
    }
}

} // verus!
