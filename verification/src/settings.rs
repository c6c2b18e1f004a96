//! `settings.toml`: reading what a person wrote over the built-in settings,
//! and the text a fresh file starts from.

use vstd::prelude::*;

use crate::players::texts;
use crate::state::{Settings, ThemePreference};
use crate::text::push_str;
use crate::user_file::{debug_quote, debug_quoted, get, lookup, unknown_keys, unknown_keys_of, strs, TomlEntry, TomlValue};

verus! {

/// Every theme's tag, quoted, in the order the UI lists them.
pub open spec fn themes_text() -> Seq<char> {
    "\""@ + ThemePreference::System.spec_tag() + "\" | \""@ + ThemePreference::Light.spec_tag() + "\" | \""@
        + ThemePreference::Dark.spec_tag() + "\""@
}

/// Every theme's tag, quoted, in the order the UI lists them.
pub fn themes() -> (text: String)
    ensures
        text@ == themes_text(),
{
    let mut text = String::new();
    push_str(&mut text, "\"");
    push_str(&mut text, ThemePreference::System.tag());
    push_str(&mut text, "\" | \"");
    push_str(&mut text, ThemePreference::Light.tag());
    push_str(&mut text, "\" | \"");
    push_str(&mut text, ThemePreference::Dark.tag());
    push_str(&mut text, "\"");
    text
}

/// The theme a settings table says, and the problem with what it says
/// when it cannot be used, which leaves the built-in theme.
pub open spec fn theme_reading(table: Seq<TomlEntry>) -> (ThemePreference, Seq<Seq<char>>) {
    match lookup(table, "theme"@) {
        None => (ThemePreference::System, Seq::empty()),
        Some(TomlValue::String(tag)) => match ThemePreference::spec_from_tag(tag@) {
            Some(theme) => (theme, Seq::empty()),
            None => (
                ThemePreference::System,
                seq!["theme = "@ + debug_quote(tag@) + " isn't one of "@ + themes_text() + ", so it is \"system\"."@],
            ),
        },
        Some(value) => (
            ThemePreference::System,
            seq!["theme should be text, not "@ + value.spec_type_str() + ", so it is \"system\"."@],
        ),
    }
}

/// One sentence for each key a settings table holds that is not a setting.
pub open spec fn unknown_setting_problems(table: Seq<TomlEntry>) -> Seq<Seq<char>> {
    unknown_keys_of(table, seq!["theme"@]).map_values(
        |key: Seq<char>| key + " isn't a setting Ryuuji knows, so it is ignored."@,
    )
}

/// The settings a table says over the built-ins, pushing one sentence to
/// `problems` for everything it drops.
pub fn read_settings(table: &[TomlEntry], problems: &mut Vec<String>) -> (settings: Settings)
    ensures
        settings.theme == theme_reading(table@).0,
        texts(final(problems)@) == texts(old(problems)@) + theme_reading(table@).1 + unknown_setting_problems(
            table@,
        ),
{
    let ghost before = texts(problems@);
    let theme = match get(table, "theme") {
        None => ThemePreference::System,
        Some(TomlValue::String(tag)) => match ThemePreference::from_tag(tag.as_str()) {
            Some(theme) => theme,
            None => {
                let mut problem = "theme = ".to_owned();
                push_str(&mut problem, debug_quoted(tag.as_str()).as_str());
                push_str(&mut problem, " isn't one of ");
                push_str(&mut problem, themes().as_str());
                push_str(&mut problem, ", so it is \"system\".");
                let ghost pre = problems@;
                problems.push(problem);
                assert(texts(problems@) =~= texts(pre).push(problem@));
                ThemePreference::System
            },
        },
        Some(value) => {
            let mut problem = "theme should be text, not ".to_owned();
            push_str(&mut problem, value.type_str());
            push_str(&mut problem, ", so it is \"system\".");
            let ghost pre = problems@;
            problems.push(problem);
            assert(texts(problems@) =~= texts(pre).push(problem@));
            ThemePreference::System
        },
    };
    assert(texts(problems@) =~= before + theme_reading(table@).1);
    let known: [&str; 1] = ["theme"];
    assert(strs(known@) =~= seq!["theme"@]);
    let keys = unknown_keys(table, &known);
    let ghost middle = texts(problems@);
    let mut i: usize = 0;
    while i < keys.len()
        invariant
            i <= keys@.len(),
            texts(keys@) == unknown_keys_of(table@, seq!["theme"@]),
            texts(problems@) == middle + unknown_setting_problems(table@).take(i as int),
        decreases keys@.len() - i,
    {
        let mut problem = keys[i].clone();
        push_str(&mut problem, " isn't a setting Ryuuji knows, so it is ignored.");
        let ghost pre = problems@;
        problems.push(problem);
        assert(texts(problems@) =~= texts(pre).push(problem@));
        assert(unknown_setting_problems(table@).take(i + 1) =~= unknown_setting_problems(table@).take(
            i as int,
        ).push(unknown_setting_problems(table@)[i as int]));
        i = i + 1;
    }
    assert(unknown_setting_problems(table@).take(keys@.len() as int) =~= unknown_setting_problems(table@));
    Settings { theme }
}

/// The text a settings file is written as: a header that says how it
/// works and lists the themes, then the theme.
pub open spec fn spec_render(settings: Settings) -> Seq<char> {
    "# Ryuuji settings. A save applies at once. Changing a setting in Ryuuji changes only its own line here.\n# theme = "@
        + themes_text() + "\ntheme = \""@ + settings.theme.spec_tag() + "\"\n"@
}

pub fn render(settings: &Settings) -> (text: String)
    ensures
        text@ == spec_render(*settings),
{
    let mut text =
        "# Ryuuji settings. A save applies at once. Changing a setting in Ryuuji changes only its own line here.\n# theme = ".to_owned();
    push_str(&mut text, themes().as_str());
    push_str(&mut text, "\ntheme = \"");
    push_str(&mut text, settings.theme.tag());
    push_str(&mut text, "\"\n");
    text
}

/// What `toml_edit` makes of `text` with its top-level `key` set to the
/// string `value`: `None` when `text` does not parse as TOML.
pub uninterp spec fn key_set(text: Seq<char>, key: Seq<char>, value: Seq<char>) -> Option<Seq<char>>;

/// Parses `text` as a `toml_edit::DocumentMut`, sets its top-level `key` to
/// the string `value` and prints the document back, which keeps the
/// comments, the order and the other keys as they were written. The result
/// depends on the three texts alone; a text that does not parse gives
/// `None`. Setting a key on a parsed document's root table cannot fail.
#[verifier::external_body]
fn with_key(text: &str, key: &str, value: &str) -> (edited: Option<String>)
    ensures
        match edited {
            Some(edited) => key_set(text@, key@, value@) == Some(edited@),
            None => key_set(text@, key@, value@) is None,
        },
{
    let mut document: toml_edit::DocumentMut = text.parse().ok()?;
    document[key] = toml_edit::value(value);
    Some(document.to_string())
}

/// The settings text that holds `theme`: the file's own text with its theme
/// set and nothing else changed, or the starter for `theme` when there is
/// no file yet. `None` when the file is not TOML, which is then left alone.
pub fn settings_with_theme(existing: Option<&str>, theme: ThemePreference) -> (text: Option<String>)
    ensures
        match existing {
            None => text matches Some(text) && text@ == spec_render(Settings { theme }),
            Some(old) => match text {
                Some(text) => key_set(old@, "theme"@, theme.spec_tag()) == Some(text@),
                None => key_set(old@, "theme"@, theme.spec_tag()) is None,
            },
        },
{
    match existing {
        None => Some(render(&Settings { theme })),
        Some(old) => with_key(old, "theme", theme.tag()),
    }
}

} // verus!
