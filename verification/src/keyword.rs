//! The keyword table: fixed terms the reader recognises and the flags that
//! control how each behaves.
//!
//! The table is written as groups of values under one kind and one set of
//! flags, and a list of pre-identified strings; [`KeywordTable::from_groups`]
//! checks them and builds the table in group order.

use vstd::prelude::*;

use crate::element::ElementKind;
use crate::text::same_text;

verus! {

/// One term of the table.
#[derive(Clone, Copy, Debug, PartialEq, Eq, Structural)]
pub struct Keyword {
    pub kind: ElementKind,
    /// An identifiable keyword marks its token as an identifier, keeping it
    /// out of the title and episode passes.
    pub identifiable: bool,
    /// A searchable keyword may be matched by the keyword pass.
    pub searchable: bool,
    /// A valid keyword may stand as an element value on its own.
    pub valid: bool,
}

/// Values that share a kind and flags.
#[derive(Clone, Debug, PartialEq, Eq)]
pub struct KeywordGroup {
    pub kind: String,
    pub flags: String,
    pub values: Vec<String>,
}

/// A string that is always read as one kind.
#[derive(Clone, Debug, PartialEq, Eq)]
pub struct PreidentifiedEntry {
    pub text: String,
    pub kind: String,
}

/// Why a table does not build.
#[derive(Clone, Debug, PartialEq, Eq)]
pub enum TableError {
    /// The table's text does not parse.
    Parse { detail: String },
    UnknownKind { kind: String },
    UnknownFlags { flags: String },
    EmptyValue { kind: String },
    NotUppercase { value: String },
    Duplicate { kind: String, value: String },
}

pub ghost struct GroupView {
    pub kind: Seq<char>,
    pub flags: Seq<char>,
    pub values: Seq<Seq<char>>,
}

pub ghost struct PreidentifiedView {
    pub text: Seq<char>,
    pub kind: Seq<char>,
}

pub ghost enum TableErrorView {
    Parse { detail: Seq<char> },
    UnknownKind { kind: Seq<char> },
    UnknownFlags { flags: Seq<char> },
    EmptyValue { kind: Seq<char> },
    NotUppercase { value: Seq<char> },
    Duplicate { kind: Seq<char>, value: Seq<char> },
}

pub open spec fn strings_view(strings: Seq<String>) -> Seq<Seq<char>> {
    strings.map_values(|s: String| s@)
}

pub open spec fn groups_view(groups: Seq<KeywordGroup>) -> Seq<GroupView> {
    groups.map_values(|g: KeywordGroup| g@)
}

pub open spec fn entries_view(entries: Seq<PreidentifiedEntry>) -> Seq<PreidentifiedView> {
    entries.map_values(|p: PreidentifiedEntry| p@)
}

impl View for KeywordGroup {
    type V = GroupView;

    open spec fn view(&self) -> GroupView {
        GroupView { kind: self.kind@, flags: self.flags@, values: strings_view(self.values@) }
    }
}

impl View for PreidentifiedEntry {
    type V = PreidentifiedView;

    open spec fn view(&self) -> PreidentifiedView {
        PreidentifiedView { text: self.text@, kind: self.kind@ }
    }
}

impl View for TableError {
    type V = TableErrorView;

    open spec fn view(&self) -> TableErrorView {
        match self {
            TableError::Parse { detail } => TableErrorView::Parse { detail: detail@ },
            TableError::UnknownKind { kind } => TableErrorView::UnknownKind { kind: kind@ },
            TableError::UnknownFlags { flags } => TableErrorView::UnknownFlags { flags: flags@ },
            TableError::EmptyValue { kind } => TableErrorView::EmptyValue { kind: kind@ },
            TableError::NotUppercase { value } => TableErrorView::NotUppercase { value: value@ },
            TableError::Duplicate { kind, value } => TableErrorView::Duplicate { kind: kind@, value: value@ },
        }
    }
}

/// The upper-case form of a text, as `str::to_uppercase` gives it.
pub uninterp spec fn uppercase(text: Seq<char>) -> Seq<char>;

/// Calls `str::to_uppercase`, whose result is the text with every char
/// mapped to its Unicode upper case; an empty text stays empty, and an
/// ASCII text has its ASCII letters raised and nothing else changed.
#[verifier::external_body]
pub(crate) fn to_uppercase(text: &str) -> (upper: String)
    ensures
        upper@ == uppercase(text@),
        text@.len() == 0 ==> upper@.len() == 0,
        (forall|i: int| 0 <= i < text@.len() ==> ((#[trigger] text@[i]) as u32) < 128) ==> upper@ == crate::text::upper_seq(text@),
{
    text.to_uppercase()
}

/// The kind a label names.
pub open spec fn kind_of_label(label: Seq<char>) -> Option<ElementKind> {
    if exists|k: ElementKind| k.spec_label() == label {
        Some(choose|k: ElementKind| k.spec_label() == label)
    } else {
        None
    }
}

/// The identifiable, searchable and valid flags a flag name stands for.
pub open spec fn flags_of(flags: Seq<char>) -> Option<(bool, bool, bool)> {
    if flags == "default"@ {
        Some((true, true, true))
    } else if flags == "invalid"@ {
        Some((true, true, false))
    } else if flags == "unidentifiable"@ {
        Some((false, true, true))
    } else if flags == "unidentifiable_invalid"@ {
        Some((false, true, false))
    } else if flags == "unidentifiable_unsearchable"@ {
        Some((false, false, true))
    } else {
        None
    }
}

/// A term of the table: its text and what it stands for.
pub type EntryView = (Seq<char>, Keyword);

/// The table with one more value of a group.
pub open spec fn add_value(
    entries: Seq<EntryView>,
    kind: ElementKind,
    label: Seq<char>,
    flags: (bool, bool, bool),
    value: Seq<char>,
) -> Result<Seq<EntryView>, TableErrorView> {
    if value.len() == 0 {
        Err(TableErrorView::EmptyValue { kind: label })
    } else if uppercase(value) != value {
        Err(TableErrorView::NotUppercase { value })
    } else if exists|i: int| 0 <= i < entries.len() && #[trigger] entries[i].0 == value && entries[i].1.kind == kind {
        Err(TableErrorView::Duplicate { kind: label, value })
    } else {
        Ok(entries.push((value, Keyword { kind, identifiable: flags.0, searchable: flags.1, valid: flags.2 })))
    }
}

/// The table with the values of a group, first to last.
pub open spec fn add_values(
    entries: Seq<EntryView>,
    kind: ElementKind,
    label: Seq<char>,
    flags: (bool, bool, bool),
    values: Seq<Seq<char>>,
) -> Result<Seq<EntryView>, TableErrorView>
    decreases values.len(),
{
    if values.len() == 0 {
        Ok(entries)
    } else {
        match add_values(entries, kind, label, flags, values.drop_last()) {
            Ok(done) => add_value(done, kind, label, flags, values.last()),
            Err(e) => Err(e),
        }
    }
}

/// The table with one more group.
pub open spec fn add_group(entries: Seq<EntryView>, group: GroupView) -> Result<Seq<EntryView>, TableErrorView> {
    match kind_of_label(group.kind) {
        None => Err(TableErrorView::UnknownKind { kind: group.kind }),
        Some(kind) => match flags_of(group.flags) {
            None => Err(TableErrorView::UnknownFlags { flags: group.flags }),
            Some(flags) => add_values(entries, kind, group.kind, flags, group.values),
        },
    }
}

/// The terms of some groups, first to last.
pub open spec fn add_groups(groups: Seq<GroupView>) -> Result<Seq<EntryView>, TableErrorView>
    decreases groups.len(),
{
    if groups.len() == 0 {
        Ok(Seq::empty())
    } else {
        match add_groups(groups.drop_last()) {
            Ok(done) => add_group(done, groups.last()),
            Err(e) => Err(e),
        }
    }
}

/// The pre-identified strings, first to last.
pub open spec fn add_preidentified(entries: Seq<PreidentifiedView>) -> Result<Seq<(Seq<char>, ElementKind)>, TableErrorView>
    decreases entries.len(),
{
    if entries.len() == 0 {
        Ok(Seq::empty())
    } else {
        match add_preidentified(entries.drop_last()) {
            Ok(done) => {
                let entry = entries.last();
                match kind_of_label(entry.kind) {
                    None => Err(TableErrorView::UnknownKind { kind: entry.kind }),
                    Some(kind) => if entry.text.len() == 0 {
                        Err(TableErrorView::EmptyValue { kind: entry.kind })
                    } else {
                        Ok(done.push((entry.text, kind)))
                    },
                }
            },
            Err(e) => Err(e),
        }
    }
}

/// The first term with this text, and this kind when one is given.
pub open spec fn first_match(entries: Seq<EntryView>, upper: Seq<char>, kind: Option<ElementKind>) -> Option<Keyword>
    decreases entries.len(),
{
    if entries.len() == 0 {
        None
    } else if entries[0].0 == upper && (kind is None || kind == Some(entries[0].1.kind)) {
        Some(entries[0].1)
    } else {
        first_match(entries.drop_first(), upper, kind)
    }
}

#[derive(Clone, Debug, PartialEq, Eq)]
struct Entry {
    text: String,
    keyword: Keyword,
}

/// The checked table, its terms in group order.
#[derive(Debug, PartialEq, Eq)]
pub struct KeywordTable {
    entries: Vec<Entry>,
    preidentified: Vec<(String, ElementKind)>,
}

pub open spec fn preidentified_view(entries: Seq<(String, ElementKind)>) -> Seq<(Seq<char>, ElementKind)> {
    entries.map_values(|e: (String, ElementKind)| (e.0@, e.1))
}

spec fn entries_of(entries: Seq<Entry>) -> Seq<EntryView> {
    entries.map_values(|e: Entry| (e.text@, e.keyword))
}

fn kind_from_label(label: &str) -> (kind: Option<ElementKind>)
    ensures
        kind == kind_of_label(label@),
{
    let found = ElementKind::from_label(label);
    proof {
        match found {
            Some(k) => {
                let c = choose|c: ElementKind| c.spec_label() == label@;
                crate::element::lemma_element_labels_distinct(k, c);
            },
            None => {},
        }
    }
    found
}

fn flags_from(flags: &str) -> (parsed: Option<(bool, bool, bool)>)
    ensures
        parsed == flags_of(flags@),
{
    proof {
        reveal_strlit("default");
        reveal_strlit("invalid");
        reveal_strlit("unidentifiable");
        reveal_strlit("unidentifiable_invalid");
        reveal_strlit("unidentifiable_unsearchable");
    }
    if same_text(flags, "default") {
        Some((true, true, true))
    } else if same_text(flags, "invalid") {
        Some((true, true, false))
    } else if same_text(flags, "unidentifiable") {
        Some((false, true, true))
    } else if same_text(flags, "unidentifiable_invalid") {
        Some((false, true, false))
    } else if same_text(flags, "unidentifiable_unsearchable") {
        Some((false, false, true))
    } else {
        None
    }
}

/// Whether the table already holds this text under this kind.
fn has_entry(entries: &Vec<Entry>, kind: ElementKind, value: &str) -> (found: bool)
    ensures
        found == exists|i: int| 0 <= i < entries@.len() && #[trigger] entries_of(entries@)[i].0 == value@
            && entries_of(entries@)[i].1.kind == kind,
{
    let ghost es = entries_of(entries@);
    let mut k: usize = 0;
    while k < entries.len()
        invariant
            k <= entries@.len(),
            es == entries_of(entries@),
            forall|i: int| 0 <= i < k ==> !(#[trigger] es[i].0 == value@ && es[i].1.kind == kind),
        decreases entries@.len() - k,
    {
        if entries[k].keyword.kind == kind && same_text(entries[k].text.as_str(), value) {
            assert(es[k as int].0 == value@ && es[k as int].1.kind == kind);
            return true;
        }
        k = k + 1;
    }
    false
}

impl KeywordTable {
    #[verifier::type_invariant]
    spec fn no_empty_text(&self) -> bool {
        forall|i: int| 0 <= i < self.entries@.len() ==> (#[trigger] self.entries@[i]).text@.len() > 0
    }

    /// The terms, in group order.
    pub closed spec fn spec_entries(&self) -> Seq<EntryView> {
        entries_of(self.entries@)
    }

    pub closed spec fn spec_preidentified(&self) -> Seq<(Seq<char>, ElementKind)> {
        preidentified_view(self.preidentified@)
    }

    /// Builds the table, or names the first group, value or entry that is
    /// not well formed.
    pub fn from_groups(groups: &[KeywordGroup], preidentified: &[PreidentifiedEntry]) -> (table: Result<KeywordTable, TableError>)
        ensures
            match table {
                Ok(table) => add_groups(groups_view(groups@)) == Ok::<Seq<EntryView>, TableErrorView>(table.spec_entries())
                    && add_preidentified(entries_view(preidentified@)) == Ok::<Seq<(Seq<char>, ElementKind)>, TableErrorView>(table.spec_preidentified()),
                Err(e) => match add_groups(groups_view(groups@)) {
                    Err(first) => e@ == first,
                    Ok(_) => add_preidentified(entries_view(preidentified@)) == Err::<Seq<(Seq<char>, ElementKind)>, TableErrorView>(e@),
                },
            },
    {
        let ghost gv = groups_view(groups@);
        let mut entries: Vec<Entry> = Vec::new();
        let mut g: usize = 0;
        assert(gv.take(0) =~= Seq::<GroupView>::empty());
        assert(entries_of(entries@) =~= Seq::<EntryView>::empty());
        while g < groups.len()
            invariant
                g <= groups@.len(),
                gv == groups_view(groups@),
                add_groups(gv.take(g as int)) == Ok::<Seq<EntryView>, TableErrorView>(entries_of(entries@)),
                forall|i: int| 0 <= i < entries@.len() ==> (#[trigger] entries@[i]).text@.len() > 0,
            decreases groups@.len() - g,
        {
            let group = &groups[g];
            assert(gv.take(g + 1).drop_last() =~= gv.take(g as int));
            assert(gv.take(g + 1).last() == group@);
            let kind = match kind_from_label(group.kind.as_str()) {
                Some(kind) => kind,
                None => {
                    proof {
                        lemma_group_fails(gv, g as int, entries_of(entries@), TableErrorView::UnknownKind { kind: group.kind@ });
                    }
                    return Err(TableError::UnknownKind { kind: group.kind.clone() });
                },
            };
            let flags = match flags_from(group.flags.as_str()) {
                Some(flags) => flags,
                None => {
                    proof {
                        lemma_group_fails(gv, g as int, entries_of(entries@), TableErrorView::UnknownFlags { flags: group.flags@ });
                    }
                    return Err(TableError::UnknownFlags { flags: group.flags.clone() });
                },
            };
            let ghost start = entries_of(entries@);
            let ghost values = group@.values;
            let mut v: usize = 0;
            assert(values.take(0) =~= Seq::<Seq<char>>::empty());
            while v < group.values.len()
                invariant
                    v <= group.values@.len(),
                    gv == groups_view(groups@),
                    g < gv.len(),
                    gv[g as int] == group@,
                    add_groups(gv.take(g as int)) == Ok::<Seq<EntryView>, TableErrorView>(start),
                    add_group(start, group@) == add_values(start, kind, group.kind@, flags, values),
                    values == strings_view(group.values@),
                    add_values(start, kind, group.kind@, flags, values.take(v as int)) == Ok::<Seq<EntryView>, TableErrorView>(entries_of(entries@)),
                    forall|i: int| 0 <= i < entries@.len() ==> (#[trigger] entries@[i]).text@.len() > 0,
                decreases group.values@.len() - v,
            {
                let value = &group.values[v];
                assert(values.take(v + 1).drop_last() =~= values.take(v as int));
                assert(values.take(v + 1).last() == value@);
                if value.as_str().is_empty() {
                    proof {
                        let e = TableErrorView::EmptyValue { kind: group.kind@ };
                        lemma_value_fails(start, kind, group.kind@, flags, values, v as int, entries_of(entries@), e);
                        lemma_group_fails(gv, g as int, start, e);
                    }
                    return Err(TableError::EmptyValue { kind: group.kind.clone() });
                }
                let upper = to_uppercase(value.as_str());
                if !same_text(upper.as_str(), value.as_str()) {
                    proof {
                        let e = TableErrorView::NotUppercase { value: value@ };
                        lemma_value_fails(start, kind, group.kind@, flags, values, v as int, entries_of(entries@), e);
                        lemma_group_fails(gv, g as int, start, e);
                    }
                    return Err(TableError::NotUppercase { value: value.clone() });
                }
                let ghost es = entries_of(entries@);
                if has_entry(&entries, kind, value.as_str()) {
                    proof {
                        let e = TableErrorView::Duplicate { kind: group.kind@, value: value@ };
                        lemma_value_fails(start, kind, group.kind@, flags, values, v as int, es, e);
                        lemma_group_fails(gv, g as int, start, e);
                    }
                    return Err(TableError::Duplicate { kind: group.kind.clone(), value: value.clone() });
                }
                entries.push(Entry {
                    text: value.clone(),
                    keyword: Keyword { kind, identifiable: flags.0, searchable: flags.1, valid: flags.2 },
                });
                assert(entries_of(entries@) =~= es.push((value@, Keyword { kind, identifiable: flags.0, searchable: flags.1, valid: flags.2 })));
                v = v + 1;
            }
            assert(values.take(values.len() as int) =~= values);
            g = g + 1;
        }
        assert(gv.take(gv.len() as int) =~= gv);
        let ghost pv = entries_view(preidentified@);
        let mut pre: Vec<(String, ElementKind)> = Vec::new();
        let mut p: usize = 0;
        assert(pv.take(0) =~= Seq::<PreidentifiedView>::empty());
        assert(preidentified_view(pre@) =~= Seq::<(Seq<char>, ElementKind)>::empty());
        while p < preidentified.len()
            invariant
                p <= preidentified@.len(),
                gv == groups_view(groups@),
                add_groups(gv) == Ok::<Seq<EntryView>, TableErrorView>(entries_of(entries@)),
                forall|i: int| 0 <= i < entries@.len() ==> (#[trigger] entries@[i]).text@.len() > 0,
                pv == entries_view(preidentified@),
                add_preidentified(pv.take(p as int)) == Ok::<Seq<(Seq<char>, ElementKind)>, TableErrorView>(preidentified_view(pre@)),
            decreases preidentified@.len() - p,
        {
            let entry = &preidentified[p];
            assert(pv.take(p + 1).drop_last() =~= pv.take(p as int));
            assert(pv.take(p + 1).last() == entry@);
            let kind = match kind_from_label(entry.kind.as_str()) {
                Some(kind) => kind,
                None => {
                    proof {
                        lemma_preidentified_fail_from(pv, p + 1);
                    }
                    return Err(TableError::UnknownKind { kind: entry.kind.clone() });
                },
            };
            if entry.text.as_str().is_empty() {
                proof {
                    lemma_preidentified_fail_from(pv, p + 1);
                }
                return Err(TableError::EmptyValue { kind: entry.kind.clone() });
            }
            let ghost before = preidentified_view(pre@);
            pre.push((entry.text.clone(), kind));
            assert(preidentified_view(pre@) =~= before.push((entry.text@, kind)));
            p = p + 1;
        }
        assert(pv.take(pv.len() as int) =~= pv);
        Ok(KeywordTable { entries, preidentified: pre })
    }

    fn first(&self, upper: &str, kind: Option<ElementKind>) -> (found: Option<Keyword>)
        ensures
            found == first_match(self.spec_entries(), upper@, kind),
    {
        let ghost es = self.spec_entries();
        let mut i: usize = 0;
        assert(es.skip(0) =~= es);
        while i < self.entries.len()
            invariant
                i <= self.entries@.len(),
                es == entries_of(self.entries@),
                first_match(es, upper@, kind) == first_match(es.skip(i as int), upper@, kind),
            decreases self.entries@.len() - i,
        {
            assert(es.skip(i as int).drop_first() =~= es.skip(i + 1));
            let entry = &self.entries[i];
            let kind_matches = match kind {
                Some(k) => entry.keyword.kind == k,
                None => true,
            };
            if kind_matches && same_text(entry.text.as_str(), upper) {
                return Some(entry.keyword);
            }
            i = i + 1;
        }
        None
    }

    /// The term with this upper-case text under `kind`.
    pub fn find(&self, kind: ElementKind, upper: &str) -> (found: Option<Keyword>)
        ensures
            found == first_match(self.spec_entries(), upper@, Some(kind)),
            upper@.len() == 0 ==> found is None,
    {
        proof {
            use_type_invariant(self);
            self.lemma_empty_text_absent(upper@, Some(kind));
        }
        self.first(upper, Some(kind))
    }

    /// The first term with this upper-case text in table order; a value
    /// listed under two kinds resolves to whichever group comes first.
    pub fn find_any(&self, upper: &str) -> (found: Option<Keyword>)
        ensures
            found == first_match(self.spec_entries(), upper@, None),
            upper@.len() == 0 ==> found is None,
    {
        proof {
            use_type_invariant(self);
            self.lemma_empty_text_absent(upper@, None);
        }
        self.first(upper, None)
    }

    proof fn lemma_empty_text_absent(&self, upper: Seq<char>, kind: Option<ElementKind>)
        requires
            forall|i: int| 0 <= i < self.entries@.len() ==> (#[trigger] self.entries@[i]).text@.len() > 0,
        ensures
            upper.len() == 0 ==> first_match(self.spec_entries(), upper, kind) is None,
    {
        if upper.len() == 0 {
            let es = self.spec_entries();
            assert forall|i: int| 0 <= i < es.len() implies (#[trigger] es[i]).0 != upper by {
                assert(es[i].0 == self.entries@[i].text@);
            }
            assert forall|n: int| 0 <= n <= es.len() implies first_match(#[trigger] es.skip(n), upper, kind) is None by {
                lemma_no_match_from(es, upper, kind, n);
            }
            assert(es.skip(0) =~= es);
        }
    }

    pub fn preidentified(&self) -> (entries: &[(String, ElementKind)])
        ensures
            preidentified_view(entries@) == self.spec_preidentified(),
    {
        self.preidentified.as_slice()
    }
}

proof fn lemma_no_match_from(es: Seq<EntryView>, upper: Seq<char>, kind: Option<ElementKind>, n: int)
    requires
        0 <= n <= es.len(),
        forall|i: int| 0 <= i < es.len() ==> (#[trigger] es[i]).0 != upper,
    ensures
        first_match(es.skip(n), upper, kind) is None,
    decreases es.len() - n,
{
    if n < es.len() {
        assert(es.skip(n).drop_first() =~= es.skip(n + 1));
        assert(es.skip(n)[0] == es[n]);
        lemma_no_match_from(es, upper, kind, n + 1);
    }
}

proof fn lemma_groups_fail_from(gv: Seq<GroupView>, k: int)
    requires
        0 <= k <= gv.len(),
        add_groups(gv.take(k)) is Err,
    ensures
        add_groups(gv) == add_groups(gv.take(k)),
    decreases gv.len() - k,
{
    if k < gv.len() {
        assert(gv.take(k + 1).drop_last() =~= gv.take(k));
        lemma_groups_fail_from(gv, k + 1);
    } else {
        assert(gv.take(k) =~= gv);
    }
}

proof fn lemma_group_fails(gv: Seq<GroupView>, g: int, done: Seq<EntryView>, e: TableErrorView)
    requires
        0 <= g < gv.len(),
        add_groups(gv.take(g)) == Ok::<Seq<EntryView>, TableErrorView>(done),
        add_group(done, gv[g]) == Err::<Seq<EntryView>, TableErrorView>(e),
    ensures
        add_groups(gv) == Err::<Seq<EntryView>, TableErrorView>(e),
{
    assert(gv.take(g + 1).drop_last() =~= gv.take(g));
    assert(gv.take(g + 1).last() == gv[g]);
    lemma_groups_fail_from(gv, g + 1);
}

proof fn lemma_values_fail_from(
    entries: Seq<EntryView>,
    kind: ElementKind,
    label: Seq<char>,
    flags: (bool, bool, bool),
    values: Seq<Seq<char>>,
    k: int,
)
    requires
        0 <= k <= values.len(),
        add_values(entries, kind, label, flags, values.take(k)) is Err,
    ensures
        add_values(entries, kind, label, flags, values) == add_values(entries, kind, label, flags, values.take(k)),
    decreases values.len() - k,
{
    if k < values.len() {
        assert(values.take(k + 1).drop_last() =~= values.take(k));
        lemma_values_fail_from(entries, kind, label, flags, values, k + 1);
    } else {
        assert(values.take(k) =~= values);
    }
}

proof fn lemma_value_fails(
    entries: Seq<EntryView>,
    kind: ElementKind,
    label: Seq<char>,
    flags: (bool, bool, bool),
    values: Seq<Seq<char>>,
    v: int,
    done: Seq<EntryView>,
    e: TableErrorView,
)
    requires
        0 <= v < values.len(),
        add_values(entries, kind, label, flags, values.take(v)) == Ok::<Seq<EntryView>, TableErrorView>(done),
        add_value(done, kind, label, flags, values[v]) == Err::<Seq<EntryView>, TableErrorView>(e),
    ensures
        add_values(entries, kind, label, flags, values) == Err::<Seq<EntryView>, TableErrorView>(e),
{
    assert(values.take(v + 1).drop_last() =~= values.take(v));
    assert(values.take(v + 1).last() == values[v]);
    lemma_values_fail_from(entries, kind, label, flags, values, v + 1);
}

proof fn lemma_preidentified_fail_from(pv: Seq<PreidentifiedView>, k: int)
    requires
        0 <= k <= pv.len(),
        add_preidentified(pv.take(k)) is Err,
    ensures
        add_preidentified(pv) == add_preidentified(pv.take(k)),
    decreases pv.len() - k,
{
    if k < pv.len() {
        assert(pv.take(k + 1).drop_last() =~= pv.take(k));
        lemma_preidentified_fail_from(pv, k + 1);
    } else {
        assert(pv.take(k) =~= pv);
    }
}

} // verus!
