//! The icon that stands for each application, and the file that says so.

use vstd::hash_map::StringHashMap;
use vstd::prelude::*;

use crate::text::{opt_text, same};

verus! {

/// Icons by application name.
pub struct IconMap {
    icons: StringHashMap<String>,
}

impl View for IconMap {
    type V = Map<Seq<char>, Seq<char>>;

    closed spec fn view(&self) -> Map<Seq<char>, Seq<char>> {
        self.icons@.map_values(|icon: String| icon@)
    }
}

/// The icon of `app`: its own, else the one listed as `_default`, else `:default:`.
pub open spec fn icon_of(icons: Map<Seq<char>, Seq<char>>, app: Seq<char>) -> Seq<char> {
    if icons.dom().contains(app) {
        icons[app]
    } else if icons.dom().contains("_default"@) {
        icons["_default"@]
    } else {
        ":default:"@
    }
}

impl IconMap {
    /// No icons.
    pub fn new() -> (map: IconMap)
        ensures
            map@ == Map::<Seq<char>, Seq<char>>::empty(),
    {
        let map = IconMap { icons: StringHashMap::new() };
        assert(map@ =~= Map::<Seq<char>, Seq<char>>::empty());
        map
    }

    /// How many applications have an icon.
    pub fn len(&self) -> (n: usize)
        ensures
            n == self@.len(),
    {
        broadcast use vstd::hash_map::group_hash_map_axioms;
        assert(self@.dom() =~= self.icons@.dom());
        self.icons.len()
    }

    /// Gives `app` the icon `icon`, in place of any that it had.
    pub fn insert(&mut self, app: String, icon: String)
        ensures
            final(self)@ == old(self)@.insert(app@, icon@),
    {
        self.icons.insert(app, icon);
        assert(self@ =~= old(self)@.insert(app@, icon@));
    }

    /// The icon listed for `app` itself.
    pub fn get(&self, app: &str) -> (icon: Option<&str>)
        ensures
            icon is Some <==> self@.dom().contains(app@),
            icon matches Some(icon) ==> icon@ == self@[app@],
    {
        match self.icons.get(app) {
            Some(icon) => Some(icon.as_str()),
            None => None,
        }
    }

    /// The icon to show for `app`.
    pub fn icon_for(&self, app: &str) -> (icon: String)
        ensures
            icon@ == icon_of(self@, app@),
    {
        match self.get(app) {
            Some(icon) => icon.to_owned(),
            None => match self.get("_default") {
                Some(icon) => icon.to_owned(),
                None => ":default:".to_owned(),
            },
        }
    }
}

/// A top-level entry of a TOML document.
pub struct TomlEntry {
    pub key: String,
    /// Where the value is a table, its entries, each with its text where it is a string.
    pub table: Option<Vec<(String, Option<String>)>>,
}

/// What a document's reader sees of one entry of a table: its key, and its text if it is a string.
pub type TomlText = (Seq<char>, Option<Seq<char>>);

/// What the entries of a table hold.
pub open spec fn table_view(table: Seq<(String, Option<String>)>) -> Seq<TomlText> {
    table.map_values(|entry: (String, Option<String>)| (entry.0@, opt_text(entry.1)))
}

/// What a top-level entry holds.
pub open spec fn entry_view(entry: TomlEntry) -> (Seq<char>, Option<Seq<TomlText>>) {
    (
        entry.key@,
        match entry.table {
            Some(table) => Some(table_view(table@)),
            None => None,
        },
    )
}

/// What a document holds.
pub open spec fn document_view(document: Seq<TomlEntry>) -> Seq<
    (Seq<char>, Option<Seq<TomlText>>),
> {
    document.map_values(|entry: TomlEntry| entry_view(entry))
}

/// The TOML document that `text` is, as the `toml` crate reads it: its top-level entries, with
/// the strings in those that are tables. The crate gives a date as a table with one entry, whose
/// key is a name of its own. Nothing where `text` is no TOML document.
pub uninterp spec fn toml_document(text: Seq<char>) -> Option<
    Seq<(Seq<char>, Option<Seq<(Seq<char>, Option<Seq<char>>)>>)>,
>;

/// Declares `toml::de::Error`, what the `toml` crate has to say of a text that it cannot read.
#[verifier::external_type_specification]
#[verifier::external_body]
pub struct ExTomlError(toml::de::Error);

/// Calls `toml::from_str`, which reads the document into a `serde_json::Map`, and hands out the
/// entries of that map one for one. That type takes every value as the `toml` crate gives it,
/// whereas a `toml::Table` takes some tables for dates.
///
/// Claimed: the entries, and whether there are any to hand out, depend on the text alone.
#[verifier::external_body]
fn parse_toml(text: &str) -> (document: Result<Vec<TomlEntry>, toml::de::Error>)
    ensures
        match document {
            Ok(entries) => toml_document(text@) == Some(document_view(entries@)),
            Err(_) => toml_document(text@) is None,
        },
{
    let table = toml::from_str::<serde_json::Map<String, serde_json::Value>>(text)?;
    Ok(
        table.iter().map(
            |(key, value)| TomlEntry {
                key: key.clone(),
                table: value.as_object().map(
                    |inner| inner.iter().map(
                        |(name, item)| (name.clone(), item.as_str().map(String::from)),
                    ).collect(),
                ),
            },
        ).collect(),
    )
}

/// Whether every entry is a string.
pub open spec fn all_strings(table: Seq<TomlText>) -> bool {
    forall|i: int| 0 <= i < table.len() ==> (#[trigger] table[i]).1 is Some
}

/// The map that a table of strings spells out.
pub open spec fn table_icons(table: Seq<TomlText>) -> Map<Seq<char>, Seq<char>>
    decreases table.len(),
{
    if table.len() == 0 {
        Map::empty()
    } else {
        table_icons(table.drop_last()).insert(table.last().0, table.last().1->0)
    }
}

/// Where the entry for `icons` stands in a document: at the first entry of that name.
pub open spec fn icons_entry(document: Seq<(Seq<char>, Option<Seq<TomlText>>)>) -> Option<
    Option<Seq<TomlText>>,
>
    decreases document.len(),
{
    if document.len() == 0 {
        None
    } else if document[0].0 == "icons"@ {
        Some(document[0].1)
    } else {
        icons_entry(document.skip(1))
    }
}

/// The icons that a document lists: none where it has no `icons`, and no answer where `icons`
/// is anything but a table of strings.
pub open spec fn document_icons(document: Seq<(Seq<char>, Option<Seq<TomlText>>)>) -> Option<
    Map<Seq<char>, Seq<char>>,
> {
    match icons_entry(document) {
        None => Some(Map::empty()),
        Some(Some(table)) if all_strings(table) => Some(table_icons(table)),
        _ => None,
    }
}

/// Why a file gives no icons.
pub enum IconMapError {
    /// It could not be read.
    Unreadable,
    /// It is no TOML document.
    Syntax(toml::de::Error),
    /// Its `icons` is not a table of strings.
    Shape,
}

/// The icons that the document lists.
pub fn icons_in(document: &Vec<TomlEntry>) -> (icons: Option<IconMap>)
    ensures
        match icons {
            Some(map) => document_icons(document_view(document@)) == Some(map@),
            None => document_icons(document_view(document@)) is None,
        },
{
    let ghost all = document_view(document@);
    let mut i: usize = 0;
    assert(all.skip(0) == all);
    while i < document.len()
        invariant
            i <= document.len(),
            all == document_view(document@),
            icons_entry(all) == icons_entry(all.skip(i as int)),
        decreases document.len() - i,
    {
        assert(all.skip(i as int)[0] == entry_view(document[i as int]));
        if same(document[i].key.as_str(), "icons") {
            return match &document[i].table {
                Some(table) => table_map(table),
                None => None,
            };
        }
        assert(all.skip(i as int).skip(1) == all.skip(i + 1));
        i += 1;
    }
    Some(IconMap::new())
}

/// The map that a table spells out, if it holds strings only.
fn table_map(table: &Vec<(String, Option<String>)>) -> (icons: Option<IconMap>)
    ensures
        match icons {
            Some(map) => all_strings(table_view(table@)) && map@ == table_icons(table_view(table@)),
            None => !all_strings(table_view(table@)),
        },
{
    let ghost all = table_view(table@);
    let mut map = IconMap::new();
    let mut i: usize = 0;
    while i < table.len()
        invariant
            i <= table.len(),
            all == table_view(table@),
            forall|j: int| 0 <= j < i ==> (#[trigger] all[j]).1 is Some,
            map@ == table_icons(all.take(i as int)),
        decreases table.len() - i,
    {
        let entry = &table[i];
        assert(all[i as int] == (entry.0@, opt_text(entry.1)));
        assert(all.take(i + 1).drop_last() == all.take(i as int));
        match &entry.1 {
            Some(icon) => {
                map.insert(entry.0.clone(), icon.clone());
            },
            None => {
                return None;
            },
        }
        i += 1;
    }
    assert(all.take(i as int) == all);
    Some(map)
}

/// The icons to start with or to go on with, and what was wrong with the file that should have
/// listed them.
pub struct LoadedIcons {
    pub icons: IconMap,
    pub problem: Option<IconMapError>,
}

/// The icons that a text lists, if it is a TOML document that lists some properly.
pub open spec fn text_icons(text: Seq<char>) -> Option<Map<Seq<char>, Seq<char>>> {
    match toml_document(text) {
        Some(document) => document_icons(document),
        None => None,
    }
}

/// Reads the icon map from the contents of its file, `None` where the file could not be read.
/// A file that is of no use gives no icons, and the reason.
pub fn load_icon_map(content: Option<&str>) -> (loaded: LoadedIcons)
    ensures
        loaded.problem is None <==> (content is Some && text_icons(content->0@) is Some),
        loaded.problem is None ==> Some(loaded.icons@) == text_icons(content->0@),
        loaded.problem is Some ==> loaded.icons@ == Map::<Seq<char>, Seq<char>>::empty(),
        loaded.problem matches Some(problem) ==> match problem {
            IconMapError::Unreadable => content is None,
            IconMapError::Syntax(_) => content is Some && toml_document(content->0@) is None,
            IconMapError::Shape => content is Some && toml_document(content->0@) is Some,
        },
{
    let text = match content {
        Some(text) => text,
        None => {
            return LoadedIcons {
                icons: IconMap::new(),
                problem: Some(IconMapError::Unreadable),
            };
        },
    };
    match parse_toml(text) {
        Ok(document) => match icons_in(&document) {
            Some(icons) => LoadedIcons { icons, problem: None },
            None => LoadedIcons { icons: IconMap::new(), problem: Some(IconMapError::Shape) },
        },
        Err(error) => LoadedIcons {
            icons: IconMap::new(),
            problem: Some(IconMapError::Syntax(error)),
        },
    }
}

/// The map that is read from a table of strings has each entry's key, with that entry's text, and
/// no other key, provided that no key stands there twice.
pub proof fn law_table_read(table: Seq<TomlText>)
    requires
        forall|i: int, j: int|
            0 <= i < j < table.len() ==> (#[trigger] table[i]).0 != (#[trigger] table[j]).0,
        forall|i: int| 0 <= i < table.len() ==> (#[trigger] table[i]).1 is Some,
    ensures
        forall|i: int|
            0 <= i < table.len() ==> table_icons(table).dom().contains((#[trigger] table[i]).0)
                && Some(table_icons(table)[table[i].0]) == table[i].1,
        forall|key: Seq<char>| #[trigger]
            table_icons(table).dom().contains(key) ==> exists|i: int|
                0 <= i < table.len() && (#[trigger] table[i]).0 == key,
    decreases table.len(),
{
    let map = table_icons(table);
    if table.len() > 0 {
        let start = table.drop_last();
        let last = table.len() - 1;
        assert forall|i: int, j: int| 0 <= i < j < start.len() implies (#[trigger] start[i]).0 != (
        #[trigger] start[j]).0 by {
            assert(start[i] == table[i] && start[j] == table[j]);
        }
        assert forall|i: int| 0 <= i < start.len() implies (#[trigger] start[i]).1 is Some by {
            assert(start[i] == table[i]);
        }
        law_table_read(start);
        assert(table[last].1 is Some);
        assert forall|i: int| 0 <= i < table.len() implies map.dom().contains(
            (#[trigger] table[i]).0,
        ) && Some(map[table[i].0]) == table[i].1 by {
            if i < last {
                assert(start[i] == table[i]);
                assert(table[i].0 != table[last].0);
            }
        }
        assert forall|key: Seq<char>| #[trigger] map.dom().contains(key) implies exists|i: int|
            0 <= i < table.len() && (#[trigger] table[i]).0 == key by {
            if key == table[last].0 {
                assert(table[last].0 == key);
            } else {
                assert(table_icons(start).dom().contains(key));
                let i = choose|i: int| 0 <= i < start.len() && (#[trigger] start[i]).0 == key;
                assert(table[i].0 == key);
            }
        }
    }
}

/// The first entry of a document that is called `icons` is the one that is looked at.
proof fn lemma_icons_entry(document: Seq<(Seq<char>, Option<Seq<TomlText>>)>, k: int)
    requires
        0 <= k <= document.len(),
        forall|i: int| 0 <= i < k ==> (#[trigger] document[i]).0 != "icons"@,
        k < document.len() ==> document[k].0 == "icons"@,
    ensures
        icons_entry(document) == if k < document.len() {
            Some(document[k].1)
        } else {
            None
        },
    decreases k,
{
    if k > 0 {
        let rest = document.skip(1);
        assert(document[0].0 != "icons"@);
        assert forall|i: int| 0 <= i < k - 1 implies (#[trigger] rest[i]).0 != "icons"@ by {
            assert(rest[i] == document[i + 1]);
        }
        lemma_icons_entry(rest, k - 1);
    }
}

/// A file whose `icons` is a table of strings gives each application in the table the icon that
/// stands there, and no other application one.
pub proof fn law_icons_read(
    text: Seq<char>,
    document: Seq<(Seq<char>, Option<Seq<TomlText>>)>,
    k: int,
    table: Seq<TomlText>,
)
    requires
        toml_document(text) == Some(document),
        0 <= k < document.len(),
        document[k] == ("icons"@, Some(table)),
        forall|i: int| 0 <= i < k ==> (#[trigger] document[i]).0 != "icons"@,
        forall|i: int, j: int|
            0 <= i < j < table.len() ==> (#[trigger] table[i]).0 != (#[trigger] table[j]).0,
        forall|i: int| 0 <= i < table.len() ==> (#[trigger] table[i]).1 is Some,
    ensures
        text_icons(text) is Some,
        forall|i: int|
            0 <= i < table.len() ==> text_icons(text)->0.dom().contains((#[trigger] table[i]).0)
                && Some(text_icons(text)->0[table[i].0]) == table[i].1,
        forall|key: Seq<char>| #[trigger]
            text_icons(text)->0.dom().contains(key) ==> exists|i: int|
                0 <= i < table.len() && (#[trigger] table[i]).0 == key,
{
    lemma_icons_entry(document, k);
    law_table_read(table);
}

/// A file without `icons` gives no application an icon.
pub proof fn law_no_icons_listed(
    text: Seq<char>,
    document: Seq<(Seq<char>, Option<Seq<TomlText>>)>,
    key: Seq<char>,
)
    requires
        toml_document(text) == Some(document),
        forall|i: int| 0 <= i < document.len() ==> (#[trigger] document[i]).0 != "icons"@,
    ensures
        text_icons(text) is Some,
        !text_icons(text)->0.dom().contains(key),
{
    lemma_icons_entry(document, document.len() as int);
}

/// A file is of no use where it is no TOML document, where its `icons` is no table, and where an
/// entry of that table, whichever it is, is no string.
pub proof fn law_bad_icons_refused(
    text: Seq<char>,
    document: Seq<(Seq<char>, Option<Seq<TomlText>>)>,
    k: int,
    j: int,
)
    requires
        toml_document(text) == Some(document),
        0 <= k < document.len(),
        document[k].0 == "icons"@,
        forall|i: int| 0 <= i < k ==> (#[trigger] document[i]).0 != "icons"@,
        document[k].1 matches Some(table) ==> 0 <= j < table.len() && table[j].1 is None,
    ensures
        text_icons(text) is None,
{
    lemma_icons_entry(document, k);
}

/// A text that is no TOML document lists nothing.
pub proof fn law_no_document(text: Seq<char>)
    requires
        toml_document(text) is None,
    ensures
        text_icons(text) is None,
{
}

/// An application has the icon that it was given last, whatever else is in the map.
pub proof fn law_own_icon(icons: Map<Seq<char>, Seq<char>>, app: Seq<char>, icon: Seq<char>)
    ensures
        icon_of(icons.insert(app, icon), app) == icon,
{
}

/// An application without an icon of its own has the one listed as `_default`; where there is none
/// either, it has `:default:`.
pub proof fn law_default_icon(icons: Map<Seq<char>, Seq<char>>, app: Seq<char>, icon: Seq<char>)
    requires
        app != "_default"@,
    ensures
        icon_of(icons.remove(app).insert("_default"@, icon), app) == icon,
        icon_of(icons.remove(app).remove("_default"@), app) == ":default:"@,
{
}

/// The icons of other applications do not matter to that of one.
pub proof fn law_other_icons_apart(
    icons: Map<Seq<char>, Seq<char>>,
    app: Seq<char>,
    other: Seq<char>,
    icon: Seq<char>,
)
    requires
        other != app,
        other != "_default"@,
    ensures
        icon_of(icons.insert(other, icon), app) == icon_of(icons, app),
        icon_of(icons.remove(other), app) == icon_of(icons, app),
{
}

/// What a document holds is what each of its entries holds, and what a table holds is what each of
/// its entries does.
pub proof fn law_views_of_entries(
    document: Seq<TomlEntry>,
    table: Seq<(String, Option<String>)>,
)
    ensures
        document_view(document).len() == document.len(),
        forall|i: int|
            0 <= i < document.len() ==> (#[trigger] document_view(document)[i]).0
                == document[i].key@,
        forall|i: int|
            0 <= i < document.len() ==> (#[trigger] document_view(document)[i]).1
                == match document[i].table {
                Some(inner) => Some(table_view(inner@)),
                None => None,
            },
        table_view(table).len() == table.len(),
        forall|i: int| 0 <= i < table.len() ==> (#[trigger] table_view(table)[i]).0 == table[i].0@,
        forall|i: int|
            0 <= i < table.len() ==> (#[trigger] table_view(table)[i]).1 == match table[i].1 {
                Some(text) => Some(text@),
                None => None,
            },
{
}

} // verus!
