//! The configuration file as TOML text.
use crate::cli::config;
use crate::cli::config::{config_key_path, table_step, TableEntry, TableStep};
use crate::text::chars;
use crate::text::chars::concat2;
use crate::text::split;
use vstd::prelude::*;

verus! {

/// A TOML document that can be edited.
#[verifier::external_type_specification]
#[verifier::external_body]
pub struct ExDocument(toml_edit::DocumentMut);

/// A TOML value.
#[verifier::external_type_specification]
#[verifier::external_body]
pub struct ExValue(toml_edit::Value);

/// A TOML value that is only read.
#[verifier::external_type_specification]
#[verifier::external_body]
pub struct ExReadValue(toml::Value);

/// A change of a TOML document: an empty table or a value that was inserted under some names.
pub struct TomlEdit {
    pub path: Seq<Seq<char>>,
    pub value: Option<toml_edit::Value>,
}

/// What a TOML document holds, by the names that lead there through tables: nothing more for a
/// table, and its TOML text for anything else.
pub uninterp spec fn toml_entries(doc: toml_edit::DocumentMut) -> Map<
    Seq<Seq<char>>,
    Option<Seq<char>>,
>;

/// The TOML text of a value.
pub uninterp spec fn value_text(value: toml_edit::Value) -> Seq<char>;

/// What the TOML document of a text holds, or why the text is none.
pub uninterp spec fn toml_reading(content: Seq<char>) -> Result<
    Map<Seq<Seq<char>>, Option<Seq<char>>>,
    Seq<char>,
>;

/// The text that a TOML document was parsed from.
pub uninterp spec fn document_source(doc: toml_edit::DocumentMut) -> Seq<char>;

/// The changes that were made to a TOML document since it was parsed.
pub uninterp spec fn document_edits(doc: toml_edit::DocumentMut) -> Seq<TomlEdit>;

/// The text of the TOML document of a text after some changes.
pub uninterp spec fn edited_text(content: Seq<char>, edits: Seq<TomlEdit>) -> Seq<char>;

/// The texts that a TOML value shows, by the names that lead there; no names lead to the value
/// itself.
pub uninterp spec fn read_texts(value: toml::Value) -> Map<Seq<Seq<char>>, Seq<char>>;

/// The texts that the TOML value of a text shows, or why the text is no TOML.
pub uninterp spec fn text_reading(content: Seq<char>) -> Result<
    Map<Seq<Seq<char>>, Seq<char>>,
    Seq<char>,
>;

/// What an entry of a document is.
pub open spec fn entry_kind(
    m: Map<Seq<Seq<char>>, Option<Seq<char>>>,
    path: Seq<Seq<char>>,
) -> TableEntry {
    if !m.dom().contains(path) {
        TableEntry::Missing
    } else if m[path] is None {
        TableEntry::Table
    } else {
        TableEntry::Other
    }
}

/// Whether there is a table under the given names; the document itself is one.
pub open spec fn has_table(
    m: Map<Seq<Seq<char>>, Option<Seq<char>>>,
    path: Seq<Seq<char>>,
) -> bool {
    path.len() == 0 || entry_kind(m, path) is Table
}

/// Whether the first names lead to something inside what the second lead to.
pub open spec fn is_below(path: Seq<Seq<char>>, top: Seq<Seq<char>>) -> bool {
    path.len() > top.len() && path.take(top.len() as int) == top
}

/// The entries once a value is put under the given names, in place of what was there.
pub open spec fn with_value(
    m: Map<Seq<Seq<char>>, Option<Seq<char>>>,
    path: Seq<Seq<char>>,
    text: Seq<char>,
) -> Map<Seq<Seq<char>>, Option<Seq<char>>> {
    Map::new(
        |p: Seq<Seq<char>>| p == path || (m.dom().contains(p) && !is_below(p, path)),
        |p: Seq<Seq<char>>|
            if p == path {
                Some(text)
            } else {
                m[p]
            },
    )
}

/// `str::parse` of a text into a `toml_edit::DocumentMut`: the document or the text of the
/// error, which depend on the text alone.
#[verifier::external_body]
fn read_document(content: &str) -> (r: Result<toml_edit::DocumentMut, String>)
    ensures
        match r {
            Ok(doc) => toml_reading(content@) == Ok::<_, Seq<char>>(toml_entries(doc))
                && document_source(doc) == content@ && document_edits(doc) == Seq::<
                TomlEdit,
            >::empty(),
            Err(e) => toml_reading(content@) == Err::<
                Map<Seq<Seq<char>>, Option<Seq<char>>>,
                _,
            >(e@),
        },
{
    content.parse::<toml_edit::DocumentMut>().map_err(|e| e.to_string())
}

/// `toml_edit::Table::get` in the table that the names before the last lead to: whether there is
/// nothing, a table, or something else.
#[verifier::external_body]
fn entry_at(doc: &toml_edit::DocumentMut, path: &[String]) -> (r: TableEntry)
    requires
        path@.len() > 0,
        has_table(toml_entries(*doc), chars::texts(path@).drop_last()),
    ensures
        r == entry_kind(toml_entries(*doc), chars::texts(path@)),
{
    let (leaf, parents) = path.split_last().unwrap();
    let table = parents.iter().try_fold(doc.as_table(), |t, k| t.get(k)?.as_table());
    match table.and_then(|t| t.get(leaf)) {
        None | Some(toml_edit::Item::None) => TableEntry::Missing,
        Some(toml_edit::Item::Table(_)) => TableEntry::Table,
        Some(_) => TableEntry::Other,
    }
}

/// `toml_edit::Table::insert` of an empty table under the given names, the last of which is
/// new.
#[verifier::external_body]
fn add_table(doc: &mut toml_edit::DocumentMut, path: &[String])
    requires
        path@.len() > 0,
        has_table(toml_entries(*old(doc)), chars::texts(path@).drop_last()),
        entry_kind(toml_entries(*old(doc)), chars::texts(path@)) is Missing,
    ensures
        toml_entries(*final(doc)) == toml_entries(*old(doc)).insert(
            chars::texts(path@),
            None::<Seq<char>>,
        ),
        document_source(*final(doc)) == document_source(*old(doc)),
        document_edits(*final(doc)) == document_edits(*old(doc)).push(
            TomlEdit { path: chars::texts(path@), value: None },
        ),
{
    let (leaf, parents) = path.split_last().unwrap();
    let table = parents.iter().try_fold(doc.as_table_mut(), |t, k| t.get_mut(k)?.as_table_mut());
    table.map(|t| t.insert(leaf, toml_edit::Item::Table(toml_edit::Table::new())));
}

/// `toml_edit::Table::insert` of a value under the given names, in place of what was there.
#[verifier::external_body]
fn put_value(doc: &mut toml_edit::DocumentMut, path: &[String], value: toml_edit::Value)
    requires
        path@.len() > 0,
        has_table(toml_entries(*old(doc)), chars::texts(path@).drop_last()),
    ensures
        toml_entries(*final(doc)) == with_value(
            toml_entries(*old(doc)),
            chars::texts(path@),
            value_text(value),
        ),
        document_source(*final(doc)) == document_source(*old(doc)),
        document_edits(*final(doc)) == document_edits(*old(doc)).push(
            TomlEdit { path: chars::texts(path@), value: Some(value) },
        ),
{
    let (leaf, parents) = path.split_last().unwrap();
    let table = parents.iter().try_fold(doc.as_table_mut(), |t, k| t.get_mut(k)?.as_table_mut());
    table.map(|t| t.insert(leaf, toml_edit::Item::Value(value)));
}

/// `ToString::to_string` of a `toml_edit::DocumentMut`: the text depends on the text that was
/// parsed and on what was inserted since.
#[verifier::external_body]
fn write_document(doc: &toml_edit::DocumentMut) -> (r: String)
    ensures
        r@ == edited_text(document_source(*doc), document_edits(*doc)),
{
    doc.to_string()
}

/// `toml::from_str` of a text into a `toml::Value`: the value or the text of the error, which
/// depend on the text alone.
#[verifier::external_body]
fn read_value(content: &str) -> (r: Result<toml::Value, String>)
    ensures
        match r {
            Ok(v) => text_reading(content@) == Ok::<_, Seq<char>>(read_texts(v)),
            Err(e) => text_reading(content@) == Err::<Map<Seq<Seq<char>>, Seq<char>>, _>(e@),
        },
{
    toml::from_str::<toml::Value>(content).map_err(|e| e.to_string())
}

/// The texts behind the given names.
pub open spec fn behind(
    m: Map<Seq<Seq<char>>, Seq<char>>,
    names: Seq<Seq<char>>,
) -> Map<Seq<Seq<char>>, Seq<char>> {
    Map::new(
        |p: Seq<Seq<char>>| m.dom().contains(names + p),
        |p: Seq<Seq<char>>| m[names + p],
    )
}

/// `toml::Value::get` with a name: the value under that name, if there is one.
#[verifier::external_body]
fn value_under<'a>(value: &'a toml::Value, name: &str) -> (r: Option<&'a toml::Value>)
    ensures
        match r {
            Some(x) => read_texts(*value).dom().contains(seq![name@]) && read_texts(*x) == behind(
                read_texts(*value),
                seq![name@],
            ),
            None => !read_texts(*value).dom().contains(seq![name@]),
        },
{
    value.get(name)
}

/// `ToString::to_string` of a `toml::Value`: the text that it shows.
#[verifier::external_body]
fn show_value(value: &toml::Value) -> (r: String)
    ensures
        r@ == read_texts(*value)[Seq::<Seq<char>>::empty()],
{
    value.to_string()
}

/// The text that names lead to, of which the first `i` were followed; none if one of the others
/// leads nowhere.
pub open spec fn walk(
    m: Map<Seq<Seq<char>>, Seq<char>>,
    path: Seq<Seq<char>>,
    i: int,
) -> Option<Seq<char>>
    decreases path.len() - i,
{
    if i >= path.len() {
        Some(m[path])
    } else if i >= 0 && m.dom().contains(path.take(i + 1)) {
        walk(m, path, i + 1)
    } else {
        None
    }
}

/// The text that a TOML text shows under some names.
pub fn look_up(content: &str, path: &[String]) -> (r: Result<Option<String>, String>)
    ensures
        match text_reading(content@) {
            Ok(m) => r matches Ok(found) && chars::opt_text(found) == walk(
                m,
                chars::texts(path@),
                0,
            ),
            Err(why) => r matches Err(e) && e@ == why,
        },
{
    let table = match read_value(content) {
        Ok(table) => table,
        Err(e) => {
            return Err(e);
        },
    };
    let ghost m = read_texts(table);
    let ghost names = chars::texts(path@);
    let mut current: &toml::Value = &table;
    let mut i: usize = 0;
    proof {
        assert(behind(m, names.take(0)) =~= m) by {
            assert forall|p: Seq<Seq<char>>| #[trigger] (names.take(0) + p) == p by {
                assert(names.take(0) + p =~= p);
            }
        }
    }
    while i < path.len()
        invariant
            i <= path@.len(),
            names == chars::texts(path@),
            text_reading(content@) == Ok::<_, Seq<char>>(m),
            read_texts(*current) == behind(m, names.take(i as int)),
            walk(m, names, 0) == walk(m, names, i as int),
            i > 0 ==> m.dom().contains(names.take(i as int)),
            i == 0 ==> read_texts(*current) == m,
        decreases path@.len() - i,
    {
        let ghost so_far = names.take(i as int);
        let ghost name = names[i as int];
        proof {
            assert(so_far + seq![name] =~= names.take(i + 1));
            assert(path@[i as int]@ == name);
        }
        match value_under(current, path[i].as_str()) {
            Some(next) => {
                proof {
                    assert(behind(behind(m, so_far), seq![name]) =~= behind(
                        m,
                        names.take(i + 1),
                    )) by {
                        assert forall|p: Seq<Seq<char>>|
                            #[trigger] (so_far + (seq![name] + p)) == names.take(i + 1) + p by {
                            assert(so_far + (seq![name] + p) =~= names.take(i + 1) + p);
                        }
                    }
                }
                current = next;
            },
            None => {
                return Ok(None);
            },
        }
        i = i + 1;
    }
    proof {
        assert(names.take(i as int) =~= names);
        assert(names + Seq::<Seq<char>>::empty() =~= names);
        if i == 0 {
            assert(names =~= Seq::<Seq<char>>::empty());
        }
    }
    Ok(Some(show_value(current)))
}

/// The entries once the tables on the way to a key are there, from the name at `i` on, and the
/// name on the way that leads to no table, if there is one.
pub open spec fn opened(
    m: Map<Seq<Seq<char>>, Option<Seq<char>>>,
    path: Seq<Seq<char>>,
    i: int,
) -> (Map<Seq<Seq<char>>, Option<Seq<char>>>, Option<int>)
    decreases path.len() - i,
{
    if i < 0 || i + 1 >= path.len() {
        (m, None)
    } else {
        match entry_kind(m, path.take(i + 1)) {
            TableEntry::Missing => opened(m.insert(path.take(i + 1), None), path, i + 1),
            TableEntry::Table => opened(m, path, i + 1),
            TableEntry::Other => (m, Some(i)),
        }
    }
}

/// The tables that are made on the way to a key, from the name at `i` on.
pub open spec fn openings(
    m: Map<Seq<Seq<char>>, Option<Seq<char>>>,
    path: Seq<Seq<char>>,
    i: int,
) -> Seq<TomlEdit>
    decreases path.len() - i,
{
    if i < 0 || i + 1 >= path.len() {
        Seq::empty()
    } else {
        let part = path.take(i + 1);
        match entry_kind(m, part) {
            TableEntry::Missing => seq![TomlEdit { path: part, value: None }] + openings(
                m.insert(part, None),
                path,
                i + 1,
            ),
            TableEntry::Table => openings(m, path, i + 1),
            TableEntry::Other => Seq::empty(),
        }
    }
}

/// All that is inserted to set the value of a key.
pub open spec fn insertions(
    m: Map<Seq<Seq<char>>, Option<Seq<char>>>,
    path: Seq<Seq<char>>,
    value: toml_edit::Value,
) -> Seq<TomlEdit> {
    openings(m, path, 0).push(TomlEdit { path, value: Some(value) })
}

/// Sets the value of a key. Tables on the way that are missing are made; the key is refused if
/// something else than a table stands on the way.
pub fn set_toml_key(document: &mut toml_edit::DocumentMut, key: &str, value: toml_edit::Value) -> (r:
    Result<(), String>)
    ensures
        ({
            let path = split::pieces(key@, '.');
            let o = opened(toml_entries(*old(document)), path, 0);
            match o.1 {
                Some(i) => (r matches Err(e) && e@ == config::not_a_table(path[i], key@))
                    && toml_entries(*final(document)) == o.0 && document_edits(*final(document))
                    == document_edits(*old(document)) + openings(
                    toml_entries(*old(document)),
                    path,
                    0,
                ),
                None => r is Ok && toml_entries(*final(document)) == with_value(
                    o.0,
                    path,
                    value_text(value),
                ) && document_edits(*final(document)) == document_edits(*old(document))
                    + insertions(toml_entries(*old(document)), path, value),
            }
        }),
        document_source(*final(document)) == document_source(*old(document)),
{
    let path = config_key_path(key);
    let ghost names = split::pieces(key@, '.');
    let ghost whole = opened(toml_entries(*document), names, 0);
    let ghost made = document_edits(*document) + openings(toml_entries(*document), names, 0);
    let n: usize = path.len();
    let mut i: usize = 0;
    proof {
        assert(names.len() == n);
        assert(names.take(0).len() == 0);
    }
    while i + 1 < n
        invariant
            n == path@.len(),
            0 < n,
            i + 1 <= n,
            names == chars::texts(path@),
            names == split::pieces(key@, '.'),
            whole == opened(toml_entries(*old(document)), names, 0),
            whole == opened(toml_entries(*document), names, i as int),
            made == document_edits(*old(document)) + openings(
                toml_entries(*old(document)),
                names,
                0,
            ),
            made == document_edits(*document) + openings(
                toml_entries(*document),
                names,
                i as int,
            ),
            document_source(*document) == document_source(*old(document)),
            has_table(toml_entries(*document), names.take(i as int)),
        decreases n - i,
    {
        let part = vstd::slice::slice_subrange(path.as_slice(), 0, i + 1);
        proof {
            assert(chars::texts(part@) =~= names.take(i + 1));
            assert(names.take(i + 1).drop_last() =~= names.take(i as int));
            assert(names[i as int] == path@[i as int]@);
        }
        match table_step(entry_at(document, part), path[i].as_str(), key) {
            TableStep::Create => {
                add_table(document, part);
                proof {
                    assert(made =~= document_edits(*document) + openings(
                        toml_entries(*document),
                        names,
                        i + 1,
                    ));
                }
            },
            TableStep::Enter => {},
            TableStep::Refuse(e) => {
                proof {
                    assert(made =~= document_edits(*document));
                }
                return Err(e);
            },
        }
        i = i + 1;
    }
    proof {
        assert(names.drop_last() =~= names.take(i as int));
    }
    proof {
        assert(made =~= document_edits(*document));
    }
    put_value(document, path.as_slice(), value);
    proof {
        assert(document_edits(*document) =~= document_edits(*old(document)) + insertions(
            toml_entries(*old(document)),
            names,
            value,
        ));
    }
    Ok(())
}

/// Why a configuration text cannot be changed.
#[derive(Debug, Clone, PartialEq, Eq)]
pub enum ConfigEditError {
    /// It is no TOML.
    NotToml(String),
    /// The value cannot be read.
    NotValue(String),
    /// Something else than a table stands on the way to the key.
    NotTable(String),
}

/// Sets the value of a key in a configuration text. `value` holds the value, or why it cannot be
/// read. What else the text holds is left as it was written.
pub fn set_config_value(content: &str, key: &str, value: Result<toml_edit::Value, String>) -> (r:
    Result<String, ConfigEditError>)
    ensures
        match (toml_reading(content@), value) {
            (Err(why), _) => r matches Err(ConfigEditError::NotToml(e)) && e@ == why,
            (Ok(_), Err(why)) => r matches Err(ConfigEditError::NotValue(e)) && e@ == why@,
            (Ok(m), Ok(v)) => {
                let path = split::pieces(key@, '.');
                let o = opened(m, path, 0);
                match o.1 {
                    Some(i) => r matches Err(ConfigEditError::NotTable(e)) && e@
                        == config::not_a_table(path[i], key@),
                    None => r matches Ok(text) && text@ == edited_text(
                        content@,
                        insertions(m, path, v),
                    ),
                }
            },
        },
{
    let mut document = match read_document(content) {
        Ok(document) => document,
        Err(e) => {
            return Err(ConfigEditError::NotToml(e));
        },
    };
    let v = match value {
        Ok(v) => v,
        Err(e) => {
            return Err(ConfigEditError::NotValue(e));
        },
    };
    let ghost m = toml_entries(document);
    match set_toml_key(&mut document, key, v) {
        Ok(_) => {
            proof {
                let all = insertions(m, split::pieces(key@, '.'), v);
                assert(Seq::<TomlEdit>::empty() + all =~= all);
            }
            Ok(write_document(&document))
        },
        Err(e) => Err(ConfigEditError::NotTable(e)),
    }
}

/// What is shown of the value of a key.
pub open spec fn shown(found: Option<Seq<char>>, key: Seq<char>) -> Seq<char> {
    match found {
        Some(text) => "  "@ + text,
        None => "  Key not found: "@ + key,
    }
}

/// What is shown of the value of a key in a configuration text.
pub fn config_value_line(content: &str, key: &str) -> (r: Result<String, String>)
    ensures
        match text_reading(content@) {
            Ok(m) => r matches Ok(line) && line@ == shown(
                walk(m, split::pieces(key@, '.'), 0),
                key@,
            ),
            Err(why) => r matches Err(e) && e@ == why,
        },
{
    let path = config_key_path(key);
    match look_up(content, path.as_slice()) {
        Ok(found) => Ok(value_line(&found, key)),
        Err(e) => Err(e),
    }
}

/// What is shown of the value of a key.
pub fn value_line(found: &Option<String>, key: &str) -> (r: String)
    ensures
        r@ == shown(chars::opt_text(*found), key@),
{
    match found {
        Some(text) => concat2("  ", text.as_str()),
        None => concat2("  Key not found: ", key),
    }
}

/// A key that was set holds its value.
pub proof fn law_set_values_are_held(
    m: Map<Seq<Seq<char>>, Option<Seq<char>>>,
    path: Seq<Seq<char>>,
    text: Seq<char>,
)
    ensures
        with_value(opened(m, path, 0).0, path, text).dom().contains(path),
        with_value(opened(m, path, 0).0, path, text)[path] == Some(text),
{
}

/// Setting a key changes no other entry of the document, but for what stood inside the entry
/// that it replaces.
pub proof fn law_other_entries_stay(
    m: Map<Seq<Seq<char>>, Option<Seq<char>>>,
    path: Seq<Seq<char>>,
    text: Seq<char>,
    other: Seq<Seq<char>>,
)
    requires
        m.dom().contains(other),
        other != path,
        !is_below(other, path),
    ensures
        with_value(opened(m, path, 0).0, path, text).dom().contains(other),
        with_value(opened(m, path, 0).0, path, text)[other] == m[other],
{
    lemma_opening_keeps(m, path, 0, other);
}

proof fn lemma_opening_keeps(
    m: Map<Seq<Seq<char>>, Option<Seq<char>>>,
    path: Seq<Seq<char>>,
    i: int,
    other: Seq<Seq<char>>,
)
    requires
        m.dom().contains(other),
    ensures
        opened(m, path, i).0.dom().contains(other),
        opened(m, path, i).0[other] == m[other],
    decreases path.len() - i,
{
    if 0 <= i && i + 1 < path.len() {
        match entry_kind(m, path.take(i + 1)) {
            TableEntry::Missing => {
                lemma_opening_keeps(m.insert(path.take(i + 1), None), path, i + 1, other);
            },
            TableEntry::Table => {
                lemma_opening_keeps(m, path, i + 1, other);
            },
            TableEntry::Other => {},
        }
    }
}

} // verus!
