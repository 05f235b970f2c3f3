//! The asset manifest: a TOML document whose `files` array lists, for each
//! asset, its `path`, the `commands` that build it and the file patterns it
//! `watch`es. The text is parsed into a TOML tree, and the entries are read
//! out of the tree.

use vstd::prelude::*;
use crate::assets::{texts, ManifestFile};
use crate::xml::find_named;

verus! {

/// A TOML value, with what the manifest reader does not take (numbers,
/// booleans, dates) kept only as `Other`.
#[derive(Debug, PartialEq, Eq)]
pub enum TomlValue {
    Text(String),
    Array(Vec<TomlValue>),
    Table(Vec<(String, TomlValue)>),
    Other,
}

/// A TOML value in terms of plain values.
pub enum TomlTree {
    Text(Seq<char>),
    Array(Seq<TomlTree>),
    Table(Seq<(Seq<char>, TomlTree)>),
    Other,
}

/// Why a manifest could not be read.
#[derive(Debug, PartialEq, Eq)]
pub enum ManifestError {
    /// The text is not a TOML document.
    NotToml,
    /// The document does not list the files as a manifest does.
    Malformed,
}

/// A value in terms of plain values.
pub open spec fn toml_tree_of(v: TomlValue) -> TomlTree
    decreases v,
{
    match v {
        TomlValue::Text(s) => TomlTree::Text(s@),
        TomlValue::Array(items) => TomlTree::Array(toml_trees_of(items@)),
        TomlValue::Table(entries) => TomlTree::Table(entries_view(entries@)),
        TomlValue::Other => TomlTree::Other,
    }
}

/// A list of values in terms of plain values.
pub open spec fn toml_trees_of(vs: Seq<TomlValue>) -> Seq<TomlTree>
    decreases vs,
{
    if vs.len() == 0 {
        Seq::empty()
    } else {
        toml_trees_of(vs.drop_last()).push(toml_tree_of(vs.last()))
    }
}

/// The entries of a table in terms of plain values.
pub open spec fn entries_view(es: Seq<(String, TomlValue)>) -> Seq<(Seq<char>, TomlTree)>
    decreases es,
{
    if es.len() == 0 {
        Seq::empty()
    } else {
        entries_view(es.drop_last()).push((es.last().0@, toml_tree_of(es.last().1)))
    }
}

proof fn lemma_toml_trees_of(vs: Seq<TomlValue>)
    ensures
        toml_trees_of(vs).len() == vs.len(),
        forall|i: int| 0 <= i < vs.len() ==> #[trigger] toml_trees_of(vs)[i] == toml_tree_of(vs[i]),
    decreases vs.len(),
{
    if vs.len() > 0 {
        lemma_toml_trees_of(vs.drop_last());
        assert forall|i: int| 0 <= i < vs.len() implies #[trigger] toml_trees_of(vs)[i]
            == toml_tree_of(vs[i]) by {
            if i < vs.len() - 1 {
                assert(vs.drop_last()[i] == vs[i]);
            }
        }
    }
}

proof fn lemma_entries_view(es: Seq<(String, TomlValue)>)
    ensures
        entries_view(es).len() == es.len(),
        forall|i: int|
            0 <= i < es.len() ==> #[trigger] entries_view(es)[i] == (es[i].0@, toml_tree_of(es[i].1)),
    decreases es.len(),
{
    if es.len() > 0 {
        lemma_entries_view(es.drop_last());
        assert forall|i: int| 0 <= i < es.len() implies #[trigger] entries_view(es)[i] == (
            es[i].0@,
            toml_tree_of(es[i].1),
        ) by {
            if i < es.len() - 1 {
                assert(es.drop_last()[i] == es[i]);
            }
        }
    }
}

/// The text that a value is, if it is one.
pub open spec fn text_of(t: TomlTree) -> Option<Seq<char>> {
    match t {
        TomlTree::Text(s) => Some(s),
        _ => None,
    }
}

/// The texts that a value lists, where it is an array of texts only.
pub open spec fn texts_in(t: TomlTree) -> Option<Seq<Seq<char>>> {
    match t {
        TomlTree::Array(items) => if forall|i: int|
            0 <= i < items.len() ==> (#[trigger] text_of(items[i])) is Some {
            Some(Seq::new(items.len(), |i: int| text_of(items[i])->0))
        } else {
            None
        },
        _ => None,
    }
}

/// The value under `key` in `t`, where `t` is a table that has one.
pub open spec fn field_of(t: TomlTree, key: Seq<char>) -> Option<TomlTree> {
    match t {
        TomlTree::Table(entries) => find_named(entries, key),
        _ => None,
    }
}

/// Whether `t` can be read as an entry of the manifest: a table with a text
/// `path` and arrays of texts `commands` and `watch`.
pub open spec fn entry_readable(t: TomlTree) -> bool {
    &&& field_of(t, "path"@) matches Some(p) && text_of(p) is Some
    &&& field_of(t, "commands"@) matches Some(c) && texts_in(c) is Some
    &&& field_of(t, "watch"@) matches Some(w) && texts_in(w) is Some
}

/// Whether `f` is the entry that `t` describes.
pub open spec fn entry_reads(f: ManifestFile, t: TomlTree) -> bool {
    &&& entry_readable(t)
    &&& text_of(field_of(t, "path"@)->0) == Some(f.path@)
    &&& texts_in(field_of(t, "commands"@)->0) == Some(texts(f.commands@))
    &&& texts_in(field_of(t, "watch"@)->0) == Some(texts(f.watch@))
}

/// The entries that the document's top-level table `root` lists under
/// `files`, where that is an array.
pub open spec fn manifest_items(root: Seq<(Seq<char>, TomlTree)>) -> Option<Seq<TomlTree>> {
    match find_named(root, "files"@) {
        Some(TomlTree::Array(items)) => Some(items),
        _ => None,
    }
}

/// Whether the top-level table `root` can be read as a manifest.
pub open spec fn manifest_readable(root: Seq<(Seq<char>, TomlTree)>) -> bool {
    manifest_items(root) matches Some(items) && forall|i: int|
        0 <= i < items.len() ==> entry_readable(#[trigger] items[i])
}

/// Whether `files` are, in order, the entries that the top-level table
/// `root` lists.
pub open spec fn manifest_reads(files: Seq<ManifestFile>, root: Seq<(Seq<char>, TomlTree)>) -> bool {
    manifest_items(root) matches Some(items) && files.len() == items.len() && forall|i: int|
        0 <= i < items.len() ==> entry_reads(#[trigger] files[i], items[i])
}

fn find_entry<'a>(entries: &'a Vec<(String, TomlValue)>, key: &str) -> (r: Option<&'a TomlValue>)
    ensures
        match r {
            Some(v) => find_named(entries_view(entries@), key@) == Some(toml_tree_of(*v)),
            None => find_named(entries_view(entries@), key@) is None,
        },
{
    let ghost view = entries_view(entries@);
    proof {
        lemma_entries_view(entries@);
    }
    let k = String::from_str(key);
    let mut i: usize = 0;
    assert(view.skip(0) =~= view);
    while i < entries.len()
        invariant
            i <= entries@.len(),
            k@ == key@,
            view == entries_view(entries@),
            view.len() == entries@.len(),
            forall|j: int|
                0 <= j < entries@.len() ==> #[trigger] view[j] == (entries@[j].0@, toml_tree_of(
                    entries@[j].1,
                )),
            find_named(view, key@) == find_named(view.skip(i as int), key@),
        decreases entries@.len() - i,
    {
        proof {
            assert(view.skip(i as int).drop_first() =~= view.skip(i + 1));
            assert(view.skip(i as int)[0] == view[i as int]);
        }
        if entries[i].0 == k {
            return Some(&entries[i].1);
        }
        i = i + 1;
    }
    assert(view.skip(i as int) =~= Seq::<(Seq<char>, TomlTree)>::empty());
    None
}

fn field_exec<'a>(v: &'a TomlValue, key: &str) -> (r: Option<&'a TomlValue>)
    ensures
        match r {
            Some(f) => field_of(toml_tree_of(*v), key@) == Some(toml_tree_of(*f)),
            None => field_of(toml_tree_of(*v), key@) is None,
        },
{
    match v {
        TomlValue::Table(entries) => find_entry(entries, key),
        _ => None,
    }
}

fn text_exec(v: &TomlValue) -> (r: Option<String>)
    ensures
        match r {
            Some(s) => text_of(toml_tree_of(*v)) == Some(s@),
            None => text_of(toml_tree_of(*v)) is None,
        },
{
    match v {
        TomlValue::Text(s) => Some(s.clone()),
        _ => None,
    }
}

fn texts_exec(v: &TomlValue) -> (r: Option<Vec<String>>)
    ensures
        match r {
            Some(list) => texts_in(toml_tree_of(*v)) == Some(texts(list@)),
            None => texts_in(toml_tree_of(*v)) is None,
        },
{
    match v {
        TomlValue::Array(items) => {
            let ghost ts = toml_trees_of(items@);
            proof {
                lemma_toml_trees_of(items@);
                assert(toml_tree_of(*v) == TomlTree::Array(ts));
            }
            let mut list: Vec<String> = Vec::new();
            let mut i: usize = 0;
            while i < items.len()
                invariant
                    i <= items@.len(),
                    ts == toml_trees_of(items@),
                    toml_tree_of(*v) == TomlTree::Array(ts),
                    ts.len() == items@.len(),
                    forall|j: int| 0 <= j < items@.len() ==> #[trigger] ts[j] == toml_tree_of(items@[j]),
                    list@.len() == i,
                    forall|j: int|
                        0 <= j < i ==> text_of(#[trigger] ts[j]) == Some(list@[j]@),
                decreases items@.len() - i,
            {
                match text_exec(&items[i]) {
                    Some(s) => {
                        list.push(s);
                    },
                    None => {
                        assert(text_of(ts[i as int]) is None);
                        return None;
                    },
                }
                i = i + 1;
            }
            proof {
                assert forall|j: int| 0 <= j < ts.len() implies (#[trigger] text_of(ts[j])) is Some by {
                    assert(text_of(ts[j]) == Some(list@[j]@));
                }
                assert(Seq::new(ts.len(), |j: int| text_of(ts[j])->0) =~= texts(list@));
            }
            Some(list)
        },
        _ => None,
    }
}

fn entry_from(v: &TomlValue) -> (r: Option<ManifestFile>)
    ensures
        match r {
            Some(f) => entry_reads(f, toml_tree_of(*v)),
            None => !entry_readable(toml_tree_of(*v)),
        },
{
    let path = match field_exec(v, "path") {
        Some(p) => match text_exec(p) {
            Some(s) => s,
            None => return None,
        },
        None => return None,
    };
    let commands = match field_exec(v, "commands") {
        Some(c) => match texts_exec(c) {
            Some(list) => list,
            None => return None,
        },
        None => return None,
    };
    let watch = match field_exec(v, "watch") {
        Some(w) => match texts_exec(w) {
            Some(list) => list,
            None => return None,
        },
        None => return None,
    };
    Some(ManifestFile { path, commands, watch })
}

/// Reads the manifest's entries out of the document's top-level table
/// `root`: `Malformed` where `files` is not an array of tables that each
/// hold a text `path` and arrays of texts `commands` and `watch`; the
/// entries, in order, otherwise.
pub fn manifest_files(root: &Vec<(String, TomlValue)>) -> (r: Result<Vec<ManifestFile>, ManifestError>)
    ensures
        match r {
            Ok(files) => manifest_readable(entries_view(root@)) && manifest_reads(
                files@,
                entries_view(root@),
            ),
            Err(e) => !manifest_readable(entries_view(root@)) && e is Malformed,
        },
{
    let items = match find_entry(root, "files") {
        Some(TomlValue::Array(items)) => items,
        _ => return Err(ManifestError::Malformed),
    };
    let ghost ts = toml_trees_of(items@);
    proof {
        lemma_toml_trees_of(items@);
        assert(manifest_items(entries_view(root@)) == Some(ts));
    }
    let mut files: Vec<ManifestFile> = Vec::new();
    let mut i: usize = 0;
    while i < items.len()
        invariant
            i <= items@.len(),
            ts == toml_trees_of(items@),
            manifest_items(entries_view(root@)) == Some(ts),
            ts.len() == items@.len(),
            forall|j: int| 0 <= j < items@.len() ==> #[trigger] ts[j] == toml_tree_of(items@[j]),
            files@.len() == i,
            forall|j: int| 0 <= j < i ==> entry_reads(#[trigger] files@[j], ts[j]),
        decreases items@.len() - i,
    {
        match entry_from(&items[i]) {
            Some(f) => {
                files.push(f);
            },
            None => {
                assert(!entry_readable(ts[i as int]));
                assert(!manifest_readable(entries_view(root@))) by {
                    let items_view = manifest_items(entries_view(root@))->0;
                    assert(items_view == ts);
                    assert(!entry_readable(items_view[i as int]));
                }
                return Err(ManifestError::Malformed);
            },
        }
        i = i + 1;
    }
    proof {
        assert forall|j: int| 0 <= j < ts.len() implies entry_readable(#[trigger] ts[j]) by {
            assert(entry_reads(files@[j], ts[j]));
        }
    }
    Ok(files)
}

/// TOML's value type, which the parse yields; opaque here.
#[verifier::external_type_specification]
#[verifier::external_body]
pub struct ExTomlValue(toml::Value);

/// The top-level table of the TOML document `text`, as the `toml` crate
/// reads it; `None` where it does not read `text` as a document.
pub uninterp spec fn toml_root(text: Seq<char>) -> Option<Seq<(Seq<char>, TomlTree)>>;

/// A value of the `toml` crate as a `TomlValue`, one variant for one, with
/// numbers, booleans and dates kept as `Other` and tables as lists in the
/// order of their keys. It makes no call of its own and is used only inside
/// `parse_toml`, whose contract covers what it returns.
#[verifier::external_body]
fn value_of(v: toml::Value) -> TomlValue {
    match v {
        toml::Value::String(s) => TomlValue::Text(s),
        toml::Value::Array(items) => TomlValue::Array(items.into_iter().map(value_of).collect()),
        toml::Value::Table(t) => TomlValue::Table(t.into_iter().map(|(k, v)| (k, value_of(v))).collect()),
        toml::Value::Integer(_) => TomlValue::Other,
        toml::Value::Float(_) => TomlValue::Other,
        toml::Value::Boolean(_) => TomlValue::Other,
        toml::Value::Datetime(_) => TomlValue::Other,
    }
}

/// `toml::from_str` into a `toml::Table`: the claim is that the table it
/// returns, taken one entry for one, is `toml_root(text)`, and that it
/// fails exactly where `toml_root(text)` is `None`. What the table is for a
/// given text is not stated.
#[verifier::external_body]
fn parse_toml(text: &str) -> (r: Option<Vec<(String, TomlValue)>>)
    ensures
        match r {
            Some(root) => toml_root(text@) == Some(entries_view(root@)),
            None => toml_root(text@) is None,
        },
{
    match toml::from_str::<toml::Table>(text) {
        Ok(t) => Some(t.into_iter().map(|(k, v)| (k, value_of(v))).collect()),
        Err(_) => None,
    }
}

/// Reads the entries of the manifest whose text is `text`: `NotToml` where
/// the text is not a TOML document, `Malformed` where it does not list the
/// files as a manifest does, the entries, in order, otherwise.
pub fn manifest_from_text(text: &str) -> (r: Result<Vec<ManifestFile>, ManifestError>)
    ensures
        match toml_root(text@) {
            Some(root) => match r {
                Ok(files) => manifest_readable(root) && manifest_reads(files@, root),
                Err(e) => !manifest_readable(root) && e is Malformed,
            },
            None => r matches Err(ManifestError::NotToml),
        },
{
    match parse_toml(text) {
        Some(root) => manifest_files(&root),
        None => Err(ManifestError::NotToml),
    }
}

} // verus!
