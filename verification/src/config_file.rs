//! Writing a configuration back into the text of its TOML file, keeping the rest of
//! the file (comments, layout, other keys) as `toml_edit` keeps it.

use vstd::prelude::*;

use crate::config::{texts, Config};

verus! {

/// toml_edit's editable document.
#[verifier::external_type_specification]
#[verifier::external_body]
pub struct ExDocumentMut(toml_edit::DocumentMut);

/// toml_edit's parse error.
#[verifier::external_type_specification]
#[verifier::external_body]
pub struct ExTomlError(toml_edit::TomlError);

/// What an item of a TOML document is, as far as the configuration file cares.
pub enum TomlValue {
    /// A string.
    Text(Seq<char>),
    /// An array whose elements are all strings.
    TextArray(Seq<Seq<char>>),
    /// A table or an inline table.
    TableLike,
    /// Anything else.
    Other,
}

/// The entries of a document: each key path (the keys that lead to an item through
/// tables and inline tables) mapped to what its item is.
pub uninterp spec fn document_entries(doc: toml_edit::DocumentMut) -> Map<Seq<Seq<char>>, TomlValue>;

/// The text that toml_edit writes for a document.
pub uninterp spec fn rendered_text(doc: toml_edit::DocumentMut) -> Seq<char>;

/// The entries of the document that toml_edit parses from `text`, or `None` when the
/// text is not a TOML document.
pub uninterp spec fn parsed_entries(text: Seq<char>) -> Option<Map<Seq<Seq<char>>, TomlValue>>;

/// `path` is `key` or lies under it.
pub open spec fn under(key: Seq<Seq<char>>, path: Seq<Seq<char>>) -> bool {
    key.len() <= path.len() && path.take(key.len() as int) == key
}

/// The entries after the item at `key` is replaced by `v`: whatever lay under `key` is
/// gone.
pub open spec fn replace_entry(
    m: Map<Seq<Seq<char>>, TomlValue>,
    key: Seq<Seq<char>>,
    v: TomlValue,
) -> Map<Seq<Seq<char>>, TomlValue> {
    Map::new(|p: Seq<Seq<char>>| m.dom().contains(p) && !under(key, p), |p: Seq<Seq<char>>| m[p]).insert(
        key,
        v,
    )
}

/// A top-level key can hold nested keys: it is absent or table-like.
pub open spec fn accepts_nested(m: Map<Seq<Seq<char>>, TomlValue>, key: Seq<char>) -> bool {
    !m.dom().contains(seq![key]) || m[seq![key]] == TomlValue::TableLike
}

/// The entries after a string is stored at `key` under the top-level `table`: an
/// absent `table` becomes an (inline) table first.
pub open spec fn replace_nested(
    m: Map<Seq<Seq<char>>, TomlValue>,
    table: Seq<char>,
    key: Seq<char>,
    v: Seq<char>,
) -> Map<Seq<Seq<char>>, TomlValue> {
    let with_table = if m.dom().contains(seq![table]) {
        m
    } else {
        m.insert(seq![table], TomlValue::TableLike)
    };
    replace_entry(with_table, seq![table, key], TomlValue::Text(v))
}

/// Parses a TOML document (toml_edit's `DocumentMut::from_str`). The result is a
/// function of the text: its entries are `parsed_entries(text)`, and it fails exactly
/// when that is `None`. Which texts parse, and to what, is not stated.
#[verifier::external_body]
fn parse_document(text: &str) -> (r: Result<toml_edit::DocumentMut, toml_edit::TomlError>)
    ensures
        match r {
            Ok(doc) => parsed_entries(text@) == Some(document_entries(doc)),
            Err(_) => parsed_entries(text@) is None,
        },
{
    text.parse::<toml_edit::DocumentMut>()
}

/// What is at the top-level `key` of a document (toml_edit's `Table::get`, then
/// `Item::is_table_like`): `None` when nothing is there, else whether it is a table or
/// an inline table.
#[verifier::external_body]
fn top_level_table_like(doc: &toml_edit::DocumentMut, key: &str) -> (r: Option<bool>)
    ensures
        match r {
            None => !document_entries(*doc).dom().contains(seq![key@]),
            Some(b) => document_entries(*doc).dom().contains(seq![key@]) && b == (document_entries(
                *doc,
            )[seq![key@]] == TomlValue::TableLike),
        },
{
    match doc.get(key) {
        Some(item) => Some(item.is_table_like()),
        None => None,
    }
}

/// Stores a string at a top-level key (`doc[key] = toml_edit::value(value)`); the item
/// there before, with everything under it, is replaced.
#[verifier::external_body]
fn set_top_string(doc: &mut toml_edit::DocumentMut, key: &str, value: &str)
    ensures
        document_entries(*final(doc)) == replace_entry(
            document_entries(*old(doc)),
            seq![key@],
            TomlValue::Text(value@),
        ),
{
    doc[key] = toml_edit::value(value);
}

/// Stores an array of strings at a top-level key (an `Array` filled with `push`, put
/// at `doc[key]`); the item there before, with everything under it, is replaced.
#[verifier::external_body]
fn set_top_string_array(doc: &mut toml_edit::DocumentMut, key: &str, values: &Vec<String>)
    ensures
        document_entries(*final(doc)) == replace_entry(
            document_entries(*old(doc)),
            seq![key@],
            TomlValue::TextArray(texts(values@)),
        ),
{
    let mut array = toml_edit::Array::default();
    for v in values {
        array.push(v.as_str());
    }
    doc[key] = toml_edit::Item::Value(toml_edit::Value::Array(array));
}

/// Stores a string at `key` under the top-level `table` (`doc[table][key] =
/// toml_edit::value(value)`); an absent table becomes an inline table. toml_edit
/// panics when `table` holds something that is not table-like, so that is required.
#[verifier::external_body]
fn set_nested_string(doc: &mut toml_edit::DocumentMut, table: &str, key: &str, value: &str)
    requires
        accepts_nested(document_entries(*old(doc)), table@),
    ensures
        document_entries(*final(doc)) == replace_nested(
            document_entries(*old(doc)),
            table@,
            key@,
            value@,
        ),
{
    doc[table][key] = toml_edit::value(value);
}

/// The text of a document (its `Display`).
#[verifier::external_body]
fn render_document(doc: &toml_edit::DocumentMut) -> (r: String)
    ensures
        r@ == rendered_text(*doc),
{
    doc.to_string()
}

/// The entries of a configuration file after `config` is written into entries `m`:
/// `dotfolder_path`, `paths`, and `on_duplicate` and `on_delink` under `defaults`.
pub open spec fn config_entries(m: Map<Seq<Seq<char>>, TomlValue>, config: Config) -> Map<
    Seq<Seq<char>>,
    TomlValue,
> {
    let m1 = replace_entry(m, seq!["dotfolder_path"@], TomlValue::Text(config.dotfolder_path@));
    let m2 = replace_entry(m1, seq!["paths"@], TomlValue::TextArray(texts(config.paths@)));
    let m3 = replace_nested(
        m2,
        "defaults"@,
        "on_duplicate"@,
        config.defaults.on_duplicate.spec_name(),
    );
    replace_nested(m3, "defaults"@, "on_delink"@, config.defaults.on_delink.spec_name())
}

/// After the configuration is written, the file holds exactly its values: the
/// dotfolder path at `dotfolder_path`, the managed paths (all of them, in order, even
/// none) at `paths`, and the two behavior names under `defaults`; keys elsewhere that
/// lie under none of these are kept.
pub proof fn law_written_config_holds_values(m: Map<Seq<Seq<char>>, TomlValue>, config: Config)
    ensures
        config_entries(m, config).dom().contains(seq!["dotfolder_path"@]),
        config_entries(m, config)[seq!["dotfolder_path"@]] == TomlValue::Text(config.dotfolder_path@),
        config_entries(m, config).dom().contains(seq!["paths"@]),
        config_entries(m, config)[seq!["paths"@]] == TomlValue::TextArray(texts(config.paths@)),
        config_entries(m, config).dom().contains(seq!["defaults"@, "on_duplicate"@]),
        config_entries(m, config)[seq!["defaults"@, "on_duplicate"@]] == TomlValue::Text(
            config.defaults.on_duplicate.spec_name(),
        ),
        config_entries(m, config).dom().contains(seq!["defaults"@, "on_delink"@]),
        config_entries(m, config)[seq!["defaults"@, "on_delink"@]] == TomlValue::Text(
            config.defaults.on_delink.spec_name(),
        ),
        forall|p: Seq<Seq<char>>|
            #[trigger] m.dom().contains(p) && !under(seq!["dotfolder_path"@], p) && !under(
                seq!["paths"@],
                p,
            ) && !under(seq!["defaults"@], p) ==> config_entries(m, config).dom().contains(p)
                && config_entries(m, config)[p] == m[p],
{
    reveal_strlit("defaults");
    reveal_strlit("dotfolder_path");
    reveal_strlit("paths");
    reveal_strlit("on_duplicate");
    reveal_strlit("on_delink");
    let dk = seq!["dotfolder_path"@];
    let pk = seq!["paths"@];
    let tk = seq!["defaults"@];
    let ok = seq!["defaults"@, "on_duplicate"@];
    let lk = seq!["defaults"@, "on_delink"@];
    assert("defaults"@.len() != "dotfolder_path"@.len());
    assert("defaults"@.len() != "paths"@.len());
    assert("paths"@.len() != "dotfolder_path"@.len());
    assert("on_duplicate"@.len() != "on_delink"@.len());
    lemma_single_keys_differ("dotfolder_path"@, "paths"@);
    lemma_single_keys_differ("paths"@, "dotfolder_path"@);
    lemma_single_keys_differ("dotfolder_path"@, "defaults"@);
    lemma_single_keys_differ("paths"@, "defaults"@);
    assert(!under(ok, dk) && !under(ok, pk) && !under(lk, dk) && !under(lk, pk));
    assert(!under(ok, tk) && !under(lk, tk));
    assert(!under(ok, lk)) by {
        assert(lk.take(2)[1] != ok[1]);
    }
    assert(!under(lk, ok)) by {
        assert(ok.take(2)[1] != lk[1]);
    }
    assert(ok != lk) by {
        assert(ok[1] != lk[1]);
    }
    assert(!under(dk, ok) && !under(dk, lk) && !under(pk, ok) && !under(pk, lk)) by {
        assert(ok.take(1) =~= tk);
        assert(lk.take(1) =~= tk);
    }
    assert(under(tk, tk)) by {
        assert(tk.take(1) =~= tk);
    }
    let m1 = replace_entry(m, dk, TomlValue::Text(config.dotfolder_path@));
    let m2 = replace_entry(m1, pk, TomlValue::TextArray(texts(config.paths@)));
    let m3 = replace_nested(m2, "defaults"@, "on_duplicate"@, config.defaults.on_duplicate.spec_name());
    let w = replace_nested(m3, "defaults"@, "on_delink"@, config.defaults.on_delink.spec_name());
    assert(w == config_entries(m, config));
    assert(m2.dom().contains(pk) && m2[pk] == TomlValue::TextArray(texts(config.paths@)));
    assert(m2.dom().contains(dk) && m2[dk] == TomlValue::Text(config.dotfolder_path@));
    assert(m3.dom().contains(ok) && m3[ok] == TomlValue::Text(config.defaults.on_duplicate.spec_name()));
    assert(m3.dom().contains(pk) && m3[pk] == m2[pk]);
    assert(m3.dom().contains(dk) && m3[dk] == m2[dk]);
    assert(m3.dom().contains(tk));
    assert(w.dom().contains(ok) && w[ok] == m3[ok]);
    assert(w.dom().contains(pk) && w[pk] == m3[pk]);
    assert(w.dom().contains(dk) && w[dk] == m3[dk]);
    assert(w.dom().contains(lk) && w[lk] == TomlValue::Text(config.defaults.on_delink.spec_name()));
    assert forall|p: Seq<Seq<char>>|
        #[trigger] m.dom().contains(p) && !under(seq!["dotfolder_path"@], p) && !under(
            seq!["paths"@],
            p,
        ) && !under(seq!["defaults"@], p) implies config_entries(m, config).dom().contains(p)
            && config_entries(m, config)[p] == m[p] by {
        if under(ok, p) {
            assert(p[0] == p.take(2)[0]);
            assert(p.take(1) =~= tk);
        }
        if under(lk, p) {
            assert(p[0] == p.take(2)[0]);
            assert(p.take(1) =~= tk);
        }
        assert(p != tk);
        assert(p != dk) by {
            if p == dk {
                assert(dk.take(1) =~= dk);
            }
        }
        assert(p != pk) by {
            if p == pk {
                assert(pk.take(1) =~= pk);
            }
        }
        assert(m1.dom().contains(p) && m1[p] == m[p]);
        assert(m2.dom().contains(p) && m2[p] == m[p]);
        assert(ok.take(2) =~= ok);
        assert(lk.take(2) =~= lk);
        assert(p != ok && p != lk);
        let wt2 = if m2.dom().contains(tk) {
            m2
        } else {
            m2.insert(tk, TomlValue::TableLike)
        };
        assert(wt2.dom().contains(p) && wt2[p] == m[p]);
        assert(m3.dom().contains(p) && m3[p] == m[p]);
        let wt3 = if m3.dom().contains(tk) {
            m3
        } else {
            m3.insert(tk, TomlValue::TableLike)
        };
        assert(wt3.dom().contains(p) && wt3[p] == m[p]);
        assert(w.dom().contains(p) && w[p] == m[p]);
    }
}

/// Writes `config` into a document whose `defaults` entry can hold keys.
pub fn write_config(doc: &mut toml_edit::DocumentMut, config: &Config)
    requires
        accepts_nested(document_entries(*old(doc)), "defaults"@),
    ensures
        document_entries(*final(doc)) == config_entries(document_entries(*old(doc)), *config),
{
    let ghost m = document_entries(*doc);
    proof {
        reveal_strlit("defaults");
        reveal_strlit("dotfolder_path");
        reveal_strlit("paths");
        assert("defaults"@.len() != "dotfolder_path"@.len());
        assert("defaults"@.len() != "paths"@.len());
        lemma_single_keys_differ("dotfolder_path"@, "defaults"@);
        lemma_single_keys_differ("paths"@, "defaults"@);
    }
    set_top_string(doc, "dotfolder_path", config.dotfolder_path.as_str());
    set_top_string_array(doc, "paths", &config.paths);
    set_nested_string(doc, "defaults", "on_duplicate", config.defaults.on_duplicate.name().as_str());
    proof {
        let p = seq!["defaults"@, "on_duplicate"@];
        assert(!under(p, seq!["defaults"@]));
        assert(document_entries(*doc).dom().contains(seq!["defaults"@]));
    }
    set_nested_string(doc, "defaults", "on_delink", config.defaults.on_delink.name().as_str());
}

proof fn lemma_single_keys_differ(a: Seq<char>, b: Seq<char>)
    requires
        a != b,
    ensures
        seq![a] != seq![b],
        !under(seq![a], seq![b]),
{
    assert(seq![a][0] != seq![b][0]);
    assert(seq![b].take(1) =~= seq![b]);
}

/// Why the configuration file cannot be updated.
#[derive(PartialEq, Eq, Structural, Clone, Copy, Debug)]
pub enum ConfigFileError {
    /// The file is not a TOML document.
    NotToml,
    /// The file's `defaults` entry is neither a table nor an inline table.
    DefaultsNotTable,
}

/// The text of the configuration file `content` once `config` is written into it.
/// Fails when `content` is not a TOML document, or when its `defaults` entry cannot
/// hold keys; otherwise the text is that of a document whose entries are those of
/// `content` with the configuration written in.
pub fn updated_config_text(content: &str, config: &Config) -> (r: Result<String, ConfigFileError>)
    ensures
        match parsed_entries(content@) {
            None => r == Err::<String, ConfigFileError>(ConfigFileError::NotToml),
            Some(m) => if !accepts_nested(m, "defaults"@) {
                r == Err::<String, ConfigFileError>(ConfigFileError::DefaultsNotTable)
            } else {
                r matches Ok(t) && exists|d: toml_edit::DocumentMut|
                    t@ == rendered_text(d) && document_entries(d) == config_entries(m, *config)
            },
        },
{
    let mut doc = match parse_document(content) {
        Ok(d) => d,
        Err(_) => {
            return Err(ConfigFileError::NotToml);
        },
    };
    let accepts = match top_level_table_like(&doc, "defaults") {
        None => true,
        Some(table_like) => table_like,
    };
    if !accepts {
        return Err(ConfigFileError::DefaultsNotTable);
    }
    write_config(&mut doc, config);
    let text = render_document(&doc);
    Ok(text)
}

} // verus!
