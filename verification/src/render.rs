use crate::error::{outcome, ConvertError};
use crate::toml_out::{
    toml_array, toml_content, toml_contents, toml_entries, toml_string, toml_table, toml_text,
    toml_to_string,
};
use crate::value::{values_view, Table, TableView, Toml, TomlView};
use vstd::prelude::*;

verus! {

/// The `toml::Value` with the content of `value`.
pub fn to_toml(value: &Toml) -> (out: toml::Value)
    ensures
        toml_content(out) == Some(value@),
    decreases value@, 1int,
{
    match value {
        Toml::String(text) => toml_string(text.clone()),
        Toml::Table(table) => table_to_toml(table),
        Toml::Array(items) => {
            let mut out: Vec<toml::Value> = Vec::new();
            let mut i: usize = 0;
            while i < items.len()
                invariant
                    i <= items@.len(),
                    out@.len() == i,
                    value@ == TomlView::Array(values_view(items@)),
                    forall|j: int| 0 <= j < i ==> toml_content(out@[j]) == Some(items@[j]@),
                decreases items@.len() - i,
            {
                // The item is smaller than the sequence that holds it.
                assert(values_view(items@)[i as int] == items@[i as int]@);
                assert(decreases_to!(value@ => value@->Array_0));
                out.push(to_toml(&items[i]));
                i += 1;
            }
            assert(toml_contents(out@) =~= values_view(items@));
            toml_array(out)
        },
    }
}

/// The `toml::Value` that is a table with the content of `table`.
pub fn table_to_toml(table: &Table) -> (out: toml::Value)
    ensures
        toml_content(out) == Some(TomlView::Table(table@)),
    decreases TomlView::Table(table@), 0int,
{
    proof {
        use_type_invariant(table);
    }
    let mut entries: Vec<(String, toml::Value)> = Vec::new();
    let count = table.len();
    let mut i: usize = 0;
    while i < count
        invariant
            i <= count == table@.len(),
            entries@.len() == i,
            forall|j: int|
                0 <= j < i ==> entries@[j].0@ == table@[j].0 && toml_content(entries@[j].1)
                    == Some(table@[j].1),
        decreases count - i,
    {
        // The value is smaller than the table that holds it.
        let ghost whole = TomlView::Table(table@);
        assert(decreases_to!(whole => whole->Table_0));
        entries.push((table.key_at(i).clone(), to_toml(table.value_at(i))));
        i += 1;
    }
    assert(toml_entries(entries@) =~= table@);
    assert forall|j: int| 0 <= j < entries@.len() implies toml_content(entries@[j].1) is Some by {
        assert(toml_content(entries@[j].1) == Some(table@[j].1));
    }
    toml_table(entries)
}

/// How writing a table ends: with the text that the serializer gives for
/// it, or with an error where it gives none.
pub open spec fn written(document: TableView) -> Result<Seq<char>, ConvertError> {
    match toml_text(TomlView::Table(document)) {
        Some(text) => Ok(text),
        None => Err(ConvertError::Serialize),
    }
}

/// What the library returns for what the serializer returned: the text as
/// it is, and `ConvertError::Serialize` for any error.
pub fn from_serializer(written: Result<String, toml::ser::Error>) -> (out: Result<
    String,
    ConvertError,
>)
    ensures
        match written {
            Ok(text) => out == Ok::<String, ConvertError>(text),
            Err(_) => out == Err::<String, ConvertError>(ConvertError::Serialize),
        },
{
    match written {
        Ok(text) => Ok(text),
        Err(_) => Err(ConvertError::Serialize),
    }
}

/// Writes a document as TOML text.
pub fn render(document: &Table) -> (out: Result<String, ConvertError>)
    ensures
        outcome(out) == written(document@),
{
    let value = table_to_toml(document);
    from_serializer(toml_to_string(&value))
}

} // verus!
