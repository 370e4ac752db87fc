use crate::value::{keys_distinct, TableView, TomlView};
use vstd::prelude::*;

verus! {

/// `toml::Value`, carried as an opaque value: what it holds is spoken of
/// through [`toml_content`] alone.
#[verifier::external_type_specification]
#[verifier::external_body]
pub struct ExTomlValue(toml::Value);

/// `toml::ser::Error`, carried as an opaque value. Nothing is claimed of it.
#[verifier::external_type_specification]
#[verifier::external_body]
pub struct ExTomlError(toml::ser::Error);

/// What a `toml::Value` holds if it is built of strings, arrays and tables
/// alone: its strings, its array items in order and its table entries in
/// the order in which the table yields them. `None` for a value that holds
/// anything else.
pub uninterp spec fn toml_content(value: toml::Value) -> Option<TomlView>;

/// The text that `toml::to_string` writes for a value with this content, or
/// `None` where it reports an error.
pub uninterp spec fn toml_text(content: TomlView) -> Option<Seq<char>>;

/// The contents of a sequence of `toml::Value`s, one for one.
pub open spec fn toml_contents(items: Seq<toml::Value>) -> Seq<TomlView> {
    Seq::new(items.len(), |i: int| toml_content(items[i]).unwrap())
}

/// The contents of a sequence of keys and `toml::Value`s, one for one.
pub open spec fn toml_entries(entries: Seq<(String, toml::Value)>) -> TableView {
    Seq::new(entries.len(), |i: int| (entries[i].0@, toml_content(entries[i].1).unwrap()))
}

/// Builds `toml::Value::String`. The contract claims that the value holds
/// the given string.
#[verifier::external_body]
pub(crate) fn toml_string(text: String) -> (value: toml::Value)
    ensures
        toml_content(value) == Some(TomlView::String(text@)),
{
    toml::Value::String(text)
}

/// Builds `toml::Value::Array`. The contract claims that the value holds
/// the given items in their order.
#[verifier::external_body]
pub(crate) fn toml_array(items: Vec<toml::Value>) -> (value: toml::Value)
    requires
        forall|i: int| 0 <= i < items@.len() ==> toml_content(items@[i]) is Some,
    ensures
        toml_content(value) == Some(TomlView::Array(toml_contents(items@))),
{
    toml::Value::Array(items)
}

/// Builds `toml::Value::Table` from entries with distinct keys, collected
/// into a `toml::map::Map` through its `FromIterator`. The contract claims
/// that the table holds the entries in the order given, which is so where
/// the map keeps the order of insertion (toml's feature `preserve_order`).
#[verifier::external_body]
pub(crate) fn toml_table(entries: Vec<(String, toml::Value)>) -> (value: toml::Value)
    requires
        forall|i: int| 0 <= i < entries@.len() ==> toml_content(entries@[i].1) is Some,
        keys_distinct(toml_entries(entries@)),
    ensures
        toml_content(value) == Some(TomlView::Table(toml_entries(entries@))),
{
    toml::Value::Table(entries.into_iter().collect())
}

/// Calls `toml::to_string`. The contract claims that what it returns, text
/// or error, depends on the content of the value alone.
#[verifier::external_body]
pub(crate) fn toml_to_string(value: &toml::Value) -> (written: Result<String, toml::ser::Error>)
    requires
        toml_content(*value) is Some,
    ensures
        match written {
            Ok(text) => toml_text(toml_content(*value).unwrap()) == Some(text@),
            Err(_) => toml_text(toml_content(*value).unwrap()) is None,
        },
{
    toml::to_string(value)
}

} // verus!
