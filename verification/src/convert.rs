use crate::mapper::{document_table, document_to_toml};
use crate::parse::{document_nodes, parse_document};
use crate::error::{outcome, ConvertError};
use crate::render::{render, written};
use vstd::prelude::*;

verus! {

/// How the conversion of the document written in `html` ends: with its TOML
/// text, or with the error of a serializer that refuses its table.
pub open spec fn converted(html: Seq<char>) -> Result<Seq<char>, ConvertError> {
    written(document_table(document_nodes(html)))
}

/// Converts a document from HTML to TOML: parses it, maps its top-level
/// elements to a table and writes the table as text.
pub fn html_to_toml(html: &str) -> (out: Result<String, ConvertError>)
    ensures
        outcome(out) == converted(html@),
{
    let nodes = parse_document(html);
    let table = document_to_toml(&nodes);
    render(&table)
}

/// The conversion is a function of the text: two runs on the same input end
/// alike, with the same text or the same error.
pub proof fn lemma_runs_agree(
    html: Seq<char>,
    first: Result<String, ConvertError>,
    second: Result<String, ConvertError>,
)
    requires
        outcome(first) == converted(html),
        outcome(second) == converted(html),
    ensures
        outcome(first) == outcome(second),
{
}

} // verus!
