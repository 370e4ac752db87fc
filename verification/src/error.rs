use vstd::prelude::*;

verus! {

/// Why a document could not be converted.
#[derive(Clone, Copy, Debug, PartialEq, Eq)]
pub enum ConvertError {
    /// The serializer refused the document.
    Serialize,
}

impl ConvertError {
    /// A sentence that says what went wrong.
    pub fn message(&self) -> (text: String)
        ensures
            text@ == "the document cannot be written as TOML"@,
    {
        "the document cannot be written as TOML".to_owned()
    }
}

/// What a run that writes text returned, with the text as a sequence of
/// characters.
pub open spec fn outcome(out: Result<String, ConvertError>) -> Result<Seq<char>, ConvertError> {
    match out {
        Ok(text) => Ok(text@),
        Err(e) => Err(e),
    }
}

} // verus!
