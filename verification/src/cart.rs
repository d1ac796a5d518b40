//! The decoded cartridge document and the payload parser: the recovered
//! payload text is JSON holding the program source and an [`octopt`] options
//! record.

use vstd::prelude::*;

verus! {

/// The kinds of failure a cartridge decode can surface.
#[derive(Clone, Copy, Debug, PartialEq, Eq, Structural)]
pub enum CartError {
    /// The cartridge file could not be read.
    IoError,
    /// The image container is malformed: it cannot be opened, a frame cannot
    /// be read, or the first frame is too short to hold the length header.
    DecodingError,
    /// A pixel index has no resolvable color: the frame has no palette and the
    /// container declares none, or the index points past the palette's end.
    PaletteError,
    /// The recovered payload text is not a well-formed cartridge document.
    ParsingError,
}

/// octopt's options record, carried through the document opaquely.
#[verifier::external_type_specification]
#[verifier::external_body]
pub struct ExOptions(octopt::Options);

/// serde_json's error type, returned raw as the parser diagnostic.
#[verifier::external_type_specification]
#[verifier::external_body]
pub struct ExJsonError(serde_json::Error);

/// The payload of an Octo cartridge: the program source together with the
/// runtime options the program expects.
pub struct OctoCart {
    /// The source code of the Octo program, as ASCII text.
    pub program: String,
    /// The runtime options, following octopt's schema.
    pub options: octopt::Options,
}

/// The `program` member of a well-formed cartridge document, or `None` when
/// the text is not one.  Parsing is a function of the text alone; this names
/// its outcome.
pub uninterp spec fn parsed_program(s: Seq<char>) -> Option<Seq<char>>;

/// Relies on serde_json to parse the payload text: a JSON object whose
/// `program` member is a string and whose `options` member follows octopt's
/// options schema (octopt's serde support does the deserialization of the
/// record; the member is re-parsed from text so that octopt's borrowing
/// string-or-int field readers see the same input form as a whole-text
/// parse).  Parsing is deterministic over the text, and serde_json rejects
/// empty text outright.
#[verifier::external_body]
fn parse_document(s: &str) -> (r: Result<OctoCart, serde_json::Error>)
    ensures
        r is Ok <==> parsed_program(s@) is Some,
        (r matches Ok(cart) ==> Some(cart.program@) == parsed_program(s@)),
        s@.len() == 0 ==> r is Err,
{
    let v: serde_json::Value = serde_json::from_str(s)?;
    let program: String = serde_json::from_value(v["program"].clone())?;
    let options: octopt::Options = serde_json::from_str(&serde_json::to_string(&v["options"])?)?;
    Ok(OctoCart { program, options })
}

impl OctoCart {
    /// Deserializes payload text into a cartridge document.  Fails with the
    /// raw parser diagnostic when the text is not a well-formed document.
    pub fn parse(s: &str) -> (r: Result<OctoCart, serde_json::Error>)
        ensures
            r is Ok <==> parsed_program(s@) is Some,
            (r matches Ok(cart) ==> Some(cart.program@) == parsed_program(s@)),
            s@.len() == 0 ==> r is Err,
    {
        parse_document(s)
    }

    /// Relies on serde_json to serialize the document back to payload text: a
    /// JSON object with the `program` string and the octopt `options` record.
    /// The document round-trips: serde_json emits well-formed JSON, and octopt
    /// skips `None` fields when serializing, so parsing the emitted text
    /// succeeds and recovers the program member unchanged.
    #[verifier::external_body]
    pub fn to_json(&self) -> (r: Result<String, serde_json::Error>)
        ensures
            (r matches Ok(t) ==> parsed_program(t@) == Some(self.program@)),
    {
        let options = serde_json::to_value(&self.options)?;
        let mut doc = serde_json::Map::new();
        doc.insert("program".to_owned(), serde_json::Value::String(self.program.clone()));
        doc.insert("options".to_owned(), options);
        serde_json::to_string(&serde_json::Value::Object(doc))
    }
}

impl core::str::FromStr for OctoCart {
    type Err = serde_json::Error;

    fn from_str(s: &str) -> Result<OctoCart, serde_json::Error> {
        OctoCart::parse(s)
    }
}

} // verus!
