//! SVG documents read into memory.

use vstd::prelude::*;

use roxmltree::Document as XmlDocument;
use roxmltree::Error as XmlError;

use crate::Error;

verus! {

#[verifier::external_type_specification]
#[verifier::external_body]
pub struct ExXmlDocument<'input>(XmlDocument<'input>);

#[verifier::external_type_specification]
#[verifier::external_body]
pub struct ExXmlError(XmlError);

/// Whether `roxmltree` accepts `text` as an XML document.
pub uninterp spec fn is_well_formed_xml(text: Seq<char>) -> bool;

/// `roxmltree::Document::parse`: reads `text` as an XML document. Whether it
/// succeeds depends on the text alone; what the tree holds is not stated.
#[verifier::external_body]
fn parse_xml<'input>(text: &'input str) -> (r: Result<XmlDocument<'input>, XmlError>)
    ensures
        r is Ok <==> is_well_formed_xml(text@),
{
    XmlDocument::parse(text)
}

/// An SVG file read into memory. Nothing checks that the text is SVG until it
/// is parsed.
#[derive(Debug)]
pub struct Svg {
    contents: String,
}

impl Svg {
    /// The text of the file.
    pub closed spec fn contents(&self) -> Seq<char> {
        self.contents@
    }

    /// An SVG document with the given text.
    pub fn from_contents(contents: String) -> (r: Svg)
        ensures
            r.contents() == contents@,
    {
        Svg { contents }
    }

    /// The text of the file.
    pub fn text(&self) -> (r: &str)
        ensures
            r@ == self.contents(),
    {
        self.contents.as_str()
    }

    /// Parses the text as XML; a text that is not XML is refused with
    /// `Error::SvgError`.
    pub fn parse(&self) -> (r: Result<XmlDocument<'_>, Error>)
        ensures
            r is Ok <==> is_well_formed_xml(self.contents()),
            r matches Err(e) ==> e is SvgError,
    {
        match parse_xml(self.contents.as_str()) {
            Ok(doc) => Ok(doc),
            Err(e) => Err(Error::SvgError(e)),
        }
    }
}

} // verus!
