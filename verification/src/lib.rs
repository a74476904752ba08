//! Verified core of a pen-plotter controller: G-code line grammar, planning of
//! plotter movements, the command/response session with the plotter, and the
//! command line verbosity rules.

pub mod cli;
pub mod text;
pub mod gcode;
pub mod session;
pub mod svg;
pub mod logger;

use roxmltree::Error as XmlError;
use vstd::prelude::*;

verus! {

/// The errors that the library's own rules produce.
#[derive(Debug)]
pub enum Error {
    /// A line that looks like a motion does not follow the G-code grammar.
    UnexpectedGcode,
    /// The plotter answered with a reply that does not fit the request.
    UnexpectedResponse,
    /// The plotter refused a request.
    DeviceError,
    /// The SVG file is not an XML document.
    SvgError(XmlError),
}

} // verus!
