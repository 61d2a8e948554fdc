//! The stylesheet that is served with the pages.

use vstd::prelude::*;

verus! {

/// The text of the stylesheet.
pub const STYLESHEET: &'static str =
    "body {\n\tfont-family: sans-serif;\n\tmargin: 2em auto;\n\tmax-width: 40em;\n}\n\ntable {\n\tborder-collapse: collapse;\n\twidth: 100%;\n}\n\nth, td {\n\tborder-bottom: 1px solid #ccc;\n\tpadding: 0.3em 0.6em;\n\ttext-align: left;\n}\n\ntd.score {\n\ttext-align: right;\n}\n";

/// The stylesheet, as it is sent for `/index.css`.
pub fn css() -> (sheet: &'static str)
    ensures
        sheet@ == STYLESHEET@,
{
    STYLESHEET
}

} // verus!
