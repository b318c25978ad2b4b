//! Web capture support. The browser engine that renders pages lives
//! outside the library; what belongs here is the outcome handling: where
//! a page's image goes and the message the report sink receives.

use vstd::prelude::*;
use crate::argparse::Mode;
use crate::parsing::Target;
use crate::reporting::FileError;
use crate::reporting::ReportMessage;
use crate::reporting::ReportMessageContent;
use crate::util::spec_target_filename;
use crate::util::target_to_filename;

verus! {

/// The relative output path for a rendered page and the file message
/// for the report sink. The caller writes the PNG bytes the browser
/// produced to that path under the output directory.
pub fn save_message(target: &Target) -> (r: (String, ReportMessage))
    ensures
        r.0@ == "web/"@ + spec_target_filename(*target) + ".png"@,
        r.1 matches ReportMessage::Output(c) && c.mode == Mode::Web && c.target@
            == target.display_seq() && (c.output matches FileError::File(f) && f@ == r.0@),
{
    let filename = target_to_filename(target);
    let mut rel = String::from_str("web/");
    rel.append(filename.as_str());
    rel.append(".png");
    let report = ReportMessage::Output(
        ReportMessageContent {
            mode: Mode::Web,
            target: target.display_string(),
            output: FileError::File(rel.clone()),
        },
    );
    (rel, report)
}

} // verus!
