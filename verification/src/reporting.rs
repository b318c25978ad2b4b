//! Report aggregation: every capture worker emits exactly one message per
//! target, and a single sink collects them into per-protocol success and
//! error lists until it is told to render.

use vstd::prelude::*;
use crate::argparse::Mode;

verus! {

/// A message on the reporting channel: either one target's outcome, or
/// the signal that every worker is done and the report can be rendered.
#[derive(Debug)]
pub enum ReportMessage {
    Output(ReportMessageContent),
    GenerateReport,
}

/// One target's outcome under one protocol.
#[derive(Debug)]
pub struct ReportMessageContent {
    pub mode: Mode,
    pub target: String,
    pub output: FileError,
}

/// Capture the output status as either a file or an error
#[derive(Debug)]
pub enum FileError {
    File(String),
    Error(String),
}

/// A successful capture: the target and the file its image went to.
#[derive(Debug)]
pub struct ReportItem {
    pub target: String,
    pub file: String,
}

/// A failed capture: the target and the error it reported.
#[derive(Debug)]
pub struct ReportError {
    pub target: String,
    pub error: String,
}

/// The single consumer of report messages. It owns the accumulation
/// lists exclusively; workers only ever reach it through messages.
pub struct ReportSink {
    pub rdp_outputs: Vec<ReportItem>,
    pub rdp_errors: Vec<ReportError>,
    pub web_outputs: Vec<ReportItem>,
    pub web_errors: Vec<ReportError>,
    pub vnc_outputs: Vec<ReportItem>,
    pub vnc_errors: Vec<ReportError>,
}

impl ReportSink {
    /// How many messages the sink has accumulated in total.
    pub open spec fn spec_total(&self) -> int {
        self.rdp_outputs@.len() + self.rdp_errors@.len() + self.web_outputs@.len()
            + self.web_errors@.len() + self.vnc_outputs@.len() + self.vnc_errors@.len() as int
    }

    pub fn new() -> (r: Self)
        ensures
            r.rdp_outputs@.len() == 0,
            r.rdp_errors@.len() == 0,
            r.web_outputs@.len() == 0,
            r.web_errors@.len() == 0,
            r.vnc_outputs@.len() == 0,
            r.vnc_errors@.len() == 0,
    {
        ReportSink {
            rdp_outputs: Vec::new(),
            rdp_errors: Vec::new(),
            web_outputs: Vec::new(),
            web_errors: Vec::new(),
            vnc_outputs: Vec::new(),
            vnc_errors: Vec::new(),
        }
    }

    /// Fold one message into the accumulation lists. Returns true exactly
    /// when the message was the render signal, on which the caller stops
    /// listening and renders the report.
    ///
    /// A message tagged `Mode::Auto` never reaches the sink: targets are
    /// pinned to a concrete protocol before a worker runs.
    pub fn handle_message(&mut self, msg: ReportMessage) -> (done: bool)
        requires
            !(msg matches ReportMessage::Output(c) && c.mode == Mode::Auto),
        ensures
            done == (msg is GenerateReport),
            msg is GenerateReport ==> *final(self) == *old(self),
            msg matches ReportMessage::Output(c) ==> {
                &&& c.mode == Mode::Rdp ==> (c.output matches FileError::File(f) ==> 
                final(self).rdp_outputs@ == old(self).rdp_outputs@.push(
                    (ReportItem { target: c.target, file: f }),
                ) && final(self).rdp_errors@ == old(self).rdp_errors@ && final(self).web_outputs@ == old(
                    self,
                ).web_outputs@ && final(self).web_errors@ == old(self).web_errors@ && final(self).vnc_outputs@
                    == old(self).vnc_outputs@ && final(self).vnc_errors@ == old(self).vnc_errors@)
                &&& c.mode == Mode::Rdp ==> (c.output matches FileError::Error(e) ==> 
                final(self).rdp_errors@ == old(self).rdp_errors@.push(
                    (ReportError { target: c.target, error: e }),
                ) && final(self).rdp_outputs@ == old(self).rdp_outputs@ && final(self).web_outputs@ == old(
                    self,
                ).web_outputs@ && final(self).web_errors@ == old(self).web_errors@ && final(self).vnc_outputs@
                    == old(self).vnc_outputs@ && final(self).vnc_errors@ == old(self).vnc_errors@)
                &&& c.mode == Mode::Web ==> (c.output matches FileError::File(f) ==> 
                final(self).web_outputs@ == old(self).web_outputs@.push(
                    (ReportItem { target: c.target, file: f }),
                ) && final(self).rdp_outputs@ == old(self).rdp_outputs@ && final(self).rdp_errors@ == old(
                    self,
                ).rdp_errors@ && final(self).web_errors@ == old(self).web_errors@ && final(self).vnc_outputs@
                    == old(self).vnc_outputs@ && final(self).vnc_errors@ == old(self).vnc_errors@)
                &&& c.mode == Mode::Web ==> (c.output matches FileError::Error(e) ==> 
                final(self).web_errors@ == old(self).web_errors@.push(
                    (ReportError { target: c.target, error: e }),
                ) && final(self).rdp_outputs@ == old(self).rdp_outputs@ && final(self).rdp_errors@ == old(
                    self,
                ).rdp_errors@ && final(self).web_outputs@ == old(self).web_outputs@ && final(self).vnc_outputs@
                    == old(self).vnc_outputs@ && final(self).vnc_errors@ == old(self).vnc_errors@)
                &&& c.mode == Mode::Vnc ==> (c.output matches FileError::File(f) ==> 
                final(self).vnc_outputs@ == old(self).vnc_outputs@.push(
                    (ReportItem { target: c.target, file: f }),
                ) && final(self).rdp_outputs@ == old(self).rdp_outputs@ && final(self).rdp_errors@ == old(
                    self,
                ).rdp_errors@ && final(self).web_outputs@ == old(self).web_outputs@ && final(self).web_errors@
                    == old(self).web_errors@ && final(self).vnc_errors@ == old(self).vnc_errors@)
                &&& c.mode == Mode::Vnc ==> (c.output matches FileError::Error(e) ==> 
                final(self).vnc_errors@ == old(self).vnc_errors@.push(
                    (ReportError { target: c.target, error: e }),
                ) && final(self).rdp_outputs@ == old(self).rdp_outputs@ && final(self).rdp_errors@ == old(
                    self,
                ).rdp_errors@ && final(self).web_outputs@ == old(self).web_outputs@ && final(self).web_errors@
                    == old(self).web_errors@ && final(self).vnc_outputs@ == old(self).vnc_outputs@)
            },
    {
        match msg {
            ReportMessage::GenerateReport => true,
            ReportMessage::Output(content) => {
                let ReportMessageContent { mode, target, output } = content;
                match (output, mode) {
                    (FileError::File(file), Mode::Rdp) => {
                        self.rdp_outputs.push(ReportItem { target, file });
                    },
                    (FileError::File(file), Mode::Web) => {
                        self.web_outputs.push(ReportItem { target, file });
                    },
                    (FileError::File(file), Mode::Vnc) => {
                        self.vnc_outputs.push(ReportItem { target, file });
                    },
                    (FileError::Error(error), Mode::Rdp) => {
                        self.rdp_errors.push(ReportError { target, error });
                    },
                    (FileError::Error(error), Mode::Web) => {
                        self.web_errors.push(ReportError { target, error });
                    },
                    (FileError::Error(error), Mode::Vnc) => {
                        self.vnc_errors.push(ReportError { target, error });
                    },
                    (_, Mode::Auto) => {
                        proof {
                            assert(false);
                        }
                    },
                }
                false
            },
        }
    }
}

} // verus!
