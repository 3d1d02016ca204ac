//! Edits: the spans between two consecutive cut points, the atomic unit
//! handed to the edit-decision-list writer.

use vstd::prelude::*;
use vstd::string::StringExecFns;

use crate::cut_log::{CutRecord, CutRecordView};
use crate::ltc_decode::timecode_text;

verus! {

/// Which channels of the source tape an edit concerns.
#[derive(Clone, Copy, PartialEq, Eq, Structural, Debug)]
pub enum AVChannels {
    Audio,
    Video,
    Both,
}

/// The span between two consecutive cut points: the record that was popped
/// from the log (`previous`) and the record that now heads it (`current`).
#[derive(Debug)]
pub struct Edit {
    pub previous: CutRecord,
    pub current: CutRecord,
}

/// The mathematical value of an edit.
pub struct EditView {
    pub previous: CutRecordView,
    pub current: CutRecordView,
}

impl View for Edit {
    type V = EditView;

    open spec fn view(&self) -> EditView {
        EditView { previous: self.previous@, current: self.current@ }
    }
}

/// The one-line summary of an edit, spanning its two timecodes.
pub open spec fn edit_summary_text(e: EditView) -> Seq<char> {
    "edit logged from "@ + timecode_text(e.previous.timecode) + " to "@ + timecode_text(
        e.current.timecode,
    )
}

impl Edit {
    /// Both timecodes render in the two-digit-per-field form.
    pub open spec fn wf(self) -> bool {
        self.previous.timecode.wf() && self.current.timecode.wf()
    }

    /// Builds the edit spanning the two given cut records.
    pub fn from_cuts(previous: &CutRecord, current: &CutRecord) -> (e: Edit)
        ensures
            e@.previous == previous@,
            e@.current == current@,
    {
        Edit { previous: previous.duplicate(), current: current.duplicate() }
    }

    /// The confirmation line reported once the edit is logged.
    pub fn summary(&self) -> (s: String)
        requires
            self.wf(),
        ensures
            s@ =~= edit_summary_text(self@),
    {
        proof {
            reveal_strlit("edit logged from ");
            reveal_strlit(" to ");
        }
        let mut s = String::from_str("edit logged from ");
        s.append(self.previous.timecode.render().as_str());
        s.append(" to ");
        s.append(self.current.timecode.render().as_str());
        s
    }
}

} // verus!
