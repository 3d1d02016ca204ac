//! The cut-point log: the queue of logged cut points awaiting pairing.
//!
//! New records are pushed at the back; `pop` removes and returns the oldest
//! remaining record; `front` peeks the newest without removing it.

use vstd::prelude::*;

use crate::edl::AVChannels;
use crate::ltc_decode::Timecode;

verus! {

/// One logged cut point: the timecode at which the frame was received plus
/// the metadata of the request that logged it.
#[derive(Debug)]
pub struct CutRecord {
    pub timecode: Timecode,
    pub edit_type: String,
    pub source_tape: String,
    pub av_channel: AVChannels,
}

/// The mathematical value of a cut record.
pub struct CutRecordView {
    pub timecode: Timecode,
    pub edit_type: Seq<char>,
    pub source_tape: Seq<char>,
    pub av_channel: AVChannels,
}

impl View for CutRecord {
    type V = CutRecordView;

    open spec fn view(&self) -> CutRecordView {
        CutRecordView {
            timecode: self.timecode,
            edit_type: self.edit_type@,
            source_tape: self.source_tape@,
            av_channel: self.av_channel,
        }
    }
}

impl CutRecord {
    pub fn new(
        timecode: Timecode,
        edit_type: &String,
        source_tape: &String,
        av_channel: &AVChannels,
    ) -> (r: CutRecord)
        ensures
            r@ == (CutRecordView {
                timecode,
                edit_type: edit_type@,
                source_tape: source_tape@,
                av_channel: *av_channel,
            }),
    {
        CutRecord {
            timecode,
            edit_type: edit_type.clone(),
            source_tape: source_tape.clone(),
            av_channel: *av_channel,
        }
    }

    /// An owned copy whose mathematical value equals this record's.
    pub fn duplicate(&self) -> (r: CutRecord)
        ensures
            r@ == self@,
    {
        CutRecord {
            timecode: self.timecode,
            edit_type: self.edit_type.clone(),
            source_tape: self.source_tape.clone(),
            av_channel: self.av_channel,
        }
    }
}

/// The cut-point log.  It behaves as a queue over the records logged since
/// the last `clear`: oldest at the front, newest at the back.
#[derive(Debug)]
pub struct CutLog {
    records: Vec<CutRecord>,
}

impl View for CutLog {
    type V = Seq<CutRecordView>;

    closed spec fn view(&self) -> Seq<CutRecordView> {
        self.records@.map_values(|r: CutRecord| r@)
    }
}

impl CutLog {
    pub fn new() -> (log: CutLog)
        ensures
            log@ =~= Seq::<CutRecordView>::empty(),
    {
        CutLog { records: Vec::new() }
    }

    pub fn len(&self) -> (n: usize)
        ensures
            n == self@.len(),
    {
        self.records.len()
    }

    /// Empties the log.
    pub fn clear(&mut self)
        ensures
            final(self)@ =~= Seq::<CutRecordView>::empty(),
    {
        self.records.clear();
    }

    /// Appends one record at the back (the newest end).
    pub fn push(
        &mut self,
        timecode: Timecode,
        edit_type: &String,
        source_tape: &String,
        av_channel: &AVChannels,
    )
        ensures
            final(self)@ =~= old(self)@.push(
                CutRecordView {
                    timecode,
                    edit_type: edit_type@,
                    source_tape: source_tape@,
                    av_channel: *av_channel,
                },
            ),
    {
        self.records.push(CutRecord::new(timecode, edit_type, source_tape, av_channel));
    }

    /// Removes and returns the oldest remaining record, if any.
    pub fn pop(&mut self) -> (r: Option<CutRecord>)
        ensures
            old(self)@.len() == 0 ==> r is None && final(self)@ =~= old(self)@,
            old(self)@.len() > 0 ==> (r matches Some(rec) && rec@ == old(self)@[0]
                && final(self)@ =~= old(self)@.drop_first()),
    {
        if self.records.len() == 0 {
            None
        } else {
            let r = self.records.remove(0);
            Some(r)
        }
    }

    /// Peeks the current newest record (the back of the queue), if any.
    pub fn front(&self) -> (r: Option<&CutRecord>)
        ensures
            self@.len() == 0 ==> r is None,
            self@.len() > 0 ==> (r matches Some(rec) && rec@ == self@.last()),
    {
        if self.records.len() == 0 {
            None
        } else {
            Some(&self.records[self.records.len() - 1])
        }
    }
}

} // verus!
