//! The task record and its timestamp model.

use vstd::prelude::*;

verus! {

/// A calendar timestamp in UTC, second precision.
///
/// The codec renders it as `YYYY-MM-DDTHH:MM:SSZ` and parses that form back;
/// [`ts_valid`] gives the field ranges the textual form can carry.
#[derive(Clone, Copy, PartialEq, Eq, Structural, Debug)]
pub struct Timestamp {
    pub year: u32,
    pub month: u32,
    pub day: u32,
    pub hour: u32,
    pub minute: u32,
    pub second: u32,
}

/// Field ranges representable by the fixed-width textual timestamp form.
pub open spec fn ts_valid(ts: Timestamp) -> bool {
    &&& ts.year <= 9999
    &&& 1 <= ts.month <= 12
    &&& 1 <= ts.day <= 31
    &&& ts.hour <= 23
    &&& ts.minute <= 59
    &&& ts.second <= 59
}

/// One step of a task: a line of text and a completion flag.
#[derive(Clone, Debug)]
pub struct SubTask {
    pub text: String,
    pub done: bool,
}

/// A task record.
///
/// The first five fields and `filtered` are transient: they are never written
/// to the persisted text and are supplied by the caller when decoding. The
/// remaining fields are persistable; for the optional ones an empty string or
/// empty sequence is equivalent to "absent" in the persisted form.
#[derive(Clone, Debug)]
pub struct Task {
    pub uuid: String,
    pub status: String,
    pub write_pending: bool,
    pub id: i32,
    pub deleted: bool,
    pub summary: String,
    pub notes: String,
    pub tags: Vec<String>,
    pub project: String,
    pub priority: String,
    pub delegated_to: String,
    pub subtasks: Vec<SubTask>,
    pub dependencies: Vec<String>,
    pub created: Timestamp,
    pub resolved: Option<Timestamp>,
    pub due: Option<Timestamp>,
    pub filtered: bool,
}

} // verus!
