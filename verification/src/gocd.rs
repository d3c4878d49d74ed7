//! GoCD build-history correlation: reading history records out of the
//! history endpoint's response and resolving a build counter to the
//! stable source-control revision that keys its notification.

use vstd::prelude::*;

use crate::json::{json_as_array, json_as_u64, json_get, json_pointer};

verus! {

/// Why a build's revision could not be resolved.
#[derive(Debug)]
pub enum LookupError {
    /// No history record carries the requested counter.
    BuildNotFound,
    /// The record with the requested counter carries no revision.
    NoRevisionData,
    /// The history endpoint could not be reached or its response not read;
    /// carries the underlying cause.
    TransportError(String),
}

/// A fully resolved history item: a build counter and the source-control
/// revision of that build.
#[derive(Debug)]
pub struct HistoryItem {
    pub counter: u64,
    pub id: u64,
}

/// One record of a pipeline's history: its counter, and its revision where
/// the record carries one. Records of builds not triggered by a code
/// change commonly carry none.
#[derive(Debug)]
pub struct HistoryRecord {
    pub counter: u64,
    pub id: Option<u64>,
}

impl HistoryRecord {
    /// Builds a record from the two values a history entry may carry:
    /// no counter, no record; an absent revision is kept as absent.
    pub fn from_parts(maybe_counter: Option<u64>, maybe_id: Option<u64>) -> (r: Option<
        HistoryRecord,
    >)
        ensures
            match maybe_counter {
                Some(c) => r == Some(HistoryRecord { counter: c, id: maybe_id }),
                None => r is None,
            },
    {
        match maybe_counter {
            Some(c) => Some(HistoryRecord { counter: c, id: maybe_id }),
            None => None,
        }
    }

    /// Reads one history record out of its JSON form: the counter from the
    /// `counter` member, the revision from the first modification of the
    /// build cause. Which values make a record is decided by `from_parts`.
    fn from_json(json_obj: &serde_json::Value) -> Option<HistoryRecord> {
        let maybe_id = match json_pointer(
            json_obj,
            "/build_cause/material_revisions/0/modifications/0/id",
        ) {
            Some(v) => json_as_u64(v),
            None => None,
        };
        let maybe_counter = match json_get(json_obj, "counter") {
            Some(v) => json_as_u64(v),
            None => None,
        };
        HistoryRecord::from_parts(maybe_counter, maybe_id)
    }
}

/// Reads a history response: the `pipelines` member must be an array, or
/// the response is invalid; each element with a counter becomes a record
/// and the others are skipped.
pub fn parse_history_response(response: &serde_json::Value) -> Result<Vec<HistoryRecord>, String> {
    let arr = match json_get(response, "pipelines") {
        Some(v) => match json_as_array(v) {
            Some(a) => a,
            None => {
                return Err(String::from_str("Invalid Json"));
            },
        },
        None => {
            return Err(String::from_str("Invalid Json"));
        },
    };
    let mut records: Vec<HistoryRecord> = Vec::new();
    let n = arr.len();
    let mut i: usize = 0;
    while i < n
        invariant
            0 <= i <= n == arr@.len(),
        decreases n - i,
    {
        match HistoryRecord::from_json(&arr[i]) {
            Some(rec) => records.push(rec),
            None => (),
        }
        i = i + 1;
    }
    Ok(records)
}

/// The first record whose counter is the requested one.
pub open spec fn spec_find_record(records: Seq<HistoryRecord>, counter: u64) -> Option<
    HistoryRecord,
>
    decreases records.len(),
{
    if records.len() == 0 {
        None
    } else if records[0].counter == counter {
        Some(records[0])
    } else {
        spec_find_record(records.subrange(1, records.len() as int), counter)
    }
}

/// What resolving a counter against a history yields: the revision of the
/// first record carrying that counter; `BuildNotFound` where no record
/// does; `NoRevisionData` where that record carries no revision.
pub open spec fn spec_resolve_revision(records: Seq<HistoryRecord>, counter: u64) -> Result<
    HistoryItem,
    LookupError,
> {
    match spec_find_record(records, counter) {
        None => Err(LookupError::BuildNotFound),
        Some(rec) => match rec.id {
            Some(id) => Ok(HistoryItem { counter: rec.counter, id }),
            None => Err(LookupError::NoRevisionData),
        },
    }
}

/// Maps a build counter to the stable revision of that build, against the
/// records the history endpoint returned.
pub fn resolve_revision(records: &Vec<HistoryRecord>, build_counter: u64) -> (r: Result<
    HistoryItem,
    LookupError,
>)
    ensures
        r == spec_resolve_revision(records@, build_counter),
{
    let n = records.len();
    proof {
        assert(records@.subrange(0, n as int) =~= records@);
    }
    let mut i: usize = 0;
    while i < n
        invariant
            0 <= i <= n == records@.len(),
            spec_find_record(records@, build_counter) == spec_find_record(
                records@.subrange(i as int, n as int),
                build_counter,
            ),
        decreases n - i,
    {
        proof {
            let tail = records@.subrange(i as int, n as int);
            assert(tail[0] == records@[i as int]);
            assert(tail.subrange(1, tail.len() as int) =~= records@.subrange(
                i as int + 1,
                n as int,
            ));
        }
        let rec = &records[i];
        if rec.counter == build_counter {
            return match rec.id {
                Some(id) => Ok(HistoryItem { counter: rec.counter, id }),
                None => Err(LookupError::NoRevisionData),
            };
        }
        i = i + 1;
    }
    proof {
        assert(records@.subrange(n as int, n as int) =~= Seq::<HistoryRecord>::empty());
    }
    Err(LookupError::BuildNotFound)
}

} // verus!
