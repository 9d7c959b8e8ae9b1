use crate::keygen::{generate_key, is_key_char};
use crate::tags::{collect_tags, no_dup_views, strs_set, tags_of};
use vstd::prelude::*;

verus! {

/// Length of a freshly generated entry key.
pub const KEY_LENGTH: usize = 8;

/// One tracked activity: a start/end time pair with a free-text description.
///
/// Field names follow the wire format of the remote service: `key` is the
/// unique identifier, `t1`/`t2` the start/end epoch seconds, `ds` the
/// description, `mt` the last-modified epoch seconds. `st` is an opaque
/// numeric payload the engine never interprets; it is carried as the raw bit
/// pattern of the wire value and passed through unchanged.
pub struct Record {
    pub key: String,
    pub t1: u64,
    pub t2: u64,
    pub ds: Option<String>,
    pub mt: u64,
    pub st: Option<u64>,
}

/// An entry is running when its start and end timestamps coincide.
pub open spec fn spec_is_running(e: Record) -> bool {
    e.t1 == e.t2
}

/// A well-formed entry never ends before it starts.
pub open spec fn spec_wf(e: Record) -> bool {
    e.t2 >= e.t1
}

/// The stopped form of `e` at time `now`: end and last-modified set to `now`,
/// every other field unchanged.
pub open spec fn spec_stop(e: Record, now: u64) -> Record {
    Record { t2: now, mt: now, ..e }
}

/// The entry freshly created at `now`: start, end and last-modified all at
/// `now`, the given description stored, the opaque payload zero.
pub open spec fn spec_new(ds: String, now: u64, key: String) -> Record {
    Record { key, t1: now, t2: now, ds: Some(ds), mt: now, st: Some(0u64) }
}

/// The tag set of an entry: the tags of its description, empty when the
/// description is absent.
pub open spec fn spec_tags(e: Record) -> Set<Seq<char>> {
    match e.ds {
        Some(d) => tags_of(d@),
        None => Set::empty(),
    }
}

impl Clone for Record {
    fn clone(&self) -> (r: Self)
        ensures
            r == *self,
    {
        Record {
            key: self.key.clone(),
            t1: self.t1,
            t2: self.t2,
            ds: match &self.ds {
                Some(d) => Some(d.clone()),
                None => None,
            },
            mt: self.mt,
            st: self.st,
        }
    }
}

impl Record {
    /// A fresh entry for `ds`, keyed by a new random key and timed by the
    /// system clock. Whatever the clock and the key generator return, the
    /// entry starts running (all three timestamps equal), stores `ds`, and
    /// carries a zero opaque payload under an alphanumeric key of the fixed
    /// length.
    pub fn new(ds: String) -> (r: Record)
        ensures
            exists|now: u64, key: String|
                r == spec_new(ds, now, key) && key@.len() == KEY_LENGTH && (forall|i: int|
                    0 <= i < key@.len() ==> is_key_char(key@[i])),
    {
        let now = crate::get_timestamp();
        let key = generate_key(KEY_LENGTH);
        Record::new_at(ds, now, key)
    }

    /// The fresh entry for `ds` at time `now` under the given key.
    pub fn new_at(ds: String, now: u64, key: String) -> (r: Record)
        ensures
            r == spec_new(ds, now, key),
    {
        Record { key, t1: now, t2: now, ds: Some(ds), mt: now, st: Some(0u64) }
    }

    /// Whether the entry is running: start and end timestamps equal.
    pub fn is_running(&self) -> (r: bool)
        ensures
            r == spec_is_running(*self),
    {
        self.t1 == self.t2
    }

    /// Stops the entry at time `now`: a new value with end and last-modified
    /// set to `now` and every other field unchanged. The engine applies it
    /// only to running entries; on an already-stopped entry it is the same
    /// total field transform (no guard), which callers must avoid.
    pub fn stop(self, now: u64) -> (r: Record)
        ensures
            r == spec_stop(self, now),
    {
        Record { t2: now, mt: now, ..self }
    }

    /// The tags of a description: its `#`-prefixed whitespace-delimited
    /// tokens, deduplicated.
    pub fn str_to_tags(ds: &str) -> (r: Vec<String>)
        ensures
            strs_set(r@) == tags_of(ds@),
            no_dup_views(r@),
    {
        collect_tags(ds)
    }

    /// The tags of the entry's description, deduplicated; empty when the
    /// description is absent.
    pub fn tags(&self) -> (r: Vec<String>)
        ensures
            strs_set(r@) == spec_tags(*self),
            no_dup_views(r@),
    {
        match &self.ds {
            Some(d) => Record::str_to_tags(d.as_str()),
            None => Vec::new(),
        }
    }
}

/// Stopping a well-formed entry at a time not before its start keeps it
/// well formed, and the stopped entry still reads as running exactly when
/// the stop lands within the second the entry started: only `now` strictly
/// after the start time makes the stopped entry read as not running.
pub proof fn lemma_stop_running_boundary(e: Record, now: u64)
    requires
        now >= e.t1,
    ensures
        spec_wf(spec_stop(e, now)),
        spec_is_running(spec_stop(e, now)) <==> !(now > e.t1),
{
}

} // verus!
