use crate::keygen::{generate_key, is_key_char};
use crate::records::{spec_is_running, spec_new, spec_stop, spec_tags, Record, KEY_LENGTH};
use crate::tags::{matches_filter, strs_set, tags_of};
use vstd::prelude::*;

verus! {

/// The tag set of an optional filter string: the tags of the string when
/// present, the empty set (which every entry covers) when absent.
pub open spec fn spec_filter_tags(filter: Option<String>) -> Set<Seq<char>> {
    match filter {
        Some(f) => tags_of(f@),
        None => Set::empty(),
    }
}

/// Whether the entry's tags cover every tag of the filter.
pub open spec fn spec_matches(e: Record, ftags: Set<Seq<char>>) -> bool {
    ftags.subset_of(spec_tags(e))
}

/// Whether some entry of the snapshot matches the filter tags.
pub open spec fn spec_some_matches(running: Seq<Record>, ftags: Set<Seq<char>>) -> bool {
    exists|i: int| 0 <= i < running.len() && spec_matches(running[i], ftags)
}

/// The batch the stop action submits: every running entry of the snapshot
/// whose tags cover the filter, stopped at `now`, in snapshot order. Entries
/// not running or not matching are left out untouched.
pub open spec fn spec_stop_batch(running: Seq<Record>, ftags: Set<Seq<char>>, now: u64) -> Seq<
    Record,
>
    decreases running.len(),
{
    if running.len() == 0 {
        Seq::empty()
    } else {
        let rest = spec_stop_batch(running.drop_last(), ftags, now);
        let e = running.last();
        if spec_is_running(e) && spec_matches(e, ftags) {
            rest.push(spec_stop(e, now))
        } else {
            rest
        }
    }
}

/// The batch the create action submits: empty when a filter is given and some
/// snapshot entry already matches it (an equivalent activity is judged
/// already running, so nothing is stopped or created); otherwise every
/// running entry stopped at `now`, followed by the freshly created entry.
pub open spec fn spec_create_batch(
    running: Seq<Record>,
    ds: String,
    filter: Option<String>,
    now: u64,
    key: String,
) -> Seq<Record> {
    let already_running = match filter {
        Some(f) => spec_some_matches(running, tags_of(f@)),
        None => false,
    };
    if already_running {
        Seq::empty()
    } else {
        spec_stop_batch(running, Set::empty(), now).push(spec_new(ds, now, key))
    }
}

/// Whether any snapshot entry's tags cover the given filter tags. The scan
/// follows snapshot order, though only existence matters.
fn any_match(running: &Vec<Record>, ftags: &Vec<String>) -> (r: bool)
    ensures
        r == spec_some_matches(running@, strs_set(ftags@)),
{
    let mut i: usize = 0;
    while i < running.len()
        invariant
            i <= running@.len(),
            forall|k: int| 0 <= k < i ==> !spec_matches(#[trigger] running@[k], strs_set(ftags@)),
        decreases running@.len() - i,
    {
        let etags = running[i].tags();
        if matches_filter(&etags, ftags) {
            return true;
        }
        i = i + 1;
    }
    false
}

/// The executable filter tags: the tags of the filter string when present,
/// none when absent.
fn filter_tag_vec(filter: &Option<String>) -> (r: Vec<String>)
    ensures
        strs_set(r@) == spec_filter_tags(*filter),
{
    match filter {
        Some(f) => Record::str_to_tags(f.as_str()),
        None => Vec::new(),
    }
}

/// The stop action of the toggle engine: given the snapshot of recently
/// fetched entries and an optional tag filter, the batch holds every running
/// entry whose tags cover the filter, stopped at `now`, in snapshot order;
/// every other entry stays out of the batch, unchanged.
pub fn plan_stop(running: &Vec<Record>, filter: &Option<String>, now: u64) -> (r: Vec<Record>)
    ensures
        r@ == spec_stop_batch(running@, spec_filter_tags(*filter), now),
{
    let ftags = filter_tag_vec(filter);
    let ghost fset = strs_set(ftags@);
    let mut out: Vec<Record> = Vec::new();
    let mut i: usize = 0;
    proof {
        assert(running@.subrange(0, 0) =~= Seq::<Record>::empty());
    }
    while i < running.len()
        invariant
            i <= running@.len(),
            fset == strs_set(ftags@),
            fset == spec_filter_tags(*filter),
            out@ == spec_stop_batch(running@.subrange(0, i as int), fset, now),
        decreases running@.len() - i,
    {
        proof {
            assert(running@.subrange(0, i as int + 1).drop_last() =~= running@.subrange(
                0,
                i as int,
            ));
            assert(running@.subrange(0, i as int + 1).last() == running@[i as int]);
        }
        let e = &running[i];
        if e.is_running() {
            let etags = e.tags();
            if matches_filter(&etags, &ftags) {
                out.push(e.clone().stop(now));
            }
        }
        i = i + 1;
    }
    proof {
        assert(running@.subrange(0, running@.len() as int) =~= running@);
    }
    out
}

/// The create action of the toggle engine: given the snapshot, the new
/// entry's description, an optional tag filter, the time and a fresh key,
/// the batch is empty when the filter is present and some snapshot entry
/// matches it; otherwise it holds every running entry stopped at `now`
/// followed by the new entry created at `now` under `key`.
pub fn plan_create(
    running: &Vec<Record>,
    ds: String,
    filter: &Option<String>,
    now: u64,
    key: String,
) -> (r: Vec<Record>)
    ensures
        r@ == spec_create_batch(running@, ds, *filter, now, key),
{
    if let Some(f) = filter {
        let ftags = Record::str_to_tags(f.as_str());
        if any_match(running, &ftags) {
            let empty: Vec<Record> = Vec::new();
            return empty;
        }
    }
    let no_filter: Option<String> = None;
    let mut out = plan_stop(running, &no_filter, now);
    out.push(Record::new_at(ds, now, key));
    out
}

/// The stop action timed by the system clock: whatever timestamp the clock
/// returns, the batch is the stop plan of the snapshot at that time.
pub fn toggle_stop(running: &Vec<Record>, filter: &Option<String>) -> (r: Vec<Record>)
    ensures
        exists|now: u64| r@ == spec_stop_batch(running@, spec_filter_tags(*filter), now),
{
    let now = crate::get_timestamp();
    plan_stop(running, filter, now)
}

/// The create action timed by the system clock and keyed by the random key
/// generator: whatever the clock and the generator return, the batch is the
/// create plan of the snapshot at that time under that key, and the key is
/// alphanumeric of the fixed length.
pub fn toggle_create(running: &Vec<Record>, ds: String, filter: &Option<String>) -> (r: Vec<
    Record,
>)
    ensures
        exists|now: u64, key: String|
            r@ == spec_create_batch(running@, ds, *filter, now, key) && key@.len() == KEY_LENGTH
                && (forall|i: int| 0 <= i < key@.len() ==> is_key_char(key@[i])),
{
    let now = crate::get_timestamp();
    let key = generate_key(KEY_LENGTH);
    plan_create(running, ds, filter, now, key)
}

/// With no filter over a snapshot of running entries, the stop action stops
/// them all: the batch holds, in order, exactly the stopped form of each
/// snapshot entry, with only end and last-modified changed.
pub proof fn lemma_stop_all_when_unfiltered(running: Seq<Record>, now: u64)
    requires
        forall|i: int| 0 <= i < running.len() ==> spec_is_running(#[trigger] running[i]),
    ensures
        spec_stop_batch(running, Set::empty(), now).len() == running.len(),
        forall|i: int|
            0 <= i < running.len() ==> #[trigger] spec_stop_batch(running, Set::empty(), now)[i]
                == spec_stop(running[i], now),
    decreases running.len(),
{
    if running.len() > 0 {
        lemma_stop_all_when_unfiltered(running.drop_last(), now);
        assert(spec_is_running(running[running.len() - 1]));
        assert(spec_matches(running.last(), Set::empty()));
        assert forall|i: int| 0 <= i < running.len() implies #[trigger] spec_stop_batch(
            running,
            Set::empty(),
            now,
        )[i] == spec_stop(running[i], now) by {
            if i < running.len() - 1 {
                assert(spec_stop_batch(running.drop_last(), Set::empty(), now)[i] == spec_stop(
                    running.drop_last()[i],
                    now,
                ));
            }
        }
    }
}

} // verus!

