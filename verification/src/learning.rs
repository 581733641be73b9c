//! The learning session: the passive record of every observed library
//! basename, modeled as an explicitly-owned log. The file around it, its
//! header, footer and flushing, lives with the embedding.

use vstd::prelude::*;
use vstd::string::StringExecFns;
use crate::config::Settings;
use crate::preload_check::ScanEvent;

verus! {

/// One learning session's observations, in order.
pub struct LearningLog {
    /// The observed library basenames.
    pub entries: Vec<String>,
}

impl LearningLog {
    /// An empty log.
    pub fn new() -> (log: LearningLog)
        ensures
            log.entries@.len() == 0,
    {
        LearningLog { entries: Vec::new() }
    }
}

/// Record one observed library basename.
pub fn record_library(log: &mut LearningLog, library_name: &str)
    ensures
        final(log).entries.deep_view() == old(log).entries.deep_view().push(library_name@),
{
    log.entries.push(library_name.to_owned());
    proof {
        assert(log.entries.deep_view() =~= old(log).entries.deep_view().push(library_name@));
    }
}

/// Record every evaluated filename of a scan when learning mode is on, in
/// scan order; with learning off the log is untouched.
pub fn record_observed(log: &mut LearningLog, settings: &Settings, events: &Vec<ScanEvent>)
    ensures
        final(log).entries.deep_view() == if settings.learning_mode {
            old(log).entries.deep_view() + events@.map_values(|e: ScanEvent| e.filename@)
        } else {
            old(log).entries.deep_view()
        },
{
    let ghost names = events@.map_values(|e: ScanEvent| e.filename@);
    if !settings.learning_mode {
        return ;
    }
    let mut i: usize = 0;
    proof {
        assert(log.entries.deep_view() =~= old(log).entries.deep_view() + names.take(0));
    }
    while i < events.len()
        invariant
            0 <= i <= events@.len(),
            names == events@.map_values(|e: ScanEvent| e.filename@),
            log.entries.deep_view() == old(log).entries.deep_view() + names.take(i as int),
        decreases events@.len() - i,
    {
        record_library(log, events[i].filename.as_str());
        proof {
            assert(names.take(i as int).push(names[i as int]) =~= names.take(i as int + 1));
            assert((old(log).entries.deep_view() + names.take(i as int)).push(names[i as int])
                =~= old(log).entries.deep_view() + names.take(i as int + 1));
        }
        i = i + 1;
    }
    proof {
        assert(names.take(events@.len() as int) =~= names);
    }
}

/// The line a learning record writes: a small JSON object naming the
/// library.
pub fn learning_line(library_name: &str) -> (r: String)
    ensures
        r@ == "{\"library\": \""@ + library_name@ + "\"}"@,
{
    let mut r = String::from_str("{\"library\": \"");
    r.append(library_name);
    r.append("\"}");
    r
}

} // verus!
