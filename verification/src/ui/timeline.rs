//! The filter of the timeline.

use crate::model::Event;
use crate::text::{chars_of, contains, has, lower, to_lower, trim, trimmed};
use vstd::prelude::*;

verus! {

broadcast use vstd::string::group_string_axioms;

/// The event is on show under the filter: the filter is blank, or what is
/// left of it without the white space around it occurs, in any case of
/// letters, in the title, the details or the source of the event.
pub open spec fn shown_under(title: Seq<char>, details: Seq<char>, source: Seq<char>, filter: Seq<char>) -> bool {
    let wanted = lower(trim(filter));
    ||| trim(filter).len() == 0
    ||| contains(lower(title), wanted)
    ||| contains(lower(details), wanted)
    ||| contains(lower(source), wanted)
}

pub fn passes_filter(ev: &Event, filter: &str) -> (r: bool)
    ensures
        r == shown_under(ev.title@, ev.details@, ev.source@, filter@),
{
    let f = chars_of(filter);
    let f = trimmed(f.as_slice());
    if f.len() == 0 {
        return true;
    }
    let wanted = to_lower(f.as_slice());
    let title = to_lower(chars_of(ev.title.as_str()).as_slice());
    if has(title.as_slice(), wanted.as_slice()) {
        return true;
    }
    let details = to_lower(chars_of(ev.details.as_str()).as_slice());
    if has(details.as_slice(), wanted.as_slice()) {
        return true;
    }
    let source = to_lower(chars_of(ev.source.as_str()).as_slice());
    has(source.as_slice(), wanted.as_slice())
}

} // verus!
