//! The headline facts of a dump.

use crate::text::{
    chars_of, count, dec_chars, dec_text, join_lines_or, lines_or, number, optional_line,
    push_line, push_optional_count, push_optional_text, push_str, text, views,
};
use crate::util::time::{unix_seconds_to_utc_string, utc_string_of};
use vstd::prelude::*;

verus! {

broadcast use vstd::string::group_string_axioms;

/// The headline facts of a dump.
#[derive(Clone, Debug)]
pub struct MinidumpSummary {
    pub file_size: Option<u64>,
    pub time_date_stamp: Option<u32>,
    pub os: Option<String>,
    pub cpu: Option<String>,
    pub module_count: Option<usize>,
    pub thread_count: Option<usize>,
    pub exception: Option<String>,
}

impl MinidumpSummary {
    pub open spec fn size_lines(&self) -> Seq<Seq<char>> {
        match self.file_size {
            Some(size) => seq!["File size: "@ + (dec_text(size as nat) + " bytes"@)],
            None => Seq::empty(),
        }
    }

    /// The time stamp, and on a line of its own the same moment in calendar
    /// time where the calendar reaches it.
    pub open spec fn stamp_lines(&self) -> Seq<Seq<char>> {
        match self.time_date_stamp {
            Some(stamp) => seq!["TimeDateStamp (unix): "@ + dec_text(stamp as nat)]
                + optional_line("TimeDateStamp (utc): "@, utc_string_of(stamp as u64)),
            None => Seq::empty(),
        }
    }

    /// The lines of the summary: those of the facts that are known.
    pub open spec fn lines(&self) -> Seq<Seq<char>> {
        self.size_lines() + self.stamp_lines() + optional_line("OS: "@, text(self.os))
            + optional_line("CPU: "@, text(self.cpu)) + optional_line(
            "Threads: "@,
            number(count(self.thread_count)),
        ) + optional_line("Modules: "@, number(count(self.module_count))) + optional_line(
            "Exception: "@,
            text(self.exception),
        )
    }

    /// The summary as text, one fact on each line.
    pub open spec fn pretty_text(&self) -> Seq<char> {
        lines_or(self.lines(), "<no summary>"@)
    }

    pub fn pretty(&self) -> (r: String)
        ensures
            r@ == self.pretty_text(),
    {
        let mut lines: Vec<Vec<char>> = Vec::new();
        assert(views(lines@) =~= Seq::<Seq<char>>::empty());
        if let Some(size) = self.file_size {
            let mut value = dec_chars(size);
            push_str(&mut value, " bytes");
            push_line(&mut lines, "File size: ", value.as_slice());
        }
        assert(views(lines@) =~= self.size_lines());
        let ghost first = views(lines@);
        if let Some(stamp) = self.time_date_stamp {
            let value = dec_chars(stamp as u64);
            push_line(&mut lines, "TimeDateStamp (unix): ", value.as_slice());
            if let Some(utc) = unix_seconds_to_utc_string(stamp as u64) {
                let value = chars_of(utc.as_str());
                push_line(&mut lines, "TimeDateStamp (utc): ", value.as_slice());
            }
        }
        assert(views(lines@) =~= first + self.stamp_lines());
        push_optional_text(&mut lines, "OS: ", &self.os);
        push_optional_text(&mut lines, "CPU: ", &self.cpu);
        push_optional_count(&mut lines, "Threads: ", self.thread_count);
        push_optional_count(&mut lines, "Modules: ", self.module_count);
        push_optional_text(&mut lines, "Exception: ", &self.exception);
        assert(views(lines@) =~= self.lines());
        join_lines_or(&lines, "<no summary>")
    }
}

impl Default for MinidumpSummary {
    fn default() -> (r: MinidumpSummary)
        ensures
            r.file_size is None,
            r.time_date_stamp is None,
            r.os is None,
            r.cpu is None,
            r.module_count is None,
            r.thread_count is None,
            r.exception is None,
    {
        MinidumpSummary {
            file_size: None,
            time_date_stamp: None,
            os: None,
            cpu: None,
            module_count: None,
            thread_count: None,
            exception: None,
        }
    }
}

} // verus!
