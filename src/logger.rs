//! The logger's configuration and the rendering of one log line.
use crate::clock::{
    format_stamp, has_date_shape, local_stamp, short_text, strftime, text_of, time_text, unix_seconds, Stamp,
    DATE_PATTERN, LATEST_CLOCK_SECONDS, TIMESHORT_PATTERN, TIME_PATTERN,
};
use crate::clock::lemma_short_time_is_prefix;
use crate::template::{
    lemma_timeshort_prefix_safe, log_line, render_template, short_tail, token_text, Token,
};
use vstd::prelude::*;

verus! {

/// The template used when a logger is made with an empty one.
pub const DEFAULT_FORMAT: &'static str = "$date $time $msg";

/// The template that a logger made with `format` holds: `format` itself, or
/// the default where it is empty.
pub open spec fn format_for(format: Seq<char>) -> Seq<char> {
    if format.len() == 0 {
        DEFAULT_FORMAT@
    } else {
        format
    }
}

/// The line logged for `msg` with `template` at `stamp`: `None` where chrono
/// cannot write out one of the three time texts.
pub open spec fn line_at(template: Seq<char>, stamp: Stamp, msg: Seq<char>) -> Option<
    Seq<char>,
> {
    match (
        strftime(DATE_PATTERN@, stamp),
        strftime(TIME_PATTERN@, stamp),
        strftime(TIMESHORT_PATTERN@, stamp),
    ) {
        (Some(date), Some(time), Some(short)) => Some(log_line(template, date, time, short, msg)),
        _ => None,
    }
}

/// Whether chrono writes the three time texts of `stamp` in their plain
/// shapes: `DD-MM-YYYY Ddd`, `HH:MM.SS` and `HH:MM`.
pub open spec fn renders_plainly(stamp: Stamp) -> bool {
    &&& strftime(TIME_PATTERN@, stamp) == Some(time_text(stamp))
    &&& strftime(TIMESHORT_PATTERN@, stamp) == Some(short_text(stamp))
    &&& has_date_shape(strftime(DATE_PATTERN@, stamp), stamp)
}

/// Whether `l` is the line logged for `msg` with `template` at one moment of
/// local time, a real date of the years 1969 to 9999, whose time texts have
/// their plain shapes.
pub open spec fn is_line_of_a_moment(template: Seq<char>, msg: Seq<char>, l: Seq<char>) -> bool {
    exists|stamp: Stamp|
        {
            &&& stamp.wf()
            &&& stamp.is_date()
            &&& 1969 <= stamp.year <= 9999
            &&& renders_plainly(stamp)
            &&& #[trigger] line_at(template, stamp, msg) == Some(l)
        }
}

/// A log file's path and the template of its lines.
///
/// Making a logger touches no file: the path is first used when a line is
/// written.
pub struct Logger {
    path: String,
    format: String,
}

impl Logger {
    /// The path of the log file.
    pub closed spec fn path_view(&self) -> Seq<char> {
        self.path@
    }

    /// The template of each line.
    pub closed spec fn format_view(&self) -> Seq<char> {
        self.format@
    }

    /// A logger for the file at `path` with the template `format`, or the
    /// default template where `format` is empty.
    pub fn new(path: &str, format: &str) -> (r: Logger)
        ensures
            r.path_view() == path@,
            r.format_view() == format_for(format@),
    {
        let chosen = if format.is_empty() {
            DEFAULT_FORMAT
        } else {
            format
        };
        Logger { path: path.to_owned(), format: chosen.to_owned() }
    }

    /// Replaces the template by `fmt`, as it is.
    pub fn fmt(&mut self, fmt: &str)
        ensures
            final(self).format_view() == fmt@,
            final(self).path_view() == old(self).path_view(),
    {
        self.format = fmt.to_owned();
    }

    /// The template.
    pub fn get_fmt(&self) -> (r: &str)
        ensures
            r@ == self.format_view(),
    {
        self.format.as_str()
    }

    /// Replaces the path by `path`.
    pub fn path(&mut self, path: &str)
        ensures
            final(self).path_view() == path@,
            final(self).format_view() == old(self).format_view(),
    {
        self.path = path.to_owned();
    }

    /// The path.
    pub fn get_path(&self) -> (r: &str)
        ensures
            r@ == self.path_view(),
    {
        self.path.as_str()
    }

    /// The line logged for `msg` at `stamp`: the template with its
    /// placeholders replaced, then a line break. `None` where chrono cannot
    /// write out the stamp, which never happens for a real date with fields
    /// in range.
    pub fn render_at(&self, stamp: &Stamp, msg: &str) -> (r: Option<String>)
        ensures
            text_of(r) == line_at(self.format_view(), *stamp, msg@),
            stamp.wf() && stamp.is_date() ==> r is Some,
            stamp.wf() && stamp.is_date() && 0 <= stamp.year <= 9999 ==> renders_plainly(*stamp),
    {
        let date = match format_stamp(stamp, DATE_PATTERN) {
            Some(s) => s,
            None => return None,
        };
        let time = match format_stamp(stamp, TIME_PATTERN) {
            Some(s) => s,
            None => return None,
        };
        let short = match format_stamp(stamp, TIMESHORT_PATTERN) {
            Some(s) => s,
            None => return None,
        };
        let mut out = render_template(
            self.format.as_str(),
            date.as_str(),
            time.as_str(),
            short.as_str(),
            msg,
        );
        proof {
            reveal_strlit("\n");
        }
        out.append("\n");
        Some(out)
    }

    /// The line logged for `msg` at the moment the system clock reads `secs`
    /// seconds after the Unix epoch, in local time. `None` exactly where the
    /// reading lies past the start of 9999-12-31.
    pub fn line_for_seconds(&self, secs: u64, msg: &str) -> (r: Option<String>)
        ensures
            r is Some <==> secs <= LATEST_CLOCK_SECONDS,
            r matches Some(l) ==> is_line_of_a_moment(self.format_view(), msg@, l@),
    {
        if secs > LATEST_CLOCK_SECONDS {
            return None;
        }
        let stamp = local_stamp(secs);
        let r = self.render_at(&stamp, msg);
        assert(line_at(self.format_view(), stamp, msg@) == text_of(r));
        r
    }

    /// The line logged for `msg` now: the clock is read once, and every time
    /// placeholder of the line shows that one moment. `None` where the system
    /// clock reads before 1970 or past the start of 9999-12-31.
    pub fn parse_format(&self, msg: &str) -> (r: Option<String>)
        ensures
            r matches Some(l) ==> is_line_of_a_moment(self.format_view(), msg@, l@),
    {
        match unix_seconds() {
            Some(secs) => self.line_for_seconds(secs, msg),
            None => None,
        }
    }
}

/// A logger made with an empty template holds the default one, and hands it
/// back when asked for its template.
pub proof fn lemma_empty_format_is_default(path: Seq<char>, logger: Logger)
    requires
        logger.path_view() == path,
        logger.format_view() == format_for(Seq::empty()),
    ensures
        logger.format_view() == DEFAULT_FORMAT@,
{
}

/// The line depends on the template, the moment and the message alone: two
/// loggers with one template, whatever their paths, make the same line of the
/// same moment and message, however often they are asked.
pub proof fn lemma_render_repeatable(a: Logger, b: Logger, stamp: Stamp, msg: Seq<char>)
    requires
        a.format_view() == b.format_view(),
    ensures
        line_at(a.format_view(), stamp, msg) == line_at(b.format_view(), stamp, msg),
{
}

/// A template that is `$timeshort` alone gives, at a moment whose time texts
/// have their plain shapes, the line `HH:MM` and a line break: the short time
/// and nothing else, never the long time followed by the word `short`.
pub proof fn lemma_timeshort_line(stamp: Stamp, msg: Seq<char>)
    requires
        stamp.wf(),
        renders_plainly(stamp),
    ensures
        line_at(token_text(Token::TimeShort), stamp, msg) == Some(short_text(stamp) + seq!['\n']),
        !(short_text(stamp) + seq!['\n']).contains('s'),
        short_text(stamp) + seq!['\n'] != time_text(stamp) + short_tail() + seq!['\n'],
{
    let d = strftime(DATE_PATTERN@, stamp)->0;
    lemma_timeshort_prefix_safe(Seq::empty(), d, time_text(stamp), short_text(stamp), msg);
    lemma_short_time_is_prefix(stamp);
    let l = short_text(stamp) + seq!['\n'];
    assert(!l.contains('s')) by {
        if l.contains('s') {
            let i = choose|i: int| 0 <= i < l.len() && l[i] == 's';
            if i < 5 {
                assert(time_text(stamp)[i] == 's');
            }
        }
    }
    assert(l.len() != (time_text(stamp) + short_tail() + seq!['\n']).len());
}

} // verus!
