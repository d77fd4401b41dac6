//! A small logger that appends one rendered line per message to a file.
//!
//! The library holds the logger's configuration, the template language with
//! its rendering, and the capture and formatting of the local time. Opening
//! and writing the file is left to the caller.
mod clock;
mod logger;
mod template;

pub use clock::{
    date_shape, days_in_month, has_date_shape, digit, four_digits, is_leap_year, is_weekday_name,
    lemma_short_time_is_prefix, short_text, strftime, time_text, two_digits, Stamp, DATE_PATTERN,
    LATEST_CLOCK_SECONDS, TIMESHORT_PATTERN, TIME_PATTERN, text_of,
};
pub use logger::{
    format_for, is_line_of_a_moment, lemma_timeshort_line, lemma_empty_format_is_default, lemma_render_repeatable,
    line_at, renders_plainly, Logger, DEFAULT_FORMAT,
};
pub use template::{
    is_token_text, lemma_line_has_one_break, lemma_longest_token_wins, lemma_render_keeps_out,
    lemma_render_pieces, lemma_render_plain_text, lemma_render_token, lemma_timeshort_prefix_safe,
    log_line, piece_value, render, render_template, short_tail, token_at, token_text, token_value,
    Token,
};
