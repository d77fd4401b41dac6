//! The token grammar of a log template and its rendering.
//!
//! A template is plain text with placeholders: `$timeshort`, `$time`, `$date`
//! and `$msg`. Rendering scans the template once, from left to right. At each
//! position the longest placeholder that starts there is replaced by its text;
//! any other character, including a `$` that starts no placeholder, is copied.
//! Replaced text is never scanned again, so a message that holds `$date` is
//! written as it is.
use vstd::prelude::*;

verus! {

/// A placeholder of the template language.
#[derive(Clone, Copy, PartialEq, Eq, Debug)]
pub enum Token {
    /// `$timeshort`: the time of day, hours and minutes.
    TimeShort,
    /// `$time`: the time of day, hours, minutes and seconds.
    Time,
    /// `$date`: the calendar date and the weekday.
    Date,
    /// `$msg`: the logged message.
    Msg,
}

/// The characters of a placeholder as it stands in a template.
pub open spec fn token_text(k: Token) -> Seq<char> {
    match k {
        Token::TimeShort => seq!['$', 't', 'i', 'm', 'e', 's', 'h', 'o', 'r', 't'],
        Token::Time => seq!['$', 't', 'i', 'm', 'e'],
        Token::Date => seq!['$', 'd', 'a', 't', 'e'],
        Token::Msg => seq!['$', 'm', 's', 'g'],
    }
}

/// The placeholder that the text `t` starts with, if any. The candidates are
/// tried longest first, so `$timeshort` is never read as `$time`.
pub open spec fn token_at(t: Seq<char>) -> Option<Token> {
    if token_text(Token::TimeShort).is_prefix_of(t) {
        Some(Token::TimeShort)
    } else if token_text(Token::Time).is_prefix_of(t) {
        Some(Token::Time)
    } else if token_text(Token::Date).is_prefix_of(t) {
        Some(Token::Date)
    } else if token_text(Token::Msg).is_prefix_of(t) {
        Some(Token::Msg)
    } else {
        None
    }
}

/// What a placeholder is replaced by.
pub open spec fn token_value(
    k: Token,
    date: Seq<char>,
    time: Seq<char>,
    short: Seq<char>,
    msg: Seq<char>,
) -> Seq<char> {
    match k {
        Token::TimeShort => short,
        Token::Time => time,
        Token::Date => date,
        Token::Msg => msg,
    }
}

/// The template `t` with every placeholder replaced, in one pass from left to
/// right.
pub open spec fn render(
    t: Seq<char>,
    date: Seq<char>,
    time: Seq<char>,
    short: Seq<char>,
    msg: Seq<char>,
) -> Seq<char>
    decreases t.len(),
{
    if t.len() == 0 {
        Seq::empty()
    } else {
        match token_at(t) {
            Some(k) => token_value(k, date, time, short, msg) + render(
                t.skip(token_text(k).len() as int),
                date,
                time,
                short,
                msg,
            ),
            None => seq![t[0]] + render(t.skip(1), date, time, short, msg),
        }
    }
}

/// A rendered template ended by a line break: one line of the log.
pub open spec fn log_line(
    t: Seq<char>,
    date: Seq<char>,
    time: Seq<char>,
    short: Seq<char>,
    msg: Seq<char>,
) -> Seq<char> {
    render(t, date, time, short, msg) + seq!['\n']
}

/// The characters that follow `$time` in `$timeshort`.
pub open spec fn short_tail() -> Seq<char> {
    seq!['s', 'h', 'o', 'r', 't']
}

/// What a piece of a template becomes: a placeholder its value, any other
/// text itself.
pub open spec fn piece_value(
    p: Seq<char>,
    date: Seq<char>,
    time: Seq<char>,
    short: Seq<char>,
    msg: Seq<char>,
) -> Seq<char> {
    if p == token_text(Token::TimeShort) {
        short
    } else if p == token_text(Token::Time) {
        time
    } else if p == token_text(Token::Date) {
        date
    } else if p == token_text(Token::Msg) {
        msg
    } else {
        p
    }
}

/// Whether `p` is the text of a placeholder.
pub open spec fn is_token_text(p: Seq<char>) -> bool {
    exists|k: Token| p == token_text(k)
}

/// The placeholder chosen at a position is the longest one that starts there,
/// and none is chosen only where none starts.
pub proof fn lemma_longest_token_wins(t: Seq<char>)
    ensures
        token_at(t) is None ==> forall|k: Token| !token_text(k).is_prefix_of(t),
        token_at(t) matches Some(k) ==> token_text(k).is_prefix_of(t) && forall|j: Token|
            token_text(j).is_prefix_of(t) ==> token_text(j).len() <= token_text(k).len(),
{
    assert forall|j: Token, k: Token|
        token_text(j).is_prefix_of(t) && token_text(k).is_prefix_of(t) && j != k
            ==> (j == Token::Time && k == Token::TimeShort) || (j == Token::TimeShort && k
            == Token::Time) by {
        if token_text(j).is_prefix_of(t) && token_text(k).is_prefix_of(t) && j != k {
            assert(t[1] == token_text(j)[1] && t[1] == token_text(k)[1]);
            assert(t[2] == token_text(j)[2] && t[2] == token_text(k)[2]);
        }
    }
}

/// Text free of `$` is copied as it is, and rendering goes on after it.
pub proof fn lemma_render_plain_text(
    p: Seq<char>,
    rest: Seq<char>,
    date: Seq<char>,
    time: Seq<char>,
    short: Seq<char>,
    msg: Seq<char>,
)
    requires
        !p.contains('$'),
    ensures
        render(p + rest, date, time, short, msg) == p + render(rest, date, time, short, msg),
    decreases p.len(),
{
    if p.len() > 0 {
        let t = p + rest;
        assert(t[0] == p[0]);
        assert(p[0] != '$');
        assert(token_at(t) is None) by {
            if token_at(t) is Some {
                assert(t[0] == '$');
            }
        }
        assert(t.skip(1) =~= p.skip(1) + rest);
        assert(!p.skip(1).contains('$')) by {
            if p.skip(1).contains('$') {
                let i = choose|i: int| 0 <= i < p.skip(1).len() && p.skip(1)[i] == '$';
                assert(p[i + 1] == '$');
            }
        }
        lemma_render_plain_text(p.skip(1), rest, date, time, short, msg);
        assert(seq![p[0]] + p.skip(1) =~= p);
        assert(seq![p[0]] + (p.skip(1) + render(rest, date, time, short, msg)) =~= p + render(
            rest,
            date,
            time,
            short,
            msg,
        ));
    } else {
        assert(p + rest =~= rest);
        assert(p + render(rest, date, time, short, msg) =~= render(rest, date, time, short, msg));
    }
}

/// A placeholder is replaced by its value, and rendering goes on after it,
/// unless it is `$time` followed by `short`: that is `$timeshort`.
pub proof fn lemma_render_token(
    k: Token,
    rest: Seq<char>,
    date: Seq<char>,
    time: Seq<char>,
    short: Seq<char>,
    msg: Seq<char>,
)
    requires
        k == Token::Time ==> !short_tail().is_prefix_of(rest),
    ensures
        render(token_text(k) + rest, date, time, short, msg) == token_value(
            k,
            date,
            time,
            short,
            msg,
        ) + render(rest, date, time, short, msg),
{
    let t = token_text(k) + rest;
    assert(token_text(k).is_prefix_of(t)) by {
        assert(token_text(k) =~= t.subrange(0, token_text(k).len() as int));
    }
    if k == Token::Time {
        if token_text(Token::TimeShort).is_prefix_of(t) {
            assert(short_tail() =~= rest.subrange(0, 5)) by {
                assert forall|i: int| 0 <= i < 5 implies short_tail()[i] == rest[i] by {
                    assert(t[i + 5] == token_text(Token::TimeShort)[i + 5]);
                }
            }
        }
    } else if k != Token::TimeShort {
        assert(!token_text(Token::TimeShort).is_prefix_of(t)) by {
            assert(t[1] == token_text(k)[1]);
        }
        assert(!token_text(Token::Time).is_prefix_of(t)) by {
            assert(t[1] == token_text(k)[1]);
        }
        if k == Token::Msg {
            assert(!token_text(Token::Date).is_prefix_of(t)) by {
                assert(t[1] == token_text(k)[1]);
            }
        }
    }
    assert(token_at(t) == Some(k));
    assert(t.skip(token_text(k).len() as int) =~= rest);
}

/// `$timeshort` is replaced as a whole by the short time: it is never read as
/// `$time` followed by the word `short`.
pub proof fn lemma_timeshort_prefix_safe(
    rest: Seq<char>,
    date: Seq<char>,
    time: Seq<char>,
    short: Seq<char>,
    msg: Seq<char>,
)
    ensures
        render(token_text(Token::TimeShort) + rest, date, time, short, msg) == short + render(
            rest,
            date,
            time,
            short,
            msg,
        ),
        render(token_text(Token::TimeShort), date, time, short, msg) == short,
{
    lemma_render_token(Token::TimeShort, rest, date, time, short, msg);
    lemma_render_token(Token::TimeShort, Seq::empty(), date, time, short, msg);
    assert(token_text(Token::TimeShort) + Seq::<char>::empty() =~= token_text(Token::TimeShort));
    assert(render(Seq::<char>::empty(), date, time, short, msg) =~= Seq::<char>::empty());
    assert(short + Seq::<char>::empty() =~= short);
}

/// A template written as a sequence of pieces, each a placeholder or text
/// free of `$`, renders as the sequence of the pieces' values, in the same
/// order: every occurrence of a placeholder gets the same value, and the
/// message is taken as it is. The one exception, left out here, is a `$time`
/// piece directly followed by the text `short`, which reads as `$timeshort`.
pub proof fn lemma_render_pieces(
    pieces: Seq<Seq<char>>,
    date: Seq<char>,
    time: Seq<char>,
    short: Seq<char>,
    msg: Seq<char>,
)
    requires
        forall|i: int|
            0 <= i < pieces.len() ==> is_token_text(#[trigger] pieces[i]) || !pieces[i].contains(
                '$',
            ),
        forall|i: int|
            0 <= i < pieces.len() && #[trigger] pieces[i] == token_text(Token::Time)
                ==> !short_tail().is_prefix_of(pieces.skip(i + 1).flatten()),
    ensures
        render(pieces.flatten(), date, time, short, msg) == pieces.map_values(
            |p: Seq<char>| piece_value(p, date, time, short, msg),
        ).flatten(),
    decreases pieces.len(),
{
    let values = pieces.map_values(|p: Seq<char>| piece_value(p, date, time, short, msg));
    if pieces.len() == 0 {
        assert(values =~= Seq::<Seq<char>>::empty());
        assert(render(pieces.flatten(), date, time, short, msg) =~= Seq::<char>::empty());
    } else {
        let p = pieces[0];
        let tail = pieces.drop_first();
        assert forall|i: int| 0 <= i < tail.len() implies is_token_text(#[trigger] tail[i])
            || !tail[i].contains('$') by {
            assert(tail[i] == pieces[i + 1]);
        }
        assert forall|i: int|
            0 <= i < tail.len() && #[trigger] tail[i] == token_text(Token::Time) implies !short_tail().is_prefix_of(
            tail.skip(i + 1).flatten()) by {
            assert(tail[i] == pieces[i + 1]);
            assert(tail.skip(i + 1) =~= pieces.skip(i + 2));
        }
        lemma_render_pieces(tail, date, time, short, msg);
        let tail_values = tail.map_values(|p: Seq<char>| piece_value(p, date, time, short, msg));
        assert(values.drop_first() =~= tail_values);
        assert(values[0] == piece_value(p, date, time, short, msg));
        assert(pieces.flatten() == p + tail.flatten());
        if is_token_text(p) {
            let k = choose|k: Token| p == token_text(k);
            assert(pieces.skip(1) =~= tail);
            lemma_render_token(k, tail.flatten(), date, time, short, msg);
            assert(piece_value(p, date, time, short, msg) == token_value(
                k,
                date,
                time,
                short,
                msg,
            ));
        } else {
            lemma_render_plain_text(p, tail.flatten(), date, time, short, msg);
            assert(piece_value(p, date, time, short, msg) == p) by {
                if p == token_text(Token::TimeShort) || p == token_text(Token::Time) || p
                    == token_text(Token::Date) || p == token_text(Token::Msg) {
                    assert(p[0] == '$');
                }
            }
        }
    }
}

/// A character that is in none of the inputs is not in the rendered text.
pub proof fn lemma_render_keeps_out(
    c: char,
    t: Seq<char>,
    date: Seq<char>,
    time: Seq<char>,
    short: Seq<char>,
    msg: Seq<char>,
)
    requires
        !t.contains(c),
        !date.contains(c),
        !time.contains(c),
        !short.contains(c),
        !msg.contains(c),
    ensures
        !render(t, date, time, short, msg).contains(c),
    decreases t.len(),
{
    if t.len() > 0 {
        let r = render(t, date, time, short, msg);
        match token_at(t) {
            Some(k) => {
                let n = token_text(k).len() as int;
                let v = token_value(k, date, time, short, msg);
                assert(!t.skip(n).contains(c)) by {
                    if t.skip(n).contains(c) {
                        let i = choose|i: int| 0 <= i < t.skip(n).len() && t.skip(n)[i] == c;
                        assert(t[i + n] == c);
                    }
                }
                lemma_render_keeps_out(c, t.skip(n), date, time, short, msg);
                let after = render(t.skip(n), date, time, short, msg);
                assert(!r.contains(c)) by {
                    if r.contains(c) {
                        let i = choose|i: int| 0 <= i < r.len() && r[i] == c;
                        if i < v.len() {
                            assert(v[i] == c);
                        } else {
                            assert(after[i - v.len()] == c);
                        }
                    }
                }
            },
            None => {
                assert(!t.skip(1).contains(c)) by {
                    if t.skip(1).contains(c) {
                        let i = choose|i: int| 0 <= i < t.skip(1).len() && t.skip(1)[i] == c;
                        assert(t[i + 1] == c);
                    }
                }
                lemma_render_keeps_out(c, t.skip(1), date, time, short, msg);
                let after = render(t.skip(1), date, time, short, msg);
                assert(!r.contains(c)) by {
                    if r.contains(c) {
                        let i = choose|i: int| 0 <= i < r.len() && r[i] == c;
                        if i == 0 {
                            assert(t[0] == c);
                        } else {
                            assert(after[i - 1] == c);
                        }
                    }
                }
            },
        }
    }
}

/// Where neither the template nor any value holds a line break, a log line
/// holds exactly one, at its end.
pub proof fn lemma_line_has_one_break(
    t: Seq<char>,
    date: Seq<char>,
    time: Seq<char>,
    short: Seq<char>,
    msg: Seq<char>,
)
    requires
        !t.contains('\n'),
        !date.contains('\n'),
        !time.contains('\n'),
        !short.contains('\n'),
        !msg.contains('\n'),
    ensures
        ({
            let l = log_line(t, date, time, short, msg);
            &&& l.len() > 0
            &&& l.last() == '\n'
            &&& !l.drop_last().contains('\n')
        }),
{
    lemma_render_keeps_out('\n', t, date, time, short, msg);
    let l = log_line(t, date, time, short, msg);
    assert(l.drop_last() =~= render(t, date, time, short, msg));
}

impl Token {
    /// The placeholder's text.
    pub fn text(&self) -> (r: &'static str)
        ensures
            r@ == token_text(*self),
    {
        match self {
            Token::TimeShort => {
                proof {
                    reveal_strlit("$timeshort");
                }
                "$timeshort"
            },
            Token::Time => {
                proof {
                    reveal_strlit("$time");
                }
                "$time"
            },
            Token::Date => {
                proof {
                    reveal_strlit("$date");
                }
                "$date"
            },
            Token::Msg => {
                proof {
                    reveal_strlit("$msg");
                }
                "$msg"
            },
        }
    }
}

/// Whether `pat` occurs in `t` at character position `i`.
fn occurs_at(t: &str, n: usize, i: usize, pat: &str) -> (r: bool)
    requires
        n == t@.len(),
        i <= n,
    ensures
        r == pat@.is_prefix_of(t@.skip(i as int)),
{
    let m = pat.unicode_len();
    if m > n - i {
        return false;
    }
    let mut j: usize = 0;
    while j < m
        invariant
            n == t@.len(),
            m == pat@.len(),
            i + m <= n,
            j <= m,
            forall|k: int| 0 <= k < j ==> pat@[k] == t@[i + k],
        decreases m - j,
    {
        if pat.get_char(j) != t.get_char(i + j) {
            assert(pat@[j as int] != t@.skip(i as int).subrange(0, m as int)[j as int]);
            return false;
        }
        j = j + 1;
    }
    assert(pat@ =~= t@.skip(i as int).subrange(0, m as int));
    true
}

/// The placeholder that starts at character position `i` of `t`, if any.
fn token_starting(t: &str, n: usize, i: usize) -> (r: Option<Token>)
    requires
        n == t@.len(),
        i <= n,
    ensures
        r == token_at(t@.skip(i as int)),
{
    if occurs_at(t, n, i, Token::TimeShort.text()) {
        Some(Token::TimeShort)
    } else if occurs_at(t, n, i, Token::Time.text()) {
        Some(Token::Time)
    } else if occurs_at(t, n, i, Token::Date.text()) {
        Some(Token::Date)
    } else if occurs_at(t, n, i, Token::Msg.text()) {
        Some(Token::Msg)
    } else {
        None
    }
}

/// Renders `template`, replacing `$date`, `$time`, `$timeshort` and `$msg` by
/// the texts given for them.
pub fn render_template(template: &str, date: &str, time: &str, short: &str, msg: &str) -> (r:
    String)
    ensures
        r@ == render(template@, date@, time@, short@, msg@),
{
    let n = template.unicode_len();
    let mut out = String::new();
    let mut i: usize = 0;
    proof {
        assert(template@.skip(0) =~= template@);
        assert(out@ + render(template@, date@, time@, short@, msg@) =~= render(
            template@,
            date@,
            time@,
            short@,
            msg@,
        ));
    }
    while i < n
        invariant
            n == template@.len(),
            i <= n,
            render(template@, date@, time@, short@, msg@) == out@ + render(
                template@.skip(i as int),
                date@,
                time@,
                short@,
                msg@,
            ),
        decreases n - i,
    {
        let ghost rest = template@.skip(i as int);
        let ghost before = out@;
        match token_starting(template, n, i) {
            Some(k) => {
                let value = match k {
                    Token::TimeShort => short,
                    Token::Time => time,
                    Token::Date => date,
                    Token::Msg => msg,
                };
                let m = k.text().unicode_len();
                proof {
                    assert(rest.skip(m as int) =~= template@.skip(i + m));
                }
                out.append(value);
                i = i + m;
                assert(before + (value@ + render(rest.skip(m as int), date@, time@, short@, msg@))
                    =~= out@ + render(template@.skip(i as int), date@, time@, short@, msg@));
            },
            None => {
                proof {
                    assert(rest.skip(1) =~= template@.skip(i + 1));
                    assert(seq![rest[0]] =~= template@.subrange(i as int, i + 1));
                }
                out.append(template.substring_char(i, i + 1));
                i = i + 1;
                assert(before + (seq![rest[0]] + render(rest.skip(1), date@, time@, short@, msg@))
                    =~= out@ + render(template@.skip(i as int), date@, time@, short@, msg@));
            },
        }
    }
    proof {
        assert(template@.skip(n as int) =~= Seq::<char>::empty());
        assert(out@ + Seq::<char>::empty() =~= out@);
    }
    out
}

} // verus!
