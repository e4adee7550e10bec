//! How long ago the operating system was installed, from the first line of a
//! package-manager or installer log, or from the creation time of `/`.

use vstd::prelude::*;
use crate::text::{
    chars_of, decimal, decimal_text, find_char, find_from, is_space, is_space_char,
    lemma_find_from_at, lemma_find_from_bounds, lemma_skip_spaces_at, lemma_skip_spaces_bounds,
    lemma_word_end_at, next_word, opt_seq, skip_spaces, words_from, words_of,
};

verus! {

/// The log sources, each with its own rule for where the timestamp stands.
#[derive(Clone, Copy, Debug, PartialEq, Eq, Structural)]
pub enum LogType {
    /// `[YYYY-MM-DD HH:MM:SS] ...`: the text between the first `[` and the first `]`.
    Pacman,
    /// `YYYY-MM-DD HH:MM:SS ...`: the first 19 characters.
    Dpkg,
    /// `YYYY-MM-DD HH:MM:SS ...`: the first two words, joined by one space.
    Installer,
}

/// The sources in the order they are tried.
pub open spec fn source_order() -> Seq<LogType> {
    seq![LogType::Pacman, LogType::Dpkg, LogType::Installer]
}

/// The sources in the order they are tried: the package-manager log, the
/// Debian package log, then the installer log.
pub fn log_sources() -> (r: Vec<LogType>)
    ensures
        r@ == source_order(),
{
    let r = vec![LogType::Pacman, LogType::Dpkg, LogType::Installer];
    assert(r@ =~= source_order());
    r
}

/// Where each source's log lives.
pub open spec fn path_text(kind: LogType) -> Seq<char> {
    match kind {
        LogType::Pacman => "/var/log/pacman.log"@,
        LogType::Dpkg => "/var/log/dpkg.log"@,
        LogType::Installer => "/var/log/installer/install.log"@,
    }
}

/// Seconds since the epoch of the naive date-time that `text` spells in the
/// `strftime`-style format `fmt`, read as UTC; `None` where it does not parse.
pub uninterp spec fn naive_seconds(text: Seq<char>, fmt: Seq<char>) -> Option<i64>;

/// Relies on chrono's `NaiveDateTime::parse_from_str` to read `text` in the
/// format `fmt`, and on `and_utc().timestamp()` for the seconds since the epoch.
#[verifier::external_body]
fn parse_naive_seconds(text: &str, fmt: &str) -> (r: Option<i64>)
    ensures
        r == naive_seconds(text@, fmt@),
{
    match chrono::NaiveDateTime::parse_from_str(text, fmt) {
        Ok(dt) => Some(dt.and_utc().timestamp()),
        Err(_) => None,
    }
}

/// The layout of a log timestamp, `YYYY-MM-DD HH:MM:SS`.
pub open spec fn timestamp_format() -> Seq<char> {
    "%Y-%m-%d %H:%M:%S"@
}

/// What stands for a fact that could not be found.
pub open spec fn unknown_text() -> Seq<char> {
    seq!['U', 'n', 'k', 'n', 'o', 'w', 'n']
}

/// The text `"Unknown"`.
pub fn unknown() -> (r: String)
    ensures
        r@ == unknown_text(),
{
    proof {
        reveal_strlit("Unknown");
    }
    String::from_str("Unknown")
}

/// The text between the first `[` and the first `]`, when the first `]`
/// comes after the first `[`.
pub open spec fn bracketed(line: Seq<char>) -> Option<Seq<char>> {
    let o = find_from(line, '[', 0);
    let c = find_from(line, ']', 0);
    if o < c && c < line.len() {
        Some(line.subrange(o + 1, c))
    } else {
        None
    }
}

/// The first 19 characters, when the line has that many.
pub open spec fn leading_stamp(line: Seq<char>) -> Option<Seq<char>> {
    if line.len() >= 19 {
        Some(line.subrange(0, 19))
    } else {
        None
    }
}

/// The first two words, joined by one space, when the line has two.
pub open spec fn two_words(line: Seq<char>) -> Option<Seq<char>> {
    let w = words_of(line);
    if w.len() >= 2 {
        Some(w[0] + seq![' '] + w[1])
    } else {
        None
    }
}

pub open spec fn stamp_text(kind: LogType, line: Seq<char>) -> Option<Seq<char>> {
    match kind {
        LogType::Pacman => bracketed(line),
        LogType::Dpkg => leading_stamp(line),
        LogType::Installer => two_words(line),
    }
}

/// A line with nothing but whitespace in it.
pub open spec fn is_blank(line: Seq<char>) -> bool {
    skip_spaces(line, 0) >= line.len()
}

/// The install time that a first log line gives, in seconds since the epoch.
pub open spec fn install_time_of(kind: LogType, line: Seq<char>) -> Option<i64> {
    if is_blank(line) {
        None
    } else {
        match stamp_text(kind, line) {
            Some(t) => naive_seconds(t, timestamp_format()),
            None => None,
        }
    }
}

impl LogType {
    /// Where this source's log lives.
    pub fn path(&self) -> (r: &'static str)
        ensures
            r@ == path_text(*self),
    {
        match self {
            LogType::Pacman => "/var/log/pacman.log",
            LogType::Dpkg => "/var/log/dpkg.log",
            LogType::Installer => "/var/log/installer/install.log",
        }
    }

    /// The timestamp text of a first log line, by this source's rule.
    pub fn extract_timestamp(&self, line: &str) -> (r: Option<String>)
        ensures
            opt_seq(r) == stamp_text(*self, line@),
    {
        let cs = chars_of(line);
        let n = cs.len();
        match self {
            LogType::Pacman => {
                let o = find_char(&cs, '[', 0);
                let c = find_char(&cs, ']', 0);
                proof {
                    lemma_find_from_bounds(line@, '[', 0);
                    lemma_find_from_bounds(line@, ']', 0);
                }
                if o < c && c < n {
                    Some(String::from_str(line.substring_char(o + 1, c)))
                } else {
                    None
                }
            },
            LogType::Dpkg => {
                if n >= 19 {
                    Some(String::from_str(line.substring_char(0, 19)))
                } else {
                    None
                }
            },
            LogType::Installer => {
                match next_word(line, &cs, 0) {
                    None => None,
                    Some((w0, q)) => match next_word(line, &cs, q) {
                        None => None,
                        Some((w1, _)) => {
                            let mut r = w0;
                            proof {
                                reveal_strlit(" ");
                            }
                            r.append(" ");
                            r.append(w1.as_str());
                            Some(r)
                        },
                    },
                }
            },
        }
    }

    /// The install time that a first log line of this source gives: `None`
    /// for a blank line, a line without a timestamp where this source keeps
    /// one, or a timestamp that does not parse as `YYYY-MM-DD HH:MM:SS`.
    pub fn install_time(&self, line: &str) -> (r: Option<i64>)
        ensures
            r == install_time_of(*self, line@),
    {
        let cs = chars_of(line);
        let n = cs.len();
        let mut a: usize = 0;
        while a < n && is_space_char(cs[a])
            invariant
                a <= n,
                n == line@.len(),
                cs@ == line@,
                skip_spaces(line@, a as int) == skip_spaces(line@, 0),
            decreases n - a,
        {
            a = a + 1;
        }
        proof {
            lemma_skip_spaces_bounds(line@, 0);
        }
        if a >= n {
            return None;
        }
        match self.extract_timestamp(line) {
            Some(t) => parse_naive_seconds(t.as_str(), "%Y-%m-%d %H:%M:%S"),
            None => None,
        }
    }
}

/// Whole days from `install` to `now`; zero where `install` is not earlier.
pub open spec fn age_days(now: int, install: int) -> nat {
    if now > install {
        ((now - install) / 86400) as nat
    } else {
        0
    }
}

/// `"{days}d"` below a year, `"{years}y {days}d"` from 365 days on, with a
/// year taken as 365 days.
pub open spec fn age_text(days: nat) -> Seq<char> {
    if days >= 365 {
        decimal(days / 365) + seq!['y', ' '] + decimal(days % 365) + seq!['d']
    } else {
        decimal(days) + seq!['d']
    }
}

/// The age line: from the log time where there is one, else from the
/// creation time of `/`, else `"Unknown"`.
pub open spec fn os_age_text(log_time: Option<i64>, root_created: Option<u64>, now: u64) -> Seq<
    char,
> {
    match log_time {
        Some(t) => age_text(age_days(now as int, t as int)),
        None => match root_created {
            Some(c) => age_text(age_days(now as int, c as int)),
            None => unknown_text(),
        },
    }
}

/// The install time of the first source, in the order given, whose first
/// line yields one.
pub open spec fn first_install_time(sources: Seq<(LogType, String)>) -> Option<i64>
    decreases sources.len(),
{
    if sources.len() == 0 {
        None
    } else {
        match install_time_of(sources[0].0, sources[0].1@) {
            Some(t) => Some(t),
            None => first_install_time(sources.drop_first()),
        }
    }
}

/// Whole days from `install` to `now`, saturating at zero.
pub fn elapsed_days(now: u64, install: i64) -> (r: u64)
    ensures
        r == age_days(now as int, install as int),
{
    let diff: i128 = now as i128 - install as i128;
    if diff > 0 {
        (diff / 86400) as u64
    } else {
        0
    }
}

/// Renders a number of elapsed days as an age.
pub fn format_age(days: u64) -> (r: String)
    ensures
        r@ == age_text(days as nat),
{
    proof {
        reveal_strlit("y ");
        reveal_strlit("d");
    }
    if days >= 365 {
        let mut r = decimal_text(days / 365);
        r.append("y ");
        let rest = decimal_text(days % 365);
        r.append(rest.as_str());
        r.append("d");
        r
    } else {
        let mut r = decimal_text(days);
        r.append("d");
        r
    }
}

/// The age of an install at `install_timestamp` seconds since the epoch.
pub fn format_os_age_from_unix(install_timestamp: u64, now: u64) -> (r: String)
    ensures
        r@ == age_text(age_days(now as int, install_timestamp as int)),
{
    let d: u64 = if now > install_timestamp {
        (now - install_timestamp) / 86400
    } else {
        0
    };
    format_age(d)
}

/// The age of an install whose log timestamp is `install_timestamp` seconds
/// since the epoch, which may lie before it.
pub fn format_os_age_from_timestamp(install_timestamp: i64, now: u64) -> (r: String)
    ensures
        r@ == age_text(age_days(now as int, install_timestamp as int)),
{
    format_age(elapsed_days(now, install_timestamp))
}

/// The age line, once the log time and the creation time of `/` are known.
pub fn describe_os_age(log_time: Option<i64>, root_created: Option<u64>, now: u64) -> (r: String)
    ensures
        r@ == os_age_text(log_time, root_created, now),
{
    match log_time {
        Some(t) => format_os_age_from_timestamp(t, now),
        None => match root_created {
            Some(c) => format_os_age_from_unix(c, now),
            None => unknown(),
        },
    }
}

/// The install time of the first source, in priority order, whose first
/// line yields one.
pub fn install_time_from_logs(sources: &Vec<(LogType, String)>) -> (r: Option<i64>)
    ensures
        r == first_install_time(sources@),
{
    let mut i: usize = 0;
    assert(sources@.subrange(0, sources@.len() as int) =~= sources@);
    while i < sources.len()
        invariant
            i <= sources@.len(),
            first_install_time(sources@.subrange(i as int, sources@.len() as int))
                == first_install_time(sources@),
        decreases sources@.len() - i,
    {
        let ghost rest = sources@.subrange(i as int, sources@.len() as int);
        assert(rest.drop_first() =~= sources@.subrange(i + 1, sources@.len() as int));
        let (kind, line) = &sources[i];
        match kind.install_time(line.as_str()) {
            Some(t) => {
                return Some(t);
            },
            None => {},
        }
        i = i + 1;
    }
    assert(sources@.subrange(i as int, sources@.len() as int) =~= Seq::<(LogType, String)>::empty());
    None
}

/// The age line from the first lines of the log sources that could be read,
/// in priority order, and the creation time of `/` where it is known.
pub fn get_os_age(sources: &Vec<(LogType, String)>, root_created: Option<u64>, now: u64) -> (r:
    String)
    ensures
        r@ == os_age_text(first_install_time(sources@), root_created, now),
{
    describe_os_age(install_time_from_logs(sources), root_created, now)
}

/// In a line `[stamp]rest` whose stamp holds no `]`, the package-manager
/// rule yields exactly the stamp, whatever the rest holds.
pub proof fn lemma_bracketed_stamp(stamp: Seq<char>, rest: Seq<char>)
    requires
        forall|i: int| 0 <= i < stamp.len() ==> stamp[i] != ']',
    ensures
        stamp_text(LogType::Pacman, seq!['['] + stamp + seq![']'] + rest) == Some(stamp),
{
    let line = seq!['['] + stamp + seq![']'] + rest;
    let c = stamp.len() + 1 as int;
    assert(line[0] == '[');
    lemma_find_from_at(line, '[', 0, 0);
    assert(line[c] == ']');
    assert forall|j: int| 0 <= j < c implies line[j] != ']' by {
        if j > 0 {
            assert(line[j] == stamp[j - 1]);
        }
    }
    lemma_find_from_at(line, ']', 0, c);
    assert(line.subrange(1, c) =~= stamp);
}

/// In a line whose first 19 characters are `stamp`, the Debian rule yields
/// exactly those, whatever follows.
pub proof fn lemma_leading_stamp(stamp: Seq<char>, rest: Seq<char>)
    requires
        stamp.len() == 19,
    ensures
        stamp_text(LogType::Dpkg, stamp + rest) == Some(stamp),
{
    assert((stamp + rest).subrange(0, 19) =~= stamp);
}

/// In a line `date time rest` whose first two words are `date` and `time`
/// (neither empty nor holding whitespace, one space between them, and the
/// rest empty or starting with whitespace), the installer rule yields exactly
/// `date`, one space, and `time`.
pub proof fn lemma_two_words(date: Seq<char>, time: Seq<char>, rest: Seq<char>)
    requires
        date.len() > 0,
        time.len() > 0,
        forall|i: int| 0 <= i < date.len() ==> !is_space(date[i]),
        forall|i: int| 0 <= i < time.len() ==> !is_space(time[i]),
        rest.len() > 0 ==> is_space(rest[0]),
    ensures
        stamp_text(LogType::Installer, date + seq![' '] + time + rest) == Some(
            date + seq![' '] + time,
        ),
{
    let line = date + seq![' '] + time + rest;
    let a = date.len() as int;
    let b = a + 1 + time.len() as int;
    assert forall|j: int| 0 <= j < a implies !is_space(line[j]) by {
        assert(line[j] == date[j]);
    }
    assert forall|j: int| a + 1 <= j < b implies !is_space(line[j]) by {
        assert(line[j] == time[j - a - 1]);
    }
    assert(line[a] == ' ');
    assert(b < line.len() ==> line[b] == rest[0]);
    lemma_skip_spaces_at(line, 0, 0);
    lemma_word_end_at(line, 0, a);
    lemma_skip_spaces_at(line, a, a + 1);
    lemma_word_end_at(line, a + 1, b);
    assert(words_from(line, a)[0] == line.subrange(a + 1, b));
    assert(words_of(line)[1] == words_from(line, a)[0]);
    assert(line.subrange(0, a) =~= date);
    assert(line.subrange(a + 1, b) =~= time);
}

/// When no source yields an install time (none could be read, or none holds
/// a timestamp that parses) and the creation time of `/` is unknown, the age
/// is `"Unknown"`.
pub proof fn lemma_no_source_unknown(sources: Seq<(LogType, String)>, now: u64)
    requires
        forall|i: int|
            0 <= i < sources.len() ==> install_time_of(#[trigger] sources[i].0, sources[i].1@)
                is None,
    ensures
        os_age_text(first_install_time(sources), None, now) == unknown_text(),
    decreases sources.len(),
{
    if sources.len() > 0 {
        let rest = sources.drop_first();
        assert forall|i: int|
            0 <= i < rest.len() implies install_time_of(#[trigger] rest[i].0, rest[i].1@)
            is None by {
            assert(rest[i] == sources[i + 1]);
        }
        assert(install_time_of(sources[0].0, sources[0].1@) is None);
        lemma_no_source_unknown(rest, now);
    }
}

} // verus!
