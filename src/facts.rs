//! The live facts: uptime and memory figures, and the small text rules for
//! the OS name, host name and kernel release.

use vstd::prelude::*;
use crate::text::{
    after_prefix, chars_of, decimal, decimal_text, digit_char, digit_str, is_space, is_space_char,
    lines_from, lines_of, next_line, next_word, parse_decimal, parse_u64, strip_prefix, words_of,
};
use crate::age::{unknown, unknown_text};

verus! {

/// `"{d}d {h}h {m}m"` from a day on, `"{h}h {m}m"` from an hour on, else
/// `"{m}m"`.
pub open spec fn uptime_text(seconds: nat) -> Seq<char> {
    let days = seconds / 86400;
    let hours = (seconds % 86400) / 3600;
    let minutes = (seconds % 3600) / 60;
    if days > 0 {
        decimal(days) + seq!['d', ' '] + decimal(hours) + seq!['h', ' '] + decimal(minutes) + seq![
            'm',
        ]
    } else if hours > 0 {
        decimal(hours) + seq!['h', ' '] + decimal(minutes) + seq!['m']
    } else {
        decimal(minutes) + seq!['m']
    }
}

/// Renders whole seconds of uptime.
pub fn format_uptime(seconds: u64) -> (r: String)
    ensures
        r@ == uptime_text(seconds as nat),
{
    proof {
        reveal_strlit("d ");
        reveal_strlit("h ");
        reveal_strlit("m");
    }
    let days = seconds / 86400;
    let hours = (seconds % 86400) / 3600;
    let minutes = (seconds % 3600) / 60;
    let mut r;
    if days > 0 {
        r = decimal_text(days);
        r.append("d ");
        let h = decimal_text(hours);
        r.append(h.as_str());
        r.append("h ");
    } else if hours > 0 {
        r = decimal_text(hours);
        r.append("h ");
    } else {
        r = String::new();
    }
    let m = decimal_text(minutes);
    r.append(m.as_str());
    r.append("m");
    assert(r@ =~= uptime_text(seconds as nat));
    r
}

/// The number in the second word of a line, or 0 where there is none.
pub open spec fn kb_value(line: Seq<char>) -> u64 {
    let w = words_of(line);
    if w.len() >= 2 {
        match parse_decimal(w[1]) {
            Some(v) => v,
            None => 0,
        }
    } else {
        0
    }
}

/// The figure of a `/proc/meminfo` line such as `MemTotal:  16384 kB`.
pub fn extract_kb_value(line: &str) -> (r: u64)
    ensures
        r == kb_value(line@),
{
    let cs = chars_of(line);
    match next_word(line, &cs, 0) {
        None => 0,
        Some((_, q)) => match next_word(line, &cs, q) {
            None => 0,
            Some((w, _)) => match parse_u64(w.as_str()) {
                Some(v) => v,
                None => 0,
            },
        },
    }
}

/// What a `/proc/meminfo` line does to the running totals, in kB.
pub open spec fn mem_step(line: Seq<char>, total: u64, avail: u64) -> (u64, u64) {
    if after_prefix(line, "MemTotal:"@) is Some {
        (kb_value(line), avail)
    } else if after_prefix(line, "MemAvailable:"@) is Some {
        (total, kb_value(line))
    } else {
        (total, avail)
    }
}

/// The totals after reading `ls` in order, stopping as soon as both are
/// non-zero.
pub open spec fn mem_scan(ls: Seq<Seq<char>>, total: u64, avail: u64) -> (u64, u64)
    decreases ls.len(),
{
    if ls.len() == 0 {
        (total, avail)
    } else {
        let (t, a) = mem_step(ls[0], total, avail);
        if t > 0 && a > 0 {
            (t, a)
        } else {
            mem_scan(ls.drop_first(), t, a)
        }
    }
}

/// Hundredths of a GiB in `kb` kB, rounded to the nearest, ties to even.
pub open spec fn centi_gib(kb: nat) -> nat {
    let q = kb * 100 / 1048576;
    let r = kb * 100 % 1048576;
    if r > 524288 || (r == 524288 && q % 2 == 1) {
        q + 1
    } else {
        q
    }
}

/// `kb` kB in GiB with two decimals.
pub open spec fn gib_text(kb: nat) -> Seq<char> {
    let c = centi_gib(kb);
    decimal(c / 100) + seq!['.', digit_char(((c % 100) / 10) as int), digit_char((c % 10) as int)]
}

pub open spec fn used_kb(total: u64, avail: u64) -> nat {
    if total > avail {
        (total - avail) as nat
    } else {
        0
    }
}

/// `"{used} GiB / {total} GiB"`, with the used memory the total less what
/// is available, and no less than zero.
pub open spec fn memory_line(total: u64, avail: u64) -> Seq<char> {
    gib_text(used_kb(total, avail)) + " GiB / "@ + gib_text(total as nat) + " GiB"@
}

/// The memory line of a `/proc/meminfo` text; `"Unknown"` where it gives no
/// non-zero `MemTotal:`.
pub open spec fn memory_text(contents: Seq<char>) -> Seq<char> {
    let (t, a) = mem_scan(lines_of(contents), 0, 0);
    if t > 0 {
        memory_line(t, a)
    } else {
        unknown_text()
    }
}

/// `kb` kB in GiB with two decimals.
pub fn format_gib(kb: u64) -> (r: String)
    ensures
        r@ == gib_text(kb as nat),
{
    let x: u128 = kb as u128 * 100;
    let q: u128 = x / 1048576;
    let rem: u128 = x % 1048576;
    let c: u128 = if rem > 524288 || (rem == 524288 && q % 2 == 1) {
        q + 1
    } else {
        q
    };
    assert(c == centi_gib(kb as nat));
    assert(c <= 0xffff_ffff_ffff_ffff_ffff) by (nonlinear_arith)
        requires
            x == kb * 100,
            q == x / 1048576,
            c <= q + 1,
            kb <= 0xffff_ffff_ffff_ffff,
    ;
    let whole = (c / 100) as u64;
    let frac = (c % 100) as u64;
    proof {
        reveal_strlit(".");
    }
    let mut r = decimal_text(whole);
    r.append(".");
    r.append(digit_str(frac / 10));
    r.append(digit_str(frac % 10));
    assert(r@ =~= gib_text(kb as nat));
    r
}

/// The memory line for `total_kb` kB in all and `available_kb` kB available.
pub fn format_memory(total_kb: u64, available_kb: u64) -> (r: String)
    ensures
        r@ == memory_line(total_kb, available_kb),
{
    let used = if total_kb > available_kb {
        total_kb - available_kb
    } else {
        0
    };
    let mut r = format_gib(used);
    r.append(" GiB / ");
    let t = format_gib(total_kb);
    r.append(t.as_str());
    r.append(" GiB");
    r
}

/// The memory line of a `/proc/meminfo` text.
pub fn get_memory_info(contents: &str) -> (r: String)
    ensures
        r@ == memory_text(contents@),
{
    let cs = chars_of(contents);
    let ghost s = contents@;
    let n = cs.len();
    let mut total: u64 = 0;
    let mut avail: u64 = 0;
    let mut p: usize = 0;
    let mut done = false;
    while !done
        invariant
            p <= n,
            n == s.len(),
            cs@ == s,
            s == contents@,
            done ==> mem_scan(lines_of(s), 0, 0) == (total, avail),
            !done ==> mem_scan(lines_of(s), 0, 0) == mem_scan(lines_from(s, p as int), total, avail),
        decreases n - p + (if done {
            0int
        } else {
            1int
        }),
    {
        match next_line(contents, &cs, p) {
            None => {
                done = true;
            },
            Some((l, q)) => {
                let ghost ls = lines_from(s, p as int);
                let ghost t0 = total;
                let ghost a0 = avail;
                if strip_prefix(l.as_str(), "MemTotal:").is_some() {
                    total = extract_kb_value(l.as_str());
                } else if strip_prefix(l.as_str(), "MemAvailable:").is_some() {
                    avail = extract_kb_value(l.as_str());
                }
                assert((total, avail) == mem_step(ls[0], t0, a0));
                if total > 0 && avail > 0 {
                    done = true;
                }
                p = q;
            },
        }
    }
    if total > 0 {
        format_memory(total, avail)
    } else {
        unknown()
    }
}

/// Index of the first character at or after `i` that is not to be trimmed:
/// whitespace where `quote` is `None`, else that character.
pub open spec fn trim_start_at(s: Seq<char>, quote: Option<char>, i: int) -> int
    decreases s.len() - i,
{
    if 0 <= i < s.len() && trimmed(s[i], quote) {
        trim_start_at(s, quote, i + 1)
    } else {
        i
    }
}

/// One past the last character before `j`, and not before `lo`, that is not
/// to be trimmed.
pub open spec fn trim_end_at(s: Seq<char>, quote: Option<char>, lo: int, j: int) -> int
    decreases j - lo,
{
    if lo < j <= s.len() && trimmed(s[j - 1], quote) {
        trim_end_at(s, quote, lo, j - 1)
    } else {
        j
    }
}

pub open spec fn trimmed(c: char, quote: Option<char>) -> bool {
    match quote {
        Some(q) => c == q,
        None => is_space(c),
    }
}

/// `s` without the leading and trailing characters to be trimmed, as
/// `str::trim` (`quote` is `None`) and `str::trim_matches(q)` do.
pub open spec fn trim_spec(s: Seq<char>, quote: Option<char>) -> Seq<char> {
    let a = trim_start_at(s, quote, 0);
    s.subrange(a, trim_end_at(s, quote, a, s.len() as int))
}

proof fn lemma_trim_start_bounds(s: Seq<char>, quote: Option<char>, i: int)
    requires
        0 <= i <= s.len(),
    ensures
        i <= trim_start_at(s, quote, i) <= s.len(),
    decreases s.len() - i,
{
    if i < s.len() && trimmed(s[i], quote) {
        lemma_trim_start_bounds(s, quote, i + 1);
    }
}

proof fn lemma_trim_end_bounds(s: Seq<char>, quote: Option<char>, lo: int, j: int)
    requires
        0 <= lo <= j <= s.len(),
    ensures
        lo <= trim_end_at(s, quote, lo, j) <= j,
    decreases j - lo,
{
    if lo < j && trimmed(s[j - 1], quote) {
        lemma_trim_end_bounds(s, quote, lo, j - 1);
    }
}

fn is_trimmed(c: char, quote: Option<char>) -> (r: bool)
    ensures
        r == trimmed(c, quote),
{
    match quote {
        Some(q) => c == q,
        None => is_space_char(c),
    }
}

/// `s` trimmed of whitespace (`quote` is `None`) or of the character `q`
/// (`quote` is `Some(q)`) at both ends.
pub fn trim_text(s: &str, quote: Option<char>) -> (r: String)
    ensures
        r@ == trim_spec(s@, quote),
{
    let cs = chars_of(s);
    let n = cs.len();
    let mut a: usize = 0;
    while a < n && is_trimmed(cs[a], quote)
        invariant
            a <= n,
            n == s@.len(),
            cs@ == s@,
            trim_start_at(s@, quote, a as int) == trim_start_at(s@, quote, 0),
        decreases n - a,
    {
        a = a + 1;
    }
    proof {
        lemma_trim_start_bounds(s@, quote, 0);
    }
    let mut b: usize = n;
    while b > a && is_trimmed(cs[b - 1], quote)
        invariant
            a <= b <= n,
            n == s@.len(),
            cs@ == s@,
            a == trim_start_at(s@, quote, 0),
            trim_end_at(s@, quote, a as int, b as int) == trim_end_at(s@, quote, a as int, n as int),
        decreases b,
    {
        b = b - 1;
    }
    String::from_str(s.substring_char(a, b))
}

/// `s` from index `i` on, with every `pat` taken out, matched from the left
/// without overlap, as `str::replace(pat, "")` does.
pub open spec fn remove_from(s: Seq<char>, pat: Seq<char>, i: int) -> Seq<char>
    decreases s.len() - i,
{
    if i < 0 || i >= s.len() {
        seq![]
    } else if pat.len() > 0 && i + pat.len() <= s.len() && s.subrange(i, i + pat.len()) == pat {
        remove_from(s, pat, i + pat.len())
    } else {
        seq![s[i]] + remove_from(s, pat, i + 1)
    }
}

fn matches_at(cs: &Vec<char>, pat: &Vec<char>, i: usize) -> (r: bool)
    requires
        i <= cs@.len(),
    ensures
        r == (i + pat@.len() <= cs@.len() && cs@.subrange(i as int, i + pat@.len()) == pat@),
{
    let m = pat.len();
    if m > cs.len() - i {
        return false;
    }
    let mut k: usize = 0;
    while k < m
        invariant
            k <= m,
            m == pat@.len(),
            i + m <= cs@.len(),
            cs@.len() <= usize::MAX,
            cs@.subrange(i as int, i + k) == pat@.subrange(0, k as int),
        decreases m - k,
    {
        if cs[i + k] != pat[k] {
            assert(cs@.subrange(i as int, i + m)[k as int] != pat@[k as int]);
            return false;
        }
        k = k + 1;
        assert(cs@.subrange(i as int, i + k) =~= pat@.subrange(0, k as int));
    }
    assert(pat@.subrange(0, m as int) =~= pat@);
    true
}

/// `s` with every `pat` taken out.
pub fn remove_all(s: &str, pat: &str) -> (r: String)
    ensures
        r@ == remove_from(s@, pat@, 0),
{
    let cs = chars_of(s);
    let ps = chars_of(pat);
    let n = cs.len();
    let m = ps.len();
    let mut out = String::new();
    let mut i: usize = 0;
    while i < n
        invariant
            i <= n,
            n == s@.len(),
            m == pat@.len(),
            cs@ == s@,
            ps@ == pat@,
            remove_from(s@, pat@, 0) == out@ + remove_from(s@, pat@, i as int),
        decreases n - i,
    {
        if m > 0 && matches_at(&cs, &ps, i) {
            i = i + m;
        } else {
            out.append(s.substring_char(i, i + 1));
            assert(s@.subrange(i as int, i + 1) =~= seq![s@[i as int]]);
            i = i + 1;
        }
    }
    assert(out@ + remove_from(s@, pat@, i as int) =~= out@);
    out
}

/// The OS name from the lines of `/etc/os-release`: the first line that
/// starts with `PRETTY_NAME=`, with that text taken out and the quotes at
/// its ends removed.
pub open spec fn os_name_of(ls: Seq<Seq<char>>) -> Seq<char>
    decreases ls.len(),
{
    if ls.len() == 0 {
        unknown_text()
    } else if after_prefix(ls[0], "PRETTY_NAME="@) is Some {
        trim_spec(remove_from(ls[0], "PRETTY_NAME="@, 0), Some('"'))
    } else {
        os_name_of(ls.drop_first())
    }
}

/// The OS name of an `/etc/os-release` text, or `"Unknown"` where it has no
/// `PRETTY_NAME=` line.
pub fn get_os_name(contents: &str) -> (r: String)
    ensures
        r@ == os_name_of(lines_of(contents@)),
{
    let cs = chars_of(contents);
    let n = cs.len();
    let mut p: usize = 0;
    while p < n
        invariant
            p <= n,
            n == contents@.len(),
            cs@ == contents@,
            os_name_of(lines_of(contents@)) == os_name_of(lines_from(contents@, p as int)),
        decreases n - p,
    {
        match next_line(contents, &cs, p) {
            None => {
                p = n;
            },
            Some((l, q)) => {
                if strip_prefix(l.as_str(), "PRETTY_NAME=").is_some() {
                    let bare = remove_all(l.as_str(), "PRETTY_NAME=");
                    return trim_text(bare.as_str(), Some('"'));
                }
                p = q;
            },
        }
    }
    assert(lines_from(contents@, p as int).len() == 0);
    unknown()
}

/// Where the cache lives: under `$XDG_CACHE_HOME`, or else under
/// `$HOME/.cache`.
pub enum CacheBase {
    Xdg(String),
    Home(String),
}

/// The cache base from the two variables, preferring `XDG_CACHE_HOME`;
/// `None`, and no caching, where neither is set.
pub fn cache_base(xdg: Option<String>, home: Option<String>) -> (r: Option<CacheBase>)
    ensures
        r == (match xdg {
            Some(x) => Some(CacheBase::Xdg(x)),
            None => match home {
                Some(h) => Some(CacheBase::Home(h)),
                None => None,
            },
        }),
{
    match xdg {
        Some(x) => Some(CacheBase::Xdg(x)),
        None => match home {
            Some(h) => Some(CacheBase::Home(h)),
            None => None,
        },
    }
}

} // verus!
