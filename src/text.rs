//! Character-level text helpers shared by the parsers of this crate.

use vstd::prelude::*;

verus! {

/// Unicode `White_Space`, as `char::is_whitespace` and `str::split_whitespace` use it.
pub open spec fn is_space(c: char) -> bool {
    let u = c as u32;
    (9 <= u && u <= 13) || u == 32 || u == 0x85 || u == 0xA0 || u == 0x1680
        || (0x2000 <= u && u <= 0x200A) || u == 0x2028 || u == 0x2029 || u == 0x202F
        || u == 0x205F || u == 0x3000
}

/// Whether `c` is Unicode whitespace.
pub fn is_space_char(c: char) -> (r: bool)
    ensures
        r == is_space(c),
{
    let u = c as u32;
    (9 <= u && u <= 13) || u == 32 || u == 0x85 || u == 0xA0 || u == 0x1680
        || (0x2000 <= u && u <= 0x200A) || u == 0x2028 || u == 0x2029 || u == 0x202F
        || u == 0x205F || u == 0x3000
}

/// Index of the first `c` at or after `i`, or the length when there is none.
pub open spec fn find_from(s: Seq<char>, c: char, i: int) -> int
    decreases s.len() - i,
{
    if 0 <= i < s.len() && s[i] != c {
        find_from(s, c, i + 1)
    } else {
        i
    }
}

pub proof fn lemma_find_from_bounds(s: Seq<char>, c: char, i: int)
    requires
        0 <= i <= s.len(),
    ensures
        i <= find_from(s, c, i) <= s.len(),
        find_from(s, c, i) < s.len() ==> s[find_from(s, c, i)] == c,
        forall|j: int| i <= j < find_from(s, c, i) ==> s[j] != c,
    decreases s.len() - i,
{
    if i < s.len() && s[i] != c {
        lemma_find_from_bounds(s, c, i + 1);
    }
}

pub proof fn lemma_find_from_at(s: Seq<char>, c: char, i: int, k: int)
    requires
        0 <= i <= k < s.len(),
        s[k] == c,
        forall|j: int| i <= j < k ==> s[j] != c,
    ensures
        find_from(s, c, i) == k,
    decreases k - i,
{
    if i < k {
        lemma_find_from_at(s, c, i + 1, k);
    }
}

/// Index of the first `c` at or after `p`, found by a scan.
pub fn find_char(cs: &Vec<char>, c: char, p: usize) -> (e: usize)
    requires
        p <= cs@.len(),
    ensures
        e == find_from(cs@, c, p as int),
{
    let n = cs.len();
    let mut e = p;
    while e < n && cs[e] != c
        invariant
            p <= e <= n,
            n == cs@.len(),
            find_from(cs@, c, e as int) == find_from(cs@, c, p as int),
        decreases n - e,
    {
        e = e + 1;
    }
    e
}

/// Index of the first `'\n'` at or after `i`, or the length when there is none.
pub open spec fn line_end(s: Seq<char>, i: int) -> int {
    find_from(s, '\n', i)
}

pub proof fn lemma_line_end_bounds(s: Seq<char>, i: int)
    requires
        0 <= i <= s.len(),
    ensures
        i <= line_end(s, i) <= s.len(),
        line_end(s, i) < s.len() ==> s[line_end(s, i)] == '\n',
        forall|j: int| i <= j < line_end(s, i) ==> s[j] != '\n',
{
    lemma_find_from_bounds(s, '\n', i);
}

/// A line without its `"\r"` when that stood right before the `'\n'`.
pub open spec fn strip_cr(l: Seq<char>) -> Seq<char> {
    if l.len() > 0 && l.last() == '\r' {
        l.drop_last()
    } else {
        l
    }
}

/// The lines of `s` from index `i` on, as `str::lines` yields them: split at
/// `'\n'`, a final line without terminator kept, a `"\r\n"` ending removed.
pub open spec fn lines_from(s: Seq<char>, i: int) -> Seq<Seq<char>>
    decreases s.len() - i,
{
    if i < 0 || i >= s.len() {
        seq![]
    } else {
        let e = line_end(s, i);
        proof {
            lemma_line_end_bounds(s, i);
        }
        if e >= s.len() {
            seq![s.subrange(i, s.len() as int)]
        } else {
            seq![strip_cr(s.subrange(i, e))] + lines_from(s, e + 1)
        }
    }
}

/// The lines of `s`, as `str::lines` yields them.
pub open spec fn lines_of(s: Seq<char>) -> Seq<Seq<char>> {
    lines_from(s, 0)
}

pub proof fn lemma_find_from_shift(pre: Seq<char>, s: Seq<char>, c: char, i: int)
    requires
        0 <= i <= s.len(),
    ensures
        find_from(pre + s, c, pre.len() + i) == pre.len() + find_from(s, c, i),
    decreases s.len() - i,
{
    if i < s.len() {
        assert((pre + s)[pre.len() + i] == s[i]);
        if s[i] != c {
            lemma_find_from_shift(pre, s, c, i + 1);
        }
    }
}

/// Text put before `s` does not change the lines that follow it.
pub proof fn lemma_lines_from_shift(pre: Seq<char>, s: Seq<char>, i: int)
    requires
        0 <= i <= s.len(),
    ensures
        lines_from(pre + s, pre.len() + i) == lines_from(s, i),
    decreases s.len() - i,
{
    if i < s.len() {
        let t = pre + s;
        let k = pre.len() as int;
        lemma_find_from_shift(pre, s, '\n', i);
        lemma_line_end_bounds(s, i);
        let e = line_end(s, i);
        assert(t.subrange(k + i, k + e) =~= s.subrange(i, e));
        assert(t.subrange(k + i, t.len() as int) =~= s.subrange(i, s.len() as int));
        if e < s.len() {
            lemma_lines_from_shift(pre, s, e + 1);
        }
    }
}

/// A line that holds no `'\n'` and does not end in `'\r'` comes back as it
/// was from the text it starts.
pub proof fn lemma_lines_cons(line: Seq<char>, rest: Seq<char>)
    requires
        forall|j: int| 0 <= j < line.len() ==> line[j] != '\n',
        line.len() > 0 ==> line.last() != '\r',
    ensures
        lines_of(line + seq!['\n'] + rest) == seq![line] + lines_of(rest),
{
    let pre = line + seq!['\n'];
    let t = pre + rest;
    assert(t[line.len() as int] == '\n');
    assert forall|j: int| 0 <= j < line.len() implies t[j] != '\n' by {
        assert(t[j] == line[j]);
    }
    lemma_find_from_at(t, '\n', 0, line.len() as int);
    assert(t.subrange(0, line.len() as int) =~= line);
    lemma_lines_from_shift(pre, rest, 0);
}

/// The characters of `s`, one by one.
pub fn chars_of(s: &str) -> (r: Vec<char>)
    ensures
        r@ == s@,
{
    let n = s.unicode_len();
    let mut v: Vec<char> = Vec::new();
    let mut i: usize = 0;
    while i < n
        invariant
            n == s@.len(),
            i <= n,
            v@ == s@.subrange(0, i as int),
        decreases n - i,
    {
        v.push(s.get_char(i));
        i = i + 1;
        assert(v@ =~= s@.subrange(0, i as int));
    }
    assert(v@ =~= s@);
    v
}

/// The first of the lines of `s` from `p` on, and where the next one starts.
pub fn next_line(s: &str, cs: &Vec<char>, p: usize) -> (r: Option<(String, usize)>)
    requires
        cs@ == s@,
        p <= s@.len(),
    ensures
        match r {
            None => lines_from(s@, p as int).len() == 0,
            Some((l, q)) => {
                &&& lines_from(s@, p as int).len() > 0
                &&& l@ == lines_from(s@, p as int)[0]
                &&& p < q <= s@.len()
                &&& lines_from(s@, q as int) == lines_from(s@, p as int).drop_first()
            },
        },
{
    let n = cs.len();
    if p >= n {
        return None;
    }
    let e = find_char(cs, '\n', p);
    proof {
        lemma_line_end_bounds(s@, p as int);
    }
    if e >= n {
        let l = String::from_str(s.substring_char(p, n));
        assert(lines_from(s@, n as int) =~= lines_from(s@, p as int).drop_first());
        Some((l, n))
    } else {
        let stop = if e > p && cs[e - 1] == '\r' {
            e - 1
        } else {
            e
        };
        let l = String::from_str(s.substring_char(p, stop));
        assert(l@ =~= strip_cr(s@.subrange(p as int, e as int)));
        assert(lines_from(s@, e + 1) =~= lines_from(s@, p as int).drop_first());
        Some((l, e + 1))
    }
}

/// Index of the first non-space character at or after `i`.
pub open spec fn skip_spaces(s: Seq<char>, i: int) -> int
    decreases s.len() - i,
{
    if 0 <= i < s.len() && is_space(s[i]) {
        skip_spaces(s, i + 1)
    } else {
        i
    }
}

/// Index of the first space character at or after `i`.
pub open spec fn word_end(s: Seq<char>, i: int) -> int
    decreases s.len() - i,
{
    if 0 <= i < s.len() && !is_space(s[i]) {
        word_end(s, i + 1)
    } else {
        i
    }
}

pub proof fn lemma_skip_spaces_bounds(s: Seq<char>, i: int)
    requires
        0 <= i <= s.len(),
    ensures
        i <= skip_spaces(s, i) <= s.len(),
        skip_spaces(s, i) < s.len() ==> !is_space(s[skip_spaces(s, i)]),
        forall|j: int| i <= j < skip_spaces(s, i) ==> is_space(s[j]),
    decreases s.len() - i,
{
    if i < s.len() && is_space(s[i]) {
        lemma_skip_spaces_bounds(s, i + 1);
    }
}

pub proof fn lemma_word_end_bounds(s: Seq<char>, i: int)
    requires
        0 <= i <= s.len(),
    ensures
        i <= word_end(s, i) <= s.len(),
        i < s.len() && !is_space(s[i]) ==> i < word_end(s, i),
        word_end(s, i) < s.len() ==> is_space(s[word_end(s, i)]),
        forall|j: int| i <= j < word_end(s, i) ==> !is_space(s[j]),
    decreases s.len() - i,
{
    if i < s.len() && !is_space(s[i]) {
        lemma_word_end_bounds(s, i + 1);
    }
}

pub proof fn lemma_skip_spaces_at(s: Seq<char>, i: int, k: int)
    requires
        0 <= i <= k <= s.len(),
        k < s.len() ==> !is_space(s[k]),
        forall|j: int| i <= j < k ==> is_space(s[j]),
    ensures
        skip_spaces(s, i) == k,
    decreases k - i,
{
    if i < k {
        lemma_skip_spaces_at(s, i + 1, k);
    }
}

pub proof fn lemma_word_end_at(s: Seq<char>, i: int, k: int)
    requires
        0 <= i <= k <= s.len(),
        k < s.len() ==> is_space(s[k]),
        forall|j: int| i <= j < k ==> !is_space(s[j]),
    ensures
        word_end(s, i) == k,
    decreases k - i,
{
    if i < k {
        lemma_word_end_at(s, i + 1, k);
    }
}

/// The whitespace-separated words of `s` from index `i` on, as
/// `str::split_whitespace` yields them.
pub open spec fn words_from(s: Seq<char>, i: int) -> Seq<Seq<char>>
    decreases s.len() - i,
{
    if i < 0 || i > s.len() {
        seq![]
    } else {
        let a = skip_spaces(s, i);
        proof {
            lemma_skip_spaces_bounds(s, i);
            lemma_word_end_bounds(s, a);
        }
        if a >= s.len() {
            seq![]
        } else {
            seq![s.subrange(a, word_end(s, a))] + words_from(s, word_end(s, a))
        }
    }
}

/// The whitespace-separated words of `s`.
pub open spec fn words_of(s: Seq<char>) -> Seq<Seq<char>> {
    words_from(s, 0)
}

/// The first of the words of `s` from `p` on, and the index right after it.
pub fn next_word(s: &str, cs: &Vec<char>, p: usize) -> (r: Option<(String, usize)>)
    requires
        cs@ == s@,
        p <= s@.len(),
    ensures
        match r {
            None => words_from(s@, p as int).len() == 0,
            Some((w, q)) => {
                &&& words_from(s@, p as int).len() > 0
                &&& w@ == words_from(s@, p as int)[0]
                &&& p < q <= s@.len()
                &&& words_from(s@, q as int) == words_from(s@, p as int).drop_first()
            },
        },
{
    let n = cs.len();
    let mut a = p;
    while a < n && is_space_char(cs[a])
        invariant
            p <= a <= n,
            n == s@.len(),
            cs@ == s@,
            skip_spaces(s@, a as int) == skip_spaces(s@, p as int),
        decreases n - a,
    {
        a = a + 1;
    }
    proof {
        lemma_skip_spaces_bounds(s@, p as int);
    }
    if a >= n {
        return None;
    }
    let mut b = a;
    while b < n && !is_space_char(cs[b])
        invariant
            a <= b <= n,
            n == s@.len(),
            cs@ == s@,
            word_end(s@, b as int) == word_end(s@, a as int),
        decreases n - b,
    {
        b = b + 1;
    }
    proof {
        lemma_word_end_bounds(s@, a as int);
    }
    let w = String::from_str(s.substring_char(a, b));
    assert(words_from(s@, b as int) =~= words_from(s@, p as int).drop_first());
    Some((w, b))
}

pub open spec fn digit_char(d: int) -> char {
    if d == 0 {
        '0'
    } else if d == 1 {
        '1'
    } else if d == 2 {
        '2'
    } else if d == 3 {
        '3'
    } else if d == 4 {
        '4'
    } else if d == 5 {
        '5'
    } else if d == 6 {
        '6'
    } else if d == 7 {
        '7'
    } else if d == 8 {
        '8'
    } else {
        '9'
    }
}

/// The decimal digits of `n`, most significant first, without leading zeros.
pub open spec fn decimal(n: nat) -> Seq<char>
    decreases n,
{
    if n < 10 {
        seq![digit_char(n as int)]
    } else {
        decimal(n / 10).push(digit_char((n % 10) as int))
    }
}

pub(crate) fn digit_str(d: u64) -> (r: &'static str)
    requires
        d < 10,
    ensures
        r@ == seq![digit_char(d as int)],
{
    if d == 0 {
        proof {
            reveal_strlit("0");
        }
        "0"
    } else if d == 1 {
        proof {
            reveal_strlit("1");
        }
        "1"
    } else if d == 2 {
        proof {
            reveal_strlit("2");
        }
        "2"
    } else if d == 3 {
        proof {
            reveal_strlit("3");
        }
        "3"
    } else if d == 4 {
        proof {
            reveal_strlit("4");
        }
        "4"
    } else if d == 5 {
        proof {
            reveal_strlit("5");
        }
        "5"
    } else if d == 6 {
        proof {
            reveal_strlit("6");
        }
        "6"
    } else if d == 7 {
        proof {
            reveal_strlit("7");
        }
        "7"
    } else if d == 8 {
        proof {
            reveal_strlit("8");
        }
        "8"
    } else {
        proof {
            reveal_strlit("9");
        }
        "9"
    }
}

/// `n` written in decimal.
pub fn decimal_text(n: u64) -> (r: String)
    ensures
        r@ == decimal(n as nat),
    decreases n,
{
    if n < 10 {
        String::from_str(digit_str(n))
    } else {
        let mut r = decimal_text(n / 10);
        r.append(digit_str(n % 10));
        r
    }
}

/// The value of a decimal digit character, and -1 for any other.
pub open spec fn digit_value(c: char) -> int {
    if c == '0' {
        0
    } else if c == '1' {
        1
    } else if c == '2' {
        2
    } else if c == '3' {
        3
    } else if c == '4' {
        4
    } else if c == '5' {
        5
    } else if c == '6' {
        6
    } else if c == '7' {
        7
    } else if c == '8' {
        8
    } else if c == '9' {
        9
    } else {
        -1
    }
}

pub open spec fn is_digit(c: char) -> bool {
    digit_value(c) >= 0
}

fn digit_of(c: char) -> (r: Option<u64>)
    ensures
        is_digit(c) ==> r == Some(digit_value(c) as u64),
        !is_digit(c) ==> r is None,
{
    match c {
        '0' => Some(0),
        '1' => Some(1),
        '2' => Some(2),
        '3' => Some(3),
        '4' => Some(4),
        '5' => Some(5),
        '6' => Some(6),
        '7' => Some(7),
        '8' => Some(8),
        '9' => Some(9),
        _ => None,
    }
}

/// The number that a string of decimal digits stands for.
pub open spec fn digits_value(s: Seq<char>) -> int
    decreases s.len(),
{
    if s.len() == 0 {
        0
    } else {
        digits_value(s.drop_last()) * 10 + digit_value(s.last())
    }
}

pub open spec fn all_digits(s: Seq<char>) -> bool {
    forall|i: int| 0 <= i < s.len() ==> is_digit(#[trigger] s[i])
}

/// What follows an optional leading `'+'`.
pub open spec fn unsigned_part(s: Seq<char>) -> Seq<char> {
    if s.len() > 0 && s[0] == '+' {
        s.drop_first()
    } else {
        s
    }
}

/// What `str::parse::<u64>` accepts: an optional `'+'`, then one or more
/// decimal digits whose value fits in 64 bits.
pub open spec fn parse_decimal(s: Seq<char>) -> Option<u64> {
    let body = unsigned_part(s);
    if body.len() > 0 && all_digits(body) && digits_value(body) <= u64::MAX {
        Some(digits_value(body) as u64)
    } else {
        None
    }
}

proof fn lemma_digits_prefix(t: Seq<char>, j: int)
    requires
        0 <= j <= t.len(),
        forall|i: int| 0 <= i < t.len() ==> is_digit(#[trigger] t[i]),
    ensures
        0 <= digits_value(t.subrange(0, j)) <= digits_value(t),
    decreases t.len(),
{
    if t.len() > 0 {
        let u = t.drop_last();
        if j < t.len() {
            lemma_digits_prefix(u, j);
            assert(u.subrange(0, j) =~= t.subrange(0, j));
        } else {
            lemma_digits_prefix(u, 0);
            assert(t.subrange(0, j) =~= t);
        }
    } else {
        assert(t.subrange(0, j) =~= t);
    }
}

/// Reads a decimal number as `str::parse::<u64>` does.
pub fn parse_u64(s: &str) -> (r: Option<u64>)
    ensures
        r == parse_decimal(s@),
{
    let cs = chars_of(s);
    let n = cs.len();
    let start: usize = if n > 0 && cs[0] == '+' {
        1
    } else {
        0
    };
    let ghost body = s@.subrange(start as int, n as int);
    assert(body =~= unsigned_part(s@));
    if start >= n {
        return None;
    }
    let mut acc: u64 = 0;
    let mut k: usize = start;
    while k < n
        invariant
            start <= k <= n,
            n == s@.len(),
            cs@ == s@,
            body == s@.subrange(start as int, n as int),
            body == unsigned_part(s@),
            forall|i: int| 0 <= i < k - start ==> is_digit(#[trigger] body[i]),
            acc == digits_value(body.subrange(0, k - start)),
        decreases n - k,
    {
        let c = cs[k];
        assert(body[k - start] == c);
        let d = match digit_of(c) {
            Some(d) => d,
            None => {
                assert(!is_digit(body[k - start]));
                return None;
            },
        };
        assert(body.subrange(0, k + 1 - start).drop_last() =~= body.subrange(0, k - start));
        assert(digits_value(body.subrange(0, k + 1 - start)) == acc * 10 + d);
        if acc > (u64::MAX - d) / 10 {
            proof {
                assert(acc * 10 + d > u64::MAX) by (nonlinear_arith)
                    requires
                        acc > (u64::MAX - d) / 10,
                        d < 10,
                ;
                if all_digits(body) {
                    lemma_digits_prefix(body, k + 1 - start);
                }
            }
            return None;
        }
        acc = acc * 10 + d;
        k = k + 1;
    }
    assert(body.subrange(0, n - start) =~= body);
    Some(acc)
}

/// The decimal text of a number is all digits and reads back as that number.
pub proof fn lemma_decimal_reads_back(n: nat)
    ensures
        decimal(n).len() > 0,
        all_digits(decimal(n)),
        digits_value(decimal(n)) == n,
    decreases n,
{
    if n >= 10 {
        lemma_decimal_reads_back(n / 10);
        let d = decimal(n);
        assert(d.drop_last() =~= decimal(n / 10));
        let r = (n % 10) as int;
        assert(0 <= r < 10);
        assert(digit_value(digit_char(r)) == r);
        assert(d.last() == digit_char(r));
        assert((n / 10) * 10 + r == n);
        assert(digits_value(d) == digits_value(d.drop_last()) * 10 + digit_value(d.last()));
        assert(digits_value(d) == n);
        assert forall|i: int| 0 <= i < d.len() implies is_digit(#[trigger] d[i]) by {
            if i < d.len() - 1 {
                assert(d[i] == decimal(n / 10)[i]);
            }
        }
    } else {
        assert(decimal(n).drop_last() =~= Seq::<char>::empty());
        assert(digit_value(digit_char(n as int)) == n);
        assert(digits_value(decimal(n)) == digits_value(decimal(n).drop_last()) * 10 + digit_value(
            decimal(n).last(),
        ));
        assert(digits_value(decimal(n)) == n);
    }
}

/// What follows `prefix` in `line`, where `line` starts with it.
pub open spec fn after_prefix(line: Seq<char>, prefix: Seq<char>) -> Option<Seq<char>> {
    if prefix.len() <= line.len() && line.subrange(0, prefix.len() as int) == prefix {
        Some(line.subrange(prefix.len() as int, line.len() as int))
    } else {
        None
    }
}

/// What follows `prefix` at the start of `line`.
pub fn strip_prefix(line: &str, prefix: &str) -> (r: Option<String>)
    ensures
        opt_seq(r) == after_prefix(line@, prefix@),
{
    let n = line.unicode_len();
    let m = prefix.unicode_len();
    if m > n {
        return None;
    }
    let mut i: usize = 0;
    while i < m
        invariant
            m == prefix@.len(),
            n == line@.len(),
            m <= n,
            i <= m,
            line@.subrange(0, i as int) == prefix@.subrange(0, i as int),
        decreases m - i,
    {
        if line.get_char(i) != prefix.get_char(i) {
            assert(line@.subrange(0, m as int)[i as int] != prefix@[i as int]);
            return None;
        }
        i = i + 1;
        assert(line@.subrange(0, i as int) =~= prefix@.subrange(0, i as int));
    }
    assert(prefix@.subrange(0, m as int) =~= prefix@);
    Some(String::from_str(line.substring_char(m, n)))
}

pub open spec fn opt_seq(r: Option<String>) -> Option<Seq<char>> {
    match r {
        Some(s) => Some(s@),
        None => None,
    }
}

} // verus!
