//! The fact cache: a five-line text record of the slow-to-gather facts, and
//! the rule for when a stored record may still be trusted.

use vstd::prelude::*;
use crate::text::{
    after_prefix, all_digits, chars_of, decimal, decimal_text, lemma_decimal_reads_back,
    lemma_lines_cons, lines_from, lines_of, next_line, parse_decimal, parse_u64, strip_prefix,
    unsigned_part,
};

verus! {

/// How long a stored record is trusted, in seconds.
pub const CACHE_EXPIRY_SECS: u64 = 3600;

/// The cached facts and the time, in seconds since the epoch, they were taken.
pub struct CacheData {
    pub timestamp: u64,
    pub hostname: String,
    pub kernel: String,
    pub os_name: String,
    pub os_age: String,
}

impl View for CacheData {
    type V = (u64, Seq<char>, Seq<char>, Seq<char>, Seq<char>);

    open spec fn view(&self) -> Self::V {
        (self.timestamp, self.hostname@, self.kernel@, self.os_name@, self.os_age@)
    }
}

pub open spec fn host_label() -> Seq<char> {
    seq!['h', 'o', 's', 't', 'n', 'a', 'm', 'e', '=']
}

pub open spec fn kernel_label() -> Seq<char> {
    seq!['k', 'e', 'r', 'n', 'e', 'l', '=']
}

pub open spec fn os_name_label() -> Seq<char> {
    seq!['o', 's', '_', 'n', 'a', 'm', 'e', '=']
}

pub open spec fn os_age_label() -> Seq<char> {
    seq!['o', 's', '_', 'a', 'g', 'e', '=']
}

/// A line, its `'\n'`, and what follows.
pub open spec fn line_then(line: Seq<char>, rest: Seq<char>) -> Seq<char> {
    line + seq!['\n'] + rest
}

/// The record as it is stored: the timestamp in decimal, then
/// `hostname=`, `kernel=`, `os_name=` and `os_age=` lines, each line ended
/// by `'\n'`.
pub open spec fn record_text(r: (u64, Seq<char>, Seq<char>, Seq<char>, Seq<char>)) -> Seq<char> {
    line_then(
        decimal(r.0 as nat),
        line_then(
            host_label() + r.1,
            line_then(
                kernel_label() + r.2,
                line_then(os_name_label() + r.3, line_then(os_age_label() + r.4, seq![])),
            ),
        ),
    )
}

/// Whether a record taken at `taken` may still be trusted at `now`.
pub open spec fn is_fresh(taken: u64, now: u64) -> bool {
    now <= taken + CACHE_EXPIRY_SECS
}

/// The record that a stored text gives at time `now`: its first five lines
/// must be a timestamp and the four labelled facts in order, and the
/// timestamp must be fresh; anything else is a miss.
pub open spec fn parse_record(text: Seq<char>, now: u64) -> Option<
    (u64, Seq<char>, Seq<char>, Seq<char>, Seq<char>),
> {
    let ls = lines_of(text);
    if ls.len() < 5 {
        None
    } else {
        match (
            parse_decimal(ls[0]),
            after_prefix(ls[1], host_label()),
            after_prefix(ls[2], kernel_label()),
            after_prefix(ls[3], os_name_label()),
            after_prefix(ls[4], os_age_label()),
        ) {
            (Some(ts), Some(h), Some(k), Some(o), Some(a)) => if is_fresh(ts, now) {
                Some((ts, h, k, o, a))
            } else {
                None
            },
            _ => None,
        }
    }
}

pub open spec fn opt_record(r: Option<CacheData>) -> Option<
    (u64, Seq<char>, Seq<char>, Seq<char>, Seq<char>),
> {
    match r {
        Some(d) => Some(d@),
        None => None,
    }
}

/// The stored text of a record.
pub fn cache_text(data: &CacheData) -> (r: String)
    ensures
        r@ == record_text(data@),
{
    proof {
        reveal_strlit("\n");
        reveal_strlit("hostname=");
        reveal_strlit("kernel=");
        reveal_strlit("os_name=");
        reveal_strlit("os_age=");
    }
    let mut r = decimal_text(data.timestamp);
    r.append("\n");
    r.append("hostname=");
    r.append(data.hostname.as_str());
    r.append("\n");
    r.append("kernel=");
    r.append(data.kernel.as_str());
    r.append("\n");
    r.append("os_name=");
    r.append(data.os_name.as_str());
    r.append("\n");
    r.append("os_age=");
    r.append(data.os_age.as_str());
    r.append("\n");
    r
}

/// The record that a stored text gives at time `now`, or `None` for a
/// malformed or expired one.
pub fn load_cache(text: &str, now: u64) -> (r: Option<CacheData>)
    ensures
        opt_record(r) == parse_record(text@, now),
{
    proof {
        reveal_strlit("hostname=");
        reveal_strlit("kernel=");
        reveal_strlit("os_name=");
        reveal_strlit("os_age=");
    }
    assert("hostname="@ =~= host_label());
    assert("kernel="@ =~= kernel_label());
    assert("os_name="@ =~= os_name_label());
    assert("os_age="@ =~= os_age_label());
    let cs = chars_of(text);
    let ghost s = text@;
    let (l0, pos1) = match next_line(text, &cs, 0) {
        Some(x) => x,
        None => return None,
    };
    assert(lines_from(s, pos1 as int).len() == lines_of(s).len() - 1);
    let (l1, pos2) = match next_line(text, &cs, pos1) {
        Some(x) => x,
        None => return None,
    };
    assert(lines_from(s, pos2 as int).len() == lines_of(s).len() - 2);
    let (l2, pos3) = match next_line(text, &cs, pos2) {
        Some(x) => x,
        None => return None,
    };
    assert(lines_from(s, pos3 as int).len() == lines_of(s).len() - 3);
    let (l3, pos4) = match next_line(text, &cs, pos3) {
        Some(x) => x,
        None => return None,
    };
    assert(lines_from(s, pos4 as int).len() == lines_of(s).len() - 4);
    let (l4, _) = match next_line(text, &cs, pos4) {
        Some(x) => x,
        None => return None,
    };
    assert(lines_of(s)[0] == l0@);
    assert(lines_of(s)[1] == lines_from(s, pos1 as int)[0]);
    assert(lines_of(s)[2] == lines_from(s, pos2 as int)[0]);
    assert(lines_of(s)[3] == lines_from(s, pos3 as int)[0]);
    assert(lines_of(s)[4] == lines_from(s, pos4 as int)[0]);
    let timestamp = match parse_u64(l0.as_str()) {
        Some(ts) => ts,
        None => return None,
    };
    let hostname = match strip_prefix(l1.as_str(), "hostname=") {
        Some(v) => v,
        None => return None,
    };
    let kernel = match strip_prefix(l2.as_str(), "kernel=") {
        Some(v) => v,
        None => return None,
    };
    let os_name = match strip_prefix(l3.as_str(), "os_name=") {
        Some(v) => v,
        None => return None,
    };
    let os_age = match strip_prefix(l4.as_str(), "os_age=") {
        Some(v) => v,
        None => return None,
    };
    if now >= CACHE_EXPIRY_SECS && now - CACHE_EXPIRY_SECS > timestamp {
        return None;
    }
    Some(CacheData { timestamp, hostname, kernel, os_name, os_age })
}

/// A value that a record line carries unchanged: no `'\n'` in it, and no
/// `'\r'` at its end.
pub open spec fn is_line_safe(v: Seq<char>) -> bool {
    &&& forall|j: int| 0 <= j < v.len() ==> v[j] != '\n'
    &&& v.len() > 0 ==> v.last() != '\r'
}

proof fn lemma_label_line(label: Seq<char>, v: Seq<char>)
    requires
        label.len() > 0,
        is_line_safe(label),
        is_line_safe(v),
    ensures
        is_line_safe(label + v),
        after_prefix(label + v, label) == Some(v),
{
    let l = label + v;
    assert forall|j: int| 0 <= j < l.len() implies l[j] != '\n' by {
        if j < label.len() {
            assert(l[j] == label[j]);
        } else {
            assert(l[j] == v[j - label.len()]);
        }
    }
    if v.len() > 0 {
        assert(l.last() == v.last());
    } else {
        assert(l.last() == label.last());
    }
    assert(l.subrange(0, label.len() as int) =~= label);
    assert(l.subrange(label.len() as int, l.len() as int) =~= v);
}

/// Storing a record and reading it back gives the same record while it is
/// fresh, and a miss once it has expired, for fact values that hold no line
/// break and do not end in `'\r'`.
proof fn lemma_labels_safe()
    ensures
        host_label().len() > 0 && is_line_safe(host_label()),
        kernel_label().len() > 0 && is_line_safe(kernel_label()),
        os_name_label().len() > 0 && is_line_safe(os_name_label()),
        os_age_label().len() > 0 && is_line_safe(os_age_label()),
{
    assert(is_line_safe(host_label()));
    assert(is_line_safe(kernel_label()));
    assert(is_line_safe(os_name_label()));
    assert(is_line_safe(os_age_label()));
}

proof fn lemma_timestamp_line(n: u64)
    ensures
        is_line_safe(decimal(n as nat)),
        parse_decimal(decimal(n as nat)) == Some(n),
{
    let d = decimal(n as nat);
    lemma_decimal_reads_back(n as nat);
    assert(d[0] != '+');
    assert(unsigned_part(d) == d);
    assert forall|j: int| 0 <= j < d.len() implies d[j] != '\n' by {
        assert(all_digits(d));
    }
    assert(d.last() == d[d.len() - 1]);
}

/// Storing a record and reading it back gives the same record while it is
/// fresh, and a miss once it has expired, for fact values that hold no line
/// break and do not end in `'\r'`.
pub proof fn lemma_cache_round_trip(r: (u64, Seq<char>, Seq<char>, Seq<char>, Seq<char>), now: u64)
    requires
        is_line_safe(r.1),
        is_line_safe(r.2),
        is_line_safe(r.3),
        is_line_safe(r.4),
    ensures
        parse_record(record_text(r), now) == (if is_fresh(r.0, now) {
            Some(r)
        } else {
            None
        }),
{
    let d = decimal(r.0 as nat);
    lemma_timestamp_line(r.0);
    lemma_labels_safe();
    lemma_label_line(host_label(), r.1);
    lemma_label_line(kernel_label(), r.2);
    lemma_label_line(os_name_label(), r.3);
    lemma_label_line(os_age_label(), r.4);
    let l1 = host_label() + r.1;
    let l2 = kernel_label() + r.2;
    let l3 = os_name_label() + r.3;
    let l4 = os_age_label() + r.4;
    let t4 = line_then(l4, seq![]);
    let t3 = line_then(l3, t4);
    let t2 = line_then(l2, t3);
    let t1 = line_then(l1, t2);
    lemma_lines_cons(l4, seq![]);
    lemma_lines_cons(l3, t4);
    lemma_lines_cons(l2, t3);
    lemma_lines_cons(l1, t2);
    lemma_lines_cons(d, t1);
    assert(lines_of(seq![]) =~= Seq::<Seq<char>>::empty());
    assert(lines_of(record_text(r)) =~= seq![d, l1, l2, l3, l4]);
}

} // verus!
