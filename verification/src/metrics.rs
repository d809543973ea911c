//! Time series of CPU, memory and network use, read from `/proc`.
//!
//! A sample is kept as the exact fraction it is made of: CPU and memory use
//! are `100 * part / whole` percent, network throughput is `part / whole`
//! KiB/s (`whole` is 2048: bytes over a two-second interval).
use vstd::prelude::*;

use crate::text::{
    chars_of, contains_char, decimal, eq_str, has_prefix, is_ws, lemma_decimal_digits,
    is_word, lemma_parse_decimal, trim_end, trim_start, lemma_words_cons, lemma_words_spaced, lines, spaced, lines_of, parse_uint, parse_unsigned, seqs_of,
    starts_with_str, sub_chars, trim, trim_chars, words, words_of,
};

verus! {

/// The most samples a series keeps.
pub const MAX_SAMPLES: usize = 60;

/// Which metric to display in tiles.
#[derive(Debug, Clone, Copy, PartialEq, Eq, Structural)]
pub enum MetricType {
    Cpu,
    Memory,
    Network,
}

/// The metric after `m` in the cycle CPU → MEM → NET → CPU.
pub open spec fn next_metric(m: MetricType) -> MetricType {
    match m {
        MetricType::Cpu => MetricType::Memory,
        MetricType::Memory => MetricType::Network,
        MetricType::Network => MetricType::Cpu,
    }
}

/// The short name shown for `m`.
pub open spec fn metric_label(m: MetricType) -> Seq<char> {
    match m {
        MetricType::Cpu => seq!['C', 'P', 'U'],
        MetricType::Memory => seq!['M', 'E', 'M'],
        MetricType::Network => seq!['N', 'E', 'T'],
    }
}

impl MetricType {
    pub fn next(self) -> (r: Self)
        ensures
            r == next_metric(self),
    {
        match self {
            MetricType::Cpu => MetricType::Memory,
            MetricType::Memory => MetricType::Network,
            MetricType::Network => MetricType::Cpu,
        }
    }

    /// The short name of the metric: "CPU", "MEM" or "NET".
    pub fn label(&self) -> (r: String)
        ensures
            r@ == metric_label(*self),
    {
        let cs: Vec<char> = match self {
            MetricType::Cpu => vec!['C', 'P', 'U'],
            MetricType::Memory => vec!['M', 'E', 'M'],
            MetricType::Network => vec!['N', 'E', 'T'],
        };
        crate::text::string_of(&cs)
    }
}

/// Cycling through the metrics comes back to the start after three steps,
/// and visits every metric on the way.
pub proof fn lemma_metric_cycle(m: MetricType)
    ensures
        next_metric(next_metric(next_metric(m))) == m,
        next_metric(m) != m,
        next_metric(next_metric(m)) != m,
{
}

/// One sample of a metric: the fraction `part / whole` (see the module text).
#[derive(Debug, Clone, Copy, PartialEq, Eq, Structural)]
pub struct Sample {
    pub part: u64,
    pub whole: u64,
}

// ---------------------------------------------------------------------------
// Parsing model
// ---------------------------------------------------------------------------

/// The words of `ws` that are `u64`s, as numbers, in order.
pub open spec fn parsed_u64s(ws: Seq<Seq<char>>) -> Seq<nat>
    decreases ws.len(),
{
    if ws.len() == 0 {
        seq![]
    } else {
        parsed_u64s(ws.drop_last()) + match parse_unsigned(ws.last(), 0xffff_ffff_ffff_ffff) {
            Some(v) => seq![v],
            None => seq![],
        }
    }
}

pub open spec fn sum(s: Seq<nat>) -> nat
    decreases s.len(),
{
    if s.len() == 0 {
        0
    } else {
        sum(s.drop_last()) + s.last()
    }
}

/// `s` without its first element (nothing when empty).
pub open spec fn drop_head<T>(s: Seq<T>) -> Seq<T> {
    if s.len() == 0 {
        s
    } else {
        s.drop_first()
    }
}

/// The first of the lines `ls` that begins with `p`.
pub open spec fn first_with_prefix(ls: Seq<Seq<char>>, p: Seq<char>) -> Option<Seq<char>>
    decreases ls.len(),
{
    if ls.len() == 0 {
        None
    } else if has_prefix(ls[0], p) {
        Some(ls[0])
    } else {
        first_with_prefix(ls.drop_first(), p)
    }
}

/// `a - b`, or 0 when `b > a`.
pub open spec fn sat_sub(a: nat, b: nat) -> nat {
    if a >= b {
        (a - b) as nat
    } else {
        0
    }
}

/// The idle time and the total time of the first `cpu ` line of
/// `/proc/stat`: the fourth and the sum of its numeric fields (at least four
/// are needed).
pub open spec fn cpu_reading(content: Seq<char>) -> Option<(nat, nat)> {
    match first_with_prefix(lines(content), "cpu "@) {
        Some(l) => {
            let f = parsed_u64s(drop_head(words(l)));
            if f.len() >= 4 {
                Some((f[3], sum(f)))
            } else {
                None
            }
        },
        None => None,
    }
}

/// The CPU use between the reading `prev` (idle, total) and a reading of
/// `idle` and `total`: busy time over elapsed time (0 when no time elapsed).
pub open spec fn cpu_sample(prev: (u64, u64), idle: nat, total: nat) -> Sample {
    let d_total = sat_sub(total, prev.1 as nat);
    let d_idle = sat_sub(idle, prev.0 as nat);
    if d_total == 0 {
        Sample { part: 0, whole: 1 }
    } else {
        Sample { part: (d_total - d_idle) as u64, whole: d_total as u64 }
    }
}

/// Whether reading `content` after `prev` stays within `u64` arithmetic:
/// the fields sum to at most `u64::MAX` and the idle time did not grow by
/// more than the total time.
pub open spec fn cpu_in_range(content: Seq<char>, prev: Option<(u64, u64)>) -> bool {
    match cpu_reading(content) {
        Some((idle, total)) => total <= u64::MAX && match prev {
            Some(p) => {
                let d_total = sat_sub(total, p.1 as nat);
                d_total == 0 || sat_sub(idle, p.0 as nat) <= d_total
            },
            None => true,
        },
        None => true,
    }
}

/// The second word of `line` as a `u64`.
pub open spec fn second_u64(line: Seq<char>) -> Option<nat> {
    let w = words(line);
    if w.len() >= 2 {
        parse_unsigned(w[1], 0xffff_ffff_ffff_ffff)
    } else {
        None
    }
}

/// Scans `/proc/meminfo` lines for `MemTotal:` and `MemAvailable:` (the
/// last of each read so far wins), stopping once both are known.
pub open spec fn mem_scan(ls: Seq<Seq<char>>, t: Option<nat>, a: Option<nat>) -> (
    Option<nat>,
    Option<nat>,
)
    decreases ls.len(),
{
    if ls.len() == 0 {
        (t, a)
    } else {
        let l = ls[0];
        let t2 = if has_prefix(l, "MemTotal:"@) {
            second_u64(l)
        } else {
            t
        };
        let a2 = if !has_prefix(l, "MemTotal:"@) && has_prefix(l, "MemAvailable:"@) {
            second_u64(l)
        } else {
            a
        };
        if t2 is Some && a2 is Some {
            (t2, a2)
        } else {
            mem_scan(ls.drop_first(), t2, a2)
        }
    }
}

/// Total and available memory of `/proc/meminfo` (kB), when both are there
/// and the total is not zero.
pub open spec fn mem_reading(content: Seq<char>) -> Option<(nat, nat)> {
    match mem_scan(lines(content), None, None) {
        (Some(t), Some(a)) => if t == 0 {
            None
        } else {
            Some((t, a))
        },
        _ => None,
    }
}

/// The memory use of a reading of `total` memory of which `available` is
/// available: the memory not available, out of the total.
pub open spec fn mem_sample(total: nat, available: nat) -> Sample {
    Sample { part: (total - available) as u64, whole: total as u64 }
}

/// Whether the available memory does not exceed the total.
pub open spec fn meminfo_in_range(content: Seq<char>) -> bool {
    match mem_reading(content) {
        Some((t, a)) => a <= t,
        None => true,
    }
}

/// Index of the first `c` in `s`, or `s.len()`.
pub open spec fn char_end(s: Seq<char>, c: char) -> nat
    decreases s.len(),
{
    if s.len() == 0 || s[0] == c {
        0
    } else {
        1 + char_end(s.drop_first(), c)
    }
}

/// The received plus transmitted bytes one `/proc/net/dev` line counts:
/// header lines, lines without `:` and the loopback interface count nothing,
/// nor do lines with fewer than nine numbers after the interface name.
pub open spec fn net_line_bytes(line: Seq<char>) -> nat {
    let t = trim(line);
    if !t.contains(':') || has_prefix(t, "Inter"@) || has_prefix(t, "face"@) {
        0
    } else {
        let i = char_end(t, ':');
        let after = t.skip(i + 1 as int);
        let counters = after.take(char_end(after, ':') as int);
        if trim(t.take(i as int)) == "lo"@ {
            0
        } else {
            let f = parsed_u64s(words(counters));
            if f.len() >= 9 {
                f[0] + f[8]
            } else {
                0
            }
        }
    }
}

pub open spec fn net_total(ls: Seq<Seq<char>>) -> nat
    decreases ls.len(),
{
    if ls.len() == 0 {
        0
    } else {
        net_total(ls.drop_last()) + net_line_bytes(ls.last())
    }
}

/// Whether the byte counts of `/proc/net/dev` add up within `u64`.
pub open spec fn net_in_range(content: Seq<char>) -> bool {
    net_total(lines(content)) <= u64::MAX
}

// ---------------------------------------------------------------------------
// Lemmas
// ---------------------------------------------------------------------------

proof fn lemma_char_end(s: Seq<char>, c: char, j: int)
    requires
        0 <= j <= s.len(),
        forall|k: int| 0 <= k < j ==> s[k] != c,
        j == s.len() || s[j] == c,
    ensures
        char_end(s, c) == j,
    decreases j,
{
    if j > 0 {
        lemma_char_end(s.drop_first(), c, j - 1);
    }
}

proof fn lemma_sum_prefix(s: Seq<nat>, i: int)
    requires
        0 <= i <= s.len(),
    ensures
        sum(s.take(i)) <= sum(s),
    decreases s.len() - i,
{
    if i < s.len() {
        lemma_sum_prefix(s, i + 1);
        assert(s.take(i + 1).drop_last() =~= s.take(i));
    } else {
        assert(s.take(i) =~= s);
    }
}

proof fn lemma_net_total_prefix(ls: Seq<Seq<char>>, i: int)
    requires
        0 <= i <= ls.len(),
    ensures
        net_total(ls.take(i)) <= net_total(ls),
    decreases ls.len() - i,
{
    if i < ls.len() {
        lemma_net_total_prefix(ls, i + 1);
        assert(ls.take(i + 1).drop_last() =~= ls.take(i));
    } else {
        assert(ls.take(i) =~= ls);
    }
}

// ---------------------------------------------------------------------------
// Parsing
// ---------------------------------------------------------------------------

/// The numbers among the words `ws`.
fn parse_u64_words(ws: &Vec<Vec<char>>, from: usize) -> (r: Vec<u64>)
    requires
        from <= ws@.len(),
    ensures
        r@.map_values(|x: u64| x as nat) == parsed_u64s(seqs_of(ws@).skip(from as int)),
{
    let mut r: Vec<u64> = Vec::new();
    let mut i = from;
    let ghost src = seqs_of(ws@).skip(from as int);
    while i < ws.len()
        invariant
            from <= i <= ws@.len(),
            src == seqs_of(ws@).skip(from as int),
            r@.map_values(|x: u64| x as nat) == parsed_u64s(src.take(i - from)),
        decreases ws@.len() - i,
    {
        let ghost prev = r@.map_values(|x: u64| x as nat);
        assert(src.take(i - from + 1).drop_last() =~= src.take(i - from));
        assert(src.take(i - from + 1).last() == ws@[i as int]@);
        match parse_uint(ws[i].as_slice(), u64::MAX) {
            Some(v) => {
                r.push(v);
                assert(r@.map_values(|x: u64| x as nat) =~= prev + seq![v as nat]);
            },
            None => {
                assert(prev + seq![] =~= prev);
            },
        }
        i = i + 1;
    }
    assert(src.take(ws@.len() - from) =~= src);
    r
}

/// The first line of `ls` that begins with `p`, by index.
fn find_prefixed(ls: &Vec<Vec<char>>, p: &str) -> (r: Option<usize>)
    ensures
        match first_with_prefix(seqs_of(ls@), p@) {
            Some(l) => r matches Some(i) && i < ls@.len() && ls@[i as int]@ == l,
            None => r is None,
        },
{
    let mut i: usize = 0;
    assert(seqs_of(ls@).skip(0) =~= seqs_of(ls@));
    while i < ls.len()
        invariant
            i <= ls@.len(),
            first_with_prefix(seqs_of(ls@), p@) == first_with_prefix(seqs_of(ls@).skip(i as int), p@),
        decreases ls@.len() - i,
    {
        let ghost rest = seqs_of(ls@).skip(i as int);
        assert(rest[0] == ls@[i as int]@);
        assert(rest.drop_first() =~= seqs_of(ls@).skip(i + 1));
        if starts_with_str(ls[i].as_slice(), p) {
            return Some(i);
        }
        i = i + 1;
    }
    assert(seqs_of(ls@).skip(ls@.len() as int) =~= seq![]);
    None
}

/// The idle and total time of the first `cpu ` line, with the total kept
/// only when it fits in a `u64` (`None` in the second place otherwise).
fn read_cpu(content: &str) -> (r: Option<(u64, Option<u64>)>)
    ensures
        match cpu_reading(content@) {
            Some((idle, total)) => r matches Some((i, t)) && i == idle && match t {
                Some(t) => t == total,
                None => total > u64::MAX,
            },
            None => r is None,
        },
{
    let cs = chars_of(content);
    let ls = lines_of(&cs);
    let idx = match find_prefixed(&ls, "cpu ") {
        Some(i) => i,
        None => return None,
    };
    let ws = words_of(ls[idx].as_slice());
    let from: usize = if ws.len() == 0 {
        0
    } else {
        1
    };
    assert(seqs_of(ws@).skip(from as int) =~= drop_head(seqs_of(ws@)));
    let f = parse_u64_words(&ws, from);
    let ghost fs = f@.map_values(|x: u64| x as nat);
    if f.len() < 4 {
        return None;
    }
    let idle = f[3];
    assert(fs[3] == idle);
    let mut acc: u64 = 0;
    let mut i: usize = 0;
    while i < f.len()
        invariant
            i <= f@.len(),
            fs == f@.map_values(|x: u64| x as nat),
            fs.len() >= 4,
            fs[3] == idle,
            cpu_reading(content@) == Some((fs[3], sum(fs))),
            acc == sum(fs.take(i as int)),
        decreases f@.len() - i,
    {
        assert(fs.take(i + 1).drop_last() =~= fs.take(i as int));
        assert(fs.take(i + 1).last() == f@[i as int]);
        if acc > u64::MAX - f[i] {
            proof {
                lemma_sum_prefix(fs, i + 1);
            }
            return Some((idle, None));
        }
        acc = acc + f[i];
        i = i + 1;
    }
    assert(fs.take(f@.len() as int) =~= fs);
    Some((idle, Some(acc)))
}

/// Whether [`parse_cpu_stat`] can read `content` after `prev` within `u64`
/// arithmetic.
pub fn cpu_stat_in_range(content: &str, prev: Option<(u64, u64)>) -> (r: bool)
    ensures
        r == cpu_in_range(content@, prev),
{
    match read_cpu(content) {
        None => true,
        Some((_, None)) => false,
        Some((idle, Some(total))) => match prev {
            Some((pi, pt)) => {
                let d_total = if total >= pt {
                    total - pt
                } else {
                    0
                };
                let d_idle = if idle >= pi {
                    idle - pi
                } else {
                    0
                };
                d_total == 0 || d_idle <= d_total
            },
            None => true,
        },
    }
}

/// Parse the first `cpu ` line from `/proc/stat`. Returns the CPU use since
/// the previous sample in `prev` (None on the first sample), and records
/// this reading in `prev`.
pub fn parse_cpu_stat(content: &str, prev: &mut Option<(u64, u64)>) -> (r: Option<Sample>)
    requires
        cpu_in_range(content@, *old(prev)),
    ensures
        match cpu_reading(content@) {
            Some((idle, total)) => {
                &&& *final(prev) == Some((idle as u64, total as u64))
                &&& r == match *old(prev) {
                    Some(p) => Some(cpu_sample(p, idle, total)),
                    None => None,
                }
            },
            None => r is None && *final(prev) == *old(prev),
        },
{
    let (idle, total) = match read_cpu(content) {
        Some((i, Some(t))) => (i, t),
        _ => return None,
    };
    let result = match *prev {
        Some((prev_idle, prev_total)) => {
            let d_total = if total >= prev_total {
                total - prev_total
            } else {
                0
            };
            let d_idle = if idle >= prev_idle {
                idle - prev_idle
            } else {
                0
            };
            if d_total == 0 {
                Sample { part: 0, whole: 1 }
            } else {
                Sample { part: d_total - d_idle, whole: d_total }
            }
        },
        None => {
            *prev = Some((idle, total));
            return None;
        },
    };
    *prev = Some((idle, total));
    Some(result)
}

fn second_u64_exec(line: &[char]) -> (r: Option<u64>)
    ensures
        match second_u64(line@) {
            Some(v) => r == Some(v as u64),
            None => r is None,
        },
{
    let w = words_of(line);
    if w.len() >= 2 {
        assert(seqs_of(w@)[1] == w@[1]@);
        parse_uint(w[1].as_slice(), u64::MAX)
    } else {
        None
    }
}

/// Total and available memory, when both were found and the total is not zero.
fn read_meminfo(content: &str) -> (r: Option<(u64, u64)>)
    ensures
        match mem_reading(content@) {
            Some((t, a)) => r matches Some((x, y)) && x == t && y == a,
            None => r is None,
        },
{
    let cs = chars_of(content);
    let ls = lines_of(&cs);
    let mut mem_total: Option<u64> = None;
    let mut mem_available: Option<u64> = None;
    let ghost whole = seqs_of(ls@);
    assert(whole.skip(0) =~= whole);
    let mut i: usize = 0;
    while i < ls.len() && !(mem_total.is_some() && mem_available.is_some())
        invariant
            i <= ls@.len(),
            whole == seqs_of(ls@),
            whole == lines(content@),
            mem_scan(whole, None, None) == ({
                let t = match mem_total {
                    Some(v) => Some(v as nat),
                    None => None,
                };
                let a = match mem_available {
                    Some(v) => Some(v as nat),
                    None => None,
                };
                if t is Some && a is Some {
                    (t, a)
                } else {
                    mem_scan(whole.skip(i as int), t, a)
                }
            }),
        decreases ls@.len() - i,
    {
        let ghost rest = whole.skip(i as int);
        assert(rest[0] == ls@[i as int]@);
        assert(rest.drop_first() =~= whole.skip(i + 1));
        let line = ls[i].as_slice();
        if starts_with_str(line, "MemTotal:") {
            mem_total = second_u64_exec(line);
        } else if starts_with_str(line, "MemAvailable:") {
            mem_available = second_u64_exec(line);
        }
        i = i + 1;
    }
    proof {
        if !(mem_total is Some && mem_available is Some) {
            assert(whole.skip(i as int) =~= seq![]);
        }
    }
    match (mem_total, mem_available) {
        (Some(t), Some(a)) => {
            if t == 0 {
                None
            } else {
                Some((t, a))
            }
        },
        _ => None,
    }
}

/// Whether [`parse_meminfo`] can read `content` within `u64` arithmetic.
pub fn meminfo_in_range_exec(content: &str) -> (r: bool)
    ensures
        r == meminfo_in_range(content@),
{
    match read_meminfo(content) {
        Some((t, a)) => a <= t,
        None => true,
    }
}

/// Parse `/proc/meminfo` to compute memory usage: used (total minus
/// available) over total.
pub fn parse_meminfo(content: &str) -> (r: Option<Sample>)
    requires
        meminfo_in_range(content@),
    ensures
        match mem_reading(content@) {
            Some((t, a)) => r == Some(mem_sample(t, a)),
            None => r is None,
        },
{
    match read_meminfo(content) {
        Some((total, available)) => Some(Sample { part: total - available, whole: total }),
        None => None,
    }
}

/// The bytes one `/proc/net/dev` line counts, `None` when that sum exceeds `u64`.
fn net_line_bytes_exec(line: &[char]) -> (r: Option<u64>)
    ensures
        match r {
            Some(v) => v == net_line_bytes(line@),
            None => net_line_bytes(line@) > u64::MAX,
        },
{
    let t = trim_chars(line);
    if !contains_char(&t, ':') || starts_with_str(&t, "Inter") || starts_with_str(&t, "face") {
        return Some(0);
    }
    let n = t.len();
    let mut i: usize = 0;
    while i < n && t[i] != ':'
        invariant
            i <= n == t@.len(),
            forall|k: int| 0 <= k < i ==> t@[k] != ':',
        decreases n - i,
    {
        i = i + 1;
    }
    proof {
        lemma_char_end(t@, ':', i as int);
    }
    let mut j: usize = i + 1;
    while j < n && t[j] != ':'
        invariant
            i < j <= n == t@.len(),
            forall|k: int| i < k < j ==> t@[k] != ':',
        decreases n - j,
    {
        j = j + 1;
    }
    let ghost after = t@.skip(i + 1);
    proof {
        assert forall|k: int| 0 <= k < j - i - 1 implies after[k] != ':' by {
            assert(after[k] == t@[k + i + 1]);
        }
        lemma_char_end(after, ':', j - i - 1);
    }
    let iface = trim_chars(&sub_chars(&t, 0, i));
    assert(t@.subrange(0, i as int) =~= t@.take(i as int));
    if eq_str(&iface, "lo") {
        return Some(0);
    }
    let counters = sub_chars(&t, i + 1, j);
    assert(counters@ =~= after.take(char_end(after, ':') as int));
    let ws = words_of(&counters);
    assert(seqs_of(ws@).skip(0) =~= seqs_of(ws@));
    let f = parse_u64_words(&ws, 0);
    assert(f@.map_values(|x: u64| x as nat).len() == f@.len());
    if f.len() >= 9 {
        assert(f@.map_values(|x: u64| x as nat)[0] == f@[0]);
        assert(f@.map_values(|x: u64| x as nat)[8] == f@[8]);
        if f[0] > u64::MAX - f[8] {
            return None;
        }
        Some(f[0] + f[8])
    } else {
        Some(0)
    }
}

/// The total bytes of `/proc/net/dev`, `None` when it exceeds `u64`.
fn read_net_total(content: &str) -> (r: Option<u64>)
    ensures
        match r {
            Some(v) => v == net_total(lines(content@)),
            None => !net_in_range(content@),
        },
{
    let cs = chars_of(content);
    let ls = lines_of(&cs);
    let ghost whole = seqs_of(ls@);
    let mut total: u64 = 0;
    let mut i: usize = 0;
    while i < ls.len()
        invariant
            i <= ls@.len(),
            whole == seqs_of(ls@),
            whole == lines(content@),
            total == net_total(whole.take(i as int)),
        decreases ls@.len() - i,
    {
        assert(whole.take(i + 1).drop_last() =~= whole.take(i as int));
        assert(whole.take(i + 1).last() == ls@[i as int]@);
        match net_line_bytes_exec(ls[i].as_slice()) {
            Some(b) => {
                if total > u64::MAX - b {
                    proof {
                        lemma_net_total_prefix(whole, i + 1);
                    }
                    return None;
                }
                total = total + b;
            },
            None => {
                proof {
                    lemma_net_total_prefix(whole, i + 1);
                }
                return None;
            },
        }
        i = i + 1;
    }
    assert(whole.take(ls@.len() as int) =~= whole);
    Some(total)
}

/// Whether [`parse_net_dev`] can read `content` within `u64` arithmetic.
pub fn net_dev_in_range(content: &str) -> (r: bool)
    ensures
        r == net_in_range(content@),
{
    read_net_total(content).is_some()
}

/// Parse `/proc/net/dev` to compute throughput: the growth of the received
/// and transmitted bytes of all interfaces but `lo` since the total recorded
/// in `prev_bytes` (None on the first sample), over a two-second interval.
/// Records the new total in `prev_bytes`.
pub fn parse_net_dev(content: &str, prev_bytes: &mut Option<u64>) -> (r: Option<Sample>)
    requires
        net_in_range(content@),
    ensures
        *final(prev_bytes) == Some(net_total(lines(content@)) as u64),
        r == match *old(prev_bytes) {
            Some(p) => Some(
                Sample { part: sat_sub(net_total(lines(content@)), p as nat) as u64, whole: 2048 },
            ),
            None => None,
        },
{
    let total_bytes = match read_net_total(content) {
        Some(t) => t,
        None => 0,
    };
    let result = match *prev_bytes {
        Some(prev) => {
            let delta = if total_bytes >= prev {
                total_bytes - prev
            } else {
                0
            };
            Sample { part: delta, whole: 2048 }
        },
        None => {
            *prev_bytes = Some(total_bytes);
            return None;
        },
    };
    *prev_bytes = Some(total_bytes);
    Some(result)
}

// ---------------------------------------------------------------------------
// Series
// ---------------------------------------------------------------------------

/// `s` with `v` appended, keeping only the last `MAX_SAMPLES` when `s` was full.
pub open spec fn pushed(s: Seq<Sample>, v: Sample) -> Seq<Sample> {
    if s.len() >= MAX_SAMPLES {
        s.drop_first().push(v)
    } else {
        s.push(v)
    }
}

/// Holds time-series metric data for one session.
pub struct MetricsData {
    pub cpu: std::collections::VecDeque<Sample>,
    pub memory: std::collections::VecDeque<Sample>,
    pub network: std::collections::VecDeque<Sample>,
    /// Previous CPU idle and total for delta computation.
    pub prev_cpu: Option<(u64, u64)>,
    /// Previous network bytes for delta computation.
    pub prev_net_bytes: Option<u64>,
}

impl MetricsData {
    /// Every series holds at most `MAX_SAMPLES` samples.
    pub open spec fn wf(&self) -> bool {
        &&& self.cpu@.len() <= MAX_SAMPLES
        &&& self.memory@.len() <= MAX_SAMPLES
        &&& self.network@.len() <= MAX_SAMPLES
    }

    pub open spec fn series_of(&self, metric: MetricType) -> Seq<Sample> {
        match metric {
            MetricType::Cpu => self.cpu@,
            MetricType::Memory => self.memory@,
            MetricType::Network => self.network@,
        }
    }

    pub open spec fn prev_cpu_reading(&self) -> Option<(u64, u64)> {
        self.prev_cpu
    }

    pub open spec fn prev_net_total(&self) -> Option<u64> {
        self.prev_net_bytes
    }

    pub fn new() -> (r: Self)
        ensures
            r.wf(),
            r.cpu@ == Seq::<Sample>::empty(),
            r.memory@ == Seq::<Sample>::empty(),
            r.network@ == Seq::<Sample>::empty(),
            r.prev_cpu_reading() is None,
            r.prev_net_total() is None,
    {
        Self {
            cpu: std::collections::VecDeque::with_capacity(MAX_SAMPLES),
            memory: std::collections::VecDeque::with_capacity(MAX_SAMPLES),
            network: std::collections::VecDeque::with_capacity(MAX_SAMPLES),
            prev_cpu: None,
            prev_net_bytes: None,
        }
    }

    /// Get the data series for a given metric type.
    pub fn series(&self, metric: MetricType) -> (r: &std::collections::VecDeque<Sample>)
        ensures
            r@ == self.series_of(metric),
    {
        match metric {
            MetricType::Cpu => &self.cpu,
            MetricType::Memory => &self.memory,
            MetricType::Network => &self.network,
        }
    }

    /// Get the latest value for a metric, or None if no data.
    pub fn latest(&self, metric: MetricType) -> (r: Option<Sample>)
        ensures
            r == (if self.series_of(metric).len() > 0 {
                Some(self.series_of(metric).last())
            } else {
                None
            }),
    {
        let s = self.series(metric);
        if s.len() == 0 {
            None
        } else {
            Some(s[s.len() - 1])
        }
    }

    fn push_sample(deque: &mut std::collections::VecDeque<Sample>, value: Sample)
        ensures
            final(deque)@ == pushed(old(deque)@, value),
    {
        if deque.len() >= MAX_SAMPLES {
            deque.pop_front();
        }
        deque.push_back(value);
        proof {
            if old(deque)@.len() >= MAX_SAMPLES {
                assert(old(deque)@.subrange(1, old(deque)@.len() as int) =~= old(
                    deque,
                )@.drop_first());
            }
        }
    }

    /// Whether [`Self::update_cpu`] can read `proc_stat` within `u64` arithmetic.
    pub fn cpu_update_in_range(&self, proc_stat: &str) -> (r: bool)
        ensures
            r == cpu_in_range(proc_stat@, self.prev_cpu_reading()),
    {
        cpu_stat_in_range(proc_stat, self.prev_cpu)
    }

    /// Parse `/proc/stat` output and push a CPU usage sample.
    pub fn update_cpu(&mut self, proc_stat: &str)
        requires
            cpu_in_range(proc_stat@, old(self).prev_cpu_reading()),
        ensures
            old(self).wf() ==> final(self).wf(),
            final(self).memory@ == old(self).memory@,
            final(self).network@ == old(self).network@,
            final(self).prev_net_total() == old(self).prev_net_total(),
            match cpu_reading(proc_stat@) {
                Some((idle, total)) => {
                    &&& final(self).prev_cpu_reading() == Some((idle as u64, total as u64))
                    &&& final(self).cpu@ == match old(self).prev_cpu_reading() {
                        Some(p) => pushed(old(self).cpu@, cpu_sample(p, idle, total)),
                        None => old(self).cpu@,
                    }
                },
                None => final(self).prev_cpu_reading() == old(self).prev_cpu_reading()
                    && final(self).cpu@ == old(self).cpu@,
            },
    {
        if let Some(usage) = parse_cpu_stat(proc_stat, &mut self.prev_cpu) {
            Self::push_sample(&mut self.cpu, usage);
        }
    }

    /// Parse `/proc/meminfo` output and push a memory usage sample.
    pub fn update_memory(&mut self, proc_meminfo: &str)
        requires
            meminfo_in_range(proc_meminfo@),
        ensures
            old(self).wf() ==> final(self).wf(),
            final(self).cpu@ == old(self).cpu@,
            final(self).network@ == old(self).network@,
            final(self).prev_cpu_reading() == old(self).prev_cpu_reading(),
            final(self).prev_net_total() == old(self).prev_net_total(),
            final(self).memory@ == match mem_reading(proc_meminfo@) {
                Some((t, a)) => pushed(old(self).memory@, mem_sample(t, a)),
                None => old(self).memory@,
            },
    {
        if let Some(usage) = parse_meminfo(proc_meminfo) {
            Self::push_sample(&mut self.memory, usage);
        }
    }

    /// Whether [`Self::update_network`] can read `proc_net_dev` within `u64` arithmetic.
    pub fn network_update_in_range(&self, proc_net_dev: &str) -> (r: bool)
        ensures
            r == net_in_range(proc_net_dev@),
    {
        net_dev_in_range(proc_net_dev)
    }

    /// Parse `/proc/net/dev` output and push a network throughput sample.
    pub fn update_network(&mut self, proc_net_dev: &str)
        requires
            net_in_range(proc_net_dev@),
        ensures
            old(self).wf() ==> final(self).wf(),
            final(self).cpu@ == old(self).cpu@,
            final(self).memory@ == old(self).memory@,
            final(self).prev_cpu_reading() == old(self).prev_cpu_reading(),
            final(self).prev_net_total() == Some(net_total(lines(proc_net_dev@)) as u64),
            final(self).network@ == match old(self).prev_net_total() {
                Some(p) => pushed(
                    old(self).network@,
                    Sample {
                        part: sat_sub(net_total(lines(proc_net_dev@)), p as nat) as u64,
                        whole: 2048,
                    },
                ),
                None => old(self).network@,
            },
    {
        if let Some(throughput) = parse_net_dev(proc_net_dev, &mut self.prev_net_bytes) {
            Self::push_sample(&mut self.network, throughput);
        }
    }
}

/// Adding a sample to a series that holds at most `MAX_SAMPLES` keeps it so,
/// makes the new sample the latest, and keeps every sample but possibly the
/// oldest.
pub proof fn lemma_pushed_bounded(s: Seq<Sample>, v: Sample)
    requires
        s.len() <= MAX_SAMPLES,
    ensures
        pushed(s, v).len() <= MAX_SAMPLES,
        pushed(s, v).last() == v,
        s.len() < MAX_SAMPLES ==> pushed(s, v) == s.push(v),
        s.len() == MAX_SAMPLES ==> pushed(s, v) == s.subrange(1, s.len() as int).push(v),
{
    if s.len() == MAX_SAMPLES {
        assert(s.drop_first() =~= s.subrange(1, s.len() as int));
    }
}

/// Each metric's series is the one that metric's update fills: the CPU
/// samples for the CPU, the memory samples for the memory and the
/// throughput samples for the network. So once a sample `v` has been pushed
/// onto one of them (the others untouched), `v` is that metric's latest
/// sample and the other metrics show what they showed before.
pub proof fn lemma_series_of_metric(m: MetricsData, m2: MetricsData, v: Sample)
    ensures
        m.series_of(MetricType::Cpu) == m.cpu@,
        m.series_of(MetricType::Memory) == m.memory@,
        m.series_of(MetricType::Network) == m.network@,
        m2.cpu@ == m.cpu@ && m2.network@ == m.network@ && m2.memory@ == pushed(m.memory@, v) ==> {
            &&& m2.series_of(MetricType::Memory).last() == v
            &&& m2.series_of(MetricType::Cpu) == m.series_of(MetricType::Cpu)
            &&& m2.series_of(MetricType::Network) == m.series_of(MetricType::Network)
        },
        m2.cpu@ == m.cpu@ && m2.memory@ == m.memory@ && m2.network@ == pushed(m.network@, v) ==> {
            &&& m2.series_of(MetricType::Network).last() == v
            &&& m2.series_of(MetricType::Cpu) == m.series_of(MetricType::Cpu)
            &&& m2.series_of(MetricType::Memory) == m.series_of(MetricType::Memory)
        },
        m2.memory@ == m.memory@ && m2.network@ == m.network@ && m2.cpu@ == pushed(m.cpu@, v) ==> {
            &&& m2.series_of(MetricType::Cpu).last() == v
            &&& m2.series_of(MetricType::Memory) == m.series_of(MetricType::Memory)
            &&& m2.series_of(MetricType::Network) == m.series_of(MetricType::Network)
        },
{
}

/// A memory sample is the share of the memory in use: its whole is the
/// total memory and its part and the available memory add up to it, so it
/// is full when nothing is available and empty when everything is.
pub proof fn lemma_mem_sample_share(total: nat, available: nat)
    requires
        available <= total <= u64::MAX,
    ensures
        mem_sample(total, available).whole == total,
        mem_sample(total, available).part + available == total,
{
}

/// A CPU sample is the share of the time elapsed since the previous reading
/// that was not idle: its whole is the elapsed time, and its part and the
/// idle time add up to it, so it is full when the CPU was never idle and
/// empty when it was always idle; when no time elapsed it is empty.
pub proof fn lemma_cpu_sample_share(prev: (u64, u64), idle: nat, total: nat)
    requires
        prev.1 <= total <= u64::MAX,
        prev.0 <= idle,
        idle - prev.0 <= total - prev.1,
    ensures
        total > prev.1 ==> cpu_sample(prev, idle, total).whole == total - prev.1 && cpu_sample(
            prev,
            idle,
            total,
        ).part + (idle - prev.0) == total - prev.1,
        total == prev.1 ==> cpu_sample(prev, idle, total).part == 0 && cpu_sample(
            prev,
            idle,
            total,
        ).whole > 0,
{
}

/// The `/proc/meminfo` line giving `n` kB for `key` (such as `MemTotal:`).
pub open spec fn meminfo_line(key: Seq<char>, n: nat) -> Seq<char> {
    key + seq![' '] + decimal(n) + " kB"@
}

/// A line giving neither the total nor the available memory.
pub open spec fn other_mem_line(l: Seq<char>) -> bool {
    !has_prefix(l, "MemTotal:"@) && !has_prefix(l, "MemAvailable:"@)
}

proof fn lemma_scan_skips(x: Seq<Seq<char>>, rest: Seq<Seq<char>>, t: Option<nat>, a: Option<nat>)
    requires
        forall|i: int| 0 <= i < x.len() ==> other_mem_line(#[trigger] x[i]),
        !(t is Some && a is Some),
    ensures
        mem_scan(x + rest, t, a) == mem_scan(rest, t, a),
    decreases x.len(),
{
    if x.len() > 0 {
        assert((x + rest)[0] == x[0]);
        assert((x + rest).drop_first() =~= x.drop_first() + rest);
        assert(other_mem_line(x[0]));
        lemma_scan_skips(x.drop_first(), rest, t, a);
    }
}

proof fn lemma_meminfo_line_value(key: Seq<char>, n: nat)
    requires
        key.len() > 0,
        forall|k: int| 0 <= k < key.len() ==> !is_ws(#[trigger] key[k]),
        n <= u64::MAX,
    ensures
        second_u64(meminfo_line(key, n)) == Some(n),
        has_prefix(meminfo_line(key, n), key),
{
    reveal_strlit(" kB");
    reveal_strlit("kB");
    let d = decimal(n);
    lemma_decimal_digits(n);
    assert forall|k: int| 0 <= k < d.len() implies !is_ws(#[trigger] d[k]) by {
        assert(crate::text::is_digit(d[k]));
    }
    assert(d + " kB"@ =~= d + seq![' '] + "kB"@);
    lemma_words_cons(d, "kB"@);
    assert(meminfo_line(key, n) =~= key + seq![' '] + (d + seq![' '] + "kB"@));
    lemma_words_cons(key, d + seq![' '] + "kB"@);
    assert(words(meminfo_line(key, n))[1] == d);
    lemma_parse_decimal(n, 0xffff_ffff_ffff_ffff);
    assert(meminfo_line(key, n).take(key.len() as int) =~= key);
}

/// `/proc/meminfo` is read for its total and available memory: when its
/// lines are other lines, `MemTotal: t kB`, other lines, `MemAvailable: a
/// kB` and anything after, it reads as total `t` and available `a` (for a
/// total that is not zero), whatever else it holds.
pub proof fn lemma_meminfo_reading(
    content: Seq<char>,
    pre: Seq<Seq<char>>,
    mid: Seq<Seq<char>>,
    post: Seq<Seq<char>>,
    t: nat,
    a: nat,
)
    requires
        0 < t <= u64::MAX,
        a <= u64::MAX,
        lines(content) == pre + seq![meminfo_line("MemTotal:"@, t)] + mid + seq![
            meminfo_line("MemAvailable:"@, a),
        ] + post,
        forall|i: int| 0 <= i < pre.len() ==> other_mem_line(#[trigger] pre[i]),
        forall|i: int| 0 <= i < mid.len() ==> other_mem_line(#[trigger] mid[i]),
    ensures
        mem_reading(content) == Some((t, a)),
{
    reveal_strlit("MemTotal:");
    reveal_strlit("MemAvailable:");
    let tl = meminfo_line("MemTotal:"@, t);
    let al = meminfo_line("MemAvailable:"@, a);
    lemma_meminfo_line_value("MemTotal:"@, t);
    lemma_meminfo_line_value("MemAvailable:"@, a);
    assert(al[3] == 'A');
    assert(!has_prefix(al, "MemTotal:"@)) by {
        if has_prefix(al, "MemTotal:"@) {
            assert(al.take(9)[3] == "MemTotal:"@[3]);
        }
    }
    let after_t = mid + seq![al] + post;
    let ls = lines(content);
    assert(ls =~= pre + (seq![tl] + after_t));
    lemma_scan_skips(pre, seq![tl] + after_t, None, None);
    let s1 = seq![tl] + after_t;
    assert(s1[0] == tl);
    assert(s1.drop_first() =~= after_t);
    assert(mem_scan(s1, None, None) == mem_scan(after_t, Some(t), None));
    assert(after_t =~= mid + (seq![al] + post));
    lemma_scan_skips(mid, seq![al] + post, Some(t), None);
    let s2 = seq![al] + post;
    assert(s2[0] == al);
    assert(mem_scan(s2, Some(t), None) == (Some(t), Some(a)));
}

/// The decimal representations of `vs`.
pub open spec fn decimals(vs: Seq<nat>) -> Seq<Seq<char>> {
    vs.map_values(|v: nat| decimal(v))
}

/// The `/proc/stat` line `cpu` followed by the numbers `vs`.
pub open spec fn cpu_line(vs: Seq<nat>) -> Seq<char> {
    "cpu"@ + spaced(decimals(vs))
}

proof fn lemma_decimal_word(n: nat)
    ensures
        is_word(decimal(n)),
{
    lemma_decimal_digits(n);
    assert forall|k: int| 0 <= k < decimal(n).len() implies !is_ws(#[trigger] decimal(n)[k]) by {
        assert(crate::text::is_digit(decimal(n)[k]));
    }
}

proof fn lemma_parsed_decimals(vs: Seq<nat>)
    requires
        forall|i: int| 0 <= i < vs.len() ==> #[trigger] vs[i] <= u64::MAX,
    ensures
        parsed_u64s(decimals(vs)) == vs,
    decreases vs.len(),
{
    if vs.len() > 0 {
        assert(decimals(vs).drop_last() =~= decimals(vs.drop_last()));
        lemma_parse_decimal(vs.last(), 0xffff_ffff_ffff_ffff);
        lemma_parsed_decimals(vs.drop_last());
        assert(vs.drop_last() + seq![vs.last()] =~= vs);
    }
}

proof fn lemma_first_with_prefix_skips(x: Seq<Seq<char>>, rest: Seq<Seq<char>>, p: Seq<char>)
    requires
        forall|i: int| 0 <= i < x.len() ==> !has_prefix(#[trigger] x[i], p),
    ensures
        first_with_prefix(x + rest, p) == first_with_prefix(rest, p),
    decreases x.len(),
{
    if x.len() > 0 {
        assert((x + rest)[0] == x[0]);
        assert((x + rest).drop_first() =~= x.drop_first() + rest);
        assert(!has_prefix(x[0], p));
        lemma_first_with_prefix_skips(x.drop_first(), rest, p);
    }
}

/// `/proc/stat` is read for its first `cpu` line: when its lines are lines
/// not starting with `cpu `, then `cpu` followed by four or more numbers,
/// and anything after, it reads as the fourth number (the idle time) and
/// the sum of them all (the total time).
pub proof fn lemma_cpu_reading(
    content: Seq<char>,
    pre: Seq<Seq<char>>,
    vs: Seq<nat>,
    post: Seq<Seq<char>>,
)
    requires
        vs.len() >= 4,
        forall|i: int| 0 <= i < vs.len() ==> #[trigger] vs[i] <= u64::MAX,
        lines(content) == pre + seq![cpu_line(vs)] + post,
        forall|i: int| 0 <= i < pre.len() ==> !has_prefix(#[trigger] pre[i], "cpu "@),
    ensures
        cpu_reading(content) == Some((vs[3], sum(vs))),
{
    reveal_strlit("cpu");
    reveal_strlit("cpu ");
    let cl = cpu_line(vs);
    let ds = decimals(vs);
    assert forall|i: int| 0 <= i < ds.len() implies is_word(#[trigger] ds[i]) by {
        lemma_decimal_word(vs[i]);
    }
    assert(is_word("cpu"@));
    lemma_words_spaced("cpu"@, ds);
    assert(drop_head(words(cl)) =~= ds);
    lemma_parsed_decimals(vs);
    assert(ds[0] == decimal(vs[0]));
    assert(spaced(ds) =~= seq![' '] + ds[0] + spaced(ds.drop_first()));
    assert(cl.take(4) =~= "cpu "@);
    assert(has_prefix(cl, "cpu "@));
    assert(lines(content) =~= pre + (seq![cl] + post));
    lemma_first_with_prefix_skips(pre, seq![cl] + post, "cpu "@);
    assert((seq![cl] + post)[0] == cl);
}

/// The `/proc/net/dev` line of interface `name` with the counters `vs`.
pub open spec fn net_line(name: Seq<char>, vs: Seq<nat>) -> Seq<char> {
    name + seq![':'] + spaced(decimals(vs))
}

proof fn lemma_char_end_at(s: Seq<char>, c: char, j: int)
    requires
        0 <= j <= s.len(),
        forall|k: int| 0 <= k < j ==> s[k] != c,
        j == s.len() || s[j] == c,
    ensures
        char_end(s, c) == j,
    decreases j,
{
    if j > 0 {
        lemma_char_end_at(s.drop_first(), c, j - 1);
    }
}

/// A `/proc/net/dev` line counts the bytes its interface received and
/// sent: for an interface other than the loopback, with nine or more
/// counters, the first (received) and the ninth (sent); the loopback
/// interface counts nothing.
pub proof fn lemma_net_line_bytes(name: Seq<char>, vs: Seq<nat>)
    requires
        is_word(name),
        !name.contains(':'),
        !has_prefix(name, "Inter"@),
        !has_prefix(name, "face"@),
        vs.len() >= 9,
        forall|i: int| 0 <= i < vs.len() ==> #[trigger] vs[i] <= u64::MAX,
    ensures
        name != "lo"@ ==> net_line_bytes(net_line(name, vs)) == vs[0] + vs[8],
        name == "lo"@ ==> net_line_bytes(net_line(name, vs)) == 0,
{
    let ds = decimals(vs);
    let l = net_line(name, vs);
    assert forall|i: int| 0 <= i < ds.len() implies is_word(#[trigger] ds[i]) by {
        lemma_decimal_word(vs[i]);
    }
    // the line is its own trim: it starts with the name and ends with a digit
    let sp = spaced(ds);
    assert(sp =~= seq![' '] + ds[0] + spaced(ds.drop_first()));
    lemma_spaced_ends_in_word(ds);
    assert(!is_ws(l[0]));
    assert(l.last() == sp.last());
    assert(!is_ws(l.last()));
    assert(trim_start(l) == l);
    assert(trim_end(l) == l);
    assert(trim(l) == l);
    // the name ends at the colon
    assert forall|k: int| 0 <= k < name.len() implies l[k] != ':' by {
        assert(l[k] == name[k]);
        if name[k] == ':' {
            assert(name.contains(':'));
        }
    }
    assert(l[name.len() as int] == ':');
    assert(l.contains(':'));
    lemma_char_end_at(l, ':', name.len() as int);
    assert(l.take(name.len() as int) =~= name);
    assert(l.take(5) =~= name.take(5) || name.len() < 5);
    assert(!has_prefix(l, "Inter"@)) by {
        reveal_strlit("Inter");
        if has_prefix(l, "Inter"@) && name.len() >= 5 {
            assert(name.take(5) =~= l.take(5));
        }
        if has_prefix(l, "Inter"@) && name.len() < 5 {
            assert(l.take(5)[name.len() as int] == ':');
        }
    }
    assert(!has_prefix(l, "face"@)) by {
        reveal_strlit("face");
        if has_prefix(l, "face"@) && name.len() >= 4 {
            assert(name.take(4) =~= l.take(4));
        }
        if has_prefix(l, "face"@) && name.len() < 4 {
            assert(l.take(4)[name.len() as int] == ':');
        }
    }
    let after = l.skip(name.len() + 1 as int);
    assert(after =~= sp);
    assert forall|i: int, j: int| 0 <= i < ds.len() && 0 <= j < ds[i].len() implies #[trigger] ds[i][j]
        != ':' by {
        lemma_decimal_digits(vs[i]);
        assert(crate::text::is_digit(ds[i][j]));
    }
    assert forall|k: int| 0 <= k < sp.len() implies sp[k] != ':' by {
        lemma_spaced_no_colon(ds, k);
    }
    lemma_char_end_at(after, ':', after.len() as int);
    assert(after.take(after.len() as int) =~= sp);
    // the counters are the numbers
    assert(words(sp) == words(sp.drop_first()));
    assert(sp.drop_first() =~= ds[0] + spaced(ds.drop_first()));
    assert(forall|i: int| 0 <= i < ds.drop_first().len() ==> #[trigger] ds.drop_first()[i] == ds[i + 1]);
    lemma_words_spaced(ds[0], ds.drop_first());
    assert(seq![ds[0]] + ds.drop_first() =~= ds);
    lemma_parsed_decimals(vs);
}

proof fn lemma_spaced_ends_in_word(ws: Seq<Seq<char>>)
    requires
        ws.len() > 0,
        forall|i: int| 0 <= i < ws.len() ==> is_word(#[trigger] ws[i]),
    ensures
        spaced(ws).len() > 0,
        !is_ws(spaced(ws).last()),
    decreases ws.len(),
{
    assert(is_word(ws[0]));
    if ws.len() == 1 {
        assert(spaced(ws.drop_first()) =~= Seq::<char>::empty());
        assert(spaced(ws) =~= seq![' '] + ws[0]);
        assert(spaced(ws).last() == ws[0][ws[0].len() - 1]);
    } else {
        assert(forall|i: int| 0 <= i < ws.drop_first().len() ==> #[trigger] ws.drop_first()[i] == ws[i + 1]);
        lemma_spaced_ends_in_word(ws.drop_first());
    }
}

proof fn lemma_spaced_no_colon(ws: Seq<Seq<char>>, k: int)
    requires
        forall|i: int| 0 <= i < ws.len() ==> is_word(#[trigger] ws[i]),
        forall|i: int, j: int| 0 <= i < ws.len() && 0 <= j < ws[i].len() ==> #[trigger] ws[i][j] != ':',
        0 <= k < spaced(ws).len(),
    ensures
        spaced(ws)[k] != ':',
    decreases ws.len(),
{
    if ws.len() > 0 {
        let rest = spaced(ws.drop_first());
        assert(spaced(ws) =~= seq![' '] + ws[0] + rest);
        if k > ws[0].len() {
            assert(spaced(ws)[k] == rest[k - 1 - ws[0].len()]);
            lemma_spaced_no_colon(ws.drop_first(), k - 1 - ws[0].len());
        } else if k > 0 {
            assert(spaced(ws)[k] == ws[0][k - 1]);
        }
    }
}

} // verus!
