//! Static facts about a host: OS name, memory size, uptime.
use vstd::prelude::*;

use crate::disk_info::strip_trailing;
use vstd::arithmetic::power2::{
    lemma2_to64, lemma2_to64_rest, lemma_pow2_pos, lemma_pow2_strictly_increases, lemma_pow2_unfold, pow2,
};
use crate::text::{
    chars_of, decimal, decimal_chars, has_prefix, lines, lines_of, parse_uint, parse_unsigned,
    push_chars, push_str, seqs_of, starts_with_str, string_of, sub_chars, trim, trim_chars, words, words_of,
};

verus! {

/// Static system information collected once on connect.
pub struct SystemInfo {
    pub os: String,
    pub kernel: String,
    pub hostname: String,
    pub uptime: String,
    pub cpu_info: String,
    pub ram_total: String,
}

// ---------------------------------------------------------------------------
// /etc/os-release
// ---------------------------------------------------------------------------

/// `s` without all of its leading `c` characters.
pub open spec fn strip_leading(s: Seq<char>, c: char) -> Seq<char>
    decreases s.len(),
{
    if s.len() > 0 && s[0] == c {
        strip_leading(s.drop_first(), c)
    } else {
        s
    }
}

/// The `PRETTY_NAME` value of the first of the lines `ls` that sets it,
/// without surrounding double quotes.
pub open spec fn pretty_name(ls: Seq<Seq<char>>) -> Option<Seq<char>>
    decreases ls.len(),
{
    if ls.len() == 0 {
        None
    } else if has_prefix(ls[0], "PRETTY_NAME="@) {
        Some(strip_trailing(strip_leading(ls[0].skip("PRETTY_NAME="@.len() as int), '"'), '"'))
    } else {
        pretty_name(ls.drop_first())
    }
}

pub open spec fn os_name_of(content: Seq<char>) -> Seq<char> {
    match pretty_name(lines(content)) {
        Some(n) => n,
        None => "Unknown"@,
    }
}

fn strip_quotes(v: &[char]) -> (r: Vec<char>)
    ensures
        r@ == strip_trailing(strip_leading(v@, '"'), '"'),
{
    let n = v.len();
    let mut a: usize = 0;
    assert(v@.subrange(0, n as int) =~= v@);
    while a < n && v[a] == '"'
        invariant
            a <= n == v@.len(),
            strip_leading(v@, '"') == strip_leading(v@.subrange(a as int, n as int), '"'),
        decreases n - a,
    {
        assert(v@.subrange(a as int, n as int).drop_first() =~= v@.subrange(a + 1, n as int));
        a = a + 1;
    }
    let mut b: usize = n;
    let ghost lead = v@.subrange(a as int, n as int);
    assert(lead.subrange(0, (b - a) as int) =~= lead);
    while b > a && v[b - 1] == '"'
        invariant
            a <= b <= n == v@.len(),
            lead == v@.subrange(a as int, n as int),
            strip_trailing(lead, '"') == strip_trailing(v@.subrange(a as int, b as int), '"'),
        decreases b - a,
    {
        assert(v@.subrange(a as int, b as int).drop_last() =~= v@.subrange(a as int, b - 1));
        b = b - 1;
    }
    sub_chars(v, a, b)
}

/// Parse PRETTY_NAME from /etc/os-release.
pub fn parse_os_release(content: &str) -> (r: String)
    ensures
        r@ == os_name_of(content@),
{
    let cs = chars_of(content);
    let ls = lines_of(&cs);
    let prefix = chars_of("PRETTY_NAME=");
    let mut i: usize = 0;
    assert(seqs_of(ls@).skip(0) =~= seqs_of(ls@));
    while i < ls.len()
        invariant
            i <= ls@.len(),
            prefix@ == "PRETTY_NAME="@,
            pretty_name(lines(content@)) == pretty_name(seqs_of(ls@).skip(i as int)),
        decreases ls@.len() - i,
    {
        let ghost rest = seqs_of(ls@).skip(i as int);
        assert(rest[0] == ls@[i as int]@);
        assert(rest.drop_first() =~= seqs_of(ls@).skip(i + 1));
        if starts_with_str(ls[i].as_slice(), "PRETTY_NAME=") {
            let tail = sub_chars(ls[i].as_slice(), prefix.len(), ls[i].len());
            assert(tail@ =~= ls@[i as int]@.skip("PRETTY_NAME="@.len() as int));
            return string_of(&strip_quotes(&tail));
        }
        i = i + 1;
    }
    assert(seqs_of(ls@).skip(ls@.len() as int) =~= seq![]);
    "Unknown".to_owned()
}

// ---------------------------------------------------------------------------
// /proc/meminfo: total memory
// ---------------------------------------------------------------------------

/// The number of binary digits of `x`.
pub open spec fn bit_length(x: nat) -> nat
    decreases x,
{
    if x == 0 {
        0
    } else {
        1 + bit_length(x / 2)
    }
}

/// `a / d` rounded to the nearest integer, ties to the even one.
pub open spec fn round_half_even(a: nat, d: nat) -> nat {
    let q = a / d;
    let r = a % d;
    if 2 * r > d || (2 * r == d && q % 2 == 1) {
        q + 1
    } else {
        q
    }
}

/// The value of `x as f64`: `x` rounded to 53 significant bits, ties to even.
pub open spec fn as_f64(x: nat) -> nat {
    if bit_length(x) <= 53 {
        x
    } else {
        let d = pow2((bit_length(x) - 53) as nat);
        round_half_even(x, d) * d
    }
}

/// `kb` kibibytes written as `format!` writes `kb as f64 / 1_048_576.0` with
/// no decimals (`"16 GB"`) when that is at least 1, else as whole mebibytes
/// (`"512 MB"`).
pub open spec fn mem_total_text(kb: nat) -> Seq<char> {
    if as_f64(kb) >= 1048576 {
        decimal(round_half_even(as_f64(kb), 1048576)) + seq![' ', 'G', 'B']
    } else {
        decimal(kb / 1024) + seq![' ', 'M', 'B']
    }
}

/// The kibibytes of the first `MemTotal:` line among `ls` whose first word
/// after the key is a `u64`.
pub open spec fn mem_total_kb(ls: Seq<Seq<char>>) -> Option<nat>
    decreases ls.len(),
{
    if ls.len() == 0 {
        None
    } else {
        let w = words(ls[0].skip("MemTotal:"@.len() as int));
        if has_prefix(ls[0], "MemTotal:"@) && w.len() > 0 && parse_unsigned(w[0], 0xffff_ffff_ffff_ffff) is Some {
            parse_unsigned(w[0], 0xffff_ffff_ffff_ffff)
        } else {
            mem_total_kb(ls.drop_first())
        }
    }
}

pub open spec fn mem_total_of(content: Seq<char>) -> Seq<char> {
    match mem_total_kb(lines(content)) {
        Some(kb) => mem_total_text(kb),
        None => "Unknown"@,
    }
}

proof fn lemma_bit_length_pow2(x: nat, n: nat)
    ensures
        bit_length(x) <= n <==> x < pow2(n),
    decreases n,
{
    if n > 0 && x > 0 {
        lemma_bit_length_pow2(x / 2, (n - 1) as nat);
    }
    if n == 0 {
        lemma2_to64();
    } else {
        lemma_pow2_unfold(n);
        lemma_pow2_pos(n);
    }
}

fn round_half_even_exec(a: u128, d: u128) -> (r: u128)
    requires
        d > 0,
        a / d < u128::MAX,
    ensures
        r == round_half_even(a as nat, d as nat),
{
    let q = a / d;
    let r = a % d;
    if (r > d - r) || (r == d - r && q % 2 == 1) {
        q + 1
    } else {
        q
    }
}

/// The value of `x as f64`, as an integer.
fn f64_value(x: u64) -> (f: u128)
    ensures
        f == as_f64(x as nat),
        f <= 0x1_0000_0000_0000_0800,
{
    let mut len: u64 = 0;
    let mut y: u64 = x;
    proof {
        lemma2_to64();
        lemma2_to64_rest();
    }
    while y > 0
        invariant
            bit_length(x as nat) == len + bit_length(y as nat),
            len <= 64,
            pow2(0) == 1,
            y < pow2((64 - len) as nat),
        decreases y,
    {
        proof {
            lemma_pow2_unfold((64 - len) as nat);
        }
        y = y / 2;
        len = len + 1;
    }
    proof {
        lemma_bit_length_pow2(x as nat, 53);
        lemma2_to64_rest();
    }
    if len <= 53 {
        return x as u128;
    }
    let mut d: u128 = 1;
    let mut k: u64 = 0;
    proof {
        lemma2_to64();
    }
    while k < len - 53
        invariant
            k <= len - 53,
            len <= 64,
            d == pow2(k as nat),
            pow2(11) == 2048,
            d <= 2048,
        decreases len - 53 - k,
    {
        proof {
            lemma_pow2_unfold((k + 1) as nat);
            if k + 1 < 11 {
                lemma_pow2_strictly_increases((k + 1) as nat, 11);
            }
        }
        d = d * 2;
        k = k + 1;
    }
    let q = (x as u128) / d;
    let rq = round_half_even_exec(x as u128, d);
    assert(rq <= q + 1);
    assert(q * d <= x) by (nonlinear_arith)
        requires
            q == (x as u128) / d,
            d > 0,
    ;
    assert(rq * d <= x as int + d) by (nonlinear_arith)
        requires
            rq <= q + 1,
            q * d <= x,
            d > 0,
    ;
    rq * d
}

/// The text `mem_total_text` describes for `kb` kibibytes.
pub fn format_mem_total(kb: u64) -> (r: String)
    ensures
        r@ == mem_total_text(kb as nat),
{
    let f = f64_value(kb);
    let mut out: Vec<char>;
    if f >= 1048576 {
        let g = round_half_even_exec(f, 1048576);
        assert(g <= f / 1048576 + 1);
        out = decimal_chars(g as u64);
        out.push(' ');
        out.push('G');
        out.push('B');
    } else {
        out = decimal_chars(kb / 1024);
        out.push(' ');
        out.push('M');
        out.push('B');
    }
    assert(out@ =~= mem_total_text(kb as nat));
    string_of(&out)
}

/// Parse MemTotal from /proc/meminfo and format as "X GB".
pub fn parse_mem_total(content: &str) -> (r: String)
    ensures
        r@ == mem_total_of(content@),
{
    let cs = chars_of(content);
    let ls = lines_of(&cs);
    let key = chars_of("MemTotal:");
    let mut i: usize = 0;
    assert(seqs_of(ls@).skip(0) =~= seqs_of(ls@));
    while i < ls.len()
        invariant
            i <= ls@.len(),
            key@ == "MemTotal:"@,
            mem_total_kb(lines(content@)) == mem_total_kb(seqs_of(ls@).skip(i as int)),
        decreases ls@.len() - i,
    {
        let ghost rest = seqs_of(ls@).skip(i as int);
        assert(rest[0] == ls@[i as int]@);
        assert(rest.drop_first() =~= seqs_of(ls@).skip(i + 1));
        if starts_with_str(ls[i].as_slice(), "MemTotal:") {
            let tail = sub_chars(ls[i].as_slice(), key.len(), ls[i].len());
            assert(tail@ =~= ls@[i as int]@.skip("MemTotal:"@.len() as int));
            let w = words_of(&tail);
            if w.len() > 0 {
                assert(seqs_of(w@)[0] == w@[0]@);
                match parse_uint(w[0].as_slice(), u64::MAX) {
                    Some(kb) => {
                        return format_mem_total(kb);
                    },
                    None => {},
                }
            }
        }
        i = i + 1;
    }
    assert(seqs_of(ls@).skip(ls@.len() as int) =~= seq![]);
    "Unknown".to_owned()
}

// ---------------------------------------------------------------------------
// /proc/uptime
// ---------------------------------------------------------------------------

/// `total_secs` seconds as whole days and hours: `"45d 3h"`, or `"5h"` when
/// less than a day.
pub open spec fn uptime_text(total_secs: nat) -> Seq<char> {
    let days = total_secs / 86400;
    let hours = (total_secs % 86400) / 3600;
    if days > 0 {
        decimal(days) + seq!['d', ' '] + decimal(hours) + seq!['h']
    } else {
        decimal(hours) + seq!['h']
    }
}

/// Formats a number of seconds of uptime as "Xd Xh".
pub fn format_uptime(total_secs: u64) -> (r: String)
    ensures
        r@ == uptime_text(total_secs as nat),
{
    let days = total_secs / 86400;
    let hours = (total_secs % 86400) / 3600;
    let mut out: Vec<char> = Vec::new();
    if days > 0 {
        out = decimal_chars(days);
        out.push('d');
        out.push(' ');
    }
    let h = decimal_chars(hours);
    push_chars(&mut out, &h);
    out.push('h');
    assert(out@ =~= uptime_text(total_secs as nat));
    string_of(&out)
}

/// The first field of `/proc/uptime` (seconds since boot), `"0"` when there is none.
pub open spec fn uptime_field_of(content: Seq<char>) -> Seq<char> {
    if words(content).len() > 0 {
        words(content)[0]
    } else {
        "0"@
    }
}

/// The first whitespace-separated field of `content`, or `"0"`.
pub fn uptime_field(content: &str) -> (r: String)
    ensures
        r@ == uptime_field_of(content@),
{
    let cs = chars_of(content);
    let w = words_of(&cs);
    if w.len() > 0 {
        assert(seqs_of(w@)[0] == w@[0]@);
        string_of(w[0].as_slice())
    } else {
        "0".to_owned()
    }
}

// ---------------------------------------------------------------------------
// Assembling the record
// ---------------------------------------------------------------------------

/// The output of a command, trimmed, or `fallback` when the command failed.
pub open spec fn trimmed_or(out: Option<Seq<char>>, fallback: Seq<char>) -> Seq<char> {
    match out {
        Some(o) => trim(o),
        None => fallback,
    }
}

pub open spec fn opt_seq(o: Option<String>) -> Option<Seq<char>> {
    match o {
        Some(s) => Some(s@),
        None => None,
    }
}

fn trimmed_or_exec(out: &Option<String>, fallback: &str) -> (r: String)
    ensures
        r@ == trimmed_or(opt_seq(*out), fallback@),
{
    match out {
        Some(o) => {
            let cs = chars_of(o.as_str());
            string_of(&trim_chars(&cs))
        },
        None => fallback.to_owned(),
    }
}

impl SystemInfo {
    /// The system information that the outputs of `cat /etc/os-release`,
    /// `uname -r`, `hostname`, `nproc`, `uname -m` and `cat /proc/meminfo`
    /// give (`None` for a command that failed), with `uptime` already
    /// formatted.
    pub fn from_outputs(
        os_release: Option<String>,
        kernel: Option<String>,
        hostname: Option<String>,
        uptime: String,
        nproc: Option<String>,
        arch: Option<String>,
        meminfo: Option<String>,
    ) -> (info: SystemInfo)
        ensures
            info.os@ == match opt_seq(os_release) {
                Some(o) => os_name_of(o),
                None => "Unknown"@,
            },
            info.kernel@ == trimmed_or(opt_seq(kernel), "Unknown"@),
            info.hostname@ == trimmed_or(opt_seq(hostname), "Unknown"@),
            info.uptime@ == uptime@,
            info.cpu_info@ == trimmed_or(opt_seq(nproc), "?"@) + " cores "@ + trimmed_or(
                opt_seq(arch),
                "Unknown"@,
            ),
            info.ram_total@ == match opt_seq(meminfo) {
                Some(m) => mem_total_of(m),
                None => "Unknown"@,
            },
    {
        let os = match &os_release {
            Some(o) => parse_os_release(o.as_str()),
            None => "Unknown".to_owned(),
        };
        let kernel_t = trimmed_or_exec(&kernel, "Unknown");
        let host_t = trimmed_or_exec(&hostname, "Unknown");
        let nproc_t = trimmed_or_exec(&nproc, "?");
        let arch_t = trimmed_or_exec(&arch, "Unknown");
        let mut cpu: Vec<char> = chars_of(nproc_t.as_str());
        push_str(&mut cpu, " cores ");
        push_str(&mut cpu, arch_t.as_str());
        let ram = match &meminfo {
            Some(m) => parse_mem_total(m.as_str()),
            None => "Unknown".to_owned(),
        };
        SystemInfo {
            os,
            kernel: kernel_t,
            hostname: host_t,
            uptime,
            cpu_info: string_of(&cpu),
            ram_total: ram,
        }
    }
}

} // verus!
