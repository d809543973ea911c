//! Disk usage of a host, from the output of `df`.
use vstd::prelude::*;

use crate::text::{
    chars_of, decimal, is_digit, join_spaced, join_with_spaces, lemma_decimal_digits,
    lemma_parse_decimal, lines, lines_of, parse_uint, parse_unsigned, seqs_of, string_of,
    sub_chars, words, words_of,
};

verus! {

/// A single disk mount point entry.
pub struct DiskEntry {
    pub mount: String,
    pub size: String,
    pub used: String,
    pub avail: String,
    pub percent: u8,
}

pub struct DiskEntryView {
    pub mount: Seq<char>,
    pub size: Seq<char>,
    pub used: Seq<char>,
    pub avail: Seq<char>,
    pub percent: u8,
}

impl View for DiskEntry {
    type V = DiskEntryView;

    open spec fn view(&self) -> DiskEntryView {
        DiskEntryView {
            mount: self.mount@,
            size: self.size@,
            used: self.used@,
            avail: self.avail@,
            percent: self.percent,
        }
    }
}

pub open spec fn disk_views(v: Seq<DiskEntry>) -> Seq<DiskEntryView> {
    v.map_values(|d: DiskEntry| d@)
}

/// `s` without all of its trailing `c` characters (`trim_end_matches(c)`).
pub open spec fn strip_trailing(s: Seq<char>, c: char) -> Seq<char>
    decreases s.len(),
{
    if s.len() > 0 && s.last() == c {
        strip_trailing(s.drop_last(), c)
    } else {
        s
    }
}

/// The entry one line of `df -h --output=target,size,used,avail,pcent`
/// describes: the last four words are size, used, available and percentage
/// (its `%` signs dropped; 0 when it is not a number up to 255), and the words
/// before them, joined by spaces, are the mount point. Lines of fewer than
/// five words describe nothing.
pub open spec fn df_entry(line: Seq<char>) -> Option<DiskEntryView> {
    let p = words(line);
    let n = p.len() as int;
    if n < 5 {
        None
    } else {
        Some(
            DiskEntryView {
                mount: join_spaced(p.take(n - 4)),
                size: p[n - 4],
                used: p[n - 3],
                avail: p[n - 2],
                percent: match parse_unsigned(strip_trailing(p[n - 1], '%'), 255) {
                    Some(v) => v as u8,
                    None => 0,
                },
            },
        )
    }
}

/// The entries the lines `ls` describe, in order.
pub open spec fn df_entries(ls: Seq<Seq<char>>) -> Seq<DiskEntryView>
    decreases ls.len(),
{
    if ls.len() == 0 {
        seq![]
    } else {
        df_entries(ls.drop_last()) + match df_entry(ls.last()) {
            Some(e) => seq![e],
            None => seq![],
        }
    }
}

/// The lines of `output` after its first (header) line.
pub open spec fn body_lines(output: Seq<char>) -> Seq<Seq<char>> {
    let ls = lines(output);
    if ls.len() == 0 {
        ls
    } else {
        ls.drop_first()
    }
}

/// The mount entries that the output of `df` describes.
pub open spec fn parse_df(output: Seq<char>) -> Seq<DiskEntryView> {
    df_entries(body_lines(output))
}

fn strip_trailing_chars(v: &[char], c: char) -> (r: Vec<char>)
    ensures
        r@ == strip_trailing(v@, c),
{
    let mut b = v.len();
    assert(v@.subrange(0, b as int) =~= v@);
    while b > 0 && v[b - 1] == c
        invariant
            b <= v@.len(),
            strip_trailing(v@, c) == strip_trailing(v@.subrange(0, b as int), c),
        decreases b,
    {
        assert(v@.subrange(0, b as int).drop_last() =~= v@.subrange(0, b - 1));
        b = b - 1;
    }
    sub_chars(v, 0, b)
}

/// The entry that one line of `df` output describes.
pub fn parse_df_line(line: &[char]) -> (r: Option<DiskEntry>)
    ensures
        match df_entry(line@) {
            Some(e) => r matches Some(d) && d@ == e,
            None => r is None,
        },
{
    let parts = words_of(line);
    let n = parts.len();
    if n < 5 {
        return None;
    }
    let pct = strip_trailing_chars(parts[n - 1].as_slice(), '%');
    let percent: u8 = match parse_uint(&pct, 255) {
        Some(v) => v as u8,
        None => 0,
    };
    let mut head: Vec<Vec<char>> = Vec::new();
    let mut i: usize = 0;
    while i < n - 4
        invariant
            n == parts@.len() >= 5,
            i <= n - 4,
            seqs_of(head@) == seqs_of(parts@).take(i as int),
        decreases n - 4 - i,
    {
        let ghost prev = seqs_of(head@);
        head.push(sub_chars(parts[i].as_slice(), 0, parts[i].len()));
        assert(parts@[i as int]@.subrange(0, parts@[i as int]@.len() as int) =~= parts@[i as int]@);
        assert(seqs_of(head@) =~= prev.push(parts@[i as int]@));
        assert(seqs_of(parts@).take(i + 1) =~= seqs_of(parts@).take(i as int).push(
            parts@[i as int]@,
        ));
        i = i + 1;
    }
    let mount = join_with_spaces(&head);
    Some(
        DiskEntry {
            mount: string_of(&mount),
            size: string_of(parts[n - 4].as_slice()),
            used: string_of(parts[n - 3].as_slice()),
            avail: string_of(parts[n - 2].as_slice()),
            percent,
        },
    )
}

/// Parse the output of `df -h --output=target,size,used,avail,pcent`.
pub fn parse_df_output(output: &str) -> (entries: Vec<DiskEntry>)
    ensures
        disk_views(entries@) == parse_df(output@),
{
    let cs = chars_of(output);
    let ls = lines_of(&cs);
    let ghost body = body_lines(output@);
    let mut entries: Vec<DiskEntry> = Vec::new();
    if ls.len() == 0 {
        return entries;
    }
    assert(body =~= seqs_of(ls@).drop_first());
    let mut i: usize = 1;
    while i < ls.len()
        invariant
            1 <= i <= ls@.len(),
            body == seqs_of(ls@).drop_first(),
            disk_views(entries@) == df_entries(body.take(i - 1)),
        decreases ls@.len() - i,
    {
        assert(body.take(i as int).drop_last() =~= body.take(i - 1));
        assert(body.take(i as int).last() == ls@[i as int]@);
        let ghost prev = disk_views(entries@);
        match parse_df_line(ls[i].as_slice()) {
            Some(d) => {
                entries.push(d);
                assert(disk_views(entries@) =~= prev + seq![d@]);
            },
            None => {
                assert(prev + seq![] =~= prev);
            },
        }
        i = i + 1;
    }
    assert(body.take(ls@.len() - 1) =~= body);
    entries
}

/// The disks known, each taken by its view, if any are.
pub open spec fn known_disks(d: Option<Vec<DiskEntry>>) -> Option<Seq<DiskEntryView>> {
    match d {
        Some(v) => Some(disk_views(v@)),
        None => None,
    }
}

/// The disks known after a collection whose `df` command gave `output`
/// (`None` when it failed or took too long): the entries of the output, or
/// else the disks known before, which a failed collection keeps.
pub fn disks_after(previous: Option<Vec<DiskEntry>>, output: Option<&str>) -> (r: Option<Vec<DiskEntry>>)
    ensures
        known_disks(r) == match output {
            Some(o) => Some(parse_df(o@)),
            None => known_disks(previous),
        },
{
    match output {
        Some(o) => Some(parse_df_output(o)),
        None => previous,
    }
}

/// A mount line reports the percentage its last word writes, whenever that
/// number fits in a `u8`: a line of five or more words whose last word is
/// the decimal number `n`, with or without a `%` after it, has percentage
/// `n` (a full disk is at 100); the three words before it are the size, the
/// used and the available space, and the words before those the mount point
/// (the first word, on a line of five).
pub proof fn lemma_df_line_percent(line: Seq<char>, n: u8)
    requires
        words(line).len() >= 5,
        words(line).last() == decimal(n as nat) || words(line).last() == decimal(n as nat).push(
            '%',
        ),
    ensures
        df_entry(line) matches Some(e) && e.percent == n && e.mount == join_spaced(
            words(line).take(words(line).len() - 4),
        ) && e.size == words(line)[words(line).len() - 4] && e.used == words(line)[words(line).len()
            - 3] && e.avail == words(line)[words(line).len() - 2],
        words(line).len() == 5 ==> (df_entry(line) matches Some(e) && e.mount == words(line)[0]),
{
    let d = decimal(n as nat);
    lemma_decimal_digits(n as nat);
    assert(is_digit(d.last()));
    assert(strip_trailing(d, '%') == d);
    if words(line).last() == d.push('%') {
        assert(d.push('%').drop_last() =~= d);
    }
    lemma_parse_decimal(n as nat, 255);
}

/// A line of fewer than five words describes no mount.
pub proof fn lemma_df_line_rejected(line: Seq<char>)
    ensures
        words(line).len() < 5 ==> df_entry(line) is None,
        words(line).len() >= 5 ==> df_entry(line) is Some,
{
}

} // verus!
