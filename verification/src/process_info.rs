//! The busiest processes of a host, from the output of `ps aux`.
use vstd::prelude::*;

use crate::disk_info::body_lines;
use crate::text::{
    all_digits, chars_of, decimal, join_spaced, join_with_spaces, lemma_parse_decimal, lines_of, parse_uint,
    parse_unsigned, seqs_of, string_of, sub_chars, words, words_of,
};

verus! {

/// A single process entry from `ps aux`. The CPU and memory shares are kept
/// as the text `ps` printed (a decimal number such as `25.3`).
pub struct ProcessEntry {
    pub pid: u32,
    pub user: String,
    pub cpu: String,
    pub mem: String,
    pub command: String,
}

pub struct ProcessEntryView {
    pub pid: u32,
    pub user: Seq<char>,
    pub cpu: Seq<char>,
    pub mem: Seq<char>,
    pub command: Seq<char>,
}

impl View for ProcessEntry {
    type V = ProcessEntryView;

    open spec fn view(&self) -> ProcessEntryView {
        ProcessEntryView {
            pid: self.pid,
            user: self.user@,
            cpu: self.cpu@,
            mem: self.mem@,
            command: self.command@,
        }
    }
}

pub open spec fn process_views(v: Seq<ProcessEntry>) -> Seq<ProcessEntryView> {
    v.map_values(|p: ProcessEntry| p@)
}

/// The process one line of `ps aux` describes (`USER PID %CPU %MEM VSZ RSS
/// TTY STAT START TIME COMMAND...`): lines of fewer than eleven words, or
/// whose PID is not a `u32`, describe none; the command is every word from
/// the eleventh on, joined by spaces.
pub open spec fn ps_entry(line: Seq<char>) -> Option<ProcessEntryView> {
    let f = words(line);
    if f.len() < 11 {
        None
    } else {
        match parse_unsigned(f[1], 0xffff_ffff) {
            Some(pid) => Some(
                ProcessEntryView {
                    pid: pid as u32,
                    user: f[0],
                    cpu: f[2],
                    mem: f[3],
                    command: join_spaced(f.skip(10)),
                },
            ),
            None => None,
        }
    }
}

/// The processes the lines `ls` describe, in order.
pub open spec fn ps_entries(ls: Seq<Seq<char>>) -> Seq<ProcessEntryView>
    decreases ls.len(),
{
    if ls.len() == 0 {
        seq![]
    } else {
        ps_entries(ls.drop_last()) + match ps_entry(ls.last()) {
            Some(e) => seq![e],
            None => seq![],
        }
    }
}

/// The processes that the output of `ps aux` describes, after its header line.
pub open spec fn parse_ps(output: Seq<char>) -> Seq<ProcessEntryView> {
    ps_entries(body_lines(output))
}

/// The process that one line of `ps aux` output describes.
pub fn parse_ps_line(line: &[char]) -> (r: Option<ProcessEntry>)
    ensures
        match ps_entry(line@) {
            Some(e) => r matches Some(p) && p@ == e,
            None => r is None,
        },
{
    let fields = words_of(line);
    let n = fields.len();
    if n < 11 {
        return None;
    }
    let pid: u32 = match parse_uint(fields[1].as_slice(), 0xffff_ffff) {
        Some(v) => v as u32,
        None => return None,
    };
    let mut tail: Vec<Vec<char>> = Vec::new();
    let mut i: usize = 10;
    while i < n
        invariant
            n == fields@.len() >= 11,
            10 <= i <= n,
            seqs_of(tail@) == seqs_of(fields@).subrange(10, i as int),
        decreases n - i,
    {
        let ghost prev = seqs_of(tail@);
        tail.push(sub_chars(fields[i].as_slice(), 0, fields[i].len()));
        assert(fields@[i as int]@.subrange(0, fields@[i as int]@.len() as int)
            =~= fields@[i as int]@);
        assert(seqs_of(tail@) =~= prev.push(fields@[i as int]@));
        assert(seqs_of(fields@).subrange(10, i + 1) =~= seqs_of(fields@).subrange(10, i as int).push(
            fields@[i as int]@,
        ));
        i = i + 1;
    }
    assert(seqs_of(fields@).subrange(10, n as int) =~= seqs_of(fields@).skip(10));
    let command = join_with_spaces(&tail);
    Some(
        ProcessEntry {
            pid,
            user: string_of(fields[0].as_slice()),
            cpu: string_of(fields[2].as_slice()),
            mem: string_of(fields[3].as_slice()),
            command: string_of(&command),
        },
    )
}

/// Parse the output of `ps aux --sort=-%cpu | head -20`.
/// Format: USER PID %CPU %MEM VSZ RSS TTY STAT START TIME COMMAND
pub fn parse_ps_output(output: &str) -> (entries: Vec<ProcessEntry>)
    ensures
        process_views(entries@) == parse_ps(output@),
{
    let cs = chars_of(output);
    let ls = lines_of(&cs);
    let ghost body = body_lines(output@);
    let mut entries: Vec<ProcessEntry> = Vec::new();
    if ls.len() == 0 {
        return entries;
    }
    assert(body =~= seqs_of(ls@).drop_first());
    let mut i: usize = 1;
    while i < ls.len()
        invariant
            1 <= i <= ls@.len(),
            body == seqs_of(ls@).drop_first(),
            process_views(entries@) == ps_entries(body.take(i - 1)),
        decreases ls@.len() - i,
    {
        assert(body.take(i as int).drop_last() =~= body.take(i - 1));
        assert(body.take(i as int).last() == ls@[i as int]@);
        let ghost prev = process_views(entries@);
        match parse_ps_line(ls[i].as_slice()) {
            Some(p) => {
                entries.push(p);
                assert(process_views(entries@) =~= prev + seq![p@]);
            },
            None => {
                assert(prev + seq![] =~= prev);
            },
        }
        i = i + 1;
    }
    assert(body.take(ls@.len() - 1) =~= body);
    entries
}

/// Every process line names its process by its PID, whatever the size of
/// that number up to `u32::MAX`: a line of eleven or more words whose second
/// word is the decimal number `n` describes the process `n`, run by the
/// first word's user, with the third and fourth words as its CPU and memory
/// shares; its command starts with the eleventh word, and is that word when
/// the line has no more.
pub proof fn lemma_ps_line_pid(line: Seq<char>, n: u32)
    requires
        words(line).len() >= 11,
        words(line)[1] == decimal(n as nat),
    ensures
        ps_entry(line) matches Some(e) && e.pid == n && e.user == words(line)[0] && e.cpu
            == words(line)[2] && e.mem == words(line)[3] && e.command.take(
            words(line)[10].len() as int,
        ) == words(line)[10],
        words(line).len() == 11 ==> (ps_entry(line) matches Some(e) && e.command == words(line)[10]),
{
    lemma_parse_decimal(n as nat, 0xffff_ffff);
    lemma_join_starts_with_first(words(line).skip(10));
    assert(words(line).skip(10)[0] == words(line)[10]);
}

/// Joined words start with the first of them.
proof fn lemma_join_starts_with_first(ws: Seq<Seq<char>>)
    requires
        ws.len() > 0,
    ensures
        join_spaced(ws).take(ws[0].len() as int) == ws[0],
    decreases ws.len(),
{
    if ws.len() == 1 {
        assert(join_spaced(ws).take(ws[0].len() as int) =~= ws[0]);
    } else {
        lemma_join_starts_with_first(ws.drop_last());
        let j = join_spaced(ws.drop_last());
        assert(j.take(ws[0].len() as int) == ws.drop_last()[0]);
        lemma_join_len(ws.drop_last());
        assert((j + seq![' '] + ws.last()).take(ws[0].len() as int) =~= j.take(ws[0].len() as int));
    }
}

proof fn lemma_join_len(ws: Seq<Seq<char>>)
    requires
        ws.len() > 0,
    ensures
        join_spaced(ws).len() >= ws[0].len(),
    decreases ws.len(),
{
    if ws.len() > 1 {
        lemma_join_len(ws.drop_last());
    }
}

/// A line of fewer than eleven words, or whose second word is not a
/// number (it has a character other than a digit, and no leading `+`),
/// describes no process.
pub proof fn lemma_ps_line_rejected(line: Seq<char>)
    ensures
        words(line).len() < 11 ==> ps_entry(line) is None,
        words(line).len() >= 2 && !all_digits(words(line)[1]) && words(line)[1][0] != '+'
            ==> ps_entry(line) is None,
{
}

} // verus!
