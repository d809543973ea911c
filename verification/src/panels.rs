//! The panels of the focus view: the sizes, offsets and texts of the file
//! sidebar, the disk panel, the main panel and the terminal pane.
use vstd::prelude::*;
use vstd::utf8::{encode_scalar, encode_utf8};

use crate::disk_info::DiskEntry;
use crate::text::{
    chars_of, decimal, decimal_chars, lowercase, push_chars, push_str, string_of, sub_chars, to_lowercase,
    trim, trim_chars,
};
use crate::view::Tone;

verus! {

broadcast use vstd::utf8::char_is_scalar;

// ---------------------------------------------------------------------------
// Text measures
// ---------------------------------------------------------------------------

/// The number of bytes of the UTF-8 encoding of `s` (`str::len`).
pub open spec fn byte_len(s: Seq<char>) -> nat {
    encode_utf8(s).len()
}

/// The UTF-8 encoding of a concatenation is that of its parts, one after
/// the other.
pub proof fn lemma_encode_concat(a: Seq<char>, b: Seq<char>)
    ensures
        encode_utf8(a + b) =~= encode_utf8(a) + encode_utf8(b),
    decreases a.len(),
{
    if a.len() > 0 {
        lemma_encode_concat(a.drop_first(), b);
        assert((a + b).drop_first() =~= a.drop_first() + b);
        assert((a + b)[0] == a[0]);
    } else {
        assert(a + b =~= b);
    }
}

proof fn lemma_encode_single(c: char)
    ensures
        encode_utf8(seq![c]) =~= encode_scalar(c as u32),
{
    assert(seq![c].drop_first() =~= Seq::<char>::empty());
    assert(encode_utf8(Seq::<char>::empty()) =~= Seq::<u8>::empty());
    assert(encode_utf8(seq![c]) == encode_scalar(c as u32) + encode_utf8(Seq::<char>::empty()));
}

proof fn lemma_encode_push(a: Seq<char>, c: char)
    ensures
        encode_utf8(a.push(c)) =~= encode_utf8(a) + encode_scalar(c as u32),
{
    lemma_encode_concat(a, seq![c]);
    assert(a.push(c) =~= a + seq![c]);
    lemma_encode_single(c);
}

/// The number of bytes of the UTF-8 encoding of `c`.
fn utf8_width(c: char) -> (n: usize)
    ensures
        n == encode_scalar(c as u32).len(),
        1 <= n <= 4,
{
    let v = c as u32;
    if v <= 0x7F {
        1
    } else if v <= 0x7FF {
        2
    } else if v <= 0xFFFF {
        3
    } else {
        4
    }
}

/// `s` padded with spaces on the right to `w` characters (`{:<w}`).
pub open spec fn pad_right(s: Seq<char>, w: nat) -> Seq<char> {
    if s.len() >= w {
        s
    } else {
        s + Seq::new((w - s.len()) as nat, |i: int| ' ')
    }
}

/// `s` padded with spaces on the left to `w` characters (`{:>w}`).
pub open spec fn pad_left(s: Seq<char>, w: nat) -> Seq<char> {
    if s.len() >= w {
        s
    } else {
        Seq::new((w - s.len()) as nat, |i: int| ' ') + s
    }
}

fn pad_right_chars(v: &mut Vec<char>, w: usize)
    ensures
        final(v)@ == pad_right(old(v)@, w as nat),
{
    let ghost v0 = v@;
    if v.len() < w {
        let k = w - v.len();
        let mut i: usize = 0;
        while i < k
            invariant
                i <= k,
                k == w - v0.len(),
                v@ == v0 + Seq::new(i as nat, |j: int| ' '),
            decreases k - i,
        {
            v.push(' ');
            assert(v0 + Seq::new((i + 1) as nat, |j: int| ' ') =~= (v0 + Seq::new(
                i as nat,
                |j: int| ' ',
            )).push(' '));
            i = i + 1;
        }
    }
}

fn pad_left_chars(v: &Vec<char>, w: usize) -> (r: Vec<char>)
    ensures
        r@ == pad_left(v@, w as nat),
{
    let mut r: Vec<char> = Vec::new();
    if v.len() < w {
        let k = w - v.len();
        let mut i: usize = 0;
        while i < k
            invariant
                i <= k,
                r@ == Seq::new(i as nat, |j: int| ' '),
            decreases k - i,
        {
            r.push(' ');
            assert(Seq::new((i + 1) as nat, |j: int| ' ') =~= Seq::new(i as nat, |j: int| ' ').push(
                ' ',
            ));
            i = i + 1;
        }
    }
    push_chars(&mut r, v);
    r
}

/// `n` copies of `c`.
pub open spec fn repeated(c: char, n: nat) -> Seq<char> {
    Seq::new(n, |i: int| c)
}

fn push_repeated(v: &mut Vec<char>, c: char, n: usize)
    ensures
        final(v)@ == old(v)@ + repeated(c, n as nat),
{
    let ghost v0 = v@;
    let mut i: usize = 0;
    while i < n
        invariant
            i <= n,
            v@ == v0 + repeated(c, i as nat),
        decreases n - i,
    {
        v.push(c);
        assert(v0 + repeated(c, (i + 1) as nat) =~= (v0 + repeated(c, i as nat)).push(c));
        i = i + 1;
    }
}

// ---------------------------------------------------------------------------
// The file sidebar
// ---------------------------------------------------------------------------

/// Index of the last `'/'` in `s`, if any.
pub open spec fn last_slash(s: Seq<char>) -> Option<int>
    decreases s.len(),
{
    if s.len() == 0 {
        None
    } else if s.last() == '/' {
        Some(s.len() - 1)
    } else {
        last_slash(s.drop_last())
    }
}

/// The path shown as the sidebar's title for a sidebar `width` columns
/// wide: the path itself when it fits (its bytes at most the width less
/// four), else `…/` and its last component, when it has a `/`.
pub open spec fn path_shown(path: Seq<char>, width: nat) -> Seq<char> {
    let room = if width >= 4 {
        width - 4
    } else {
        0
    };
    if byte_len(path) > room {
        match last_slash(path) {
            Some(i) => "…/"@ + path.subrange(i + 1, path.len() as int),
            None => path,
        }
    } else {
        path
    }
}

proof fn lemma_last_slash(s: Seq<char>)
    ensures
        last_slash(s) matches Some(i) ==> 0 <= i < s.len(),
    decreases s.len(),
{
    if s.len() > 0 && s.last() != '/' {
        lemma_last_slash(s.drop_last());
    }
}

fn find_last_slash(v: &Vec<char>) -> (r: Option<usize>)
    ensures
        (match r {
            Some(i) => Some(i as int),
            None => None,
        }) == last_slash(v@),
        r matches Some(i) ==> i < v@.len(),
{
    proof {
        lemma_last_slash(v@);
    }
    let mut k = v.len();
    assert(v@.take(k as int) =~= v@);
    while k > 0
        invariant
            k <= v@.len(),
            last_slash(v@) == last_slash(v@.take(k as int)),
        decreases k,
    {
        assert(v@.take(k as int).drop_last() =~= v@.take(k - 1));
        if v[k - 1] == '/' {
            return Some(k - 1);
        }
        k = k - 1;
    }
    None
}

/// The path to show as the sidebar's title (see `path_shown`).
pub fn path_display(path: &str, width: u16) -> (r: String)
    requires
        byte_len(path@) <= usize::MAX,
    ensures
        r@ == path_shown(path@, width as nat),
{
    let room = if width >= 4 {
        (width - 4) as usize
    } else {
        0
    };
    if path.len() > room {
        let cs = chars_of(path);
        let len = cs.len();
        match find_last_slash(&cs) {
            Some(i) => {
                let mut v = chars_of("…/");
                let rest = sub_chars(&cs, i + 1, len);
                push_chars(&mut v, &rest);
                string_of(&v)
            },
            None => path.to_owned(),
        }
    } else {
        path.to_owned()
    }
}

/// The lines above the entries: the goto prompt and up to six suggestions,
/// or the search prompt, or none.
pub open spec fn header_lines_of(goto_mode: bool, suggestions: nat, search_mode: bool) -> nat {
    if goto_mode {
        1 + if suggestions <= 6 {
            suggestions
        } else {
            6
        }
    } else if search_mode {
        1
    } else {
        0
    }
}

pub fn header_lines(goto_mode: bool, suggestions: usize, search_mode: bool) -> (n: usize)
    ensures
        n == header_lines_of(goto_mode, suggestions as nat, search_mode),
{
    if goto_mode {
        1 + if suggestions <= 6 {
            suggestions
        } else {
            6
        }
    } else if search_mode {
        1
    } else {
        0
    }
}

/// The first entry shown when `total` entries are listed in `height` lines
/// with entry `selected` under the cursor: the list scrolls so that the
/// selected entry stays in the middle, without scrolling past either end.
pub open spec fn scroll_offset_of(total: nat, selected: nat, height: nat) -> nat {
    if total <= height {
        0
    } else if selected < height / 2 {
        0
    } else if selected + height / 2 >= total {
        (total - height) as nat
    } else {
        (selected - height / 2) as nat
    }
}

pub fn scroll_offset(total: usize, selected: usize, height: usize) -> (r: usize)
    requires
        selected + height / 2 <= usize::MAX,
    ensures
        r == scroll_offset_of(total as nat, selected as nat, height as nat),
        r + height >= total || r <= selected,
{
    if total <= height {
        0
    } else if selected < height / 2 {
        0
    } else if selected + height / 2 >= total {
        total - height
    } else {
        selected - height / 2
    }
}

/// Whether `t` occurs in `s` (`str::contains`).
pub open spec fn occurs_in(t: Seq<char>, s: Seq<char>) -> bool {
    exists|i: int| 0 <= i && i + t.len() <= s.len() && #[trigger] s.subrange(i, i + t.len()) == t
}

fn occurs(t: &Vec<char>, s: &Vec<char>) -> (b: bool)
    ensures
        b == occurs_in(t@, s@),
{
    if t.len() == 0 {
        assert(s@.subrange(0int, 0int + t@.len()) =~= t@);
        return true;
    }
    if t.len() > s.len() {
        return false;
    }
    let slen = s.len();
    let n = slen - t.len() + 1;
    let mut i: usize = 0;
    while i < n
        invariant
            slen == s@.len(),
            n == s@.len() - t@.len() + 1,
            i <= n,
            t@.len() > 0,
            forall|j: int| 0 <= j < i ==> #[trigger] s@.subrange(j, j + t@.len()) != t@,
        decreases n - i,
    {
        let mut k: usize = 0;
        let mut same = true;
        while k < t.len()
            invariant
                slen == s@.len(),
                n == s@.len() - t@.len() + 1,
                i < n,
                k <= t@.len(),
                same == (forall|q: int| 0 <= q < k ==> s@[i + q] == t@[q]),
            decreases t@.len() - k,
        {
            if s[i + k] != t[k] {
                same = false;
            }
            k = k + 1;
        }
        if same {
            assert(s@.subrange(i as int, i + t@.len()) =~= t@);
            return true;
        }
        assert(s@.subrange(i as int, i + t@.len()) != t@) by {
            let q = choose|q: int| 0 <= q < t@.len() && s@[i + q] != t@[q];
            assert(s@.subrange(i as int, i + t@.len())[q] == s@[i + q]);
        }
        i = i + 1;
    }
    false
}

/// Whether an entry named `name` is listed: always outside a search, and
/// in a search with a query when the lowercase name contains the lowercase
/// query.
pub open spec fn entry_listed(name: Seq<char>, search_mode: bool, query: Seq<char>) -> bool {
    !(search_mode && query.len() > 0) || occurs_in(lowercase(query), lowercase(name))
}

/// The indices of the entries named `names` that are listed, in order
/// (see `entry_listed`).
pub open spec fn listed(names: Seq<Seq<char>>, search_mode: bool, query: Seq<char>) -> Seq<int>
    decreases names.len(),
{
    if names.len() == 0 {
        seq![]
    } else {
        let rest = listed(names.drop_last(), search_mode, query);
        if entry_listed(names.last(), search_mode, query) {
            rest.push(names.len() - 1)
        } else {
            rest
        }
    }
}

/// The indices of the listed entries among those named `names`.
pub fn listed_entries(names: &Vec<String>, search_mode: bool, query: &str) -> (r: Vec<usize>)
    ensures
        r@.map_values(|i: usize| i as int) == listed(
            names@.map_values(|s: String| s@),
            search_mode,
            query@,
        ),
{
    let ghost ns = names@.map_values(|s: String| s@);
    let filtering = search_mode && !query.is_empty();
    let q = if filtering {
        let ql = to_lowercase(query);
        chars_of(ql.as_str())
    } else {
        Vec::new()
    };
    let mut r: Vec<usize> = Vec::new();
    let mut k: usize = 0;
    while k < names.len()
        invariant
            k <= names@.len(),
            ns == names@.map_values(|s: String| s@),
            filtering == (search_mode && query@.len() > 0),
            filtering ==> q@ == lowercase(query@),
            r@.map_values(|i: usize| i as int) == listed(ns.take(k as int), search_mode, query@),
        decreases names@.len() - k,
    {
        assert(ns.take(k + 1).drop_last() =~= ns.take(k as int));
        assert(ns.take(k + 1).last() == names@[k as int]@);
        let keep = if filtering {
            let nl = to_lowercase(names[k].as_str());
            let n = chars_of(nl.as_str());
            occurs(&q, &n)
        } else {
            true
        };
        if keep {
            let ghost before = r@;
            r.push(k);
            assert(r@.map_values(|i: usize| i as int) =~= before.map_values(|i: usize| i as int).push(
                k as int,
            ));
        }
        k = k + 1;
    }
    assert(ns.take(names@.len() as int) =~= ns);
    r
}

/// How a sidebar line is shown.
#[derive(Debug, Clone, Copy, PartialEq, Eq, Structural)]
pub enum EntryStyle {
    /// Black on a bright background, bold: the selected line of the panel
    /// that has the input.
    Highlighted,
    /// Cyan and bold: the selected entry otherwise.
    Selected,
    /// Blue: a directory.
    Directory,
    /// White: a file.
    File,
}

/// The style of entry `i` of the sidebar.
pub open spec fn entry_style_of(i: nat, selected: nat, active: bool, is_dir: bool) -> EntryStyle {
    if i == selected && active {
        EntryStyle::Highlighted
    } else if i == selected {
        EntryStyle::Selected
    } else if is_dir {
        EntryStyle::Directory
    } else {
        EntryStyle::File
    }
}

pub fn entry_style(i: usize, selected: usize, active: bool, is_dir: bool) -> (s: EntryStyle)
    ensures
        s == entry_style_of(i as nat, selected as nat, active, is_dir),
{
    if i == selected && active {
        EntryStyle::Highlighted
    } else if i == selected {
        EntryStyle::Selected
    } else if is_dir {
        EntryStyle::Directory
    } else {
        EntryStyle::File
    }
}

/// The text of an entry: a folder or page icon and the name.
pub open spec fn entry_text_of(name: Seq<char>, is_dir: bool) -> Seq<char> {
    (if is_dir {
        "📁 "@
    } else {
        "📄 "@
    }) + name
}

pub fn entry_text(name: &str, is_dir: bool) -> (s: String)
    ensures
        s@ == entry_text_of(name@, is_dir),
{
    let mut v = if is_dir {
        chars_of("📁 ")
    } else {
        chars_of("📄 ")
    };
    push_str(&mut v, name);
    string_of(&v)
}

/// The text of a goto suggestion: indented, a directory with a `/`.
pub open spec fn suggestion_text_of(name: Seq<char>, is_dir: bool) -> Seq<char> {
    "  "@ + name + if is_dir {
        "/"@
    } else {
        ""@
    }
}

pub fn suggestion_text(name: &str, is_dir: bool) -> (s: String)
    ensures
        s@ == suggestion_text_of(name@, is_dir),
{
    let mut v = chars_of("  ");
    push_str(&mut v, name);
    if is_dir {
        push_str(&mut v, "/");
    } else {
        push_str(&mut v, "");
    }
    string_of(&v)
}

/// The style of suggestion `i`: highlighted when selected, else by kind.
pub open spec fn suggestion_style_of(i: nat, selected: nat, is_dir: bool) -> EntryStyle {
    if i == selected {
        EntryStyle::Highlighted
    } else if is_dir {
        EntryStyle::Directory
    } else {
        EntryStyle::File
    }
}

pub fn suggestion_style(i: usize, selected: usize, is_dir: bool) -> (s: EntryStyle)
    ensures
        s == suggestion_style_of(i as nat, selected as nat, is_dir),
{
    if i == selected {
        EntryStyle::Highlighted
    } else if is_dir {
        EntryStyle::Directory
    } else {
        EntryStyle::File
    }
}

// ---------------------------------------------------------------------------
// The disk panel
// ---------------------------------------------------------------------------

/// The tone of a usage percentage: green below 70, yellow below 90, red
/// from 90 on.
pub open spec fn usage_tone_of(percent: u8) -> Tone {
    if percent < 70 {
        Tone::Green
    } else if percent < 90 {
        Tone::Yellow
    } else {
        Tone::Red
    }
}

pub fn usage_tone(percent: u8) -> (t: Tone)
    ensures
        t == usage_tone_of(percent),
{
    if percent < 70 {
        Tone::Green
    } else if percent < 90 {
        Tone::Yellow
    } else {
        Tone::Red
    }
}

/// How many of `width` cells a bar fills for `value` percent (at most all).
pub open spec fn bar_fill_of(value: nat, width: nat) -> nat {
    if value * width / 100 <= width {
        value * width / 100
    } else {
        width
    }
}

pub fn bar_fill(value: usize, width: usize) -> (n: usize)
    requires
        value * width <= usize::MAX,
    ensures
        n == bar_fill_of(value as nat, width as nat),
        n <= width,
{
    let f = value * width / 100;
    if f <= width {
        f
    } else {
        width
    }
}

/// The parts of a disk panel line: the mount point padded to six columns,
/// used and total size, an eight-cell bar, and the percentage; the bar and
/// percentage take the tone of the usage.
pub struct DiskLine {
    pub mount: String,
    pub usage: String,
    pub bar: String,
    pub percent: String,
    pub tone: Tone,
}

pub open spec fn disk_bar_of(percent: u8) -> Seq<char> {
    let filled = bar_fill_of(percent as nat, 8);
    repeated('█', filled) + repeated('░', (8 - filled) as nat)
}

pub fn disk_line(d: &DiskEntry) -> (l: DiskLine)
    ensures
        l.mount@ == pad_right(d.mount@, 6),
        l.usage@ == d.used@ + "/"@ + d.size@ + " "@,
        l.bar@ == disk_bar_of(d.percent),
        l.percent@ == " "@ + decimal(d.percent as nat) + "%"@,
        l.tone == usage_tone_of(d.percent),
{
    let mut m = chars_of(d.mount.as_str());
    pad_right_chars(&mut m, 6);
    let mut u = chars_of(d.used.as_str());
    push_str(&mut u, "/");
    push_str(&mut u, d.size.as_str());
    push_str(&mut u, " ");
    let filled = bar_fill(d.percent as usize, 8);
    let mut b: Vec<char> = Vec::new();
    push_repeated(&mut b, '█', filled);
    push_repeated(&mut b, '░', 8 - filled);
    assert(b@ =~= disk_bar_of(d.percent));
    let mut p = chars_of(" ");
    let digits = decimal_chars(d.percent as u64);
    push_chars(&mut p, &digits);
    push_str(&mut p, "%");
    DiskLine {
        mount: string_of(&m),
        usage: string_of(&u),
        bar: string_of(&b),
        percent: string_of(&p),
        tone: usage_tone(d.percent),
    }
}

// ---------------------------------------------------------------------------
// The main panel
// ---------------------------------------------------------------------------

/// The gutter before line `n` of a file: the number right-aligned in four
/// columns and a bar.
pub open spec fn gutter_of(n: nat) -> Seq<char> {
    pad_left(decimal(n), 4) + " │ "@
}

pub fn gutter(n: u64) -> (s: String)
    ensures
        s@ == gutter_of(n as nat),
{
    let d = decimal_chars(n);
    let mut v = pad_left_chars(&d, 4);
    push_str(&mut v, " │ ");
    string_of(&v)
}

/// The room left for a command in a process line `width` columns wide.
pub open spec fn command_room(width: nat) -> nat {
    if width >= 32 {
        (width - 32) as nat
    } else {
        0
    }
}

/// The command shown in a process line `width` columns wide: the command
/// when its bytes fit the room, else its first room-less-one bytes and an
/// ellipsis. Cutting there must not split a character.
pub open spec fn command_shown(cmd: Seq<char>, width: nat) -> Seq<char> {
    let room = command_room(width);
    if byte_len(cmd) > room {
        cmd.take(chars_within(cmd, if room >= 1 {
            (room - 1) as nat
        } else {
            0
        }) as int).push('…')
    } else {
        cmd
    }
}

/// The number of leading characters of `s` whose encoding fills exactly
/// `bytes` bytes (meaningful where `bytes` is a character boundary).
pub open spec fn chars_within(s: Seq<char>, bytes: nat) -> nat
    decreases s.len(),
{
    if bytes == 0 || s.len() == 0 {
        0
    } else {
        let w = encode_scalar(s[0] as u32).len();
        if w <= bytes {
            1 + chars_within(s.drop_first(), (bytes - w) as nat)
        } else {
            0
        }
    }
}

/// Whether `bytes` is where a character of `s` starts (or the end).
pub open spec fn at_char_boundary(s: Seq<char>, bytes: nat) -> bool {
    exists|k: int| 0 <= k <= s.len() && #[trigger] byte_len(s.take(k)) == bytes
}

/// The command to show in a process line `width` columns wide (see
/// `command_shown`).
pub fn command_display(cmd: &str, width: u16) -> (r: String)
    requires
        byte_len(cmd@) <= usize::MAX,
        byte_len(cmd@) > command_room(width as nat) ==> at_char_boundary(
            cmd@,
            if command_room(width as nat) >= 1 {
                (command_room(width as nat) - 1) as nat
            } else {
                0
            },
        ),
    ensures
        r@ == command_shown(cmd@, width as nat),
{
    let room: usize = if width >= 32 {
        (width - 32) as usize
    } else {
        0
    };
    if cmd.len() <= room {
        return cmd.to_owned();
    }
    let cut: usize = if room >= 1 {
        room - 1
    } else {
        0
    };
    let cs = chars_of(cmd);
    proof {
        assert(cs@.skip(0) =~= cs@);
        assert(cs@.take(0) =~= Seq::<char>::empty());
        assert(encode_utf8(Seq::<char>::empty()) =~= Seq::<u8>::empty());
    }
    // Take characters while their bytes stay within the cut.
    let mut n: usize = 0;
    let mut used: usize = 0;
    let mut done = false;
    while n < cs.len() && !done
        invariant
            cs@ == cmd@,
            n <= cs@.len(),
            used == byte_len(cs@.take(n as int)),
            used <= cut,
            chars_within(cs@, cut as nat) == n + chars_within(cs@.skip(n as int), (cut - used) as nat),
            done ==> n < cs@.len() && encode_scalar(cs@[n as int] as u32).len() > cut - used,
        decreases cs@.len() - n, if done {
            0int
        } else {
            1int
        },
    {
        let w = utf8_width(cs[n]);
        proof {
            assert(cs@.skip(n as int)[0] == cs@[n as int]);
        }
        if w > cut - used {
            done = true;
        } else {
            proof {
                assert(cs@.take(n + 1) =~= cs@.take(n as int).push(cs@[n as int]));
                lemma_encode_push(cs@.take(n as int), cs@[n as int]);
                assert(cs@.skip(n as int).drop_first() =~= cs@.skip(n + 1));
            }
            used = used + w;
            n = n + 1;
        }
    }
    proof {
        if n < cs@.len() {
            assert(cs@.skip(n as int)[0] == cs@[n as int]);
        } else {
            assert(cs@.skip(n as int).len() == 0);
        }
        assert(chars_within(cs@.skip(n as int), (cut - used) as nat) == 0);
    }
    let mut v = sub_chars(&cs, 0, n);
    v.push('…');
    assert(cs@.subrange(0, n as int) =~= cs@.take(n as int));
    string_of(&v)
}

// ---------------------------------------------------------------------------
// The terminal pane
// ---------------------------------------------------------------------------

/// The last of the screen rows `rows` with something other than whitespace
/// on it, or 0.
pub open spec fn last_content_of(rows: Seq<Seq<char>>) -> nat
    decreases rows.len(),
{
    if rows.len() == 0 {
        0
    } else if trim(rows.last()).len() > 0 {
        (rows.len() - 1) as nat
    } else {
        last_content_of(rows.drop_last())
    }
}

pub fn last_content_row(rows: &Vec<String>) -> (r: usize)
    ensures
        r == last_content_of(rows@.map_values(|s: String| s@)),
{
    let ghost ss = rows@.map_values(|s: String| s@);
    let mut k = rows.len();
    assert(ss.take(k as int) =~= ss);
    while k > 0
        invariant
            k <= rows@.len(),
            ss == rows@.map_values(|s: String| s@),
            last_content_of(ss) == last_content_of(ss.take(k as int)),
        decreases k,
    {
        assert(ss.take(k as int).drop_last() =~= ss.take(k - 1));
        assert(ss.take(k as int).last() == rows@[k - 1]@);
        let cs = chars_of(rows[k - 1].as_str());
        let t = trim_chars(&cs);
        if t.len() > 0 {
            return k - 1;
        }
        k = k - 1;
    }
    assert(ss.take(0) =~= Seq::<Seq<char>>::empty());
    0
}

/// The screen rows shown in a pane `pane` rows high, of a screen of
/// `total` rows whose last row with content is `last`: the rows up to that
/// one, as many as fit, ending with it.
pub open spec fn window_of(last: nat, total: nat, pane: nat) -> (nat, nat) {
    let end = if last + 1 <= total {
        last + 1
    } else {
        total
    };
    (if end > pane {
        (end - pane) as nat
    } else {
        0
    }, end)
}

pub fn terminal_window(last: usize, total: usize, pane: usize) -> (r: (usize, usize))
    requires
        last < usize::MAX,
    ensures
        (r.0 as nat, r.1 as nat) == window_of(last as nat, total as nat, pane as nat),
{
    let end = if last + 1 <= total {
        last + 1
    } else {
        total
    };
    let start = if end > pane {
        end - pane
    } else {
        0
    };
    (start, end)
}

} // verus!
