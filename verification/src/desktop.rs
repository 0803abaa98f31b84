//! Parsing of desktop-entry text into a selectable item's fields.
//!
//! The parser walks the entry line by line, tracking whether it is
//! inside the main `[Desktop Entry]` section, and collects the display
//! name, the command (with `%`-placeholders dropped), the terminal and
//! visibility flags, the icon, and — for container wrappers — the
//! container name named by the command's flags. Reading the file from
//! disk is the scanning collaborator's job; the parser sees plain text.

use vstd::prelude::*;
use crate::text::{
    contains_seq,
    contains_sub,
    is_ws_char,
    join_space,
    join_with_spaces,
    seq_views,
    split_whitespace,
    split_ws,
    str_eq,
    ws_char,
};

verus! {

/// Length of the leading run of whitespace characters.
pub open spec fn ws_prefix_len(s: Seq<char>) -> int
    decreases s.len(),
{
    if s.len() == 0 || !is_ws_char(s[0]) {
        0
    } else {
        1 + ws_prefix_len(s.drop_first())
    }
}

/// Length of the trailing run of whitespace characters.
pub open spec fn ws_suffix_len(s: Seq<char>) -> int
    decreases s.len(),
{
    if s.len() == 0 || !is_ws_char(s[s.len() - 1]) {
        0
    } else {
        1 + ws_suffix_len(s.drop_last())
    }
}

/// The string with leading and trailing whitespace removed.
pub open spec fn trim_spec(s: Seq<char>) -> Seq<char> {
    let t = s.skip(ws_prefix_len(s));
    t.take(t.len() - ws_suffix_len(t))
}

proof fn lemma_ws_prefix_is(s: Seq<char>, a: int)
    requires
        0 <= a <= s.len(),
        forall|j: int| 0 <= j < a ==> is_ws_char(s[j]),
        a < s.len() ==> !is_ws_char(s[a]),
    ensures
        ws_prefix_len(s) == a,
    decreases a,
{
    if a > 0 {
        assert(forall|j: int| 0 <= j < s.len() - 1 ==> s.drop_first()[j] == s[j + 1]);
        lemma_ws_prefix_is(s.drop_first(), a - 1);
    }
}

proof fn lemma_ws_suffix_is(s: Seq<char>, k: int)
    requires
        0 <= k <= s.len(),
        forall|j: int| s.len() - k <= j < s.len() ==> is_ws_char(s[j]),
        k < s.len() ==> !is_ws_char(s[s.len() - k - 1]),
    ensures
        ws_suffix_len(s) == k,
    decreases k,
{
    if k > 0 {
        assert(forall|j: int| 0 <= j < s.len() - 1 ==> s.drop_last()[j] == s[j]);
        lemma_ws_suffix_is(s.drop_last(), k - 1);
    }
}

/// Removes leading and trailing whitespace, as [`trim_spec`] describes.
pub fn trim_slice<'a>(s: &'a str) -> (r: &'a str)
    ensures
        r@ == trim_spec(s@),
{
    let n = s.unicode_len();
    let mut a: usize = 0;
    while a < n && ws_char(s.get_char(a))
        invariant
            n == s@.len(),
            a <= n,
            forall|j: int| 0 <= j < a ==> is_ws_char(s@[j]),
        decreases n - a,
    {
        a += 1;
    }
    let mut b: usize = n;
    while b > a && ws_char(s.get_char(b - 1))
        invariant
            n == s@.len(),
            a <= b <= n,
            forall|j: int| 0 <= j < a ==> is_ws_char(s@[j]),
            a < n ==> !is_ws_char(s@[a as int]),
            forall|j: int| b <= j < n ==> is_ws_char(s@[j]),
        decreases b,
    {
        b -= 1;
    }
    proof {
        lemma_ws_prefix_is(s@, a as int);
        let t = s@.skip(a as int);
        assert(forall|j: int| 0 <= j < t.len() ==> t[j] == s@[a + j]);
        lemma_ws_suffix_is(t, n - b);
        assert(s@.subrange(a as int, b as int) =~= t.take(t.len() - (n - b)));
    }
    s.substring_char(a, b)
}

/// The string holds `p` as its prefix.
pub open spec fn has_prefix(s: Seq<char>, p: Seq<char>) -> bool {
    s.len() >= p.len() && s.take(p.len() as int) == p
}

/// Whether `s` starts with `p`.
pub fn starts_with_str(s: &str, p: &str) -> (r: bool)
    ensures
        r == has_prefix(s@, p@),
{
    let n = s.unicode_len();
    let m = p.unicode_len();
    if m > n {
        proof {
            assert(!has_prefix(s@, p@));
        }
        return false;
    }
    let mut k: usize = 0;
    while k < m
        invariant
            m <= n,
            n == s@.len(),
            m == p@.len(),
            k <= m,
            forall|j: int| 0 <= j < k ==> s@[j] == p@[j],
        decreases m - k,
    {
        if s.get_char(k) != p.get_char(k) {
            proof {
                assert(s@.take(m as int)[k as int] == s@[k as int]);
            }
            return false;
        }
        k += 1;
    }
    proof {
        assert(s@.take(m as int) =~= p@);
    }
    true
}

/// The string with every leading repetition of `p` removed.
pub open spec fn strip_all(s: Seq<char>, p: Seq<char>) -> Seq<char>
    decreases s.len(),
{
    if p.len() > 0 && has_prefix(s, p) {
        strip_all(s.skip(p.len() as int), p)
    } else {
        s
    }
}

/// Removes every leading repetition of `p`, as [`strip_all`] describes.
pub fn strip_prefix_all<'a>(s: &'a str, p: &str) -> (r: &'a str)
    requires
        p@.len() > 0,
    ensures
        r@ == strip_all(s@, p@),
{
    let n = s.unicode_len();
    let m = p.unicode_len();
    let mut off: usize = 0;
    proof {
        assert(s@.skip(0) =~= s@);
    }
    loop
        invariant
            n == s@.len(),
            m == p@.len(),
            m > 0,
            off <= n,
            strip_all(s@, p@) == strip_all(s@.skip(off as int), p@),
        decreases n - off,
    {
        if m > n - off {
            proof {
                assert(!has_prefix(s@.skip(off as int), p@));
            }
            return s.substring_char(off, n);
        }
        let mut k: usize = 0;
        let mut matches_here = true;
        while k < m
            invariant
                n == s@.len(),
                m == p@.len(),
                off + m <= n,
                k <= m,
                matches_here ==> forall|j: int| 0 <= j < k ==> s@[off + j] == p@[j],
                !matches_here ==> exists|j: int| 0 <= j < m && s@[off + j] != p@[j],
            decreases m - k,
        {
            if s.get_char(off + k) != p.get_char(k) {
                proof {
                    assert(s@[off + k as int] != p@[k as int]);
                }
                matches_here = false;
                k = m;
            } else {
                k += 1;
            }
        }
        if matches_here {
            proof {
                let u = s@.skip(off as int);
                assert(forall|j: int| 0 <= j < u.len() ==> u[j] == s@[off + j]);
                assert(u.take(m as int) =~= p@);
                assert(has_prefix(u, p@));
                assert(u.skip(m as int) =~= s@.skip(off + m));
            }
            off += m;
        } else {
            proof {
                let u = s@.skip(off as int);
                assert(forall|j: int| 0 <= j < u.len() ==> u[j] == s@[off + j]);
                if has_prefix(u, p@) {
                    let bad = choose|j: int| 0 <= j < m && s@[off + j] != p@[j];
                    assert(u.take(m as int)[bad] == p@[bad]);
                    assert(false);
                }
            }
            return s.substring_char(off, n);
        }
    }
}

/// Length of the first line: the characters before the first newline.
pub open spec fn line_len(s: Seq<char>) -> int
    decreases s.len(),
{
    if s.len() == 0 || s[0] == '\n' {
        0
    } else {
        1 + line_len(s.drop_first())
    }
}

proof fn lemma_line_len_bounds(s: Seq<char>)
    ensures
        0 <= line_len(s) <= s.len(),
        line_len(s) < s.len() ==> s[line_len(s)] == '\n',
    decreases s.len(),
{
    if s.len() > 0 && s[0] != '\n' {
        assert(forall|j: int| 0 <= j < s.len() - 1 ==> s.drop_first()[j] == s[j + 1]);
        lemma_line_len_bounds(s.drop_first());
    }
}

proof fn lemma_line_len_is(s: Seq<char>, t: int)
    requires
        0 <= t <= s.len(),
        forall|j: int| 0 <= j < t ==> s[j] != '\n',
        t < s.len() ==> s[t] == '\n',
    ensures
        line_len(s) == t,
    decreases t,
{
    if t > 0 {
        assert(forall|j: int| 0 <= j < s.len() - 1 ==> s.drop_first()[j] == s[j + 1]);
        lemma_line_len_is(s.drop_first(), t - 1);
    }
}

/// One trailing carriage return dropped, as `str::lines` does.
pub open spec fn strip_cr(line: Seq<char>) -> Seq<char> {
    if line.len() > 0 && line[line.len() - 1] == '\r' {
        line.drop_last()
    } else {
        line
    }
}

/// The text split into lines at newlines, each line stripped of one
/// trailing carriage return; a trailing newline produces no final empty
/// line.
pub open spec fn spec_lines(s: Seq<char>) -> Seq<Seq<char>>
    decreases s.len(),
    via spec_lines_termination
{
    if s.len() == 0 {
        Seq::empty()
    } else {
        let l = line_len(s);
        let rest = if l < s.len() {
            spec_lines(s.skip(l + 1))
        } else {
            Seq::empty()
        };
        seq![strip_cr(s.take(l))] + rest
    }
}

#[via_fn]
proof fn spec_lines_termination(s: Seq<char>) {
    if s.len() > 0 {
        lemma_line_len_bounds(s);
    }
}

/// The split arguments with `%`-placeholders dropped.
pub open spec fn drop_placeholders(parts: Seq<Seq<char>>) -> Seq<Seq<char>>
    decreases parts.len(),
{
    if parts.len() == 0 {
        Seq::empty()
    } else if parts[0].len() > 0 && parts[0][0] == '%' {
        drop_placeholders(parts.drop_first())
    } else {
        seq![parts[0]] + drop_placeholders(parts.drop_first())
    }
}

/// A command string cleaned for execution: split at whitespace,
/// `%`-placeholders dropped, and joined back with single spaces.
pub open spec fn clean_exec(raw: Seq<char>) -> Seq<char> {
    join_space(drop_placeholders(split_ws(raw)))
}

/// Cleans a raw `Exec` value, as [`clean_exec`] describes.
fn clean_exec_str(raw: &str) -> (r: String)
    ensures
        r@ == clean_exec(raw@),
{
    let parts = split_whitespace(raw);
    let mut kept: Vec<String> = Vec::new();
    let n = parts.len();
    let mut i: usize = 0;
    proof {
        assert(seq_views(parts@).skip(0) =~= seq_views(parts@));
        assert(seq_views(kept@) + drop_placeholders(seq_views(parts@)) =~= drop_placeholders(
            seq_views(parts@),
        ));
    }
    while i < n
        invariant
            n == parts@.len(),
            i <= n,
            drop_placeholders(seq_views(parts@)) == seq_views(kept@) + drop_placeholders(
                seq_views(parts@).skip(i as int),
            ),
        decreases n - i,
    {
        let keep = if parts[i].as_str().unicode_len() > 0 {
            parts[i].as_str().get_char(0) != '%'
        } else {
            true
        };
        proof {
            let u = seq_views(parts@).skip(i as int);
            assert(u[0] == parts@[i as int]@);
            assert(u.drop_first() =~= seq_views(parts@).skip(i + 1));
        }
        if keep {
            let part = parts[i].clone();
            proof {
                assert(seq_views(kept@.push(part)) =~= seq_views(kept@).push(part@));
                assert(seq_views(kept@) + (seq![part@] + drop_placeholders(
                    seq_views(parts@).skip(i + 1),
                )) =~= seq_views(kept@.push(part)) + drop_placeholders(
                    seq_views(parts@).skip(i + 1),
                ));
            }
            kept.push(part);
        }
        i += 1;
    }
    proof {
        assert(seq_views(parts@).skip(n as int) =~= Seq::<Seq<char>>::empty());
        assert(seq_views(kept@) + drop_placeholders(seq_views(parts@).skip(n as int))
            =~= seq_views(kept@));
    }
    join_with_spaces(&kept)
}

/// Position of the first argument equal to `a` or `b`.
pub open spec fn flag_pos(parts: Seq<Seq<char>>, a: Seq<char>, b: Seq<char>) -> Option<int>
    decreases parts.len(),
{
    if parts.len() == 0 {
        None
    } else if parts[0] == a || parts[0] == b {
        Some(0)
    } else {
        match flag_pos(parts.drop_first(), a, b) {
            Some(i) => Some(i + 1),
            None => None,
        }
    }
}

/// The argument following the first `a` or `b` flag, if both exist.
pub open spec fn flag_value_spec(parts: Seq<Seq<char>>, a: Seq<char>, b: Seq<char>) -> Option<
    Seq<char>,
> {
    match flag_pos(parts, a, b) {
        Some(i) => if i + 1 < parts.len() {
            Some(parts[i + 1])
        } else {
            None
        },
        None => None,
    }
}

proof fn lemma_flag_pos_step(parts: Seq<Seq<char>>, a: Seq<char>, b: Seq<char>, i: int)
    requires
        0 <= i < parts.len(),
        forall|k: int| 0 <= k < i ==> parts[k] != a && parts[k] != b,
    ensures
        parts[i] == a || parts[i] == b ==> flag_pos(parts, a, b) == Some(i),
        (forall|k: int| 0 <= k <= i ==> parts[k] != a && parts[k] != b) && i == parts.len() - 1
            ==> flag_pos(parts, a, b) is None,
    decreases i,
{
    if i == 0 {
        if parts[0] != a && parts[0] != b && parts.len() == 1 {
            assert(flag_pos(parts.drop_first(), a, b) is None);
        }
    } else {
        assert(parts.drop_first()[i - 1] == parts[i]);
        assert(forall|k: int| 0 <= k < i - 1 ==> parts.drop_first()[k] == parts[k + 1]);
        lemma_flag_pos_step(parts.drop_first(), a, b, i - 1);
    }
}

/// Finds the argument following the first `a` or `b` flag.
fn flag_value(parts: &Vec<String>, a: &str, b: &str) -> (r: Option<String>)
    ensures
        match r {
            Some(v) => flag_value_spec(seq_views(parts@), a@, b@) == Some(v@),
            None => flag_value_spec(seq_views(parts@), a@, b@) is None,
        },
{
    let n = parts.len();
    let mut i: usize = 0;
    while i < n
        invariant
            n == parts@.len(),
            i <= n,
            forall|k: int|
                0 <= k < i ==> seq_views(parts@)[k] != a@ && seq_views(parts@)[k] != b@,
        decreases n - i,
    {
        if str_eq(parts[i].as_str(), a) || str_eq(parts[i].as_str(), b) {
            proof {
                lemma_flag_pos_step(seq_views(parts@), a@, b@, i as int);
            }
            if i + 1 < n {
                return Some(parts[i + 1].clone());
            } else {
                return None;
            }
        }
        i += 1;
    }
    proof {
        if n > 0 {
            lemma_flag_pos_step(seq_views(parts@), a@, b@, n - 1);
        }
    }
    None
}

/// The container a wrapper command enters: the argument of `-n` or
/// `--name` after `distrobox-enter`, or of `-c` or `--container` after
/// `toolbox run`.
pub open spec fn container_of(cmd: Seq<char>) -> Option<Seq<char>> {
    if contains_seq(cmd, "distrobox-enter"@) {
        flag_value_spec(split_ws(cmd), "-n"@, "--name"@)
    } else if contains_seq(cmd, "toolbox run"@) {
        flag_value_spec(split_ws(cmd), "-c"@, "--container"@)
    } else {
        None
    }
}

/// Parser state while walking the lines of a desktop entry.
pub struct ParseState {
    /// The last `Name` value seen.
    pub name: Option<Seq<char>>,
    /// The last `Exec` value seen, already cleaned.
    pub command: Option<Seq<char>>,
    /// The last `Terminal` value seen.
    pub terminal: bool,
    /// The last `NoDisplay` value seen.
    pub no_display: bool,
    /// The last `Icon` value seen.
    pub icon: Option<Seq<char>>,
    /// Whether the walk is inside the `[Desktop Entry]` section.
    pub in_section: bool,
}

/// The state before any line is read.
pub open spec fn initial_state() -> ParseState {
    ParseState {
        name: None,
        command: None,
        terminal: false,
        no_display: false,
        icon: None,
        in_section: false,
    }
}

/// How one raw line changes the parser state: blank and comment lines
/// are skipped, section headers toggle `in_section`, and inside the main
/// section the known keys overwrite their fields.
pub open spec fn step_line(st: ParseState, raw: Seq<char>) -> ParseState {
    let line = trim_spec(raw);
    if line.len() == 0 || line[0] == '#' {
        st
    } else if line == "[Desktop Entry]"@ {
        ParseState { in_section: true, ..st }
    } else if line[0] == '[' {
        ParseState { in_section: false, ..st }
    } else if !st.in_section {
        st
    } else if has_prefix(line, "Name="@) {
        ParseState { name: Some(strip_all(line, "Name="@)), ..st }
    } else if has_prefix(line, "Exec="@) {
        ParseState { command: Some(clean_exec(strip_all(line, "Exec="@))), ..st }
    } else if has_prefix(line, "Terminal="@) {
        ParseState { terminal: strip_all(line, "Terminal="@) == "true"@, ..st }
    } else if has_prefix(line, "NoDisplay="@) {
        ParseState { no_display: strip_all(line, "NoDisplay="@) == "true"@, ..st }
    } else if has_prefix(line, "Icon="@) {
        ParseState { icon: Some(strip_all(line, "Icon="@)), ..st }
    } else {
        st
    }
}

/// The parser state after walking all lines.
pub open spec fn fold_lines(lines: Seq<Seq<char>>, st: ParseState) -> ParseState
    decreases lines.len(),
{
    if lines.len() == 0 {
        st
    } else {
        fold_lines(lines.drop_first(), step_line(st, lines[0]))
    }
}

/// The fields parsed from one desktop entry.
pub struct DesktopInfo {
    /// Display name.
    pub name: String,
    /// Command to execute, with placeholders dropped.
    pub command: String,
    /// Whether the item wants a terminal.
    pub terminal: bool,
    /// Icon reference, if any.
    pub icon: Option<String>,
    /// Container the command enters, if it is a container wrapper.
    pub container: Option<String>,
}

/// View of an optional string.
pub open spec fn opt_view(o: Option<String>) -> Option<Seq<char>> {
    match o {
        Some(s) => Some(s@),
        None => None,
    }
}

/// What a desktop entry denotes: nothing when it asks not to be
/// displayed or lacks a name or command; otherwise its name, cleaned
/// command, terminal flag, icon, and container.
pub open spec fn spec_parse_desktop(content: Seq<char>) -> Option<ParseState> {
    let st = fold_lines(spec_lines(content), initial_state());
    if st.no_display || st.name is None || st.command is None {
        None
    } else {
        Some(st)
    }
}

/// Parses one desktop entry, as [`spec_parse_desktop`] describes: the
/// result carries the final name and cleaned command, the terminal flag,
/// the icon, and the container named by the command's flags.
pub fn parse_desktop_file(content: &str) -> (r: Option<DesktopInfo>)
    ensures
        (r is Some <==> spec_parse_desktop(content@) is Some),
        (match r {
            Some(info) => {
                let st = spec_parse_desktop(content@)->Some_0;
                &&& Some(info.name@) == st.name
                &&& Some(info.command@) == st.command
                &&& info.terminal == st.terminal
                &&& opt_view(info.icon) == st.icon
                &&& opt_view(info.container) == container_of(st.command->Some_0)
            },
            None => true,
        }),
{
    let n = content.unicode_len();
    let mut name: Option<String> = None;
    let mut command: Option<String> = None;
    let mut terminal = false;
    let mut no_display = false;
    let mut icon: Option<String> = None;
    let mut in_section = false;
    let mut pos: usize = 0;
    let ghost all = spec_lines(content@);
    proof {
        assert(content@.skip(0) =~= content@);
    }
    while pos < n
        invariant
            n == content@.len(),
            pos <= n,
            all == spec_lines(content@),
            fold_lines(all, initial_state()) == fold_lines(
                spec_lines(content@.skip(pos as int)),
                ParseState {
                    name: opt_view(name),
                    command: opt_view(command),
                    terminal: terminal,
                    no_display: no_display,
                    icon: opt_view(icon),
                    in_section: in_section,
                },
            ),
        decreases n - pos,
    {
        let ghost st_before = ParseState {
            name: opt_view(name),
            command: opt_view(command),
            terminal: terminal,
            no_display: no_display,
            icon: opt_view(icon),
            in_section: in_section,
        };
        let mut j = pos;
        while j < n && content.get_char(j) != '\n'
            invariant
                n == content@.len(),
                pos <= j <= n,
                forall|q: int| pos <= q < j ==> content@[q] != '\n',
            decreases n - j,
        {
            j += 1;
        }
        let raw_end = if j > pos && content.get_char(j - 1) == '\r' {
            j - 1
        } else {
            j
        };
        let line_slice = content.substring_char(pos, raw_end);
        proof {
            let u = content@.skip(pos as int);
            assert(forall|q: int| 0 <= q < u.len() ==> u[q] == content@[pos + q]);
            lemma_line_len_is(u, j - pos);
            assert(u.take(j - pos) =~= content@.subrange(pos as int, j as int));
            assert(strip_cr(u.take(j - pos)) =~= content@.subrange(
                pos as int,
                raw_end as int,
            ));
            if j < n {
                assert(u.skip(j - pos + 1) =~= content@.skip(j + 1));
            }
            assert(spec_lines(u) == seq![strip_cr(u.take(j - pos))] + (if j - pos < u.len() {
                spec_lines(u.skip(j - pos + 1))
            } else {
                Seq::<Seq<char>>::empty()
            }));
        }
        let trimmed = trim_slice(line_slice);
        let tn = trimmed.unicode_len();
        proof {
            reveal_strlit("Name=");
            reveal_strlit("Exec=");
            reveal_strlit("Terminal=");
            reveal_strlit("NoDisplay=");
            reveal_strlit("Icon=");
        }
        if tn == 0 {
            // blank line: skipped
        } else if trimmed.get_char(0) == '#' {
            // comment: skipped
        } else if str_eq(trimmed, "[Desktop Entry]") {
            in_section = true;
        } else if trimmed.get_char(0) == '[' {
            in_section = false;
        } else if !in_section {
            // outside the main section: skipped
        } else if starts_with_str(trimmed, "Name=") {
            name = Some(strip_prefix_all(trimmed, "Name=").to_owned());
        } else if starts_with_str(trimmed, "Exec=") {
            command = Some(clean_exec_str(strip_prefix_all(trimmed, "Exec=")));
        } else if starts_with_str(trimmed, "Terminal=") {
            terminal = str_eq(strip_prefix_all(trimmed, "Terminal="), "true");
        } else if starts_with_str(trimmed, "NoDisplay=") {
            no_display = str_eq(strip_prefix_all(trimmed, "NoDisplay="), "true");
        } else if starts_with_str(trimmed, "Icon=") {
            icon = Some(strip_prefix_all(trimmed, "Icon=").to_owned());
        }
        proof {
            let u = content@.skip(pos as int);
            let raw_line = strip_cr(u.take(j - pos));
            let st_now = ParseState {
                name: opt_view(name),
                command: opt_view(command),
                terminal: terminal,
                no_display: no_display,
                icon: opt_view(icon),
                in_section: in_section,
            };
            assert(st_now == step_line(st_before, raw_line));
            let rest = if j - pos < u.len() {
                spec_lines(u.skip(j - pos + 1))
            } else {
                Seq::<Seq<char>>::empty()
            };
            assert((seq![raw_line] + rest)[0] == raw_line);
            assert((seq![raw_line] + rest).drop_first() =~= rest);
            assert(fold_lines(spec_lines(u), st_before) == fold_lines(rest, st_now));
            if j == n {
                assert(rest =~= Seq::<Seq<char>>::empty());
                assert(spec_lines(content@.skip(n as int)) =~= Seq::<Seq<char>>::empty());
            }
        }
        if j < n {
            pos = j + 1;
        } else {
            pos = n;
        }
    }
    proof {
        assert(content@.skip(n as int) =~= Seq::<char>::empty());
        assert(spec_lines(content@.skip(n as int)) =~= Seq::<Seq<char>>::empty());
    }
    if no_display {
        return None;
    }
    match (name, command) {
        (Some(nm), Some(cmd)) => {
            let container = if contains_sub(cmd.as_str(), "distrobox-enter") {
                let parts = split_whitespace(cmd.as_str());
                flag_value(&parts, "-n", "--name")
            } else if contains_sub(cmd.as_str(), "toolbox run") {
                let parts = split_whitespace(cmd.as_str());
                flag_value(&parts, "-c", "--container")
            } else {
                None
            };
            Some(DesktopInfo { name: nm, command: cmd, terminal, icon, container })
        },
        _ => None,
    }
}

} // verus!
