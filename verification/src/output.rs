//! What commands print: plain lines, tables with aligned columns, and trees.
use crate::text::{char_vec, push_char};
use crate::output::TermColor::{Blue, Cyan, DarkGray, Green, Magenta, Purple, Red, Yellow};
use nu_ansi_term::Color as C;
use nu_ansi_term::Style as S;
use vstd::prelude::*;
use vstd::string::*;

verus! {

/// A terminal color.
#[derive(Clone, Copy, PartialEq, Eq, Structural)]
pub enum TermColor {
    Red,
    Green,
    Yellow,
    Blue,
    Purple,
    Magenta,
    Cyan,
    DarkGray,
}

/// A text style: an optional foreground color, bold and italic.
#[derive(Clone, Copy, PartialEq, Eq, Structural)]
pub struct TextStyle {
    pub fg: Option<TermColor>,
    pub bold: bool,
    pub italic: bool,
}

impl TextStyle {
    /// The plain style.
    pub fn plain() -> (s: TextStyle)
        ensures
            s == (TextStyle { fg: None, bold: false, italic: false }),
    {
        TextStyle { fg: None, bold: false, italic: false }
    }

    /// A style with the given foreground color.
    pub fn fg(c: TermColor) -> (s: TextStyle)
        ensures
            s == (TextStyle { fg: Some(c), bold: false, italic: false }),
    {
        TextStyle { fg: Some(c), bold: false, italic: false }
    }

    /// This style, bold.
    pub fn bold(self) -> (s: TextStyle)
        ensures
            s == (TextStyle { bold: true, ..self }),
    {
        TextStyle { bold: true, ..self }
    }
}

/// The SGR code of a foreground color.
pub open spec fn color_code(c: TermColor) -> Seq<char> {
    match c {
        TermColor::Red => seq!['3', '1'],
        TermColor::Green => seq!['3', '2'],
        TermColor::Yellow => seq!['3', '3'],
        TermColor::Blue => seq!['3', '4'],
        TermColor::Purple => seq!['3', '5'],
        TermColor::Magenta => seq!['3', '5'],
        TermColor::Cyan => seq!['3', '6'],
        TermColor::DarkGray => seq!['9', '0'],
    }
}

/// Whether a style sets nothing.
pub open spec fn is_plain(s: TextStyle) -> bool {
    s.fg is None && !s.bold && !s.italic
}

/// The SGR parameters of a style: bold (1), italic (3), then the color, separated by `;`.
pub open spec fn style_codes(s: TextStyle) -> Seq<char> {
    let b: Seq<char> = if s.bold { seq!['1'] } else { Seq::empty() };
    let i: Seq<char> = if s.italic { if s.bold { seq![';', '3'] } else { seq!['3'] } } else { Seq::empty() };
    let f: Seq<char> = match s.fg {
        Some(c) => if s.bold || s.italic { seq![';'] + color_code(c) } else { color_code(c) },
        None => Seq::empty(),
    };
    b + i + f
}

/// `text` wrapped in the ANSI escape codes of a style: nothing for the plain style, else
/// `ESC [ codes m`, the text, and the reset `ESC [ 0 m`.
pub open spec fn ansi_painted(text: Seq<char>, s: TextStyle) -> Seq<char> {
    if is_plain(s) {
        text
    } else {
        seq!['\x1b', '['] + style_codes(s) + seq!['m'] + text + seq!['\x1b', '[', '0', 'm']
    }
}

/// What `paint` makes of `text`: painted when color is on, else unchanged.
pub open spec fn paint_spec(text: Seq<char>, s: TextStyle, color: bool) -> Seq<char> {
    if color { ansi_painted(text, s) } else { text }
}

/// Paints `text` with nu-ansi-term (`Style::paint` and `to_string`); the contract states
/// the escape codes that nu-ansi-term's source writes for these attributes.
#[verifier::external_body]
fn ansi_paint(text: &str, s: TextStyle) -> (r: String)
    ensures
        r@ == ansi_painted(text@, s),
{
    let fg = s.fg.map(|c| match c {
        Red => C::Red, Green => C::Green, Yellow => C::Yellow, Blue => C::Blue,
        Purple => C::Purple, Magenta => C::Magenta, Cyan => C::Cyan, DarkGray => C::DarkGray,
    });
    let style = S { foreground: fg, is_bold: s.bold, is_italic: s.italic, ..S::default() };
    style.paint(text).to_string()
}

/// `text` in the given style when `color` is on (the terminal takes colors), else unchanged.
pub fn paint(text: &str, style: TextStyle, color: bool) -> (r: String)
    ensures
        r@ == paint_spec(text@, style, color),
{
    if color {
        ansi_paint(text, style)
    } else {
        text.to_owned()
    }
}

/// The bold style.
pub open spec fn bold_style() -> TextStyle {
    TextStyle { fg: None, bold: true, italic: false }
}

/// The dim (dark gray) style.
pub open spec fn dim_style() -> TextStyle {
    TextStyle { fg: Some(TermColor::DarkGray), bold: false, italic: false }
}

/// `text` in bold.
pub fn bold(text: &str, color: bool) -> (r: String)
    ensures
        r@ == paint_spec(text@, bold_style(), color),
{
    paint(text, TextStyle::plain().bold(), color)
}

/// `text` dimmed.
pub fn dim(text: &str, color: bool) -> (r: String)
    ensures
        r@ == paint_spec(text@, dim_style(), color),
{
    paint(text, TextStyle::fg(TermColor::DarkGray), color)
}

/// The number of characters of `s` that show on a terminal, reading from a state that is
/// inside an escape sequence or not: an escape sequence runs from `ESC` to the next `m`.
pub open spec fn width_from(s: Seq<char>, in_escape: bool) -> nat
    decreases s.len(),
{
    if s.len() == 0 {
        0
    } else if in_escape {
        width_from(s.drop_first(), s[0] != 'm')
    } else if s[0] == '\x1b' {
        width_from(s.drop_first(), true)
    } else {
        1 + width_from(s.drop_first(), false)
    }
}

/// The number of characters of `s` that show on a terminal (escape sequences left out).
pub open spec fn visible_width_spec(s: Seq<char>) -> nat {
    width_from(s, false)
}

/// Whether reading `s` from the given state ends inside an escape sequence.
pub open spec fn escape_after(s: Seq<char>, in_escape: bool) -> bool
    decreases s.len(),
{
    if s.len() == 0 {
        in_escape
    } else if in_escape {
        escape_after(s.drop_first(), s[0] != 'm')
    } else {
        escape_after(s.drop_first(), s[0] == '\x1b')
    }
}

/// The visible width of `s` (characters outside escape sequences).
pub fn visible_width(s: &str) -> (w: usize)
    ensures
        w == visible_width_spec(s@),
{
    let cs = char_vec(s);
    let mut width: usize = 0;
    let mut esc = false;
    let mut i: usize = 0;
    assert(cs@.skip(0) =~= cs@);
    while i < cs.len()
        invariant
            i <= cs.len(),
            cs@ == s@,
            width <= i,
            width + width_from(cs@.skip(i as int), esc) == width_from(cs@, false),
        decreases cs.len() - i,
    {
        let c = cs[i];
        assert(cs@.skip(i as int).drop_first() =~= cs@.skip(i + 1));
        if esc {
            esc = c != 'm';
        } else if c == '\x1b' {
            esc = true;
        } else {
            width = width + 1;
        }
        i = i + 1;
    }
    assert(cs@.skip(cs.len() as int) =~= Seq::<char>::empty());
    width
}

/// The output of a command.
pub enum CommandOutput {
    Lines(Vec<String>),
    Empty,
}

/// The model of a command's output.
pub enum OutputV {
    Lines(Seq<Seq<char>>),
    Empty,
}

/// The texts of a sequence of strings.
pub open spec fn strings_view(v: Seq<String>) -> Seq<Seq<char>> {
    v.map_values(|s: String| s@)
}

impl View for CommandOutput {
    type V = OutputV;

    open spec fn view(&self) -> OutputV {
        match self {
            CommandOutput::Lines(v) => OutputV::Lines(strings_view(v@)),
            CommandOutput::Empty => OutputV::Empty,
        }
    }
}

/// The output made of one line.
pub fn collect_single_line(msg: String) -> (out: CommandOutput)
    ensures
        out@ == OutputV::Lines(seq![msg@]),
{
    let v = vec![msg];
    assert(strings_view(v@) =~= seq![msg@]);
    CommandOutput::Lines(v)
}

/// `n` copies of `c`.
pub open spec fn repeat_char(c: char, n: nat) -> Seq<char> {
    Seq::new(n, |i: int| c)
}

/// Appends `n` copies of `c` to `s`.
pub fn push_repeat(s: &mut String, c: char, n: usize)
    ensures
        final(s)@ == old(s)@ + repeat_char(c, n as nat),
{
    let mut k: usize = 0;
    while k < n
        invariant
            k <= n,
            s@ == old(s)@ + repeat_char(c, k as nat),
        decreases n - k,
    {
        let ghost before = s@;
        push_char(s, c);
        assert(s@ =~= old(s)@ + repeat_char(c, (k + 1) as nat));
        k = k + 1;
    }
}

/// `parts` joined with two spaces between them.
pub open spec fn join_cells(parts: Seq<Seq<char>>) -> Seq<char>
    decreases parts.len(),
{
    if parts.len() == 0 {
        Seq::empty()
    } else if parts.len() == 1 {
        parts[0]
    } else {
        join_cells(parts.drop_last()) + seq![' ', ' '] + parts.last()
    }
}

/// The column widths after widening `ws` for one row: each column at least as wide as
/// the visible width of the row's cell in it.
pub open spec fn widen(ws: Seq<nat>, row: Seq<Seq<char>>) -> Seq<nat> {
    Seq::new(ws.len(), |i: int| if i < row.len() && visible_width_spec(row[i]) > ws[i] {
        visible_width_spec(row[i])
    } else {
        ws[i]
    })
}

/// The column widths of a table: a header's length, widened by every row in turn.
pub open spec fn table_widths(headers: Seq<Seq<char>>, rows: Seq<Seq<Seq<char>>>) -> Seq<nat>
    decreases rows.len(),
{
    if rows.len() == 0 {
        headers.map_values(|h: Seq<char>| h.len())
    } else {
        widen(table_widths(headers, rows.drop_last()), rows.last())
    }
}

/// The sum of some widths.
pub open spec fn width_sum(ws: Seq<nat>) -> nat
    decreases ws.len(),
{
    if ws.len() == 0 { 0 } else { width_sum(ws.drop_last()) + ws.last() }
}

/// The width of the rule under a table's header: the columns and two spaces between each two.
pub open spec fn rule_width(ws: Seq<nat>) -> nat {
    if ws.len() == 0 { 0 } else { width_sum(ws) + 2 * (ws.len() - 1) as nat }
}

/// `n`, or the largest `usize` where `n` is larger.
pub open spec fn capped(n: nat) -> nat {
    if n > usize::MAX { usize::MAX as nat } else { n }
}

/// `a + b`, or the largest `usize` where that is larger.
fn saturating_add(a: usize, b: usize) -> (r: usize)
    ensures
        r as nat == capped((a + b) as nat),
{
    if a > usize::MAX - b { usize::MAX } else { a + b }
}

/// `s` with spaces after it up to `w` characters (as the `{:w$}` format does).
pub open spec fn pad_to(s: Seq<char>, w: nat) -> Seq<char> {
    s + repeat_char(' ', if w > s.len() { (w - s.len()) as nat } else { 0 })
}

/// A cell with spaces after it up to the column's width, by visible width.
pub open spec fn pad_cell(c: Seq<char>, ws: Seq<nat>, i: int) -> Seq<char> {
    let w: nat = if 0 <= i < ws.len() { ws[i] } else { 0 };
    c + repeat_char(' ', if w > visible_width_spec(c) { (w - visible_width_spec(c)) as nat } else { 0 })
}

/// The header line of a table.
pub open spec fn header_line(headers: Seq<Seq<char>>, ws: Seq<nat>) -> Seq<char> {
    join_cells(Seq::new(headers.len(), |i: int| pad_to(headers[i], ws[i])))
}

/// The line of one row.
pub open spec fn row_line(row: Seq<Seq<char>>, ws: Seq<nat>) -> Seq<char> {
    join_cells(Seq::new(row.len(), |i: int| pad_cell(row[i], ws, i)))
}

/// The lines of a table: the bold header line, a dim rule (as wide as the columns and
/// the two spaces between each two, up to the largest `usize`), then one line per row.
pub open spec fn table_lines(headers: Seq<Seq<char>>, rows: Seq<Seq<Seq<char>>>, color: bool) -> Seq<Seq<char>> {
    let ws = table_widths(headers, rows);
    seq![
        paint_spec(header_line(headers, ws), bold_style(), color),
        paint_spec(repeat_char('-', capped(rule_width(ws))), dim_style(), color),
    ] + Seq::new(rows.len(), |r: int| row_line(rows[r], ws))
}

/// The texts of a list of string slices.
pub open spec fn strs_view(v: Seq<&str>) -> Seq<Seq<char>> {
    v.map_values(|s: &str| s@)
}

/// The texts of table rows.
pub open spec fn rows_view(rows: Seq<Vec<String>>) -> Seq<Seq<Seq<char>>> {
    rows.map_values(|r: Vec<String>| strings_view(r@))
}

/// Widths as natural numbers.
pub open spec fn nats(v: Seq<usize>) -> Seq<nat> {
    v.map_values(|w: usize| w as nat)
}

/// `s` with spaces after it up to `w` characters.
pub fn pad_to_width(s: &str, w: usize) -> (r: String)
    ensures
        r@ == pad_to(s@, w as nat),
{
    let n = s.unicode_len();
    let mut out = s.to_owned();
    let pad: usize = if w > n { w - n } else { 0 };
    push_repeat(&mut out, ' ', pad);
    out
}

/// Appends `part` to a line of cells joined by two spaces.
fn push_joined(line: &mut String, part: &str, first: bool)
    ensures
        final(line)@ == if first { old(line)@ + part@ } else { old(line)@ + seq![' ', ' '] + part@ },
{
    if !first {
        line.append("  ");
        proof { reveal_strlit("  "); }
    }
    line.append(part);
}

proof fn lemma_join_step(parts: Seq<Seq<char>>, i: int)
    requires
        0 <= i < parts.len(),
    ensures
        join_cells(parts.take(i + 1)) == if i == 0 { parts[0] } else {
            join_cells(parts.take(i)) + seq![' ', ' '] + parts[i]
        },
{
    assert(parts.take(i + 1).drop_last() =~= parts.take(i));
}

/// Widens `widths` for one row.
fn widen_exec(widths: &mut Vec<usize>, row: &Vec<String>)
    ensures
        nats(final(widths)@) == widen(nats(old(widths)@), strings_view(row@)),
{
    let ghost ws0 = nats(widths@);
    let ghost rv = strings_view(row@);
    let ghost target = widen(ws0, rv);
    let mut i: usize = 0;
    while i < widths.len()
        invariant
            i <= widths.len(),
            widths@.len() == ws0.len(),
            rv == strings_view(row@),
            target == widen(ws0, rv),
            forall|j: int| 0 <= j < i ==> #[trigger] widths@[j] as nat == target[j],
            forall|j: int| i <= j < widths@.len() ==> #[trigger] widths@[j] as nat == ws0[j],
        decreases widths.len() - i,
    {
        if i < row.len() {
            let w = visible_width(row[i].as_str());
            assert(strings_view(row@)[i as int] == row@[i as int]@);
            if w > widths[i] {
                widths.set(i, w);
            }
        }
        i = i + 1;
    }
    assert(nats(widths@) =~= widen(ws0, strings_view(row@)));
}

/// A table with a bold header line, a dim rule and one line per row; each cell is padded
/// to its column's width, measured by visible width so that colored cells line up.
pub fn collect_table(headers: &[&str], rows: &[Vec<String>], color: bool) -> (out: CommandOutput)
    ensures
        out@ == OutputV::Lines(table_lines(strs_view(headers@), rows_view(rows@), color)),
{
    let ghost hs = strs_view(headers@);
    let ghost rs = rows_view(rows@);
    let mut widths: Vec<usize> = Vec::new();
    let mut i: usize = 0;
    while i < headers.len()
        invariant
            i <= headers.len(),
            hs == strs_view(headers@),
            widths@.len() == i,
            forall|j: int| 0 <= j < i ==> #[trigger] widths@[j] as nat == hs[j].len(),
        decreases headers.len() - i,
    {
        let n = headers[i].unicode_len();
        assert(hs[i as int] == headers@[i as int]@);
        widths.push(n);
        i = i + 1;
    }
    assert(nats(widths@) =~= table_widths(hs, rs.take(0)));
    let mut r: usize = 0;
    while r < rows.len()
        invariant
            r <= rows.len(),
            hs == strs_view(headers@),
            rs == rows_view(rows@),
            nats(widths@) == table_widths(hs, rs.take(r as int)),
        decreases rows.len() - r,
    {
        widen_exec(&mut widths, &rows[r]);
        assert(rs.take(r + 1).drop_last() =~= rs.take(r as int));
        assert(rs[r as int] == strings_view(rows@[r as int]@));
        r = r + 1;
    }
    assert(rs.take(rows.len() as int) =~= rs);
    let ghost ws = nats(widths@);
    assert(ws.len() == hs.len()) by {
        lemma_table_widths_len(hs, rs);
    }

    let mut lines: Vec<String> = Vec::new();
    // the header line
    let ghost hparts = Seq::new(hs.len(), |k: int| pad_to(hs[k], ws[k]));
    let mut hline = String::new();
    let mut k: usize = 0;
    while k < headers.len()
        invariant
            k <= headers.len(),
            hs == strs_view(headers@),
            ws == nats(widths@),
            ws.len() == hs.len(),
            hparts == Seq::new(hs.len(), |k: int| pad_to(hs[k], ws[k])),
            hline@ == join_cells(hparts.take(k as int)),
        decreases headers.len() - k,
    {
        let part = pad_to_width(headers[k], widths[k]);
        push_joined(&mut hline, part.as_str(), k == 0);
        proof { lemma_join_step(hparts, k as int); }
        k = k + 1;
    }
    assert(hparts.take(headers.len() as int) =~= hparts);
    let hl = bold(hline.as_str(), color);
    lines.push(hl);

    // the rule
    let mut total: usize = 0;
    let mut k: usize = 0;
    while k < widths.len()
        invariant
            k <= widths.len(),
            ws == nats(widths@),
            total as nat == capped(width_sum(ws.take(k as int))),
        decreases widths.len() - k,
    {
        assert(ws.take(k + 1).drop_last() =~= ws.take(k as int));
        total = saturating_add(total, widths[k]);
        k = k + 1;
    }
    assert(ws.take(widths.len() as int) =~= ws);
    if widths.len() > 0 {
        let n1 = widths.len() - 1;
        let sep: usize = if n1 > usize::MAX / 2 { usize::MAX } else { 2 * n1 };
        total = saturating_add(total, sep);
    }
    assert(total as nat == capped(rule_width(ws)));
    let mut rule = String::new();
    push_repeat(&mut rule, '-', total);
    let dl = dim(rule.as_str(), color);
    lines.push(dl);
    assert(strings_view(lines@) =~= seq![hl@, dl@]);
    assert(Seq::new(0 as nat, |q: int| row_line(rs[q], ws)) =~= Seq::<Seq<char>>::empty());

    // the rows
    let mut r: usize = 0;
    while r < rows.len()
        invariant
            r <= rows.len(),
            rs == rows_view(rows@),
            ws == nats(widths@),
            ws == table_widths(hs, rs),
            lines@.len() == 2 + r,
            strings_view(lines@) =~= seq![
                paint_spec(header_line(hs, ws), bold_style(), color),
                paint_spec(repeat_char('-', capped(rule_width(ws))), dim_style(), color),
            ] + Seq::new(r as nat, |q: int| row_line(rs[q], ws)),
        decreases rows.len() - r,
    {
        let line = row_line_exec(&rows[r], &widths);
        assert(rs[r as int] == strings_view(rows@[r as int]@));
        let ghost before = lines@;
        lines.push(line);
        assert(strings_view(lines@) =~= strings_view(before).push(line@));
        assert(Seq::new((r + 1) as nat, |q: int| row_line(rs[q], ws)) =~= Seq::new(r as nat, |q: int| row_line(rs[q], ws)).push(row_line(rs[r as int], ws)));
        r = r + 1;
    }
    CommandOutput::Lines(lines)
}

proof fn lemma_table_widths_len(hs: Seq<Seq<char>>, rs: Seq<Seq<Seq<char>>>)
    ensures
        table_widths(hs, rs).len() == hs.len(),
    decreases rs.len(),
{
    if rs.len() > 0 {
        lemma_table_widths_len(hs, rs.drop_last());
    }
}

/// The line of one row, each cell padded to its column's width.
fn row_line_exec(row: &Vec<String>, widths: &Vec<usize>) -> (line: String)
    ensures
        line@ == row_line(strings_view(row@), nats(widths@)),
{
    let ghost cs = strings_view(row@);
    let ghost ws = nats(widths@);
    let ghost parts = Seq::new(cs.len(), |i: int| pad_cell(cs[i], ws, i));
    let mut line = String::new();
    let mut i: usize = 0;
    while i < row.len()
        invariant
            i <= row.len(),
            cs == strings_view(row@),
            ws == nats(widths@),
            parts == Seq::new(cs.len(), |i: int| pad_cell(cs[i], ws, i)),
            line@ == join_cells(parts.take(i as int)),
        decreases row.len() - i,
    {
        let cell = row[i].as_str();
        let w: usize = if i < widths.len() { widths[i] } else { 0 };
        let v = visible_width(cell);
        let pad: usize = if w > v { w - v } else { 0 };
        let mut part = cell.to_owned();
        push_repeat(&mut part, ' ', pad);
        assert(cs[i as int] == row@[i as int]@);
        assert(part@ == pad_cell(cs[i as int], ws, i as int));
        push_joined(&mut line, part.as_str(), i == 0);
        proof { lemma_join_step(parts, i as int); }
        i = i + 1;
    }
    assert(parts.take(row.len() as int) =~= parts);
    line
}

/// Reading `a` then `b` counts the visible characters of each, `b` read from the state
/// in which `a` ends.
pub proof fn lemma_width_concat(a: Seq<char>, b: Seq<char>, e: bool)
    ensures
        width_from(a + b, e) == width_from(a, e) + width_from(b, escape_after(a, e)),
        escape_after(a + b, e) == escape_after(b, escape_after(a, e)),
    decreases a.len(),
{
    if a.len() > 0 {
        assert((a + b).drop_first() =~= a.drop_first() + b);
        if e {
            lemma_width_concat(a.drop_first(), b, a[0] != 'm');
        } else {
            lemma_width_concat(a.drop_first(), b, a[0] == '\x1b');
        }
    } else {
        assert(a + b =~= b);
    }
}

/// Spaces are all visible and end outside an escape sequence.
pub proof fn lemma_width_spaces(n: nat)
    ensures
        width_from(repeat_char(' ', n), false) == n,
        !escape_after(repeat_char(' ', n), false),
    decreases n,
{
    if n > 0 {
        assert(repeat_char(' ', n).drop_first() =~= repeat_char(' ', (n - 1) as nat));
        lemma_width_spaces((n - 1) as nat);
    } else {
        assert(repeat_char(' ', n) =~= Seq::<char>::empty());
    }
}

/// The column widths of a table bound every header's length and every cell's visible width.
pub proof fn lemma_table_widths_bound(headers: Seq<Seq<char>>, rows: Seq<Seq<Seq<char>>>)
    ensures
        table_widths(headers, rows).len() == headers.len(),
        forall|i: int| 0 <= i < headers.len() ==> headers[i].len() <= #[trigger] table_widths(headers, rows)[i],
        forall|r: int, i: int| 0 <= r < rows.len() && 0 <= i < headers.len() && i < rows[r].len()
            ==> visible_width_spec(#[trigger] rows[r][i]) <= table_widths(headers, rows)[i],
    decreases rows.len(),
{
    if rows.len() > 0 {
        let prev = rows.drop_last();
        lemma_table_widths_bound(headers, prev);
        assert forall|r: int, i: int| 0 <= r < rows.len() && 0 <= i < headers.len() && i < rows[r].len()
            implies visible_width_spec(#[trigger] rows[r][i]) <= table_widths(headers, rows)[i] by {
            if r < rows.len() - 1 {
                assert(rows[r] == prev[r]);
                assert(visible_width_spec(prev[r][i]) <= table_widths(headers, prev)[i]);
            }
        }
    }
}

/// The visible widths of some texts.
pub open spec fn visible_widths(parts: Seq<Seq<char>>) -> Seq<nat> {
    Seq::new(parts.len(), |j: int| visible_width_spec(parts[j]))
}

/// Texts that end outside escape sequences, joined by two spaces, are as wide as they are
/// together with the separators.
pub proof fn lemma_join_width(parts: Seq<Seq<char>>)
    requires
        forall|j: int| 0 <= j < parts.len() ==> !escape_after(#[trigger] parts[j], false),
    ensures
        visible_width_spec(join_cells(parts)) == rule_width(visible_widths(parts)),
        !escape_after(join_cells(parts), false),
    decreases parts.len(),
{
    if parts.len() == 0 {
        assert(visible_widths(parts) =~= Seq::<nat>::empty());
    } else {
        let init = parts.drop_last();
        let vw = visible_widths(parts);
        assert(vw.drop_last() =~= visible_widths(init));
        assert(width_sum(vw) == width_sum(visible_widths(init)) + visible_width_spec(parts.last()));
        if parts.len() == 1 {
            assert(visible_widths(init) =~= Seq::<nat>::empty());
            assert(join_cells(parts) == parts[0]);
        } else {
            lemma_join_width(init);
            let sep: Seq<char> = seq![' ', ' '];
            lemma_width_concat(join_cells(init), sep, false);
            lemma_width_concat(join_cells(init) + sep, parts.last(), false);
            assert(sep =~= repeat_char(' ', 2));
            lemma_width_spaces(2);
        }
    }
}

/// A cell padded to its column is exactly as wide as the column, when the cell ends outside
/// an escape sequence and is no wider than the column.
pub proof fn lemma_pad_cell_width(c: Seq<char>, ws: Seq<nat>, i: int)
    requires
        0 <= i < ws.len(),
        visible_width_spec(c) <= ws[i],
        !escape_after(c, false),
    ensures
        visible_width_spec(pad_cell(c, ws, i)) == ws[i],
        !escape_after(pad_cell(c, ws, i), false),
{
    let n: nat = (ws[i] - visible_width_spec(c)) as nat;
    assert(pad_cell(c, ws, i) == c + repeat_char(' ', n));
    lemma_width_concat(c, repeat_char(' ', n), false);
    lemma_width_spaces(n);
}

/// The columns of a table line up: in the line of any row, every cell (that ends outside
/// an escape sequence, such as every painted text) is padded to exactly its column's width,
/// so each column starts at the same visible position on every line; a row with a cell for
/// every column is exactly as wide as the rule under the header, and so is the header line
/// when its headers hold no escape character.
pub proof fn law_table_columns_line_up(headers: Seq<Seq<char>>, rows: Seq<Seq<Seq<char>>>, r: int)
    requires
        0 <= r < rows.len(),
        forall|i: int| 0 <= i < rows[r].len() ==> !escape_after(#[trigger] rows[r][i], false),
    ensures
        forall|i: int| 0 <= i < rows[r].len() && i < headers.len()
            ==> visible_width_spec(#[trigger] pad_cell(rows[r][i], table_widths(headers, rows), i))
                == table_widths(headers, rows)[i],
        rows[r].len() == headers.len() ==> visible_width_spec(row_line(rows[r], table_widths(headers, rows)))
            == rule_width(table_widths(headers, rows)),
        (forall|i: int, k: int| 0 <= i < headers.len() && 0 <= k < headers[i].len() ==> headers[i][k] != '\x1b')
            ==> visible_width_spec(header_line(headers, table_widths(headers, rows))) == rule_width(table_widths(headers, rows)),
{
    let ws = table_widths(headers, rows);
    let row = rows[r];
    lemma_table_widths_bound(headers, rows);
    assert forall|i: int| 0 <= i < row.len() && i < headers.len()
        implies visible_width_spec(#[trigger] pad_cell(row[i], ws, i)) == ws[i] by {
        lemma_pad_cell_width(row[i], ws, i);
    }
    if row.len() == headers.len() {
        let parts = Seq::new(row.len(), |i: int| pad_cell(row[i], ws, i));
        assert forall|j: int| 0 <= j < parts.len() implies !escape_after(#[trigger] parts[j], false) by {
            lemma_pad_cell_width(row[j], ws, j);
        }
        lemma_join_width(parts);
        assert(visible_widths(parts) =~= ws);
    }
    if forall|i: int, k: int| 0 <= i < headers.len() && 0 <= k < headers[i].len() ==> headers[i][k] != '\x1b' {
        let parts = Seq::new(headers.len(), |i: int| pad_to(headers[i], ws[i]));
        assert forall|j: int| 0 <= j < parts.len()
            implies !escape_after(#[trigger] parts[j], false) && visible_width_spec(parts[j]) == ws[j] by {
            lemma_plain_width(headers[j]);
            lemma_pad_cell_width(headers[j], ws, j);
            assert(parts[j] == pad_cell(headers[j], ws, j));
        }
        lemma_join_width(parts);
        assert(visible_widths(parts) =~= ws);
    }
}

/// A text without escape characters is all visible.
pub proof fn lemma_plain_width(s: Seq<char>)
    requires
        forall|k: int| 0 <= k < s.len() ==> s[k] != '\x1b',
    ensures
        visible_width_spec(s) == s.len(),
        !escape_after(s, false),
    decreases s.len(),
{
    if s.len() > 0 {
        lemma_plain_width(s.drop_first());
    }
}

/// Inside an escape sequence, characters other than `m` show nothing and keep it open.
proof fn lemma_inside_escape(s: Seq<char>)
    requires
        forall|k: int| 0 <= k < s.len() ==> s[k] != 'm',
    ensures
        width_from(s, true) == 0,
        escape_after(s, true),
    decreases s.len(),
{
    if s.len() > 0 {
        lemma_inside_escape(s.drop_first());
    }
}

/// How one character is read.
proof fn lemma_one_char(c: char, e: bool)
    ensures
        width_from(seq![c], e) == (if e || c == '\x1b' { 0nat } else { 1nat }),
        escape_after(seq![c], e) == (if e { c != 'm' } else { c == '\x1b' }),
{
    let one: Seq<char> = seq![c];
    assert(one[0] == c);
    assert(one.drop_first() =~= Seq::<char>::empty());
    assert(width_from(one.drop_first(), false) == 0);
    assert(width_from(one.drop_first(), true) == 0);
    assert(!escape_after(one.drop_first(), false));
    assert(escape_after(one.drop_first(), true));
}

/// The reset sequence shows nothing and ends any escape sequence.
proof fn lemma_reset(e: bool)
    ensures
        width_from(seq!['\x1b', '[', '0', 'm'], e) == 0,
        !escape_after(seq!['\x1b', '[', '0', 'm'], e),
{
    let a: Seq<char> = seq!['\x1b'];
    let b: Seq<char> = seq!['['];
    let c: Seq<char> = seq!['0'];
    let d: Seq<char> = seq!['m'];
    assert(seq!['\x1b', '[', '0', 'm'] =~= a + (b + (c + d)));
    lemma_one_char('\x1b', e);
    lemma_one_char('[', true);
    lemma_one_char('0', true);
    lemma_one_char('m', true);
    lemma_width_concat(c, d, true);
    lemma_width_concat(b, c + d, true);
    lemma_width_concat(a, b + (c + d), e);
}

/// Painting keeps the visible width: the escape codes that `paint` adds show nothing, and
/// a painted text never ends inside an escape sequence; a text that ends outside one still
/// does once painted.
pub proof fn law_paint_keeps_visible_width(text: Seq<char>, s: TextStyle, color: bool)
    ensures
        visible_width_spec(paint_spec(text, s, color)) == visible_width_spec(text),
        !escape_after(text, false) ==> !escape_after(paint_spec(text, s, color), false),
        color && !is_plain(s) ==> !escape_after(paint_spec(text, s, color), false),
{
    if color && !is_plain(s) {
        let codes = style_codes(s);
        assert forall|k: int| 0 <= k < codes.len() implies codes[k] != 'm' by {
            let b: Seq<char> = if s.bold { seq!['1'] } else { Seq::empty() };
            let i: Seq<char> = if s.italic { if s.bold { seq![';', '3'] } else { seq!['3'] } } else { Seq::empty() };
            let f: Seq<char> = match s.fg {
                Some(c) => if s.bold || s.italic { seq![';'] + color_code(c) } else { color_code(c) },
                None => Seq::empty(),
            };
            assert(codes == b + i + f);
            if k >= b.len() + i.len() {
                if let Some(c) = s.fg {
                    if s.bold || s.italic {
                        assert(f[k - b.len() - i.len()] == (seq![';'] + color_code(c))[k - b.len() - i.len()]);
                    }
                }
            }
        }
        let open: Seq<char> = seq!['\x1b', '['] + codes + seq!['m'];
        let close: Seq<char> = seq!['\x1b', '[', '0', 'm'];
        let inner: Seq<char> = seq!['['] + codes;
        assert forall|k: int| 0 <= k < inner.len() implies inner[k] != 'm' by {
            if k > 0 {
                assert(inner[k] == codes[k - 1]);
            }
        }
        lemma_inside_escape(inner);
        assert(open =~= seq!['\x1b'] + (inner + seq!['m']));
        lemma_one_char('m', true);
        lemma_one_char('\x1b', false);
        lemma_width_concat(inner, seq!['m'], true);
        lemma_width_concat(seq!['\x1b'], inner + seq!['m'], false);
        let t = paint_spec(text, s, color);
        assert(t =~= open + (text + close));
        lemma_width_concat(open, text + close, false);
        lemma_width_concat(text, close, false);
        lemma_reset(escape_after(text, false));
    }
}

/// A node of a tree of titled items, such as pages under their parents.
pub struct TreeNode {
    pub title: String,
    pub id: String,
    pub children: Vec<TreeNode>,
}

/// The model of a tree node.
pub struct TreeV {
    pub title: Seq<char>,
    pub id: Seq<char>,
    pub children: Seq<TreeV>,
}

impl TreeNode {
    /// The model of this node.
    pub open spec fn model(self) -> TreeV
        decreases self,
    {
        TreeV { title: self.title@, id: self.id@, children: TreeNode::models(self.children@) }
    }

    /// The models of a sequence of nodes.
    pub open spec fn models(s: Seq<TreeNode>) -> Seq<TreeV>
        decreases s,
    {
        if s.len() == 0 {
            Seq::empty()
        } else {
            TreeNode::models(s.drop_last()).push(s.last().model())
        }
    }
}

/// The model of a sequence of nodes has one model per node, in order.
pub proof fn lemma_tree_models_index(s: Seq<TreeNode>)
    ensures
        TreeNode::models(s).len() == s.len(),
        forall|i: int| 0 <= i < s.len() ==> #[trigger] TreeNode::models(s)[i] == s[i].model(),
    decreases s.len(),
{
    if s.len() > 0 {
        lemma_tree_models_index(s.drop_last());
    }
}

/// The connector before a node: `└─ ` for the last child, `├─ ` for the others.
pub open spec fn connector(is_last: bool) -> Seq<char> {
    if is_last { "└─ "@ } else { "├─ "@ }
}

/// The prefix of a node's children: the node's prefix and `   ` below a last child, `│  `
/// below the others.
pub open spec fn child_prefix(prefix: Seq<char>, is_last: bool) -> Seq<char> {
    prefix + if is_last { "   "@ } else { "│  "@ }
}

/// The line of one node: prefix, dim connector, title, and the dim id in brackets.
pub open spec fn node_line(node: TreeV, prefix: Seq<char>, is_last: bool, color: bool) -> Seq<char> {
    prefix + paint_spec(connector(is_last), dim_style(), color) + node.title + seq![' ']
        + paint_spec(seq!['('] + node.id + seq![')'], dim_style(), color)
}

/// The lines of a node and, below it, of its descendants.
pub open spec fn node_lines(node: TreeV, prefix: Seq<char>, is_last: bool, color: bool) -> Seq<Seq<char>>
    decreases node,
{
    seq![node_line(node, prefix, is_last, color)]
        + forest_lines(node.children, child_prefix(prefix, is_last), color)
}

/// The lines of sibling nodes, the last of them drawn as the last child.
pub open spec fn forest_lines(nodes: Seq<TreeV>, prefix: Seq<char>, color: bool) -> Seq<Seq<char>>
    decreases nodes,
{
    if nodes.len() == 0 {
        Seq::empty()
    } else {
        leading_lines(nodes.drop_last(), prefix, color) + node_lines(nodes.last(), prefix, true, color)
    }
}

/// The lines of sibling nodes none of which is the last child.
pub open spec fn leading_lines(nodes: Seq<TreeV>, prefix: Seq<char>, color: bool) -> Seq<Seq<char>>
    decreases nodes,
{
    if nodes.len() == 0 {
        Seq::empty()
    } else {
        leading_lines(nodes.drop_last(), prefix, color) + node_lines(nodes.last(), prefix, false, color)
    }
}

/// The line of a root: at column 0, without a connector: the title and the dim id in
/// brackets.
pub open spec fn root_line(node: TreeV, color: bool) -> Seq<char> {
    node.title + seq![' '] + paint_spec(seq!['('] + node.id + seq![')'], dim_style(), color)
}

/// The lines of the roots, each followed by its descendants, whose connectors start at
/// column 0.
pub open spec fn root_lines(roots: Seq<TreeV>, color: bool) -> Seq<Seq<char>>
    decreases roots,
{
    if roots.len() == 0 {
        Seq::empty()
    } else {
        root_lines(roots.drop_last(), color) + seq![root_line(roots.last(), color)]
            + forest_lines(roots.last().children, Seq::empty(), color)
    }
}

/// The lines of a tree: the bold header, a dim rule as long as the header, then the roots.
pub open spec fn tree_lines(header: Seq<char>, roots: Seq<TreeV>, color: bool) -> Seq<Seq<char>> {
    seq![paint_spec(header, bold_style(), color), paint_spec(repeat_char('─', header.len()), dim_style(), color)]
        + root_lines(roots, color)
}

/// Appends the lines of `node` and its descendants.
pub fn collect_node(lines: &mut Vec<String>, node: &TreeNode, prefix: &str, is_last: bool, color: bool)
    ensures
        strings_view(final(lines)@) == strings_view(old(lines)@) + node_lines(node.model(), prefix@, is_last, color),
    decreases node,
{
    let conn = if is_last { "└─ " } else { "├─ " };
    let mut line = prefix.to_owned();
    let c = dim(conn, color);
    line.append(c.as_str());
    line.append(node.title.as_str());
    push_char(&mut line, ' ');
    let mut idtext = String::new();
    push_char(&mut idtext, '(');
    idtext.append(node.id.as_str());
    push_char(&mut idtext, ')');
    assert(idtext@ =~= seq!['('] + node.id@ + seq![')']);
    let d = dim(idtext.as_str(), color);
    line.append(d.as_str());
    assert(line@ =~= node_line(node.model(), prefix@, is_last, color));
    let ghost base = strings_view(lines@);
    lines.push(line);
    assert(strings_view(lines@) =~= base + seq![node_line(node.model(), prefix@, is_last, color)]);

    let mut cp = prefix.to_owned();
    cp.append(if is_last { "   " } else { "│  " });
    assert(cp@ == child_prefix(prefix@, is_last));
    collect_forest(lines, &node.children, cp.as_str(), color);
    assert(strings_view(lines@) =~= base + node_lines(node.model(), prefix@, is_last, color));
}

/// Appends the lines of sibling nodes.
fn collect_forest(lines: &mut Vec<String>, nodes: &Vec<TreeNode>, prefix: &str, color: bool)
    ensures
        strings_view(final(lines)@) == strings_view(old(lines)@) + forest_lines(TreeNode::models(nodes@), prefix@, color),
    decreases nodes,
{
    let ghost base = strings_view(lines@);
    let ghost ms = TreeNode::models(nodes@);
    proof { lemma_tree_models_index(nodes@); }
    let n = nodes.len();
    if n == 0 {
        assert(strings_view(lines@) =~= base + forest_lines(ms, prefix@, color));
        return;
    }
    let mut i: usize = 0;
    assert(leading_lines(ms.take(0), prefix@, color) =~= Seq::<Seq<char>>::empty());
    while i + 1 < n
        invariant
            n == nodes@.len(),
            n > 0,
            i + 1 <= n,
            ms == TreeNode::models(nodes@),
            ms.len() == n,
            forall|k: int| 0 <= k < n ==> #[trigger] ms[k] == nodes@[k].model(),
            strings_view(lines@) == base + leading_lines(ms.take(i as int), prefix@, color),
        decreases n - i,
    {
        assert(decreases_to!(nodes => nodes@));
        assert(decreases_to!(nodes@ => nodes@[i as int]));
        collect_node(lines, &nodes[i], prefix, false, color);
        assert(ms.take(i + 1).drop_last() =~= ms.take(i as int));
        assert(ms.take(i + 1).last() == nodes@[i as int].model());
        assert(strings_view(lines@) =~= base + leading_lines(ms.take(i + 1), prefix@, color));
        i = i + 1;
    }
    assert(ms.take(i as int) =~= ms.drop_last());
    assert(decreases_to!(nodes => nodes@));
    assert(decreases_to!(nodes@ => nodes@[i as int]));
    collect_node(lines, &nodes[i], prefix, true, color);
    assert(strings_view(lines@) =~= base + forest_lines(ms, prefix@, color));
}

/// A tree under a bold header and a dim rule as wide as the header.
pub fn collect_tree(header: &str, roots: &[TreeNode], color: bool) -> (out: CommandOutput)
    ensures
        out@ == OutputV::Lines(tree_lines(header@, TreeNode::models(roots@), color)),
{
    let mut lines: Vec<String> = Vec::new();
    let h = bold(header, color);
    lines.push(h);
    let mut rule = String::new();
    let n = header.unicode_len();
    push_repeat(&mut rule, '─', n);
    let r = dim(rule.as_str(), color);
    lines.push(r);
    assert(strings_view(lines@) =~= seq![h@, r@]);
    let ghost ms = TreeNode::models(roots@);
    proof { lemma_tree_models_index(roots@); }
    let ghost base = strings_view(lines@);
    assert(root_lines(ms.take(0), color) =~= Seq::<Seq<char>>::empty());
    let mut i: usize = 0;
    while i < roots.len()
        invariant
            i <= roots.len(),
            ms == TreeNode::models(roots@),
            ms.len() == roots@.len(),
            forall|k: int| 0 <= k < roots@.len() ==> #[trigger] ms[k] == roots@[k].model(),
            strings_view(lines@) == base + root_lines(ms.take(i as int), color),
        decreases roots.len() - i,
    {
        let node = &roots[i];
        let mut line = node.title.clone();
        push_char(&mut line, ' ');
        let mut idtext = String::new();
        push_char(&mut idtext, '(');
        idtext.append(node.id.as_str());
        push_char(&mut idtext, ')');
        assert(idtext@ =~= seq!['('] + node.id@ + seq![')']);
        let d = dim(idtext.as_str(), color);
        line.append(d.as_str());
        assert(line@ =~= root_line(node.model(), color));
        let ghost before = strings_view(lines@);
        lines.push(line);
        assert(strings_view(lines@) =~= before + seq![root_line(node.model(), color)]);
        collect_forest(&mut lines, &node.children, "", color);
        proof {
            reveal_strlit("");
            assert(""@ =~= Seq::<char>::empty());
        }
        assert(ms.take(i + 1).drop_last() =~= ms.take(i as int));
        assert(ms.take(i + 1).last() == node.model());
        assert(strings_view(lines@) =~= base + root_lines(ms.take(i + 1), color));
        i = i + 1;
    }
    assert(ms.take(roots.len() as int) =~= ms);
    assert(strings_view(lines@) =~= tree_lines(header@, ms, color));
    CommandOutput::Lines(lines)
}

} // verus!
