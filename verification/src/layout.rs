//! Placing a rendered image block and the information lines side by side.
use vstd::prelude::*;
use crate::ansi::{
    csi_clean, lemma_ansi_width_concat, lemma_printable_width, law_truncate_ansi_clean_line_fits, measured_width,
    printable_ascii, truncate_ansi, truncated, AnsiScan,
};
use crate::paint::{bright_red, paint_bright_red, shown};
use crate::text::{
    decimal, lines, lines_of, pad_right, padded, push_char, push_decimal, push_padded, push_repeated,
    push_str, repeated, to_string_of,
};

verus! {

/// Columns left empty between the image and the information text.
pub const GAP: usize = 1;

/// Fewest terminal columns the information text needs beside the image.
pub const MIN_RIGHT_BUDGET: usize = 12;

/// The `i`-th line of `ls`, or the empty line past its end.
pub open spec fn line_at(ls: Seq<Seq<char>>, i: int) -> Seq<char> {
    if 0 <= i < ls.len() {
        ls[i]
    } else {
        seq![]
    }
}

/// Each line of `ls` followed by a newline, all in order.
pub open spec fn with_newlines(ls: Seq<Seq<char>>) -> Seq<char>
    decreases ls.len(),
{
    if ls.len() == 0 {
        seq![]
    } else {
        with_newlines(ls.drop_last()) + ls.last().push('\n')
    }
}

/// The two blocks one above the other, each framed by empty lines.
pub open spec fn stacked(left: Seq<Seq<char>>, info: Seq<Seq<char>>) -> Seq<char> {
    seq!['\n'] + with_newlines(left) + seq!['\n'] + with_newlines(info) + seq!['\n']
}

/// The text of row `i` of the side-by-side layout: the image line padded
/// to `pad` columns, then the information line cut to `budget` columns.
pub open spec fn row_text(left: Seq<Seq<char>>, info: Seq<Seq<char>>, i: int, pad: nat, budget: nat) -> Seq<char> {
    pad_right(line_at(left, i), pad) + truncated(line_at(info, i), budget, measured_width(line_at(info, i)))
}

/// Row `i` of the side-by-side layout: its text and a newline.
pub open spec fn row(left: Seq<Seq<char>>, info: Seq<Seq<char>>, i: int, pad: nat, budget: nat) -> Seq<char> {
    row_text(left, info, i, pad, budget) + seq!['\n']
}

/// The rows of the side-by-side layout, as many as the longer block has
/// lines, framed by empty lines.
pub open spec fn side_by_side(left: Seq<Seq<char>>, info: Seq<Seq<char>>, pad: nat, budget: nat) -> Seq<char> {
    let n = if left.len() >= info.len() { left.len() } else { info.len() };
    seq!['\n'] + rows(left, info, n, pad, budget) + seq!['\n']
}

/// The first `n` rows of the side-by-side layout.
pub open spec fn rows(left: Seq<Seq<char>>, info: Seq<Seq<char>>, n: nat, pad: nat, budget: nat) -> Seq<char>
    decreases n,
{
    if n == 0 {
        seq![]
    } else {
        rows(left, info, (n - 1) as nat, pad, budget) + row(left, info, n - 1, pad, budget)
    }
}

/// The text written for an image block of `left_width` columns beside
/// `info` in a terminal of `cols` columns.
pub open spec fn block_layout(image_block: Seq<char>, left_width: nat, info: Seq<Seq<char>>, cols: nat) -> Seq<char> {
    let pad: nat = (left_width + GAP) as nat;
    let budget: nat = if cols >= pad { (cols - pad) as nat } else { 0 };
    if budget < MIN_RIGHT_BUDGET {
        stacked(lines(image_block), info)
    } else {
        side_by_side(lines(image_block), info, pad, budget)
    }
}

/// Appends each line of `ls` followed by a newline.
fn push_lines(out: &mut String, ls: &Vec<String>)
    ensures
        final(out)@ == old(out)@ + with_newlines(ls.deep_view()),
{
    let ghost start = out@;
    let mut i: usize = 0;
    while i < ls.len()
        invariant
            i <= ls@.len(),
            out@ == start + with_newlines(ls.deep_view().take(i as int)),
        decreases ls@.len() - i,
    {
        let ghost before = out@;
        push_str(out, ls[i].as_str());
        push_char(out, '\n');
        proof {
            let dv = ls.deep_view();
            assert(dv[i as int] == ls@[i as int]@);
            assert(dv.take(i + 1).drop_last() =~= dv.take(i as int));
            assert(out@ =~= before + dv[i as int].push('\n'));
        }
        i = i + 1;
    }
    assert(ls.deep_view().take(i as int) =~= ls.deep_view());
}

/// Writes `image_block` (an image rendered `left_width` columns wide) and
/// the information lines side by side for a terminal `cols` columns wide,
/// cutting each information line to the room left; when fewer than
/// `MIN_RIGHT_BUDGET` columns would be left, the two blocks are stacked
/// instead. Returns the text to write.
pub fn print_with_left_block_writer(image_block: &str, left_width: usize, info_lines: &Vec<String>, cols: usize) -> (r: String)
    requires
        left_width < usize::MAX,
    ensures
        r@ == block_layout(image_block@, left_width as nat, info_lines.deep_view(), cols as nat),
{
    let left_lines = lines_of(image_block);
    let pad = left_width + GAP;
    let right_budget = if cols >= pad { cols - pad } else { 0 };
    let mut out = String::new();
    if right_budget < MIN_RIGHT_BUDGET {
        push_char(&mut out, '\n');
        push_lines(&mut out, &left_lines);
        push_char(&mut out, '\n');
        push_lines(&mut out, info_lines);
        push_char(&mut out, '\n');
        return out;
    }
    let n = if left_lines.len() >= info_lines.len() { left_lines.len() } else { info_lines.len() };
    let ghost left = left_lines.deep_view();
    let ghost info = info_lines.deep_view();
    push_char(&mut out, '\n');
    let mut i: usize = 0;
    while i < n
        invariant
            i <= n,
            n == if left.len() >= info.len() { left.len() } else { info.len() },
            left == left_lines.deep_view(),
            info == info_lines.deep_view(),
            out@ == seq!['\n'] + rows(left, info, i as nat, pad as nat, right_budget as nat),
        decreases n - i,
    {
        let ghost before = out@;
        assert(i < left_lines.len() ==> line_at(left, i as int) == left_lines@[i as int]@);
        assert(i < info_lines.len() ==> line_at(info, i as int) == info_lines@[i as int]@);
        if i < left_lines.len() {
            push_padded(&mut out, left_lines[i].as_str(), pad);
        } else {
            let empty = String::new();
            push_padded(&mut out, empty.as_str(), pad);
        }
        let cut = if i < info_lines.len() {
            truncate_ansi(info_lines[i].as_str(), right_budget)
        } else {
            let empty = String::new();
            truncate_ansi(empty.as_str(), right_budget)
        };
        let ghost mid = out@;
        assert(mid == before + pad_right(line_at(left, i as int), pad as nat));
        assert(cut@ == truncated(line_at(info, i as int), right_budget as nat, measured_width(line_at(info, i as int))));
        push_str(&mut out, cut.as_str());
        push_char(&mut out, '\n');
        assert(out@ =~= before + row(left, info, i as int, pad as nat, right_budget as nat));
        i = i + 1;
    }
    push_char(&mut out, '\n');
    out
}


// ---------------------------------------------------------------------------
// The fetch without an image
// ---------------------------------------------------------------------------

/// The small ASCII logo shown beside the information when there is no image.
pub open spec fn logo() -> Seq<Seq<char>> {
    seq![
        "   _______  "@,
        "  /      /| "@,
        " /______/ | "@,
        " |  XX  | | "@,
        " |      |/  "@,
        " |______|   "@,
    ]
}

fn logo_lines() -> (v: Vec<String>)
    ensures
        v.deep_view() == logo(),
{
    let v = vec![
        to_string_of("   _______  "),
        to_string_of("  /      /| "),
        to_string_of(" /______/ | "),
        to_string_of(" |  XX  | | "),
        to_string_of(" |      |/  "),
        to_string_of(" |______|   "),
    ];
    assert(v.deep_view() =~= logo());
    v
}

/// Row `i` of the logo fetch: two spaces, the logo line padded to 18
/// columns in bright red (`k`), three spaces, the information line.
pub open spec fn logo_row(info: Seq<Seq<char>>, i: int, line: Seq<char>) -> bool {
    exists|k: Seq<char>|
        #![trigger shown(bright_red(), pad_right(line_at(logo(), i), 18), k)]
        shown(bright_red(), pad_right(line_at(logo(), i), 18), k) && line == seq![' ', ' '] + k + seq![' ', ' ', ' ']
            + line_at(info, i)
}

/// The lines printed by the logo fetch: an empty line, one row per line of
/// the longer of logo and information, an empty line.
pub open spec fn logo_screen(info: Seq<Seq<char>>, out: Seq<Seq<char>>) -> bool {
    let n = if info.len() >= 6 { info.len() } else { 6 };
    &&& out.len() == n + 2
    &&& out[0] == Seq::<char>::empty()
    &&& out[n + 1int] == Seq::<char>::empty()
    &&& forall|i: int| 0 <= i < n ==> logo_row(info, i, #[trigger] out[i + 1])
}

/// The lines to print for the fetch without an image: the logo in bright
/// red on the left, the information lines on the right.
pub fn print_fetch(info_lines: &Vec<String>) -> (out: Vec<String>)
    ensures
        logo_screen(info_lines.deep_view(), out.deep_view()),
{
    let art = logo_lines();
    let n = if info_lines.len() >= 6 { info_lines.len() } else { 6 };
    let ghost info = info_lines.deep_view();
    let mut out: Vec<String> = Vec::new();
    out.push(String::new());
    assert(art.deep_view().len() == art@.len());
    assert(logo().len() == 6);
    let mut i: usize = 0;
    while i < n
        invariant
            i <= n,
            n == if info.len() >= 6 { info.len() } else { 6 },
            info == info_lines.deep_view(),
            art@.len() == 6,
            art.deep_view() == logo(),
            out@.len() == i + 1,
            out.deep_view()[0] == Seq::<char>::empty(),
            forall|j: int| 0 <= j < i ==> logo_row(info, j, #[trigger] out.deep_view()[j + 1]),
        decreases n - i,
    {
        let empty = String::new();
        let l = if i < art.len() { art[i].as_str() } else { empty.as_str() };
        assert(l@ == line_at(logo(), i as int)) by {
            if i < 6 {
                assert(art.deep_view()[i as int] == art@[i as int]@);
            }
        }
        let k = paint_bright_red(padded(l, 18).as_str());
        let mut row = String::new();
        push_char(&mut row, ' ');
        push_char(&mut row, ' ');
        push_str(&mut row, k.as_str());
        push_char(&mut row, ' ');
        push_char(&mut row, ' ');
        push_char(&mut row, ' ');
        if i < info_lines.len() {
            push_str(&mut row, info_lines[i].as_str());
            assert(info[i as int] == info_lines@[i as int]@);
        }
        assert(row@ =~= seq![' ', ' '] + k@ + seq![' ', ' ', ' '] + line_at(info, i as int));
        assert(logo_row(info, i as int, row@));
        let ghost before = out.deep_view();
        out.push(row);
        assert(out.deep_view() =~= before.push(row@));
        i = i + 1;
    }
    let ghost before = out.deep_view();
    out.push(String::new());
    assert(out.deep_view() =~= before.push(Seq::<char>::empty()));
    assert forall|j: int| 0 <= j < n implies logo_row(info, j, #[trigger] out.deep_view()[j + 1]) by {
        assert(out.deep_view()[j + 1] == before[j + 1]);
    }
    out
}


// ---------------------------------------------------------------------------
// The fetch beside a Sixel image
// ---------------------------------------------------------------------------

/// Character rows reserved for a Sixel image.
pub const SIXEL_ROWS: usize = 30;

/// A control sequence: `ESC [`, its parameters, its final character.
pub open spec fn csi(param: Seq<char>, fin: char) -> Seq<char> {
    seq!['\x1b', '['] + param + seq![fin]
}

/// Columns a Sixel image `tw` pixels wide covers with cells `cell` pixels
/// wide (rounded up).
pub open spec fn sixel_image_cols(tw: nat, cell: nat) -> nat {
    if tw % cell == 0 { tw / cell } else { tw / cell + 1 }
}

/// The information lines placed at column `text_col`, one per row, each cut
/// to `budget` columns.
pub open spec fn sixel_info(info: Seq<Seq<char>>, text_col: nat, budget: nat) -> Seq<char>
    decreases info.len(),
{
    if info.len() == 0 {
        seq![]
    } else {
        sixel_info(info.drop_last(), text_col, budget) + csi(decimal(text_col), 'G')
            + truncated(info.last(), budget, measured_width(info.last())) + csi(seq!['1'], 'B')
            + csi(seq!['1'], 'G')
    }
}

/// The rows reserved: 30, or more when there are more information lines.
pub open spec fn sixel_total_rows(info: Seq<Seq<char>>) -> nat {
    if info.len() >= SIXEL_ROWS { info.len() } else { SIXEL_ROWS as nat }
}

/// What is written before the image: the reserved rows, a return to their
/// top, a saved cursor, the information lines (when at least
/// `MIN_RIGHT_BUDGET` columns are left for them), the cursor restored.
pub open spec fn sixel_before(tw: nat, cell: nat, cols: nat, info: Seq<Seq<char>>) -> Seq<char> {
    let text_col: nat = (sixel_image_cols(tw, cell) + GAP + 1) as nat;
    let budget: nat = if cols >= text_col - 1 { (cols - (text_col - 1)) as nat } else { 0 };
    let total = sixel_total_rows(info);
    repeated('\n', total) + csi(decimal(total), 'A') + csi(seq!['1'], 'G') + csi(seq![], 's')
        + (if budget >= MIN_RIGHT_BUDGET { sixel_info(info, text_col, budget) } else { seq![] })
        + csi(seq![], 'u')
}

/// What is written after the image: the cursor restored, moved below the
/// reserved rows, and a newline.
pub open spec fn sixel_after(info: Seq<Seq<char>>) -> Seq<char> {
    csi(seq![], 'u') + csi(decimal(sixel_total_rows(info)), 'B') + csi(seq!['1'], 'G') + seq!['\n']
}

fn push_csi_number(out: &mut String, n: u64, fin: char)
    ensures
        final(out)@ == old(out)@ + csi(decimal(n as nat), fin),
{
    let ghost start = out@;
    push_char(out, '\x1b');
    push_char(out, '[');
    push_decimal(out, n);
    push_char(out, fin);
    assert(out@ =~= start + csi(decimal(n as nat), fin));
}

fn push_csi_one(out: &mut String, fin: char)
    ensures
        final(out)@ == old(out)@ + csi(seq!['1'], fin),
{
    let ghost start = out@;
    push_char(out, '\x1b');
    push_char(out, '[');
    push_char(out, '1');
    push_char(out, fin);
    assert(out@ =~= start + csi(seq!['1'], fin));
}

fn push_csi_bare(out: &mut String, fin: char)
    ensures
        final(out)@ == old(out)@ + csi(seq![], fin),
{
    let ghost start = out@;
    push_char(out, '\x1b');
    push_char(out, '[');
    push_char(out, fin);
    assert(out@ =~= start + csi(seq![], fin));
}

/// The text written around a Sixel image `tw` pixels wide, in a terminal
/// `cols` columns wide whose cells are `cell_px_w` pixels wide: the part
/// before the image, which places the information lines to its right, and
/// the part after it, which moves below the reserved rows.
pub fn sixel_frame(tw: u32, cell_px_w: u32, cols: usize, info_lines: &Vec<String>) -> (r: (String, String))
    requires
        cell_px_w > 0,
        sixel_image_cols(tw as nat, cell_px_w as nat) + GAP + 1 <= usize::MAX,
    ensures
        r.0@ == sixel_before(tw as nat, cell_px_w as nat, cols as nat, info_lines.deep_view()),
        r.1@ == sixel_after(info_lines.deep_view()),
{
    let t = tw as usize;
    let c = cell_px_w as usize;
    let img_cols = if t % c == 0 { t / c } else { t / c + 1 };
    let text_col = img_cols + GAP + 1;
    let right_budget = if cols >= text_col - 1 { cols - (text_col - 1) } else { 0 };
    let total_rows = if info_lines.len() >= SIXEL_ROWS { info_lines.len() } else { SIXEL_ROWS };
    let ghost info = info_lines.deep_view();

    let mut before = String::new();
    push_repeated(&mut before, '\n', total_rows);
    push_csi_number(&mut before, total_rows as u64, 'A');
    push_csi_one(&mut before, 'G');
    push_csi_bare(&mut before, 's');
    let ghost head = before@;
    if right_budget >= MIN_RIGHT_BUDGET {
        let mut i: usize = 0;
        while i < info_lines.len()
            invariant
                i <= info_lines@.len(),
                info == info_lines.deep_view(),
                before@ == head + sixel_info(info.take(i as int), text_col as nat, right_budget as nat),
            decreases info_lines@.len() - i,
        {
            let ghost prev = before@;
            push_csi_number(&mut before, text_col as u64, 'G');
            let cut = truncate_ansi(info_lines[i].as_str(), right_budget);
            push_str(&mut before, cut.as_str());
            push_csi_one(&mut before, 'B');
            push_csi_one(&mut before, 'G');
            proof {
                assert(info[i as int] == info_lines@[i as int]@);
                assert(info.take(i + 1).drop_last() =~= info.take(i as int));
                assert(info.take(i + 1).last() == info[i as int]);
                assert(before@ =~= head + sixel_info(info.take(i + 1), text_col as nat, right_budget as nat));
            }
            i = i + 1;
        }
        assert(info.take(i as int) =~= info);
    } else {
        assert(before@ =~= head + Seq::<char>::empty());
    }
    push_csi_bare(&mut before, 'u');

    let mut after = String::new();
    push_csi_bare(&mut after, 'u');
    push_csi_number(&mut after, total_rows as u64, 'B');
    push_csi_one(&mut after, 'G');
    push_char(&mut after, '\n');
    assert(after@ =~= sixel_after(info));
    assert(before@ =~= sixel_before(tw as nat, cell_px_w as nat, cols as nat, info));
    (before, after)
}


/// When fewer than `MIN_RIGHT_BUDGET` columns are left beside the image,
/// the image and the information are stacked.
pub proof fn law_narrow_terminal_stacks(image_block: Seq<char>, left_width: nat, info: Seq<Seq<char>>, cols: nat)
    requires
        cols < left_width + GAP + MIN_RIGHT_BUDGET,
    ensures
        block_layout(image_block, left_width, info, cols) == stacked(lines(image_block), info),
{
}

/// When at least `MIN_RIGHT_BUDGET` columns are left beside the image, the
/// information goes to its right, each line cut to the columns left.
pub proof fn law_wide_terminal_side_by_side(image_block: Seq<char>, left_width: nat, info: Seq<Seq<char>>, cols: nat)
    requires
        cols >= left_width + GAP + MIN_RIGHT_BUDGET,
    ensures
        block_layout(image_block, left_width, info, cols) == side_by_side(
            lines(image_block),
            info,
            (left_width + GAP) as nat,
            (cols - (left_width + GAP)) as nat,
        ),
{
}

/// Beside an image line of printable ASCII at most `left_width` long, a
/// clean information line (escape characters only in colour codes) makes a
/// row that fits the terminal as `ansi_width` measures it: the image part
/// takes exactly `left_width + GAP` columns and the cut information line at
/// most the columns left.
pub proof fn law_side_by_side_row_fits(left: Seq<Seq<char>>, info: Seq<Seq<char>>, i: int, left_width: nat, cols: nat)
    requires
        cols >= left_width + GAP + MIN_RIGHT_BUDGET,
        printable_ascii(line_at(left, i)),
        line_at(left, i).len() <= left_width,
        csi_clean(line_at(info, i)),
    ensures
        ({
            let pad = (left_width + GAP) as nat;
            let budget = (cols - pad) as nat;
            &&& measured_width(pad_right(line_at(left, i), pad)) == pad
            &&& measured_width(row_text(left, info, i, pad, budget)) <= cols
        }),
{
    let pad = (left_width + GAP) as nat;
    let budget = (cols - pad) as nat;
    let l = line_at(left, i);
    let padded_line = pad_right(l, pad);
    assert(padded_line.len() == pad);
    assert(printable_ascii(padded_line)) by {
        assert forall|j: int| 0 <= j < padded_line.len() implies ' ' <= #[trigger] padded_line[j] && padded_line[j] <= '~' by {
            if j < l.len() {
                assert(padded_line[j] == l[j]);
            } else {
                assert(padded_line[j] == ' ');
            }
        }
    }
    lemma_printable_width(padded_line);
    let info_line = line_at(info, i);
    law_truncate_ansi_clean_line_fits(info_line, budget);
    lemma_ansi_width_concat(padded_line, truncated(info_line, budget, measured_width(info_line)), AnsiScan::Plain);
}

/// The rows of the side-by-side layout, one after another.
proof fn lemma_rows_flatten(left: Seq<Seq<char>>, info: Seq<Seq<char>>, n: nat, pad: nat, budget: nat)
    ensures
        rows(left, info, n, pad, budget) == Seq::new(
            n,
            |j: int|
                pad_right(line_at(left, j), pad) + truncated(line_at(info, j), budget, measured_width(line_at(info, j)))
                    + seq!['\n'],
        ).flatten(),
    decreases n,
{
    let f = |j: int|
        pad_right(line_at(left, j), pad) + truncated(line_at(info, j), budget, measured_width(line_at(info, j)))
            + seq!['\n'];
    let s = Seq::new(n, f);
    if n > 0 {
        lemma_rows_flatten(left, info, (n - 1) as nat, pad, budget);
        let s1 = Seq::new((n - 1) as nat, f);
        assert(s.drop_last() =~= s1);
        s.lemma_flatten_and_flatten_alt_are_equivalent();
        s1.lemma_flatten_and_flatten_alt_are_equivalent();
        assert(s.last() == f(n - 1));
        assert(rows(left, info, n, pad, budget) == rows(left, info, (n - 1) as nat, pad, budget) + row(left, info, n - 1, pad, budget));
    } else {
        assert(s =~= Seq::<Seq<char>>::empty());
    }
}

/// On a terminal wide enough for the side-by-side layout, the text written
/// is an empty line, then one row for each line of the longer of the image
/// block and the information (so no line of either is dropped), then an
/// empty line; row `j` is the `j`-th image line padded to `left_width + GAP`
/// columns followed by the `j`-th information line cut to the columns left
/// (a missing line counting as empty).
pub proof fn law_side_by_side_shows_every_line(image_block: Seq<char>, left_width: nat, info: Seq<Seq<char>>, cols: nat)
    requires
        cols >= left_width + GAP + MIN_RIGHT_BUDGET,
    ensures
        ({
            let ls = lines(image_block);
            let pad = (left_width + GAP) as nat;
            let budget = (cols - pad) as nat;
            let n = if ls.len() >= info.len() { ls.len() } else { info.len() };
            &&& n >= ls.len() && n >= info.len()
            &&& block_layout(image_block, left_width, info, cols) == seq!['\n'] + Seq::new(
                n,
                |j: int|
                    pad_right(line_at(ls, j), pad) + truncated(line_at(info, j), budget, measured_width(line_at(info, j)))
                        + seq!['\n'],
            ).flatten() + seq!['\n']
        }),
{
    let ls = lines(image_block);
    let pad = (left_width + GAP) as nat;
    let budget = (cols - pad) as nat;
    let n = if ls.len() >= info.len() { ls.len() } else { info.len() };
    lemma_rows_flatten(ls, info, n, pad, budget);
}

/// The information lines beside a Sixel image, one after another.
proof fn lemma_sixel_info_flatten(info: Seq<Seq<char>>, text_col: nat, budget: nat)
    ensures
        sixel_info(info, text_col, budget) == Seq::new(
            info.len(),
            |j: int|
                csi(decimal(text_col), 'G') + truncated(info[j], budget, measured_width(info[j])) + csi(seq!['1'], 'B')
                    + csi(seq!['1'], 'G'),
        ).flatten(),
    decreases info.len(),
{
    let f = |j: int|
        csi(decimal(text_col), 'G') + truncated(info[j], budget, measured_width(info[j])) + csi(seq!['1'], 'B')
            + csi(seq!['1'], 'G');
    let s = Seq::new(info.len(), f);
    if info.len() > 0 {
        let d = info.drop_last();
        lemma_sixel_info_flatten(d, text_col, budget);
        let g = |j: int|
            csi(decimal(text_col), 'G') + truncated(d[j], budget, measured_width(d[j])) + csi(seq!['1'], 'B')
                + csi(seq!['1'], 'G');
        let s1 = Seq::new(d.len(), g);
        assert(s.drop_last() =~= s1);
        s.lemma_flatten_and_flatten_alt_are_equivalent();
        s1.lemma_flatten_and_flatten_alt_are_equivalent();
        assert(s.last() == f(info.len() - 1));
    } else {
        assert(s =~= Seq::<Seq<char>>::empty());
    }
}

/// Beside a Sixel image, when at least `MIN_RIGHT_BUDGET` columns are left
/// right of the text column, every information line is written, in order,
/// at the text column, cut to the columns from there to the terminal's
/// edge; a clean line then ends within the terminal. With less room no
/// information is written. Either way as many rows as the larger of 30 and
/// the number of lines are reserved.
pub proof fn law_sixel_lines_cut_to_room_left(tw: nat, cell: nat, cols: nat, info: Seq<Seq<char>>)
    requires
        cell > 0,
    ensures
        ({
            let text_col = sixel_image_cols(tw, cell) + GAP + 1;
            let budget: nat = if cols >= text_col - 1 { (cols - (text_col - 1)) as nat } else { 0 };
            let total: nat = if info.len() >= 30 { info.len() } else { 30 };
            let head = repeated('\n', total) + csi(decimal(total), 'A') + csi(seq!['1'], 'G') + csi(seq![], 's');
            &&& budget >= MIN_RIGHT_BUDGET ==> sixel_before(tw, cell, cols, info) == head + Seq::new(
                info.len(),
                |j: int|
                    csi(decimal(text_col as nat), 'G') + truncated(info[j], budget, measured_width(info[j]))
                        + csi(seq!['1'], 'B') + csi(seq!['1'], 'G'),
            ).flatten() + csi(seq![], 'u')
            &&& budget < MIN_RIGHT_BUDGET ==> sixel_before(tw, cell, cols, info) == head + csi(seq![], 'u')
            &&& forall|j: int|
                0 <= j < info.len() && csi_clean(#[trigger] info[j]) && budget >= MIN_RIGHT_BUDGET ==> text_col - 1
                    + measured_width(truncated(info[j], budget, measured_width(info[j]))) <= cols
        }),
{
    let text_col = sixel_image_cols(tw, cell) + GAP + 1;
    let budget: nat = if cols >= text_col - 1 { (cols - (text_col - 1)) as nat } else { 0 };
    lemma_sixel_info_flatten(info, text_col as nat, budget);
    let head = repeated('\n', sixel_total_rows(info)) + csi(decimal(sixel_total_rows(info)), 'A') + csi(seq!['1'], 'G')
        + csi(seq![], 's');
    if budget < MIN_RIGHT_BUDGET {
        assert(head + Seq::<char>::empty() =~= head);
    }
    assert forall|j: int|
        0 <= j < info.len() && csi_clean(#[trigger] info[j]) && budget >= MIN_RIGHT_BUDGET implies text_col - 1
            + measured_width(truncated(info[j], budget, measured_width(info[j]))) <= cols by {
        law_truncate_ansi_clean_line_fits(info[j], budget);
    }
}

/// The logo fetch prints an empty line, then as many rows as the longer of
/// the six-line logo and the information, then an empty line; row `i` ends
/// with information line `i`, so every information line is shown.
pub proof fn law_logo_fetch_shows_every_line(info: Seq<Seq<char>>, out: Seq<Seq<char>>)
    requires
        logo_screen(info, out),
    ensures
        out.len() == (if info.len() >= 6 { info.len() } else { 6 }) + 2,
        out[0].len() == 0,
        out.last().len() == 0,
        forall|i: int|
            0 <= i < info.len() ==> (#[trigger] out[i + 1]).len() >= info[i].len() && out[i + 1].skip(
                out[i + 1].len() - info[i].len(),
            ) == info[i],
{
    assert forall|i: int| 0 <= i < info.len() implies (#[trigger] out[i + 1]).len() >= info[i].len() && out[i + 1].skip(
        out[i + 1].len() - info[i].len(),
    ) == info[i] by {
        assert(logo_row(info, i, out[i + 1]));
        let k = choose|k: Seq<char>|
            #![trigger shown(bright_red(), pad_right(line_at(logo(), i), 18), k)]
            shown(bright_red(), pad_right(line_at(logo(), i), 18), k) && out[i + 1] == seq![' ', ' '] + k + seq![' ', ' ', ' ']
                + line_at(info, i);
        let pre = seq![' ', ' '] + k + seq![' ', ' ', ' '];
        assert(out[i + 1] == pre + info[i]);
        assert(out[i + 1].skip(out[i + 1].len() - info[i].len()) =~= info[i]);
    }
}

} // verus!
