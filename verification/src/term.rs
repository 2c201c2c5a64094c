//! Terminal geometry: columns and character-cell size, from the
//! environment and from what the terminal reports.
use vstd::prelude::*;
use crate::text::{parse_usize, parsed_usize};

verus! {

/// What a terminal reports of its window (the fields of `struct winsize`).
#[derive(Clone, Copy)]
pub struct WinSize {
    pub rows: u16,
    pub cols: u16,
    pub xpixel: u16,
    pub ypixel: u16,
}

/// Whether `c` has the Unicode `White_Space` property (what
/// `char::is_whitespace` tests).
pub open spec fn is_white_space(c: char) -> bool {
    ||| ('\u{9}' <= c && c <= '\u{d}')
    ||| c == ' '
    ||| c == '\u{85}'
    ||| c == '\u{a0}'
    ||| c == '\u{1680}'
    ||| ('\u{2000}' <= c && c <= '\u{200a}')
    ||| c == '\u{2028}'
    ||| c == '\u{2029}'
    ||| c == '\u{202f}'
    ||| c == '\u{205f}'
    ||| c == '\u{3000}'
}

/// `s` without its leading white space.
pub open spec fn trim_start(s: Seq<char>) -> Seq<char>
    decreases s.len(),
{
    if s.len() > 0 && is_white_space(s[0]) {
        trim_start(s.drop_first())
    } else {
        s
    }
}

/// `s` without its trailing white space.
pub open spec fn trim_end(s: Seq<char>) -> Seq<char>
    decreases s.len(),
{
    if s.len() > 0 && is_white_space(s.last()) {
        trim_end(s.drop_last())
    } else {
        s
    }
}

/// `s` without leading and trailing white space, as `str::trim` gives it.
pub open spec fn trimmed(s: Seq<char>) -> Seq<char> {
    trim_end(trim_start(s))
}

/// `str::trim`: the result is `s` with its leading and trailing Unicode
/// `White_Space` characters removed.
#[verifier::external_body]
fn trim(s: &str) -> (r: &str)
    ensures
        r@ == trimmed(s@),
{
    s.trim()
}

/// The column count a trimmed `COLUMNS` value sets: the number it reads as,
/// when positive.
pub open spec fn columns_setting_of(t: Seq<char>) -> Option<usize> {
    match parsed_usize(t) {
        Some(n) => if n > 0 { Some(n) } else { None },
        None => None,
    }
}

/// The column count that `COLUMNS` gives: its trimmed value read as a
/// positive number.
pub open spec fn columns_from_env(columns_var: Option<String>) -> Option<usize> {
    match columns_var {
        Some(v) => columns_setting_of(trimmed(v@)),
        None => None,
    }
}

/// The column count set by an already trimmed `COLUMNS` value.
pub fn columns_setting(trimmed_value: &str) -> (r: Option<usize>)
    ensures
        r == columns_setting_of(trimmed_value@),
{
    match parse_usize(trimmed_value) {
        Some(n) => if n > 0 { Some(n) } else { None },
        None => None,
    }
}

/// The first window report, in order, that passes `ok`.
pub open spec fn first_report(probes: Seq<Option<WinSize>>, ok: spec_fn(WinSize) -> bool) -> Option<WinSize>
    decreases probes.len(),
{
    if probes.len() == 0 {
        None
    } else {
        match probes[0] {
            Some(ws) => if ok(ws) { Some(ws) } else { first_report(probes.drop_first(), ok) },
            None => first_report(probes.drop_first(), ok),
        }
    }
}

pub open spec fn has_cols(ws: WinSize) -> bool {
    ws.cols > 0
}

pub open spec fn has_width_px(ws: WinSize) -> bool {
    ws.cols > 0 && ws.xpixel > 0
}

pub open spec fn has_height_px(ws: WinSize) -> bool {
    ws.rows > 0 && ws.ypixel > 0
}

/// The terminal width: `COLUMNS` when it holds a positive number, else the
/// first terminal that reports a width, else 80.
pub open spec fn cols_of(columns_var: Option<String>, probes: Seq<Option<WinSize>>) -> usize {
    match columns_from_env(columns_var) {
        Some(n) => n,
        None => match first_report(probes, |ws: WinSize| has_cols(ws)) {
            Some(ws) => ws.cols as usize,
            None => 80,
        },
    }
}

/// The cell width in pixels: pixel width over columns (at least 1) of the
/// first terminal that reports both, else 10.
pub open spec fn cell_width_of(probes: Seq<Option<WinSize>>) -> u32 {
    match first_report(probes, |ws: WinSize| has_width_px(ws)) {
        Some(ws) => if ws.xpixel / ws.cols >= 1 { (ws.xpixel / ws.cols) as u32 } else { 1 },
        None => 10,
    }
}

/// The cell height in pixels: pixel height over rows (at least 1) of the
/// first terminal that reports both, else 20.
pub open spec fn cell_height_of(probes: Seq<Option<WinSize>>) -> u32 {
    match first_report(probes, |ws: WinSize| has_height_px(ws)) {
        Some(ws) => if ws.ypixel / ws.rows >= 1 { (ws.ypixel / ws.rows) as u32 } else { 1 },
        None => 20,
    }
}

/// The current terminal width in columns, from the value of `COLUMNS` and
/// the window reports of the terminals asked, in order (`None` where the
/// request failed). Defaults to 80.
pub fn term_cols(columns_var: &Option<String>, probes: &Vec<Option<WinSize>>) -> (r: usize)
    ensures
        r == cols_of(*columns_var, probes@),
{
    if let Some(v) = columns_var {
        if let Some(n) = columns_setting(trim(v.as_str())) {
            return n;
        }
    }
    let mut i: usize = 0;
    assert(probes@.skip(0) =~= probes@);
    while i < probes.len()
        invariant
            i <= probes@.len(),
            columns_from_env(*columns_var) is None,
            first_report(probes@, |ws: WinSize| has_cols(ws)) == first_report(probes@.skip(i as int), |ws: WinSize| has_cols(ws)),
        decreases probes@.len() - i,
    {
        assert(probes@.skip(i as int).drop_first() =~= probes@.skip(i + 1));
        if let Some(ws) = probes[i] {
            if ws.cols > 0 {
                return ws.cols as usize;
            }
        }
        i = i + 1;
    }
    80
}

/// The width of a character cell in pixels, from the terminals' window
/// reports. Defaults to 10.
pub fn term_cell_px_w(probes: &Vec<Option<WinSize>>) -> (r: u32)
    ensures
        r == cell_width_of(probes@),
        r >= 1,
{
    let mut i: usize = 0;
    assert(probes@.skip(0) =~= probes@);
    while i < probes.len()
        invariant
            i <= probes@.len(),
            first_report(probes@, |ws: WinSize| has_width_px(ws)) == first_report(probes@.skip(i as int), |ws: WinSize| has_width_px(ws)),
        decreases probes@.len() - i,
    {
        assert(probes@.skip(i as int).drop_first() =~= probes@.skip(i + 1));
        if let Some(ws) = probes[i] {
            if ws.cols > 0 && ws.xpixel > 0 {
                let q = ws.xpixel / ws.cols;
                return if q >= 1 { q as u32 } else { 1 };
            }
        }
        i = i + 1;
    }
    10
}

/// The height of a character cell in pixels, from the terminals' window
/// reports. Defaults to 20.
pub fn term_cell_px_h(probes: &Vec<Option<WinSize>>) -> (r: u32)
    ensures
        r == cell_height_of(probes@),
        r >= 1,
{
    let mut i: usize = 0;
    assert(probes@.skip(0) =~= probes@);
    while i < probes.len()
        invariant
            i <= probes@.len(),
            first_report(probes@, |ws: WinSize| has_height_px(ws)) == first_report(probes@.skip(i as int), |ws: WinSize| has_height_px(ws)),
        decreases probes@.len() - i,
    {
        assert(probes@.skip(i as int).drop_first() =~= probes@.skip(i + 1));
        if let Some(ws) = probes[i] {
            if ws.rows > 0 && ws.ypixel > 0 {
                let q = ws.ypixel / ws.rows;
                return if q >= 1 { q as u32 } else { 1 };
            }
        }
        i = i + 1;
    }
    20
}

/// The widest an image may be drawn, in columns, in a terminal `cols`
/// wide: 38 columns are left for the text, but never fewer than 20 for the
/// image; a width beyond `u32` falls back to 20.
pub open spec fn max_image_cols_of(cols: nat) -> u32 {
    let room: nat = if cols >= 38 { (cols - 38) as nat } else { 0 };
    let w: nat = if room >= 20 { room } else { 20 };
    if w <= u32::MAX { w as u32 } else { 20 }
}

/// The widest an image may be drawn beside the information text.
pub fn max_image_cols(cols: usize) -> (r: u32)
    ensures
        r == max_image_cols_of(cols as nat),
        r >= 20,
{
    let room = if cols >= 38 { cols - 38 } else { 0 };
    let w = if room >= 20 { room } else { 20 };
    if w <= u32::MAX as usize { w as u32 } else { 20 }
}

/// Columns for an image drawn with a character ramp (ASCII, Kanji,
/// Chinese): at most 50.
pub fn ramp_image_cols(max_img_cols: u32) -> (r: u32)
    ensures
        r == if max_img_cols <= 50 { max_img_cols } else { 50 },
{
    if max_img_cols <= 50 { max_img_cols } else { 50 }
}

} // verus!
