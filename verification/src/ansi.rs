//! Column-budgeted truncation of text that carries ANSI escape sequences.
use vstd::prelude::*;
use crate::text::{chars_of, push_char, to_string_of};

verus! {

/// Display width of one character as `unicode_width` reports it (`None`
/// for control characters).
pub uninterp spec fn char_width_of(c: char) -> Option<usize>;

/// Whether `c` is a C0 or C1 control character.
pub open spec fn is_control(c: char) -> bool {
    c < ' ' || ('\u{7f}' <= c && c < '\u{a0}')
}

/// The horizontal ellipsis that ends a cut line.
pub open spec fn ellipsis() -> char {
    '\u{2026}'
}

/// The display width of `c`: none for a control character, 1 for printable
/// ASCII and for the horizontal ellipsis U+2026 (a punctuation mark of East
/// Asian width Ambiguous, which counts as narrow), and the Unicode width
/// tables' value for the rest.
pub open spec fn display_width(c: char) -> Option<usize> {
    if is_control(c) {
        None
    } else if c == ellipsis() {
        Some(1usize)
    } else if c >= '\u{7f}' {
        char_width_of(c)
    } else {
        Some(1usize)
    }
}

/// `unicode_width::UnicodeWidthChar::width`: the result is the crate's
/// width of `c`; it is `None` exactly for the C0 and C1 control characters,
/// 1 for printable ASCII, and 1 for U+2026, an Ambiguous-width punctuation
/// mark, since the crate counts Ambiguous characters as one column
/// (`display_width`). The Unicode tables used for the rest are not restated
/// here.
#[verifier::external_body]
fn char_width(c: char) -> (r: Option<usize>)
    ensures
        r == char_width_of(c),
        r == display_width(c),
{
    unicode_width::UnicodeWidthChar::width(c)
}

/// The escape character that starts every ANSI sequence.
pub open spec fn esc() -> char {
    '\x1b'
}

/// `s` holds no escape character.
pub open spec fn no_esc(s: Seq<char>) -> bool {
    forall|i: int| 0 <= i < s.len() ==> s[i] != esc()
}

/// Where the scan of `ansi_width` stands.
pub enum AnsiScan {
    /// Ordinary text.
    Plain,
    /// Just after an escape character.
    Escape,
    /// Inside a control sequence, up to a character in `'\x40'..='\x7c'`.
    Csi,
    /// Inside an operating system command, up to BEL or `ESC \`.
    Osc,
    /// Inside an operating system command, just after an escape character.
    OscEscape,
}

/// Whether `c` ends a control sequence for `ansi_width`.
pub open spec fn is_csi_final(c: char) -> bool {
    '\x40' <= c && c <= '\x7c'
}

/// The state of `ansi_width`'s scan after reading `c` in state `st`.
pub open spec fn ansi_step(st: AnsiScan, c: char) -> AnsiScan {
    match st {
        AnsiScan::Plain => if c == esc() { AnsiScan::Escape } else { AnsiScan::Plain },
        AnsiScan::Escape => if c == '[' {
            AnsiScan::Csi
        } else if c == ']' {
            AnsiScan::Osc
        } else {
            AnsiScan::Plain
        },
        AnsiScan::Csi => if is_csi_final(c) { AnsiScan::Plain } else { AnsiScan::Csi },
        AnsiScan::Osc => if c == '\x07' {
            AnsiScan::Plain
        } else if c == esc() {
            AnsiScan::OscEscape
        } else {
            AnsiScan::Osc
        },
        AnsiScan::OscEscape => if c == '\x07' || c == '\\' {
            AnsiScan::Plain
        } else if c == esc() {
            AnsiScan::OscEscape
        } else {
            AnsiScan::Osc
        },
    }
}

/// Whether `ansi_width` counts the width of `c`, read in state `st`: an
/// ordinary character, or the character after an escape that starts no
/// sequence (`\`, `[` and `]` start one).
pub open spec fn ansi_counts(st: AnsiScan, c: char) -> bool {
    match st {
        AnsiScan::Plain => c != esc(),
        AnsiScan::Escape => c != '\\' && c != '[' && c != ']',
        _ => false,
    }
}

/// The columns `ansi_width` counts for `s`, scanning from `st`.
pub open spec fn ansi_width_from(s: Seq<char>, st: AnsiScan) -> nat
    decreases s.len(),
{
    if s.len() == 0 {
        0
    } else {
        (if ansi_counts(st, s[0]) { width_cost(display_width(s[0])) } else { 0 })
            + ansi_width_from(s.drop_first(), ansi_step(st, s[0]))
    }
}

/// The state of `ansi_width`'s scan after reading all of `s` from `st`.
pub open spec fn ansi_state_after(s: Seq<char>, st: AnsiScan) -> AnsiScan
    decreases s.len(),
{
    if s.len() == 0 {
        st
    } else {
        ansi_state_after(s.drop_first(), ansi_step(st, s[0]))
    }
}

/// The width `ansi_width` measures for `s`.
pub open spec fn measured_width(s: Seq<char>) -> nat {
    ansi_width_from(s, AnsiScan::Plain)
}

/// `ansi_width::ansi_width`: the width of `s` with its escape sequences
/// skipped (`measured_width`). An escape followed by `\` counts nothing; an
/// escape followed by `[` starts a sequence that runs through the first
/// character in `'\x40'..='\x7c'`; an escape followed by `]` starts one that
/// runs through BEL or `ESC \`; an escape followed by any other character
/// counts that character's width; every other character counts its
/// `unicode_width` width, or nothing when it has none. No character is
/// wider than its UTF-8 encoding is long, so the sum never overflows.
#[verifier::external_body]
fn ansi_width(s: &str) -> (r: usize)
    ensures
        r as nat == measured_width(s@),
{
    ansi_width::ansi_width(s)
}

/// Width that the truncation charges for a character whose display width
/// is `w`: that width, or zero when it has none.
pub open spec fn width_cost(w: Option<usize>) -> nat {
    match w {
        Some(n) => n as nat,
        None => 0,
    }
}

/// The display width of each character of `s`.
pub open spec fn widths_of(s: Seq<char>) -> Seq<Option<usize>> {
    Seq::new(s.len(), |i: int| display_width(s[i]))
}

pub open spec fn is_ascii_letter(c: char) -> bool {
    ('A' <= c && c <= 'Z') || ('a' <= c && c <= 'z')
}

/// Where the scan of a string stands with respect to escape sequences.
#[derive(PartialEq, Eq, Clone, Copy, Structural)]
pub enum Scan {
    /// Ordinary text.
    Text,
    /// Just after an escape character.
    Escape,
    /// Inside a control sequence (`ESC [` ... up to a letter).
    Csi,
}

/// The state after reading `c` in state `st`.
pub open spec fn step(st: Scan, c: char) -> Scan {
    match st {
        Scan::Csi => if is_ascii_letter(c) { Scan::Text } else { Scan::Csi },
        Scan::Escape if c == '[' => Scan::Csi,
        _ => if c == esc() { Scan::Escape } else { Scan::Text },
    }
}

/// Whether `c`, read in state `st`, is an ordinary visible character (the
/// only kind the column budget applies to).
pub open spec fn is_visible(st: Scan, c: char) -> bool {
    match st {
        Scan::Csi => false,
        Scan::Escape if c == '[' => false,
        _ => c != esc(),
    }
}

/// The characters of `s` kept when the visible ones may use the columns
/// from `col` up to `target`, `ws` giving the width of each character:
/// characters are kept in order, escape sequences whole, until the next
/// visible character would pass `target`.
pub open spec fn kept(s: Seq<char>, ws: Seq<Option<usize>>, st: Scan, col: nat, target: nat) -> Seq<char>
    decreases s.len(),
{
    if s.len() == 0 {
        seq![]
    } else {
        let c = s[0];
        if is_visible(st, c) && col + width_cost(ws[0]) > target {
            seq![]
        } else {
            let col2 = if is_visible(st, c) { col + width_cost(ws[0]) } else { col };
            seq![c] + kept(s.drop_first(), ws.drop_first(), step(st, c), col2, target)
        }
    }
}

/// The columns that the visible characters of `s` take, scanning from `st`.
pub open spec fn visible_width(s: Seq<char>, ws: Seq<Option<usize>>, st: Scan) -> nat
    decreases s.len(),
{
    if s.len() == 0 {
        0
    } else {
        let c = s[0];
        (if is_visible(st, c) { width_cost(ws[0]) } else { 0 }) + visible_width(s.drop_first(), ws.drop_first(), step(st, c))
    }
}

/// The scan state after reading all of `s` from `st`.
pub open spec fn state_after(s: Seq<char>, st: Scan) -> Scan
    decreases s.len(),
{
    if s.len() == 0 {
        st
    } else {
        state_after(s.drop_first(), step(st, s[0]))
    }
}

/// The reset sequence and ellipsis that end a cut line.
pub open spec fn cut_tail() -> Seq<char> {
    seq!['\x1b', '[', '0', 'm', '…']
}

/// What `truncate_ansi` gives for `s`, a budget of `max_cols` columns and a
/// measured width `width` of `s`.
pub open spec fn truncated(s: Seq<char>, max_cols: nat, width: nat) -> Seq<char> {
    if max_cols == 0 {
        seq![]
    } else if width <= max_cols {
        s
    } else {
        kept(s, widths_of(s), Scan::Text, 0, (max_cols - 1) as nat) + cut_tail()
    }
}

/// The display width of each character of `s`.
pub fn char_widths(s: &str) -> (ws: Vec<Option<usize>>)
    ensures
        ws@ == widths_of(s@),
{
    let cs = chars_of(s);
    let mut ws: Vec<Option<usize>> = Vec::new();
    let mut i: usize = 0;
    while i < cs.len()
        invariant
            i <= cs@.len(),
            cs@ == s@,
            ws@ == widths_of(s@).take(i as int),
        decreases cs@.len() - i,
    {
        ws.push(char_width(cs[i]));
        i = i + 1;
        assert(ws@ =~= widths_of(s@).take(i as int));
    }
    assert(widths_of(s@).take(i as int) =~= widths_of(s@));
    ws
}

/// The characters of `s` that fit in `target` columns when the width of
/// each is given by `widths`, escape sequences kept whole.
pub fn cut_by_widths(s: &str, widths: &Vec<Option<usize>>, target: usize) -> (r: String)
    requires
        widths@.len() == s@.len(),
    ensures
        r@ == kept(s@, widths@, Scan::Text, 0, target as nat),
{
    let cs = chars_of(s);
    let mut out = String::new();
    let mut st = Scan::Text;
    let mut col: usize = 0;
    let mut i: usize = 0;
    assert(cs@.skip(0) =~= cs@);
    assert(widths@.skip(0) =~= widths@);
    while i < cs.len()
        invariant
            i <= cs@.len(),
            cs@ == s@,
            widths@.len() == s@.len(),
            col <= target,
            kept(s@, widths@, Scan::Text, 0, target as nat)
                == out@ + kept(cs@.skip(i as int), widths@.skip(i as int), st, col as nat, target as nat),
        decreases cs@.len() - i,
    {
        let c = cs[i];
        let ghost rest = cs@.skip(i as int);
        let ghost wrest = widths@.skip(i as int);
        assert(rest[0] == c);
        assert(wrest[0] == widths@[i as int]);
        assert(rest.drop_first() =~= cs@.skip(i + 1));
        assert(wrest.drop_first() =~= widths@.skip(i + 1));
        let ghost st0 = st;
        let ghost col0 = col;
        let visible = match st {
            Scan::Csi => false,
            Scan::Escape => c != '[' && c != '\x1b',
            Scan::Text => c != '\x1b',
        };
        assert(visible == is_visible(st, c));
        if visible {
            let w = match widths[i] {
                Some(w) => w,
                None => 0,
            };
            assert(w == width_cost(wrest[0]));
            if w > target - col {
                assert(kept(rest, wrest, st, col as nat, target as nat) == Seq::<char>::empty());
                assert(out@ + Seq::<char>::empty() =~= out@);
                return out;
            }
            col = col + w;
        }
        let ghost before = out@;
        push_char(&mut out, c);
        st = match st {
            Scan::Csi => if ('A' <= c && c <= 'Z') || ('a' <= c && c <= 'z') { Scan::Text } else { Scan::Csi },
            Scan::Escape => if c == '[' { Scan::Csi } else if c == '\x1b' { Scan::Escape } else { Scan::Text },
            Scan::Text => if c == '\x1b' { Scan::Escape } else { Scan::Text },
        };
        assert(st == step(st0, c));
        assert(kept(rest, wrest, st0, col0 as nat, target as nat)
            == seq![c] + kept(rest.drop_first(), wrest.drop_first(), st, col as nat, target as nat));
        assert(out@ + kept(cs@.skip(i + 1), widths@.skip(i + 1), st, col as nat, target as nat)
            =~= before + kept(rest, wrest, st0, col0 as nat, target as nat));
        i = i + 1;
    }
    assert(cs@.skip(i as int) =~= Seq::<char>::empty());
    assert(out@ + Seq::<char>::empty() =~= out@);
    out
}

/// The characters of `s` that fit in `target` columns, escape sequences
/// kept whole.
pub fn cut_to_columns(s: &str, target: usize) -> (r: String)
    ensures
        r@ == kept(s@, widths_of(s@), Scan::Text, 0, target as nat),
{
    let ws = char_widths(s);
    cut_by_widths(s, &ws, target)
}

/// Truncation of `s` to `max_cols` columns when its measured width is
/// `width`: nothing for a zero budget, `s` itself when it fits, and
/// otherwise the part that fits in one column less, then a reset sequence
/// and an ellipsis.
pub fn fit_to_columns(s: &str, max_cols: usize, width: usize) -> (r: String)
    ensures
        r@ == truncated(s@, max_cols as nat, width as nat),
{
    if max_cols == 0 {
        return String::new();
    }
    if width <= max_cols {
        return to_string_of(s);
    }
    let mut out = cut_to_columns(s, max_cols - 1);
    let ghost head = out@;
    push_char(&mut out, '\x1b');
    push_char(&mut out, '[');
    push_char(&mut out, '0');
    push_char(&mut out, 'm');
    push_char(&mut out, '…');
    assert(out@ =~= head + cut_tail());
    out
}

/// Truncates `s` to `max_cols` terminal columns without breaking ANSI
/// escape sequences; a cut line ends with a reset sequence and `…`.
pub fn truncate_ansi(s: &str, max_cols: usize) -> (r: String)
    ensures
        r@ == truncated(s@, max_cols as nat, measured_width(s@)),
{
    if max_cols == 0 {
        return String::new();
    }
    let width = ansi_width(s);
    fit_to_columns(s, max_cols, width)
}

// ---------------------------------------------------------------------------
// Laws of the truncation
// ---------------------------------------------------------------------------

/// What the scan keeps is a prefix of the input.
pub proof fn lemma_kept_is_prefix(s: Seq<char>, ws: Seq<Option<usize>>, st: Scan, col: nat, target: nat)
    requires
        ws.len() == s.len(),
    ensures
        kept(s, ws, st, col, target).len() <= s.len(),
        kept(s, ws, st, col, target) == s.take(kept(s, ws, st, col, target).len() as int),
    decreases s.len(),
{
    if s.len() > 0 {
        let c = s[0];
        if !(is_visible(st, c) && col + width_cost(ws[0]) > target) {
            let col2 = if is_visible(st, c) { col + width_cost(ws[0]) } else { col };
            lemma_kept_is_prefix(s.drop_first(), ws.drop_first(), step(st, c), col2, target);
            let k = kept(s.drop_first(), ws.drop_first(), step(st, c), col2, target);
            assert(kept(s, ws, st, col, target) =~= s.take(k.len() + 1int));
        } else {
            assert(kept(s, ws, st, col, target) =~= s.take(0));
        }
    } else {
        assert(kept(s, ws, st, col, target) =~= s.take(0));
    }
}

/// The visible characters that the scan keeps fit between `col` and
/// `target`.
pub proof fn lemma_kept_fits(s: Seq<char>, ws: Seq<Option<usize>>, st: Scan, col: nat, target: nat)
    requires
        ws.len() == s.len(),
        col <= target,
    ensures
        col + visible_width(kept(s, ws, st, col, target), ws, st) <= target,
    decreases s.len(),
{
    if s.len() > 0 {
        let c = s[0];
        if !(is_visible(st, c) && col + width_cost(ws[0]) > target) {
            let col2 = if is_visible(st, c) { col + width_cost(ws[0]) } else { col };
            lemma_kept_fits(s.drop_first(), ws.drop_first(), step(st, c), col2, target);
            let k = kept(s, ws, st, col, target);
            assert(k.drop_first() =~= kept(s.drop_first(), ws.drop_first(), step(st, c), col2, target));
            assert(k[0] == c);
        }
    }
}

/// When the scan stops early, it stops outside any control sequence.
pub proof fn lemma_kept_stops_outside_sequences(s: Seq<char>, ws: Seq<Option<usize>>, st: Scan, col: nat, target: nat)
    requires
        ws.len() == s.len(),
        kept(s, ws, st, col, target).len() < s.len(),
    ensures
        state_after(kept(s, ws, st, col, target), st) != Scan::Csi,
    decreases s.len(),
{
    let c = s[0];
    if !(is_visible(st, c) && col + width_cost(ws[0]) > target) {
        let col2 = if is_visible(st, c) { col + width_cost(ws[0]) } else { col };
        let k = kept(s, ws, st, col, target);
        assert(k.drop_first() =~= kept(s.drop_first(), ws.drop_first(), step(st, c), col2, target));
        assert(k[0] == c);
        lemma_kept_stops_outside_sequences(s.drop_first(), ws.drop_first(), step(st, c), col2, target);
    }
}

/// A line wider than its budget becomes a prefix of itself that ends
/// outside any escape sequence and takes at most `max_cols - 1` columns,
/// followed by a reset sequence and an ellipsis; the prefix is the longest
/// such one, the next visible character being one that would pass
/// `max_cols - 1`.
pub proof fn law_truncate_ansi_keeps_sequences_whole(s: Seq<char>, max_cols: nat, width: nat)
    requires
        max_cols > 0,
        width > max_cols,
    ensures
        ({
            let k = kept(s, widths_of(s), Scan::Text, 0, (max_cols - 1) as nat).len();
            &&& k <= s.len()
            &&& truncated(s, max_cols, width) == s.take(k as int) + cut_tail()
            &&& visible_width(s.take(k as int), widths_of(s), Scan::Text) + 1 <= max_cols
            &&& (k < s.len() ==> state_after(s.take(k as int), Scan::Text) != Scan::Csi)
            &&& (k < s.len() ==> is_visible(state_after(s.take(k as int), Scan::Text), s[k as int]))
            &&& (k < s.len() ==> visible_width(s.take(k as int), widths_of(s), Scan::Text)
                + width_cost(widths_of(s)[k as int]) > max_cols - 1)
        }),
{
    let t = (max_cols - 1) as nat;
    let ws = widths_of(s);
    lemma_kept_is_prefix(s, ws, Scan::Text, 0, t);
    lemma_kept_fits(s, ws, Scan::Text, 0, t);
    if kept(s, ws, Scan::Text, 0, t).len() < s.len() {
        lemma_kept_stops_outside_sequences(s, ws, Scan::Text, 0, t);
        lemma_kept_stops_at_overflow(s, ws, Scan::Text, 0, t);
    }
}

/// When the scan stops early, the next character is a visible one whose
/// width would pass `target`.
pub proof fn lemma_kept_stops_at_overflow(s: Seq<char>, ws: Seq<Option<usize>>, st: Scan, col: nat, target: nat)
    requires
        ws.len() == s.len(),
        kept(s, ws, st, col, target).len() < s.len(),
    ensures
        ({
            let k = kept(s, ws, st, col, target).len();
            let p = s.take(k as int);
            &&& is_visible(state_after(p, st), s[k as int])
            &&& col + visible_width(p, ws, st) + width_cost(ws[k as int]) > target
        }),
    decreases s.len(),
{
    let c = s[0];
    let k = kept(s, ws, st, col, target).len();
    if !(is_visible(st, c) && col + width_cost(ws[0]) > target) {
        let col2 = if is_visible(st, c) { col + width_cost(ws[0]) } else { col };
        let kk = kept(s, ws, st, col, target);
        let k1 = kept(s.drop_first(), ws.drop_first(), step(st, c), col2, target);
        assert(kk.drop_first() =~= k1);
        lemma_kept_stops_at_overflow(s.drop_first(), ws.drop_first(), step(st, c), col2, target);
        let p = s.take(k as int);
        assert(p.drop_first() =~= s.drop_first().take(k1.len() as int));
        assert(p[0] == c);
        assert(s[k as int] == s.drop_first()[k1.len() as int]);
        assert(ws[k as int] == ws.drop_first()[k1.len() as int]);
    } else {
        assert(s.take(0) =~= Seq::<char>::empty());
    }
}

/// Whether `c`, read in state `st`, stays within the escape sequences the
/// truncation knows: an escape is followed by `[`, and a control sequence
/// runs to its first ASCII letter, with no character before it that ends a
/// sequence for `ansi_width`.
pub open spec fn clean_char(st: Scan, c: char) -> bool {
    match st {
        Scan::Escape => c == '[',
        Scan::Csi => is_ascii_letter(c) || !is_csi_final(c),
        Scan::Text => true,
    }
}

/// Every character of `s`, scanning from `st`, satisfies `clean_char`.
pub open spec fn csi_clean_from(s: Seq<char>, st: Scan) -> bool
    decreases s.len(),
{
    if s.len() == 0 {
        true
    } else {
        clean_char(st, s[0]) && csi_clean_from(s.drop_first(), step(st, s[0]))
    }
}

/// `s` uses escape characters only to start control sequences `ESC [` ...
/// that end at their first ASCII letter, the form colour codes take.
pub open spec fn csi_clean(s: Seq<char>) -> bool {
    csi_clean_from(s, Scan::Text)
}

/// The state of `ansi_width`'s scan that matches a state of the truncation's.
pub open spec fn ansi_scan_of(st: Scan) -> AnsiScan {
    match st {
        Scan::Text => AnsiScan::Plain,
        Scan::Escape => AnsiScan::Escape,
        Scan::Csi => AnsiScan::Csi,
    }
}

/// A character of a clean text satisfies `clean_char` in the state the
/// scan reaches at it.
pub proof fn lemma_clean_at(s: Seq<char>, st: Scan, k: int)
    requires
        csi_clean_from(s, st),
        0 <= k < s.len(),
    ensures
        clean_char(state_after(s.take(k), st), s[k]),
    decreases k,
{
    if k == 0 {
        assert(s.take(0) =~= Seq::<char>::empty());
    } else {
        lemma_clean_at(s.drop_first(), step(st, s[0]), k - 1);
        assert(s.take(k).drop_first() =~= s.drop_first().take(k - 1));
        assert(s.take(k)[0] == s[0]);
    }
}

/// A prefix of a clean text is clean.
pub proof fn lemma_clean_prefix(s: Seq<char>, st: Scan, k: int)
    requires
        csi_clean_from(s, st),
        0 <= k <= s.len(),
    ensures
        csi_clean_from(s.take(k), st),
    decreases k,
{
    if k == 0 {
        assert(s.take(0) =~= Seq::<char>::empty());
    } else {
        lemma_clean_prefix(s.drop_first(), step(st, s[0]), k - 1);
        assert(s.take(k).drop_first() =~= s.drop_first().take(k - 1));
        assert(s.take(k)[0] == s[0]);
    }
}

/// On a clean text the columns the truncation counts are the columns
/// `ansi_width` measures, and the two scans end in matching states.
pub proof fn lemma_clean_widths_agree(s: Seq<char>, ws: Seq<Option<usize>>, st: Scan)
    requires
        csi_clean_from(s, st),
        ws.len() >= s.len(),
        forall|i: int| 0 <= i < s.len() ==> ws[i] == display_width(s[i]),
    ensures
        visible_width(s, ws, st) == ansi_width_from(s, ansi_scan_of(st)),
        ansi_state_after(s, ansi_scan_of(st)) == ansi_scan_of(state_after(s, st)),
    decreases s.len(),
{
    if s.len() > 0 {
        let c = s[0];
        let s1 = s.drop_first();
        let w1 = ws.drop_first();
        assert forall|i: int| 0 <= i < s1.len() implies w1[i] == display_width(s1[i]) by {
            assert(s1[i] == s[i + 1]);
        }
        assert(ws[0] == display_width(c));
        assert(clean_char(st, c));
        assert(ansi_step(ansi_scan_of(st), c) == ansi_scan_of(step(st, c)));
        assert(ansi_counts(ansi_scan_of(st), c) == is_visible(st, c));
        lemma_clean_widths_agree(s1, w1, step(st, c));
    }
}

/// `ansi_width` measures a concatenation part by part, the second part from
/// the state the first leaves.
pub proof fn lemma_ansi_width_concat(a: Seq<char>, b: Seq<char>, st: AnsiScan)
    ensures
        ansi_width_from(a + b, st) == ansi_width_from(a, st) + ansi_width_from(b, ansi_state_after(a, st)),
        ansi_state_after(a + b, st) == ansi_state_after(b, ansi_state_after(a, st)),
    decreases a.len(),
{
    if a.len() > 0 {
        assert((a + b).drop_first() =~= a.drop_first() + b);
        assert((a + b)[0] == a[0]);
        lemma_ansi_width_concat(a.drop_first(), b, ansi_step(st, a[0]));
    } else {
        assert(a + b =~= b);
    }
}

/// The reset sequence and ellipsis that end a cut line take one column and
/// leave `ansi_width`'s scan in ordinary text.
pub proof fn lemma_cut_tail_width()
    ensures
        ansi_width_from(cut_tail(), AnsiScan::Plain) == 1,
        ansi_state_after(cut_tail(), AnsiScan::Plain) == AnsiScan::Plain,
{
    let t0 = cut_tail();
    let t1 = t0.drop_first();
    let t2 = t1.drop_first();
    let t3 = t2.drop_first();
    let t4 = t3.drop_first();
    let t5 = t4.drop_first();
    assert(t0[0] == esc());
    assert(t1[0] == '[');
    assert(t2[0] == '0');
    assert(t3[0] == 'm');
    assert(t4[0] == ellipsis());
    assert(t5.len() == 0);
    assert(ansi_width_from(t5, AnsiScan::Plain) == 0);
    assert(ansi_width_from(t4, AnsiScan::Plain) == 1);
    assert(ansi_width_from(t3, AnsiScan::Csi) == 1);
    assert(ansi_width_from(t2, AnsiScan::Csi) == 1);
    assert(ansi_width_from(t1, AnsiScan::Escape) == 1);
    assert(ansi_state_after(t5, AnsiScan::Plain) == AnsiScan::Plain);
    assert(ansi_state_after(t4, AnsiScan::Plain) == AnsiScan::Plain);
    assert(ansi_state_after(t3, AnsiScan::Csi) == AnsiScan::Plain);
    assert(ansi_state_after(t2, AnsiScan::Csi) == AnsiScan::Plain);
    assert(ansi_state_after(t1, AnsiScan::Escape) == AnsiScan::Plain);
}

/// A clean line wider than its budget is cut at the longest prefix that
/// fits `max_cols - 1` columns as `ansi_width` measures them: the prefix is
/// shorter than the line and ends in ordinary text, and the character after
/// it is an ordinary one whose width would pass `max_cols - 1`.
pub proof fn law_truncate_ansi_cuts_at_longest_prefix(s: Seq<char>, max_cols: nat)
    requires
        csi_clean(s),
        max_cols > 0,
        measured_width(s) > max_cols,
    ensures
        ({
            let k = kept(s, widths_of(s), Scan::Text, 0, (max_cols - 1) as nat).len();
            let p = s.take(k as int);
            &&& k < s.len()
            &&& truncated(s, max_cols, measured_width(s)) == p + cut_tail()
            &&& measured_width(p) + 1 <= max_cols
            &&& state_after(p, Scan::Text) == Scan::Text
            &&& s[k as int] != esc()
            &&& measured_width(p) + width_cost(display_width(s[k as int])) > max_cols - 1
        }),
{
    let t = (max_cols - 1) as nat;
    let ws = widths_of(s);
    law_truncate_ansi_keeps_sequences_whole(s, max_cols, measured_width(s));
    let k = kept(s, ws, Scan::Text, 0, t).len();
    let p = s.take(k as int);
    lemma_clean_prefix(s, Scan::Text, k as int);
    assert forall|i: int| 0 <= i < p.len() implies ws[i] == display_width(p[i]) by {
        assert(p[i] == s[i]);
    }
    lemma_clean_widths_agree(p, ws, Scan::Text);
    if k == s.len() {
        assert(p =~= s);
        assert(false);
    }
    lemma_kept_stops_at_overflow(s, ws, Scan::Text, 0, t);
    lemma_clean_at(s, Scan::Text, k as int);
}

/// A clean line, cut or not, fits its budget as `ansi_width` measures it.
pub proof fn law_truncate_ansi_clean_line_fits(s: Seq<char>, max_cols: nat)
    requires
        csi_clean(s),
    ensures
        measured_width(truncated(s, max_cols, measured_width(s))) <= max_cols,
{
    if max_cols > 0 && measured_width(s) > max_cols {
        law_truncate_ansi_cuts_at_longest_prefix(s, max_cols);
        let ws = widths_of(s);
        let k = kept(s, ws, Scan::Text, 0, (max_cols - 1) as nat).len();
        let p = s.take(k as int);
        lemma_clean_prefix(s, Scan::Text, k as int);
        assert forall|i: int| 0 <= i < p.len() implies ws[i] == display_width(p[i]) by {
            assert(p[i] == s[i]);
        }
        lemma_clean_widths_agree(p, ws, Scan::Text);
        lemma_ansi_width_concat(p, cut_tail(), AnsiScan::Plain);
        lemma_cut_tail_width();
    }
}

/// Cutting a clean line a second time to the same budget changes nothing.
pub proof fn law_truncate_ansi_idempotent(s: Seq<char>, max_cols: nat)
    requires
        csi_clean(s),
        max_cols > 0,
    ensures
        ({
            let t = truncated(s, max_cols, measured_width(s));
            truncated(t, max_cols, measured_width(t)) == t
        }),
{
    law_truncate_ansi_clean_line_fits(s, max_cols);
}

/// `s` holds only printable ASCII characters (space to `~`).
pub open spec fn printable_ascii(s: Seq<char>) -> bool {
    forall|i: int| 0 <= i < s.len() ==> ' ' <= #[trigger] s[i] && s[i] <= '~'
}

/// Printable ASCII takes one column per character and leaves `ansi_width`'s
/// scan in ordinary text.
pub proof fn lemma_printable_width(s: Seq<char>)
    requires
        printable_ascii(s),
    ensures
        measured_width(s) == s.len(),
        ansi_state_after(s, AnsiScan::Plain) == AnsiScan::Plain,
    decreases s.len(),
{
    if s.len() > 0 {
        let s1 = s.drop_first();
        assert(' ' <= s[0] && s[0] <= '~');
        assert(printable_ascii(s1)) by {
            assert forall|i: int| 0 <= i < s1.len() implies ' ' <= #[trigger] s1[i] && s1[i] <= '~' by {
                assert(s1[i] == s[i + 1]);
            }
        }
        lemma_printable_width(s1);
    }
}

/// A line that fits its budget is left as it is, and a zero budget leaves
/// nothing.
pub proof fn law_truncate_ansi_fitting_line_unchanged(s: Seq<char>, max_cols: nat, width: nat)
    ensures
        max_cols > 0 && width <= max_cols ==> truncated(s, max_cols, width) == s,
        max_cols == 0 ==> truncated(s, max_cols, width) == Seq::<char>::empty(),
{
}


// ---------------------------------------------------------------------------
// Text as the terminal shows it
// ---------------------------------------------------------------------------

/// The visible characters of `s`, scanning from `st`: `s` with its escape
/// characters and control sequences removed.
pub open spec fn visible_text(s: Seq<char>, st: Scan) -> Seq<char>
    decreases s.len(),
{
    if s.len() == 0 {
        seq![]
    } else {
        (if is_visible(st, s[0]) { seq![s[0]] } else { seq![] }) + visible_text(s.drop_first(), step(st, s[0]))
    }
}

/// `s` without its escape sequences, as a terminal shows it.
pub open spec fn stripped(s: Seq<char>) -> Seq<char> {
    visible_text(s, Scan::Text)
}

/// Stripping a concatenation strips the second part from where the first
/// part left the scan.
pub proof fn lemma_visible_concat(a: Seq<char>, b: Seq<char>, st: Scan)
    ensures
        visible_text(a + b, st) == visible_text(a, st) + visible_text(b, state_after(a, st)),
        state_after(a + b, st) == state_after(b, state_after(a, st)),
    decreases a.len(),
{
    if a.len() > 0 {
        assert((a + b).drop_first() =~= a.drop_first() + b);
        assert((a + b)[0] == a[0]);
        lemma_visible_concat(a.drop_first(), b, step(st, a[0]));
        assert(visible_text(a + b, st) =~= visible_text(a, st) + visible_text(b, state_after(a, st)));
    } else {
        assert(a + b =~= b);
    }
}

/// Text without escape characters is shown as it is.
pub proof fn lemma_plain_text_visible(t: Seq<char>)
    requires
        no_esc(t),
    ensures
        visible_text(t, Scan::Text) == t,
        state_after(t, Scan::Text) == Scan::Text,
    decreases t.len(),
{
    if t.len() > 0 {
        assert(t[0] != esc());
        let t1 = t.drop_first();
        assert(no_esc(t1)) by {
            assert forall|i: int| 0 <= i < t1.len() implies t1[i] != esc() by {
                assert(t1[i] == t[i + 1]);
            }
        }
        lemma_plain_text_visible(t1);
        assert(visible_text(t, Scan::Text) =~= seq![t[0]] + t1);
    }
}

} // verus!
