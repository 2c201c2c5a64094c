//! Colouring text with the `colored` crate.
//!
//! Whether `colored` colours at all is decided by the process's environment
//! (`NO_COLOR`, `CLICOLOR`, `CLICOLOR_FORCE`, whether stdout is a terminal) or
//! by a global override, so each function here states only that its result
//! is the text unchanged or the text in the style's escape sequences.
use vstd::prelude::*;
use colored::Colorize;
use crate::ansi::{esc, is_ascii_letter, lemma_plain_text_visible, lemma_visible_concat, no_esc, state_after, stripped, visible_text, Scan};

verus! {

/// The sequence that resets all styles.
pub open spec fn reset_seq() -> Seq<char> {
    seq!['\x1b', '[', '0', 'm']
}

/// The select-graphic-rendition sequence for a parameter string.
pub open spec fn sgr(code: Seq<char>) -> Seq<char> {
    seq!['\x1b', '['] + code + seq!['m']
}

/// `text` with `style` written again after each reset sequence in it, so
/// that nested resets do not end the outer style.
pub open spec fn reapply(text: Seq<char>, style: Seq<char>) -> Seq<char>
    decreases text.len(),
{
    if text.len() == 0 {
        seq![]
    } else if text.len() >= 4 && text.take(4) == reset_seq() {
        reset_seq() + style + reapply(text.skip(4), style)
    } else {
        seq![text[0]] + reapply(text.drop_first(), style)
    }
}

/// `text` in the style whose parameters are `code`.
pub open spec fn painted(code: Seq<char>, text: Seq<char>) -> Seq<char> {
    sgr(code) + reapply(text, sgr(code)) + reset_seq()
}

/// `out` is how `text` is shown in style `code`: unchanged when colouring is
/// off, styled when it is on.
pub open spec fn shown(code: Seq<char>, text: Seq<char>, out: Seq<char>) -> bool {
    out == text || out == painted(code, text)
}

/// Bold red.
pub open spec fn red_bold() -> Seq<char> {
    seq!['1', ';', '3', '1']
}

/// White.
pub open spec fn white() -> Seq<char> {
    seq!['3', '7']
}

/// Yellow.
pub open spec fn yellow() -> Seq<char> {
    seq!['3', '3']
}

/// Purple (magenta).
pub open spec fn purple() -> Seq<char> {
    seq!['3', '5']
}

/// Cyan.
pub open spec fn cyan() -> Seq<char> {
    seq!['3', '6']
}

/// Bright red.
pub open spec fn bright_red() -> Seq<char> {
    seq!['9', '1']
}

/// `colored`'s `.red().bold()`, displayed: the text, or the text between
/// `ESC[1;31m` and `ESC[0m`.
#[verifier::external_body]
pub(crate) fn paint_red_bold(text: &str) -> (r: String)
    ensures
        shown(red_bold(), text@, r@),
{
    text.red().bold().to_string()
}

/// `colored`'s `.white()`, displayed: the text, or the text between
/// `ESC[37m` and `ESC[0m`.
#[verifier::external_body]
pub(crate) fn paint_white(text: &str) -> (r: String)
    ensures
        shown(white(), text@, r@),
{
    text.white().to_string()
}

/// `colored`'s `.yellow()`, displayed: the text, or the text between
/// `ESC[33m` and `ESC[0m`.
#[verifier::external_body]
pub(crate) fn paint_yellow(text: &str) -> (r: String)
    ensures
        shown(yellow(), text@, r@),
{
    text.yellow().to_string()
}

/// `colored`'s `.purple()`, displayed: the text, or the text between
/// `ESC[35m` and `ESC[0m`.
#[verifier::external_body]
pub(crate) fn paint_purple(text: &str) -> (r: String)
    ensures
        shown(purple(), text@, r@),
{
    text.purple().to_string()
}

/// `colored`'s `.cyan()`, displayed: the text, or the text between
/// `ESC[36m` and `ESC[0m`.
#[verifier::external_body]
pub(crate) fn paint_cyan(text: &str) -> (r: String)
    ensures
        shown(cyan(), text@, r@),
{
    text.cyan().to_string()
}

/// `colored`'s `.bright_red()`, displayed: the text, or the text between
/// `ESC[91m` and `ESC[0m`.
#[verifier::external_body]
pub(crate) fn paint_bright_red(text: &str) -> (r: String)
    ensures
        shown(bright_red(), text@, r@),
{
    text.bright_red().to_string()
}


// ---------------------------------------------------------------------------
// Styled text as the terminal shows it
// ---------------------------------------------------------------------------

/// `code` holds no letter, so it cannot end a control sequence early.
pub open spec fn no_letters(code: Seq<char>) -> bool {
    forall|i: int| 0 <= i < code.len() ==> !is_ascii_letter(#[trigger] code[i])
}

proof fn lemma_params_hidden(code: Seq<char>)
    requires
        no_letters(code),
    ensures
        visible_text(code, Scan::Csi) == Seq::<char>::empty(),
        state_after(code, Scan::Csi) == Scan::Csi,
    decreases code.len(),
{
    if code.len() > 0 {
        assert(!is_ascii_letter(code[0]));
        let c1 = code.drop_first();
        assert(no_letters(c1)) by {
            assert forall|i: int| 0 <= i < c1.len() implies !is_ascii_letter(#[trigger] c1[i]) by {
                assert(c1[i] == code[i + 1]);
            }
        }
        lemma_params_hidden(c1);
        assert(visible_text(code, Scan::Csi) =~= Seq::<char>::empty());
    }
}

/// A select-graphic-rendition sequence shows nothing and leaves the scan in
/// ordinary text.
proof fn lemma_sgr_hidden(code: Seq<char>)
    requires
        no_letters(code),
    ensures
        visible_text(sgr(code), Scan::Text) == Seq::<char>::empty(),
        state_after(sgr(code), Scan::Text) == Scan::Text,
{
    let head = seq!['\x1b', '['];
    let tail = seq!['m'];
    assert(sgr(code) == head + code + tail);
    lemma_visible_concat(head + code, tail, Scan::Text);
    lemma_visible_concat(head, code, Scan::Text);
    assert(head.drop_first() =~= seq!['[']);
    assert(seq!['['].drop_first() =~= Seq::<char>::empty());
    let br = seq!['['];
    assert(br[0] == '[');
    assert(!crate::ansi::is_visible(Scan::Escape, br[0]));
    assert(crate::ansi::step(Scan::Escape, br[0]) == Scan::Csi);
    assert(visible_text(br.drop_first(), Scan::Csi) == Seq::<char>::empty());
    assert(state_after(br.drop_first(), Scan::Csi) == Scan::Csi);
    assert(visible_text(seq!['['], Scan::Escape) =~= Seq::<char>::empty());
    assert(visible_text(head, Scan::Text) =~= Seq::<char>::empty());
    assert(state_after(seq!['['], Scan::Escape) == Scan::Csi);
    assert(state_after(head, Scan::Text) == Scan::Csi);
    lemma_params_hidden(code);
    assert(tail.drop_first() =~= Seq::<char>::empty());
    assert(tail[0] == 'm');
    assert(is_ascii_letter(tail[0]));
    assert(!crate::ansi::is_visible(Scan::Csi, tail[0]));
    assert(crate::ansi::step(Scan::Csi, tail[0]) == Scan::Text);
    assert(visible_text(tail.drop_first(), Scan::Text) == Seq::<char>::empty());
    assert(state_after(tail.drop_first(), Scan::Text) == Scan::Text);
    assert(visible_text(tail, Scan::Csi) =~= Seq::<char>::empty());
    assert(state_after(tail, Scan::Csi) == Scan::Text);
}

/// Re-applying a style after resets changes nothing in text that holds no
/// escape character.
proof fn lemma_reapply_plain(t: Seq<char>, style: Seq<char>)
    requires
        no_esc(t),
    ensures
        reapply(t, style) == t,
    decreases t.len(),
{
    if t.len() > 0 {
        assert(t[0] != esc());
        assert(t.len() >= 4 ==> t.take(4)[0] != reset_seq()[0]);
        let t1 = t.drop_first();
        assert(no_esc(t1)) by {
            assert forall|i: int| 0 <= i < t1.len() implies t1[i] != esc() by {
                assert(t1[i] == t[i + 1]);
            }
        }
        lemma_reapply_plain(t1, style);
        assert(reapply(t, style) =~= seq![t[0]] + t1);
    }
}

/// Text without escape characters, shown in a style or not, reads as the
/// text itself, and leaves the scan in ordinary text.
pub proof fn lemma_shown_reads_plainly(code: Seq<char>, t: Seq<char>, out: Seq<char>)
    requires
        shown(code, t, out),
        no_esc(t),
        no_letters(code),
    ensures
        stripped(out) == t,
        state_after(out, Scan::Text) == Scan::Text,
{
    lemma_plain_text_visible(t);
    if out != t {
        lemma_reapply_plain(t, sgr(code));
        lemma_sgr_hidden(code);
        lemma_sgr_hidden(seq!['0']);
        assert(no_letters(seq!['0'])) by {
            assert forall|i: int| 0 <= i < 1 implies !is_ascii_letter(#[trigger] seq!['0'][i]) by {}
        }
        assert(reset_seq() == sgr(seq!['0']));
        lemma_visible_concat(sgr(code) + t, reset_seq(), Scan::Text);
        lemma_visible_concat(sgr(code), t, Scan::Text);
        assert(out == sgr(code) + t + reset_seq());
        assert(stripped(out) =~= t);
    }
}

/// The colours the fetch uses hold no letters.
pub proof fn lemma_codes_have_no_letters()
    ensures
        no_letters(red_bold()),
        no_letters(white()),
        no_letters(yellow()),
        no_letters(purple()),
        no_letters(cyan()),
        no_letters(bright_red()),
{
    assert forall|i: int| 0 <= i < red_bold().len() implies !is_ascii_letter(#[trigger] red_bold()[i]) by {}
    assert forall|i: int| 0 <= i < white().len() implies !is_ascii_letter(#[trigger] white()[i]) by {}
    assert forall|i: int| 0 <= i < yellow().len() implies !is_ascii_letter(#[trigger] yellow()[i]) by {}
    assert forall|i: int| 0 <= i < purple().len() implies !is_ascii_letter(#[trigger] purple()[i]) by {}
    assert forall|i: int| 0 <= i < cyan().len() implies !is_ascii_letter(#[trigger] cyan()[i]) by {}
    assert forall|i: int| 0 <= i < bright_red().len() implies !is_ascii_letter(#[trigger] bright_red()[i]) by {}
}

} // verus!
