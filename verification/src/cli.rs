//! Command-line options and what the program does with them.
use vstd::prelude::*;
use crate::text::to_string_of;

verus! {

/// Command-line arguments: which slasher to show, how, and what else to do.
pub struct Cli {
    /// Character name (e.g. "jason", "freddy"); a random one when absent.
    pub name: Option<String>,
    /// List all available slashers.
    pub list: bool,
    /// Show system info only, no image.
    pub fetch_only: bool,
    /// Show system info alongside the image.
    pub fetch: bool,
    /// Render style: ansi, braille, ascii, unicode, fade, fullblock, sixel.
    pub style: String,
    /// Directory to build a JSON index of images for.
    pub index: Option<String>,
    /// Where to write that index (defaults to `<dir>/index.json`).
    pub index_out: Option<String>,
}

/// The render styles a user can ask for.
#[derive(PartialEq, Eq, Clone, Copy, Debug, Structural)]
pub enum RenderStyle {
    Ansi,
    Braille,
    Ascii,
    Unicode,
    Fade,
    FullBlock,
    Sixel,
}

/// The lowercase form of `s`, as `str::to_lowercase` gives it.
pub uninterp spec fn lowercase_of(s: Seq<char>) -> Seq<char>;

/// Every character of `s` is ASCII.
pub open spec fn is_ascii_text(s: Seq<char>) -> bool {
    forall|i: int| 0 <= i < s.len() ==> #[trigger] s[i] < '\u{80}'
}

/// `c` with an ASCII capital letter turned into its small letter.
pub open spec fn ascii_lower(c: char) -> char {
    if 'A' <= c && c <= 'Z' {
        ((c as int) + 32) as char
    } else {
        c
    }
}

/// `s` with its ASCII capital letters turned into small letters.
pub open spec fn ascii_lowered(s: Seq<char>) -> Seq<char> {
    Seq::new(s.len(), |i: int| ascii_lower(s[i]))
}

/// `a` and `b` are the same text up to the case of ASCII letters.
pub open spec fn same_ignoring_ascii_case(a: Seq<char>, b: Seq<char>) -> bool {
    a.len() == b.len() && forall|i: int| 0 <= i < a.len() ==> ascii_lower(#[trigger] a[i]) == ascii_lower(b[i])
}

/// `str::to_lowercase`: the result is std's Unicode lowercasing of `s`; for
/// an ASCII text that is each capital letter turned into its small letter.
/// The case tables for the rest of Unicode are not restated here.
#[verifier::external_body]
pub(crate) fn to_lowercase(s: &str) -> (r: String)
    ensures
        r@ == lowercase_of(s@),
        is_ascii_text(s@) ==> r@ == ascii_lowered(s@),
{
    s.to_lowercase()
}

/// The style a lowercase name selects; any other name selects `Ansi`.
pub open spec fn style_named(lower: Seq<char>) -> RenderStyle {
    if lower == "braille"@ {
        RenderStyle::Braille
    } else if lower == "ascii"@ {
        RenderStyle::Ascii
    } else if lower == "unicode"@ {
        RenderStyle::Unicode
    } else if lower == "fade"@ {
        RenderStyle::Fade
    } else if lower == "fullblock"@ {
        RenderStyle::FullBlock
    } else if lower == "sixel"@ {
        RenderStyle::Sixel
    } else {
        RenderStyle::Ansi
    }
}

/// The style selected by an already lowercased name.
pub fn preset_named(lower: &str) -> (r: RenderStyle)
    ensures
        r == style_named(lower@),
{
    let l = to_string_of(lower);
    if l == to_string_of("braille") {
        RenderStyle::Braille
    } else if l == to_string_of("ascii") {
        RenderStyle::Ascii
    } else if l == to_string_of("unicode") {
        RenderStyle::Unicode
    } else if l == to_string_of("fade") {
        RenderStyle::Fade
    } else if l == to_string_of("fullblock") {
        RenderStyle::FullBlock
    } else if l == to_string_of("sixel") {
        RenderStyle::Sixel
    } else {
        RenderStyle::Ansi
    }
}

/// Maps a style name, in any case, to its render style; an unrecognized
/// name gives `Ansi`.
pub fn parse_preset(s: &str) -> (r: RenderStyle)
    ensures
        r == style_named(lowercase_of(s@)),
        is_ascii_text(s@) ==> r == style_named(ascii_lowered(s@)),
{
    let lower = to_lowercase(s);
    preset_named(lower.as_str())
}

/// What the program does for a set of options.
#[derive(PartialEq, Eq, Clone, Copy, Debug, Structural)]
pub enum Action {
    /// No images are embedded: say so and stop.
    NoAssets,
    /// List the available slashers.
    List,
    /// Show the system information with the small logo.
    FetchOnly,
    /// Build the JSON index of a directory.
    Index,
    /// Render the chosen image, beside the system information when `fetch`.
    Render { fetch: bool },
}

/// The action for options `cli` when `asset_count` images are embedded.
pub open spec fn action_of(cli: Cli, asset_count: nat) -> Action {
    if asset_count == 0 {
        Action::NoAssets
    } else if cli.list {
        Action::List
    } else if cli.fetch_only {
        Action::FetchOnly
    } else if cli.index is Some {
        Action::Index
    } else {
        Action::Render { fetch: cli.fetch }
    }
}

/// Decides what to do: the conditions are tried in a fixed order (no images, list,
/// fetch only, index, then rendering).
pub fn plan(cli: &Cli, asset_count: usize) -> (r: Action)
    ensures
        r == action_of(*cli, asset_count as nat),
{
    if asset_count == 0 {
        Action::NoAssets
    } else if cli.list {
        Action::List
    } else if cli.fetch_only {
        Action::FetchOnly
    } else if cli.index.is_some() {
        Action::Index
    } else {
        Action::Render { fetch: cli.fetch }
    }
}


/// Style names are case-insensitive: ASCII names that differ only in the
/// case of their letters select the same style.
pub proof fn law_parse_preset_ignores_case(a: Seq<char>, b: Seq<char>)
    requires
        same_ignoring_ascii_case(a, b),
    ensures
        style_named(ascii_lowered(a)) == style_named(ascii_lowered(b)),
{
    assert(ascii_lowered(a) =~= ascii_lowered(b));
}

} // verus!
