//! Choosing which embedded image to show, and the texts about them.
use vstd::prelude::*;
use rand::seq::IndexedRandom;
use crate::cli::{ascii_lowered, is_ascii_text, lowercase_of, same_ignoring_ascii_case, to_lowercase};
use crate::text::{push_char, push_str, to_string_of};

verus! {

/// An embedded image: its path, and its file stem when the path has one.
pub struct AssetFile {
    pub path: String,
    pub stem: Option<String>,
}

/// The name shown for an image: its stem, or its path when it has none.
pub open spec fn display_name(a: AssetFile) -> Seq<char> {
    match a.stem {
        Some(s) => s@,
        None => a.path@,
    }
}

/// The lines printed by `--list`.
pub open spec fn listing(assets: Seq<AssetFile>) -> Seq<Seq<char>> {
    seq!["Available Slashers:"@] + Seq::new(assets.len(), |i: int| "  - "@ + display_name(assets[i]))
}

/// The listing of the available slashers: a heading, then one line per
/// image with its name.
pub fn list_lines(assets: &Vec<AssetFile>) -> (r: Vec<String>)
    ensures
        r.deep_view() == listing(assets@),
{
    let mut r: Vec<String> = Vec::new();
    r.push(to_string_of("Available Slashers:"));
    let mut i: usize = 0;
    while i < assets.len()
        invariant
            i <= assets@.len(),
            r.deep_view() == listing(assets@).take(i + 1),
        decreases assets@.len() - i,
    {
        let a = &assets[i];
        let mut line = to_string_of("  - ");
        match &a.stem {
            Some(s) => push_str(&mut line, s.as_str()),
            None => push_str(&mut line, a.path.as_str()),
        }
        let ghost before = r.deep_view();
        r.push(line);
        assert(r.deep_view() =~= before.push(line@));
        assert(listing(assets@).take(i + 2) =~= listing(assets@).take(i + 1).push(listing(assets@)[i + 1]));
        i = i + 1;
    }
    assert(listing(assets@).take(i + 1) =~= listing(assets@));
    r
}

/// Whether an image's stem, lowercased, is the wanted name.
pub open spec fn stem_matches(a: AssetFile, lower: Seq<char>) -> bool {
    match a.stem {
        Some(s) => lowercase_of(s@) == lower,
        None => false,
    }
}

/// The first image whose stem matches the lowercased name.
pub open spec fn first_match(assets: Seq<AssetFile>, lower: Seq<char>) -> Option<AssetFile>
    decreases assets.len(),
{
    if assets.len() == 0 {
        None
    } else if stem_matches(assets[0], lower) {
        Some(assets[0])
    } else {
        first_match(assets.drop_first(), lower)
    }
}

/// The path for a requested name: the first image whose stem matches it
/// regardless of case, else the lowercased name with `.png` appended.
pub open spec fn target_for(assets: Seq<AssetFile>, name: Seq<char>) -> Seq<char> {
    let lower = lowercase_of(name);
    match first_match(assets, lower) {
        Some(a) => a.path@,
        None => lower + ".png"@,
    }
}

/// Whether an image's stem, its ASCII capitals made small, is `lower`.
pub open spec fn stem_matches_ascii(a: AssetFile, lower: Seq<char>) -> bool {
    match a.stem {
        Some(s) => ascii_lowered(s@) == lower,
        None => false,
    }
}

/// The first image whose stem, its ASCII capitals made small, is `lower`.
pub open spec fn first_match_ascii(assets: Seq<AssetFile>, lower: Seq<char>) -> Option<AssetFile>
    decreases assets.len(),
{
    if assets.len() == 0 {
        None
    } else if stem_matches_ascii(assets[0], lower) {
        Some(assets[0])
    } else {
        first_match_ascii(assets.drop_first(), lower)
    }
}

/// Every image's stem, when it has one, is ASCII text.
pub open spec fn all_ascii_stems(assets: Seq<AssetFile>) -> bool {
    forall|i: int| 0 <= i < assets.len() ==> match #[trigger] assets[i].stem {
        Some(s) => is_ascii_text(s@),
        None => true,
    }
}

/// The path for a name when the name and all stems are ASCII: the first
/// image whose stem equals the name up to the case of letters, else the
/// name in small letters with `.png` appended.
pub open spec fn ascii_target_for(assets: Seq<AssetFile>, name: Seq<char>) -> Seq<char> {
    match first_match_ascii(assets, ascii_lowered(name)) {
        Some(a) => a.path@,
        None => ascii_lowered(name) + ".png"@,
    }
}

/// Each ASCII stem's lowercase form is its ASCII lowercase form.
pub open spec fn ascii_stems_fold_plainly(assets: Seq<AssetFile>) -> bool {
    forall|i: int| 0 <= i < assets.len() ==> match #[trigger] assets[i].stem {
        Some(s) => is_ascii_text(s@) ==> lowercase_of(s@) == ascii_lowered(s@),
        None => true,
    }
}

proof fn lemma_ascii_match(assets: Seq<AssetFile>, lower: Seq<char>)
    requires
        all_ascii_stems(assets),
        ascii_stems_fold_plainly(assets),
    ensures
        first_match(assets, lower) == first_match_ascii(assets, lower),
    decreases assets.len(),
{
    if assets.len() > 0 {
        let t = assets.drop_first();
        assert(match assets[0].stem {
            Some(s) => is_ascii_text(s@),
            None => true,
        });
        assert(match assets[0].stem {
            Some(s) => is_ascii_text(s@) ==> lowercase_of(s@) == ascii_lowered(s@),
            None => true,
        });
        assert forall|i: int| 0 <= i < t.len() implies match #[trigger] t[i].stem {
            Some(s) => is_ascii_text(s@),
            None => true,
        } by {
            assert(t[i] == assets[i + 1]);
            assert(match assets[i + 1].stem {
                Some(s) => is_ascii_text(s@),
                None => true,
            });
        }
        assert forall|i: int| 0 <= i < t.len() implies match #[trigger] t[i].stem {
            Some(s) => is_ascii_text(s@) ==> lowercase_of(s@) == ascii_lowered(s@),
            None => true,
        } by {
            assert(t[i] == assets[i + 1]);
            assert(match assets[i + 1].stem {
                Some(s) => is_ascii_text(s@) ==> lowercase_of(s@) == ascii_lowered(s@),
                None => true,
            });
        }
        lemma_ascii_match(t, lower);
    }
}

/// Whether `lowered` holds the lowercase form of each image's stem.
pub open spec fn lowered_stems(assets: Seq<AssetFile>, lowered: Seq<Option<String>>) -> bool {
    &&& lowered.len() == assets.len()
    &&& forall|i: int|
        0 <= i < assets.len() ==> match (#[trigger] assets[i].stem, lowered[i]) {
            (Some(s), Some(l)) => l@ == lowercase_of(s@),
            (None, None) => true,
            _ => false,
        }
}

/// The first image whose lowercased stem, as given by `lowered`, is `lower`.
pub open spec fn first_lowered_match(assets: Seq<AssetFile>, lowered: Seq<Option<String>>, lower: Seq<char>) -> Option<AssetFile>
    decreases assets.len(),
{
    if assets.len() == 0 || lowered.len() == 0 {
        None
    } else if (match lowered[0] {
        Some(l) => l@ == lower,
        None => false,
    }) {
        Some(assets[0])
    } else {
        first_lowered_match(assets.drop_first(), lowered.drop_first(), lower)
    }
}

proof fn lemma_lowered_match(assets: Seq<AssetFile>, lowered: Seq<Option<String>>, lower: Seq<char>)
    requires
        lowered_stems(assets, lowered),
    ensures
        first_lowered_match(assets, lowered, lower) == first_match(assets, lower),
    decreases assets.len(),
{
    if assets.len() > 0 {
        assert(match (assets[0].stem, lowered[0]) {
            (Some(s), Some(l)) => l@ == lowercase_of(s@),
            (None, None) => true,
            _ => false,
        });
        assert(lowered_stems(assets.drop_first(), lowered.drop_first())) by {
            assert forall|i: int| 0 <= i < assets.drop_first().len() implies match (#[trigger] assets.drop_first()[i].stem, lowered.drop_first()[i]) {
                (Some(s), Some(l)) => l@ == lowercase_of(s@),
                (None, None) => true,
                _ => false,
            } by {
                assert(assets.drop_first()[i] == assets[i + 1]);
                assert(match (assets[i + 1].stem, lowered[i + 1]) {
                    (Some(s), Some(l)) => l@ == lowercase_of(s@),
                    (None, None) => true,
                    _ => false,
                });
            }
        }
        lemma_lowered_match(assets.drop_first(), lowered.drop_first(), lower);
    }
}

/// The path for a lowercased name `lower` when `lowered` gives each image's
/// lowercased stem: the first image whose lowercased stem is `lower`, else
/// `lower` with `.png` appended.
pub fn match_target(assets: &Vec<AssetFile>, lowered: &Vec<Option<String>>, lower: &str) -> (r: String)
    ensures
        r@ == match first_lowered_match(assets@, lowered@, lower@) {
            Some(a) => a.path@,
            None => lower@ + ".png"@,
        },
{
    let mut i: usize = 0;
    assert(assets@.skip(0) =~= assets@);
    assert(lowered@.skip(0) =~= lowered@);
    while i < assets.len() && i < lowered.len()
        invariant
            i <= assets@.len(),
            i <= lowered@.len(),
            first_lowered_match(assets@, lowered@, lower@)
                == first_lowered_match(assets@.skip(i as int), lowered@.skip(i as int), lower@),
        decreases assets@.len() - i,
    {
        assert(assets@.skip(i as int).drop_first() =~= assets@.skip(i + 1));
        assert(lowered@.skip(i as int).drop_first() =~= lowered@.skip(i + 1));
        assert(lowered@.skip(i as int)[0] == lowered@[i as int]);
        if let Some(l) = &lowered[i] {
            if *l == to_string_of(lower) {
                return to_string_of(assets[i].path.as_str());
            }
        }
        i = i + 1;
    }
    let mut r = to_string_of(lower);
    push_str(&mut r, ".png");
    r
}

/// Finds the image asked for by name, matching file stems case-insensitively.
pub fn find_target(assets: &Vec<AssetFile>, name: &str) -> (r: String)
    ensures
        r@ == target_for(assets@, name@),
        is_ascii_text(name@) && all_ascii_stems(assets@) ==> r@ == ascii_target_for(assets@, name@),
{
    let lower = to_lowercase(name);
    let mut lowered: Vec<Option<String>> = Vec::new();
    let mut i: usize = 0;
    while i < assets.len()
        invariant
            i <= assets@.len(),
            lowered_stems(assets@.take(i as int), lowered@),
            ascii_stems_fold_plainly(assets@.take(i as int)),
        decreases assets@.len() - i,
    {
        let l = match &assets[i].stem {
            Some(s) => Some(to_lowercase(s.as_str())),
            None => None,
        };
        assert(match assets@[i as int].stem {
            Some(s) => is_ascii_text(s@) ==> lowercase_of(s@) == ascii_lowered(s@),
            None => true,
        });
        let ghost prev = lowered@;
        lowered.push(l);
        proof {
            let t = assets@.take(i + 1);
            assert forall|j: int| 0 <= j < t.len() implies match (#[trigger] t[j].stem, lowered@[j]) {
                (Some(s), Some(l)) => l@ == lowercase_of(s@),
                (None, None) => true,
                _ => false,
            } by {
                if j < i {
                    assert(t[j] == assets@.take(i as int)[j]);
                    assert(lowered@[j] == prev[j]);
                }
            }
            assert forall|j: int| 0 <= j < t.len() implies match #[trigger] t[j].stem {
                Some(s) => is_ascii_text(s@) ==> lowercase_of(s@) == ascii_lowered(s@),
                None => true,
            } by {
                if j < i {
                    assert(t[j] == assets@.take(i as int)[j]);
                    assert(match assets@.take(i as int)[j].stem {
                        Some(s) => is_ascii_text(s@) ==> lowercase_of(s@) == ascii_lowered(s@),
                        None => true,
                    });
                } else {
                    assert(t[j] == assets@[i as int]);
                }
            }
        }
        i = i + 1;
    }
    assert(assets@.take(i as int) =~= assets@);
    proof {
        lemma_lowered_match(assets@, lowered@, lower@);
        if is_ascii_text(name@) && all_ascii_stems(assets@) {
            lemma_ascii_match(assets@, lower@);
        }
    }
    match_target(assets, &lowered, lower.as_str())
}

/// `IndexedRandom::choose` with the thread-local generator, keeping the
/// chosen image's path: `None` exactly when there are no images, else the
/// path of one of them (which one is left to chance).
#[verifier::external_body]
fn choose_path(assets: &Vec<AssetFile>) -> (r: Option<String>)
    ensures
        r is None <==> assets@.len() == 0,
        r matches Some(p) ==> exists|i: int| 0 <= i < assets@.len() && #[trigger] assets@[i].path@ == p@,
{
    assets.choose(&mut rand::rng()).map(|a| a.path.clone())
}

/// The path of the image to show: the one asked for by name, or one chosen
/// at random when no name is given.
pub fn pick_target(assets: &Vec<AssetFile>, name: &Option<String>) -> (r: String)
    requires
        name is None ==> assets@.len() > 0,
    ensures
        match name {
            Some(n) => r@ == target_for(assets@, n@),
            None => exists|i: int| 0 <= i < assets@.len() && #[trigger] assets@[i].path@ == r@,
        },
{
    match name {
        Some(n) => find_target(assets, n.as_str()),
        None => match choose_path(assets) {
            Some(p) => p,
            None => {
                assert(false);
                String::new()
            },
        },
    }
}

/// Unicode `Alphabetic` property of a character, as `char::is_alphabetic`
/// reports it.
pub uninterp spec fn alphabetic(c: char) -> bool;

/// `char::is_alphabetic`: the result is std's `Alphabetic` property of `c`;
/// the Unicode tables are not restated here.
#[verifier::external_body]
fn is_alphabetic(c: char) -> (r: bool)
    ensures
        r == alphabetic(c),
{
    c.is_alphabetic()
}

/// `s` without its trailing dots and the trailing characters that `alpha`
/// marks as letters (`alpha[i]` for `s[i]`).
pub open spec fn trim_name_end(s: Seq<char>, alpha: Seq<bool>) -> Seq<char>
    decreases s.len(),
{
    if s.len() > 0 && (s.last() == '.' || alpha[s.len() - 1]) {
        trim_name_end(s.drop_last(), alpha)
    } else {
        s
    }
}

/// Which characters of `s` are letters.
pub open spec fn letters_of(s: Seq<char>) -> Seq<bool> {
    Seq::new(s.len(), |i: int| alphabetic(s[i]))
}

/// The message for a path that is no embedded image, `alpha` marking its
/// letters.
pub open spec fn not_found_text(target: Seq<char>, alpha: Seq<bool>) -> Seq<char> {
    "Slasher '"@ + trim_name_end(target, alpha) + "' not found."@
}

/// The not-found message for `target` when `alpha[i]` tells whether its
/// `i`-th character is a letter.
pub fn not_found_message_with(target: &str, alpha: &Vec<bool>) -> (r: String)
    requires
        alpha@.len() == target@.len(),
    ensures
        r@ == not_found_text(target@, alpha@),
{
    let cs = crate::text::chars_of(target);
    let mut end: usize = cs.len();
    assert(cs@.take(end as int) =~= target@);
    while end > 0 && (cs[end - 1] == '.' || alpha[end - 1])
        invariant
            end <= cs@.len(),
            cs@ == target@,
            alpha@.len() == target@.len(),
            trim_name_end(target@, alpha@) == trim_name_end(cs@.take(end as int), alpha@),
        decreases end,
    {
        assert(cs@.take(end as int).drop_last() =~= cs@.take(end - 1));
        end = end - 1;
    }
    let mut r = to_string_of("Slasher '");
    let mut i: usize = 0;
    while i < end
        invariant
            i <= end <= cs@.len(),
            r@ == "Slasher '"@ + cs@.take(i as int),
        decreases end - i,
    {
        push_char(&mut r, cs[i]);
        assert(cs@.take(i + 1) =~= cs@.take(i as int).push(cs@[i as int]));
        i = i + 1;
    }
    push_str(&mut r, "' not found.");
    r
}

/// The message printed when the chosen path is not an embedded image: the
/// path with its trailing dots and letters cut off, quoted.
pub fn not_found_message(target: &str) -> (r: String)
    ensures
        r@ == not_found_text(target@, letters_of(target@)),
{
    let cs = crate::text::chars_of(target);
    let mut alpha: Vec<bool> = Vec::new();
    let mut i: usize = 0;
    while i < cs.len()
        invariant
            i <= cs@.len(),
            cs@ == target@,
            alpha@ == letters_of(target@).take(i as int),
        decreases cs@.len() - i,
    {
        alpha.push(is_alphabetic(cs[i]));
        i = i + 1;
        assert(alpha@ =~= letters_of(target@).take(i as int));
    }
    assert(letters_of(target@).take(i as int) =~= letters_of(target@));
    not_found_message_with(target, &alpha)
}

/// Whether a file extension names an image the converter renders: exactly
/// `png`, `jpg` or `jpeg`.
pub open spec fn convertible_ext(ext: Option<String>) -> bool {
    match ext {
        Some(e) => e@ == "png"@ || e@ == "jpg"@ || e@ == "jpeg"@,
        None => false,
    }
}

/// Whether the converter renders a file with extension `ext`.
pub fn is_convertible(ext: &Option<String>) -> (r: bool)
    ensures
        r == convertible_ext(*ext),
{
    match ext {
        Some(e) => {
            let e2 = to_string_of(e.as_str());
            e2 == to_string_of("png") || e2 == to_string_of("jpg") || e2 == to_string_of("jpeg")
        },
        None => false,
    }
}

/// The name of the text file an image with stem `stem` is rendered to.
pub fn text_file_name(stem: &str) -> (r: String)
    ensures
        r@ == stem@ + ".txt"@,
{
    let mut r = to_string_of(stem);
    push_str(&mut r, ".txt");
    r
}


/// Names are matched case-insensitively: for ASCII names and stems, names
/// that differ only in the case of their letters lead to the same image.
pub proof fn law_find_target_ignores_case(assets: Seq<AssetFile>, a: Seq<char>, b: Seq<char>)
    requires
        same_ignoring_ascii_case(a, b),
    ensures
        ascii_target_for(assets, a) == ascii_target_for(assets, b),
{
    assert(ascii_lowered(a) =~= ascii_lowered(b));
}

} // verus!
