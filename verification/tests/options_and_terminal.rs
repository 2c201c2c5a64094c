use slasher_horrorscripts::assets::{
    find_target, is_convertible, list_lines, match_target, not_found_message,
    not_found_message_with, pick_target, text_file_name, AssetFile,
};
use slasher_horrorscripts::cli::{parse_preset, plan, preset_named, Action, Cli, RenderStyle};
use slasher_horrorscripts::term::{
    columns_setting, max_image_cols, ramp_image_cols, term_cell_px_h, term_cell_px_w, term_cols, WinSize,
};

fn cli() -> Cli {
    Cli {
        name: None,
        list: false,
        fetch_only: false,
        fetch: false,
        style: "ansi".to_string(),
        index: None,
        index_out: None,
    }
}

fn asset(path: &str, stem: Option<&str>) -> AssetFile {
    AssetFile {
        path: path.to_string(),
        stem: stem.map(|s| s.to_string()),
    }
}

fn ws(rows: u16, cols: u16, xpixel: u16, ypixel: u16) -> WinSize {
    WinSize { rows, cols, xpixel, ypixel }
}

#[test]
fn preset_names_in_any_case() {
    assert_eq!(parse_preset("braille"), RenderStyle::Braille);
    assert_eq!(parse_preset("BRAILLE"), RenderStyle::Braille);
    assert_eq!(parse_preset("Ascii"), RenderStyle::Ascii);
    assert_eq!(parse_preset("unicode"), RenderStyle::Unicode);
    assert_eq!(parse_preset("fAdE"), RenderStyle::Fade);
    assert_eq!(parse_preset("FullBlock"), RenderStyle::FullBlock);
    assert_eq!(parse_preset("SIXEL"), RenderStyle::Sixel);
    assert_eq!(parse_preset("ansi"), RenderStyle::Ansi);
}

#[test]
fn unknown_preset_is_ansi() {
    assert_eq!(parse_preset("nope"), RenderStyle::Ansi);
    assert_eq!(parse_preset(""), RenderStyle::Ansi);
    assert_eq!(parse_preset("full-block"), RenderStyle::Ansi);
    assert_eq!(preset_named("Braille"), RenderStyle::Ansi);
    assert_eq!(preset_named("braille"), RenderStyle::Braille);
}

#[test]
fn plan_decides_in_order() {
    let mut c = cli();
    c.list = true;
    c.fetch_only = true;
    assert_eq!(plan(&c, 0), Action::NoAssets);
    assert_eq!(plan(&c, 3), Action::List);
    c.list = false;
    c.index = Some("dir".to_string());
    assert_eq!(plan(&c, 3), Action::FetchOnly);
    c.fetch_only = false;
    assert_eq!(plan(&c, 3), Action::Index);
    c.index = None;
    assert_eq!(plan(&c, 3), Action::Render { fetch: false });
    c.fetch = true;
    assert_eq!(plan(&c, 3), Action::Render { fetch: true });
}

#[test]
fn columns_from_environment_first() {
    let probes = vec![Some(ws(24, 100, 0, 0))];
    assert_eq!(term_cols(&Some(" 120 ".to_string()), &probes), 120);
    assert_eq!(term_cols(&Some("0".to_string()), &probes), 100);
    assert_eq!(term_cols(&Some("wide".to_string()), &probes), 100);
    assert_eq!(term_cols(&None, &vec![None, Some(ws(24, 0, 0, 0)), Some(ws(24, 90, 0, 0))]), 90);
    assert_eq!(term_cols(&None, &vec![None, None]), 80);
}

#[test]
fn cell_size_from_reports() {
    assert_eq!(term_cell_px_w(&vec![Some(ws(24, 80, 800, 480))]), 10);
    assert_eq!(term_cell_px_w(&vec![Some(ws(24, 80, 50, 480))]), 1);
    assert_eq!(term_cell_px_w(&vec![Some(ws(24, 80, 0, 480)), Some(ws(24, 80, 1600, 0))]), 20);
    assert_eq!(term_cell_px_w(&vec![]), 10);
    assert_eq!(term_cell_px_h(&vec![Some(ws(24, 80, 800, 480))]), 20);
    assert_eq!(term_cell_px_h(&vec![Some(ws(0, 80, 800, 480)), Some(ws(10, 80, 0, 170))]), 17);
    assert_eq!(term_cell_px_h(&vec![None]), 20);
}

#[test]
fn image_width_limits() {
    assert_eq!(max_image_cols(100), 62);
    assert_eq!(max_image_cols(58), 20);
    assert_eq!(max_image_cols(10), 20);
    assert_eq!(ramp_image_cols(62), 50);
    assert_eq!(ramp_image_cols(20), 20);
}

#[test]
fn listing_names_images() {
    let assets = vec![asset("jason.png", Some("jason")), asset("odd", None)];
    assert_eq!(
        list_lines(&assets),
        vec!["Available Slashers:", "  - jason", "  - odd"]
    );
}

#[test]
fn target_by_name_ignores_case() {
    let assets = vec![
        asset("Jason.png", Some("Jason")),
        asset("freddy.png", Some("freddy")),
    ];
    assert_eq!(find_target(&assets, "JASON"), "Jason.png");
    assert_eq!(find_target(&assets, "Freddy"), "freddy.png");
    assert_eq!(find_target(&assets, "Chucky"), "chucky.png");
}

#[test]
fn random_target_is_an_asset() {
    let assets = vec![asset("a.png", Some("a")), asset("b.png", Some("b"))];
    for _ in 0..20 {
        let t = pick_target(&assets, &None);
        assert!(t == "a.png" || t == "b.png");
    }
    assert_eq!(pick_target(&assets, &Some("B".to_string())), "b.png");
}

#[test]
fn not_found_message_trims_letters_and_dots() {
    assert_eq!(not_found_message("mike-myers.png"), "Slasher 'mike-' not found.");
    assert_eq!(not_found_message("freddy.png"), "Slasher '' not found.");
    assert_eq!(not_found_message("x1.png"), "Slasher 'x1' not found.");
}

#[test]
fn converter_picks_image_extensions() {
    assert!(is_convertible(&Some("png".to_string())));
    assert!(is_convertible(&Some("jpg".to_string())));
    assert!(is_convertible(&Some("jpeg".to_string())));
    assert!(!is_convertible(&Some("PNG".to_string())));
    assert!(!is_convertible(&Some("gif".to_string())));
    assert!(!is_convertible(&None));
    assert_eq!(text_file_name("jason"), "jason.txt");
}

#[test]
fn columns_setting_needs_a_positive_number() {
    assert_eq!(columns_setting("132"), Some(132));
    assert_eq!(columns_setting("0"), None);
    assert_eq!(columns_setting(" 132"), None);
    assert_eq!(columns_setting("+5"), Some(5));
}

#[test]
fn lookups_with_given_case_folding() {
    let assets = vec![asset("Jason.png", Some("Jason")), asset("x", None)];
    let lowered = vec![Some("jason".to_string()), None];
    assert_eq!(match_target(&assets, &lowered, "jason"), "Jason.png");
    assert_eq!(match_target(&assets, &lowered, "Chucky"), "Chucky.png");
}

#[test]
fn not_found_with_given_letters() {
    assert_eq!(
        not_found_message_with("ab1.c", &vec![true, false, false, false, true]),
        "Slasher 'ab1' not found."
    );
    assert_eq!(
        not_found_message_with("abc", &vec![true, false, true]),
        "Slasher 'ab' not found."
    );
}

#[test]
fn columns_value_is_trimmed_of_unicode_white_space() {
    let probes: Vec<Option<WinSize>> = vec![];
    assert_eq!(term_cols(&Some(" 120\n".to_string()), &probes), 120);
    assert_eq!(term_cols(&Some("\u{3000}\t99\u{2029}".to_string()), &probes), 99);
    assert_eq!(term_cols(&Some("\u{200b}99".to_string()), &probes), 80);
    for s in ["\u{85}7\u{a0}", "\u{1680}7\u{202f}", "\u{205f}7\u{2000}", "\u{200a}7\u{2028}"] {
        assert_eq!(term_cols(&Some(s.to_string()), &probes), s.trim().parse::<usize>().unwrap());
    }
}

#[test]
fn mixed_case_style_names() {
    assert_eq!(parse_preset("SiXeL"), RenderStyle::Sixel);
    assert_eq!(parse_preset("bRaIlLe"), RenderStyle::Braille);
}

#[test]
fn named_target_needs_no_images() {
    assert_eq!(pick_target(&vec![], &Some("Jason".to_string())), "jason.png");
}
