use lemonade::format::{Colour, FormatItem};
use lemonade::lemon::{LemonParser, Warning};

fn text_content(item: &FormatItem) -> &str {
    match item {
        FormatItem::Text(t, _) => t.text.as_str(),
        FormatItem::Filler(_) => panic!("expected a text segment"),
    }
}

fn is_filler(item: &FormatItem) -> bool {
    matches!(item, FormatItem::Filler(_))
}

#[test]
fn defaults_are_stock() {
    let p = LemonParser::new();
    assert_eq!(p.bg, Colour { r: 0, g: 0, b: 0, a: 0 });
    assert_eq!(p.fg, Colour { r: 255, g: 255, b: 255, a: 255 });
    assert_eq!(p.ol, p.bg);
    assert_eq!(p.ul, p.bg);
    assert_eq!(p.ol_size, 1);
    assert_eq!(p.ul_size, 1);
    assert_eq!(p.font_list.len(), 1);
    assert_eq!(p.font_list[0], "");
}

#[test]
fn center_tag_files_text_into_center_zone() {
    let p = LemonParser::new();
    let (line, warns) = p.parse_line("%{c}hello");
    assert!(warns.is_empty());
    assert_eq!(line.left.len(), 0);
    assert_eq!(line.right.len(), 0);
    assert_eq!(line.center.len(), 1);
    assert_eq!(text_content(&line.center[0]), "hello");
    match &line.center[0] {
        FormatItem::Text(t, bg) => {
            assert_eq!(t.fg, Colour { r: 255, g: 255, b: 255, a: 255 });
            assert_eq!(t.font, "");
            assert_eq!(bg.bg, Colour { r: 0, g: 0, b: 0, a: 0 });
            assert!(bg.ol.is_none());
            assert!(bg.ul.is_none());
            assert!(bg.cmd.is_empty());
        }
        _ => panic!("expected text"),
    }
}

#[test]
fn zone_switches_leave_one_filler_behind() {
    // Leaving a nonempty zone that is not Right appends one filler to it.
    let p = LemonParser::new();
    let (line, warns) = p.parse_line("left%{c}mid%{r}right");
    assert!(warns.is_empty());
    assert_eq!(line.left.len(), 2);
    assert_eq!(text_content(&line.left[0]), "left");
    assert!(is_filler(&line.left[1]));
    assert_eq!(line.center.len(), 2);
    assert_eq!(text_content(&line.center[0]), "mid");
    assert!(is_filler(&line.center[1]));
    assert_eq!(line.right.len(), 1);
    assert_eq!(text_content(&line.right[0]), "right");
}

#[test]
fn leaving_an_empty_zone_inserts_no_filler() {
    let p = LemonParser::new();
    let (flat, warns) = p.parse("%{c}hello");
    assert!(warns.is_empty());
    assert_eq!(flat.len(), 1);
    assert_eq!(text_content(&flat[0]), "hello");
}

#[test]
fn leaving_the_right_zone_inserts_no_filler() {
    let p = LemonParser::new();
    let (line, warns) = p.parse_line("%{r}a%{l}b");
    assert!(warns.is_empty());
    assert_eq!(line.right.len(), 1);
    assert_eq!(text_content(&line.right[0]), "a");
    assert_eq!(line.left.len(), 1);
    assert_eq!(text_content(&line.left[0]), "b");
}

#[test]
fn repeated_zone_tag_is_a_no_op() {
    let p = LemonParser::new();
    let (flat, warns) = p.parse("%{l}a%{l}b");
    assert!(warns.is_empty());
    assert_eq!(flat.len(), 2);
    assert_eq!(text_content(&flat[0]), "a");
    assert_eq!(text_content(&flat[1]), "b");
}

#[test]
fn zones_come_out_in_order_whatever_the_tag_order() {
    let p = LemonParser::new();
    let (flat, warns) = p.parse("%{r}c%{l}a%{c}b");
    assert!(warns.is_empty());
    // Left then Center then Right; a filler follows "a" because Left was
    // left for Center.
    assert_eq!(flat.len(), 4);
    assert_eq!(text_content(&flat[0]), "a");
    assert!(is_filler(&flat[1]));
    assert_eq!(text_content(&flat[2]), "b");
    assert_eq!(text_content(&flat[3]), "c");
}

#[test]
fn click_binding_wraps_one_segment() {
    let p = LemonParser::new();
    let (flat, warns) = p.parse("%{A1:cmd:}click%{A}");
    assert!(warns.is_empty());
    assert_eq!(flat.len(), 1);
    match &flat[0] {
        FormatItem::Text(t, bg) => {
            assert_eq!(t.text, "click");
            assert_eq!(bg.cmd.len(), 1);
            assert_eq!(bg.cmd[0].0, 1);
            assert_eq!(bg.cmd[0].1, "cmd");
        }
        _ => panic!("expected text"),
    }
}

#[test]
fn click_binding_button_defaults_to_one() {
    let p = LemonParser::new();
    let (flat, _) = p.parse("%{A:run me:}x%{A}");
    match &flat[0] {
        FormatItem::Text(_, bg) => {
            assert_eq!(bg.cmd[0].0, 1);
            assert_eq!(bg.cmd[0].1, "run me");
        }
        _ => panic!("expected text"),
    }
}

#[test]
fn click_command_keeps_escaped_colons() {
    let p = LemonParser::new();
    let (flat, _) = p.parse("%{A3:a\\:b:}x%{A}");
    match &flat[0] {
        FormatItem::Text(_, bg) => {
            assert_eq!(bg.cmd[0].0, 3);
            assert_eq!(bg.cmd[0].1, "a\\:b");
        }
        _ => panic!("expected text"),
    }
}

#[test]
fn nested_click_bindings_close_innermost_first() {
    let p = LemonParser::new();
    let (flat, warns) = p.parse("%{A1:outer:}a%{A2:inner:}b%{A}c%{A}");
    assert!(warns.is_empty());
    assert_eq!(flat.len(), 3);
    match &flat[1] {
        FormatItem::Text(t, bg) => {
            assert_eq!(t.text, "b");
            assert_eq!(bg.cmd.len(), 2);
            assert_eq!(bg.cmd[0].1, "outer");
            assert_eq!(bg.cmd[1].1, "inner");
        }
        _ => panic!("expected text"),
    }
    match &flat[2] {
        FormatItem::Text(t, bg) => {
            assert_eq!(t.text, "c");
            assert_eq!(bg.cmd.len(), 1);
            assert_eq!(bg.cmd[0].1, "outer");
        }
        _ => panic!("expected text"),
    }
}

#[test]
fn unassociated_close_warns_and_parsing_goes_on() {
    let p = LemonParser::new();
    let (flat, warns) = p.parse("%{A}x");
    assert_eq!(warns, vec![Warning::UnassociatedClose]);
    assert_eq!(flat.len(), 1);
    match &flat[0] {
        FormatItem::Text(t, bg) => {
            assert_eq!(t.text, "x");
            assert!(bg.cmd.is_empty());
        }
        _ => panic!("expected text"),
    }
}

#[test]
fn colour_tags_set_and_reset_channels() {
    let p = LemonParser::new();
    let (flat, warns) = p.parse("%{F#ff0000}a%{F-}b");
    assert!(warns.is_empty());
    match &flat[0] {
        FormatItem::Text(t, _) => assert_eq!(t.fg, Colour { r: 255, g: 0, b: 0, a: 255 }),
        _ => panic!("expected text"),
    }
    match &flat[1] {
        FormatItem::Text(t, _) => assert_eq!(t.fg, Colour { r: 255, g: 255, b: 255, a: 255 }),
        _ => panic!("expected text"),
    }
}

#[test]
fn colour_tag_works_without_hash() {
    let p = LemonParser::new();
    let (flat, warns) = p.parse("%{B0f0}x");
    assert!(warns.is_empty());
    match &flat[0] {
        FormatItem::Text(_, bg) => assert_eq!(bg.bg, Colour { r: 0, g: 255, b: 0, a: 255 }),
        _ => panic!("expected text"),
    }
}

#[test]
fn bad_colour_argument_warns_and_keeps_previous_value() {
    let p = LemonParser::new();
    let (flat, warns) = p.parse("%{F#12345}x");
    assert_eq!(warns, vec![Warning::InvalidColor]);
    match &flat[0] {
        FormatItem::Text(t, _) => assert_eq!(t.fg, Colour { r: 255, g: 255, b: 255, a: 255 }),
        _ => panic!("expected text"),
    }
}

#[test]
fn swap_exchanges_foreground_and_background() {
    let p = LemonParser::new();
    let (flat, warns) = p.parse("%{R}x");
    assert!(warns.is_empty());
    match &flat[0] {
        FormatItem::Text(t, bg) => {
            assert_eq!(t.fg, Colour { r: 0, g: 0, b: 0, a: 0 });
            assert_eq!(bg.bg, Colour { r: 255, g: 255, b: 255, a: 255 });
        }
        _ => panic!("expected text"),
    }
}

#[test]
fn attribute_tags_toggle_force_and_clear() {
    let p = LemonParser::new();
    let (flat, warns) = p.parse("%{+u}a%{!u}b%{!o}c%{-o}d");
    assert!(warns.is_empty());
    let uls: Vec<bool> = flat
        .iter()
        .map(|i| match i {
            FormatItem::Text(_, bg) => bg.ul.is_some(),
            FormatItem::Filler(bg) => bg.ul.is_some(),
        })
        .collect();
    let ols: Vec<bool> = flat
        .iter()
        .map(|i| match i {
            FormatItem::Text(_, bg) => bg.ol.is_some(),
            FormatItem::Filler(bg) => bg.ol.is_some(),
        })
        .collect();
    assert_eq!(uls, vec![true, false, false, false]);
    assert_eq!(ols, vec![false, false, true, false]);
}

#[test]
fn underline_colour_tag_sets_the_underline() {
    let p = LemonParser::new();
    let (flat, warns) = p.parse("%{+u}%{U#00ff00}x");
    assert!(warns.is_empty());
    match &flat[0] {
        FormatItem::Text(_, bg) => {
            assert_eq!(bg.ul, Some(Colour { r: 0, g: 255, b: 0, a: 255 }));
            assert_eq!(bg.ul_size, 1);
        }
        _ => panic!("expected text"),
    }
}

#[test]
fn font_tag_selects_by_one_based_index() {
    let mut p = LemonParser::new();
    p.font_list = vec![String::from("Alpha"), String::from("Beta")];
    let (flat, warns) = p.parse("%{T2}x");
    assert!(warns.is_empty());
    match &flat[0] {
        FormatItem::Text(t, _) => assert_eq!(t.font, "Beta"),
        _ => panic!("expected text"),
    }
}

#[test]
fn font_tag_reset_joins_the_table() {
    let mut p = LemonParser::new();
    p.font_list = vec![String::from("Alpha"), String::from("Beta")];
    let (flat, warns) = p.parse("%{T1}a%{T-}b");
    assert!(warns.is_empty());
    match &flat[0] {
        FormatItem::Text(t, _) => assert_eq!(t.font, "Alpha"),
        _ => panic!("expected text"),
    }
    match &flat[1] {
        FormatItem::Text(t, _) => assert_eq!(t.font, "Alpha, Beta"),
        _ => panic!("expected text"),
    }
}

#[test]
fn font_index_out_of_range_warns_and_falls_back() {
    let mut p = LemonParser::new();
    p.font_list = vec![String::from("Alpha"), String::from("Beta")];
    let (flat, warns) = p.parse("%{T5}x");
    assert_eq!(warns, vec![Warning::FontIndexOutOfRange(5)]);
    match &flat[0] {
        FormatItem::Text(t, _) => assert_eq!(t.font, "Alpha, Beta"),
        _ => panic!("expected text"),
    }
}

#[test]
fn image_tag_is_a_recognized_no_op() {
    let p = LemonParser::new();
    let (flat, warns) = p.parse("%{I:foo.png}x");
    assert!(warns.is_empty());
    assert_eq!(flat.len(), 1);
    assert_eq!(text_content(&flat[0]), "x");
}

#[test]
fn unrecognized_tag_text_is_literal_content() {
    let p = LemonParser::new();
    let (flat, warns) = p.parse("a%{q}b%{");
    assert!(warns.is_empty());
    assert_eq!(flat.len(), 1);
    assert_eq!(text_content(&flat[0]), "a%{q}b%{");
}

#[test]
fn consecutive_filler_requests_collapse_into_one() {
    // Leaving Left twice: the second switch finds the zone already ending
    // in a filler and adds none.
    let p = LemonParser::new();
    let (line, warns) = p.parse_line("a%{c}%{l}%{c}b");
    assert!(warns.is_empty());
    assert_eq!(line.left.len(), 2);
    assert_eq!(text_content(&line.left[0]), "a");
    assert!(is_filler(&line.left[1]));
    assert_eq!(line.center.len(), 1);
    assert_eq!(text_content(&line.center[0]), "b");
}

#[test]
fn empty_input_yields_three_empty_zones() {
    let p = LemonParser::new();
    let (line, warns) = p.parse_line("");
    assert!(warns.is_empty());
    assert_eq!(line.left.len(), 0);
    assert_eq!(line.center.len(), 0);
    assert_eq!(line.right.len(), 0);
}

#[test]
fn style_state_crosses_zone_boundaries() {
    let p = LemonParser::new();
    let (flat, _) = p.parse("%{F#ff0000}%{c}mid");
    match &flat[0] {
        FormatItem::Text(t, _) => {
            assert_eq!(t.text, "mid");
            assert_eq!(t.fg, Colour { r: 255, g: 0, b: 0, a: 255 });
        }
        _ => panic!("expected text"),
    }
}
