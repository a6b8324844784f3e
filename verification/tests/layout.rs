use lemonade::format::{Colour, FormatItem, Text, BG};
use lemonade::layout::{filler_count, get_lengths, layout, text_count, LayoutError, Placement};
use lemonade::lemon::LemonParser;

fn plain_bg() -> BG {
    BG {
        bg: Colour { r: 0, g: 0, b: 0, a: 0 },
        ol: None,
        ul: None,
        ol_size: 1,
        ul_size: 1,
        cmd: Vec::new(),
    }
}

fn text(s: &str) -> FormatItem {
    FormatItem::Text(
        Text {
            fg: Colour { r: 255, g: 255, b: 255, a: 255 },
            text: String::from(s),
            font: String::new(),
        },
        plain_bg(),
    )
}

fn filler() -> FormatItem {
    FormatItem::Filler(plain_bg())
}

#[test]
fn counts_count() {
    let items = vec![text("a"), filler(), text("b"), filler(), text("c")];
    assert_eq!(filler_count(&items), 2);
    assert_eq!(text_count(&items), 3);
}

#[test]
fn run_lengths_split_at_fillers() {
    let items = vec![text("a"), filler(), text("b"), text("c"), filler()];
    let lens = get_lengths(&items, &vec![5, 7, 11]);
    assert_eq!(lens, vec![5, 18, 0]);
}

#[test]
fn no_fillers_means_plain_concatenation() {
    // Offsets are the running sums of the widths before each segment.
    let items = vec![text("a"), text("b"), text("c")];
    let (pl, regions) = layout(&items, 300, &vec![10, 20, 30]).unwrap();
    assert_eq!(
        pl,
        vec![
            Placement { x: 0, width: 10 },
            Placement { x: 10, width: 20 },
            Placement { x: 30, width: 30 },
        ]
    );
    assert!(regions.is_empty());
}

#[test]
fn two_fillers_centre_the_middle_and_right_flush_the_tail() {
    // Width 300, runs [50][40][30]: filler 1 gets 150 - 50 - 20 = 80,
    // filler 2 gets 300 - 170 - 30 = 100 (full tail, not halved).
    let items = vec![text("a"), filler(), text("b"), filler(), text("c")];
    let (pl, _) = layout(&items, 300, &vec![50, 40, 30]).unwrap();
    assert_eq!(
        pl,
        vec![
            Placement { x: 0, width: 50 },
            Placement { x: 50, width: 80 },
            Placement { x: 130, width: 40 },
            Placement { x: 170, width: 100 },
            Placement { x: 270, width: 30 },
        ]
    );
}

#[test]
fn one_filler_right_flushes_the_tail() {
    let items = vec![text("a"), filler(), text("b")];
    let (pl, _) = layout(&items, 100, &vec![20, 30]).unwrap();
    assert_eq!(
        pl,
        vec![
            Placement { x: 0, width: 20 },
            Placement { x: 20, width: 50 },
            Placement { x: 70, width: 30 },
        ]
    );
}

#[test]
fn overflowing_text_clamps_the_filler_to_zero() {
    // The raw formula would give a negative filler width; it is clamped.
    let items = vec![text("a"), filler(), text("b")];
    let (pl, _) = layout(&items, 100, &vec![200, 200]).unwrap();
    assert_eq!(
        pl,
        vec![
            Placement { x: 0, width: 200 },
            Placement { x: 200, width: 0 },
            Placement { x: 200, width: 200 },
        ]
    );
    assert!(pl.iter().all(|p| p.width >= 0u64));
}

#[test]
fn zero_width_is_rejected() {
    let items = vec![text("a")];
    assert_eq!(layout(&items, 0, &vec![10]).unwrap_err(), LayoutError::InvalidWidth);
}

#[test]
fn empty_line_lays_out_empty() {
    let items: Vec<FormatItem> = Vec::new();
    let (pl, regions) = layout(&items, 100, &Vec::new()).unwrap();
    assert!(pl.is_empty());
    assert!(regions.is_empty());
}

#[test]
fn click_regions_span_their_segment() {
    let p = LemonParser::new();
    let (items, warns) = p.parse("%{A2:doit:}hi%{A}");
    assert!(warns.is_empty());
    let (_, regions) = layout(&items, 100, &vec![30]).unwrap();
    assert_eq!(regions.len(), 1);
    assert_eq!(regions[0].button, 2);
    assert_eq!(regions[0].cmd, "doit");
    assert_eq!(regions[0].x_min, 0);
    assert_eq!(regions[0].x_max, 30);
}

#[test]
fn each_binding_of_a_segment_gets_a_region() {
    let p = LemonParser::new();
    let (items, warns) = p.parse("%{A1:one:}%{A2:two:}x%{A}%{A}");
    assert!(warns.is_empty());
    let (_, regions) = layout(&items, 100, &vec![40]).unwrap();
    assert_eq!(regions.len(), 2);
    assert_eq!(regions[0].button, 1);
    assert_eq!(regions[0].cmd, "one");
    assert_eq!(regions[1].button, 2);
    assert_eq!(regions[1].cmd, "two");
    assert_eq!((regions[0].x_min, regions[0].x_max), (0, 40));
    assert_eq!((regions[1].x_min, regions[1].x_max), (0, 40));
}

#[test]
fn fillers_carry_their_bindings_into_regions() {
    // The filler left behind by the zone switch still sits inside the
    // open binding, so it gets a region spanning its resolved width.
    let p = LemonParser::new();
    let (items, warns) = p.parse("%{A1:x:}a%{c}b%{A}");
    assert!(warns.is_empty());
    // Items: Text "a", Filler, Text "b".
    assert_eq!(items.len(), 3);
    let (pl, regions) = layout(&items, 100, &vec![10, 20]).unwrap();
    // Filler: target 100, minus pen 10, minus full tail 20 = 70.
    assert_eq!(pl[1], Placement { x: 10, width: 70 });
    assert_eq!(regions.len(), 3);
    assert_eq!((regions[0].x_min, regions[0].x_max), (0, 10));
    assert_eq!((regions[1].x_min, regions[1].x_max), (10, 80));
    assert_eq!((regions[2].x_min, regions[2].x_max), (80, 100));
}
