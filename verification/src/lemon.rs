//! The markup parser: one pass over the format string that files styled
//! segments into the three alignment zones while tracking the current
//! style — colours, overline/underline flags, active font, and the stack of
//! open click bindings.
//!
//! The parser never fails: text in which no tag starts is literal content,
//! and a tag with a bad argument falls back to a default and reports a
//! recoverable warning. The meaning of a format string is given by the
//! `scan` interpreter below; `LemonParser::parse` is proved to return
//! exactly its result.

use vstd::prelude::*;

use crate::format::{from_hex_spec, BgModel, Colour, FormatItem, ItemModel, TextModel, Text, BG};
use crate::tag::{tag_parse, try_tag, AttrOp, AttrTarget, ColourTarget, Token, TokenModel, Zone,
    lemma_tag_parse_len};

verus! {

/// A recoverable oddity met while parsing; the parse always runs to
/// completion.
#[derive(Clone, Copy, PartialEq, Eq, Structural, Debug)]
pub enum Warning {
    /// A bare `%{A}` with no binding open.
    UnassociatedClose,
    /// A font index pointing past the configured font list; the combined
    /// font list is used instead.
    FontIndexOutOfRange(u8),
    /// A colour argument whose digit run has a length other than 3, 4, 6
    /// or 8; the colour keeps its previous value.
    InvalidColor,
}

/// Mathematical image of a parser's configuration: the default style that
/// reset tags restore, and the font table.
pub ghost struct ParserModel {
    pub bg: Colour,
    pub fg: Colour,
    pub ol: Colour,
    pub ul: Colour,
    pub ol_size: u32,
    pub ul_size: u32,
    pub font_list: Seq<Seq<char>>,
}

/// The full state of the scan: the three zones filled so far, the active
/// zone, the current style, and the warnings reported so far.
pub ghost struct ScanState {
    pub left: Seq<ItemModel>,
    pub center: Seq<ItemModel>,
    pub right: Seq<ItemModel>,
    pub zone: Zone,
    pub bg: Colour,
    pub fg: Colour,
    pub ol: Colour,
    pub ul: Colour,
    pub oline: bool,
    pub uline: bool,
    pub font: Seq<char>,
    pub butts: Seq<(u8, Seq<char>)>,
    pub warns: Seq<Warning>,
}

impl ScanState {
    pub open spec fn zone_items(self, z: Zone) -> Seq<ItemModel> {
        match z {
            Zone::Left => self.left,
            Zone::Center => self.center,
            Zone::Right => self.right,
        }
    }

    pub open spec fn with_zone_items(self, z: Zone, v: Seq<ItemModel>) -> ScanState {
        match z {
            Zone::Left => ScanState { left: v, ..self },
            Zone::Center => ScanState { center: v, ..self },
            Zone::Right => ScanState { right: v, ..self },
        }
    }
}

/// `fonts[0], fonts[1], ...` joined with `", "`, over the first `i`
/// entries.
pub open spec fn join_up_to(fonts: Seq<Seq<char>>, i: int) -> Seq<char>
    decreases i,
{
    if i <= 0 {
        Seq::empty()
    } else if i == 1 {
        fonts[0]
    } else {
        join_up_to(fonts, i - 1) + seq![',', ' '] + fonts[i - 1]
    }
}

/// The whole font table joined with `", "`: the fallback font-family list
/// that reset and out-of-range font tags select.
pub open spec fn join_spec(fonts: Seq<Seq<char>>) -> Seq<char> {
    join_up_to(fonts, fonts.len() as int)
}

/// The style snapshot a segment emitted in state `st` carries.
pub open spec fn snapshot_bg(st: ScanState, d: ParserModel) -> BgModel {
    BgModel {
        bg: st.bg,
        ol: if st.oline {
            Some(st.ol)
        } else {
            None
        },
        ul: if st.uline {
            Some(st.ul)
        } else {
            None
        },
        ol_size: d.ol_size,
        ul_size: d.ul_size,
        cmd: st.butts,
    }
}

/// Flush accumulated literal text: an empty span is a pure no-op; anything
/// else is appended to the active zone as a text segment carrying a
/// snapshot of the current style. A pending filler at the zone's end is
/// kept and precedes the text.
pub open spec fn flush_spec(st: ScanState, d: ParserModel, lit: Seq<char>) -> ScanState {
    if lit.len() == 0 {
        st
    } else {
        let item = ItemModel::Text(
            TextModel { fg: st.fg, text: lit, font: st.font },
            snapshot_bg(st, d),
        );
        st.with_zone_items(st.zone, st.zone_items(st.zone).push(item))
    }
}

/// Write one colour channel of the current style.
pub open spec fn set_colour(st: ScanState, tgt: ColourTarget, c: Colour) -> ScanState {
    match tgt {
        ColourTarget::Fg => ScanState { fg: c, ..st },
        ColourTarget::Bg => ScanState { bg: c, ..st },
        ColourTarget::Under => ScanState { ul: c, ..st },
        ColourTarget::Over => ScanState { ol: c, ..st },
    }
}

/// The default value of one colour channel, as configured at parser
/// construction.
pub open spec fn default_colour(d: ParserModel, tgt: ColourTarget) -> Colour {
    match tgt {
        ColourTarget::Fg => d.fg,
        ColourTarget::Bg => d.bg,
        ColourTarget::Under => d.ul,
        ColourTarget::Over => d.ol,
    }
}

/// What one recognized tag does to the scan state.
pub open spec fn apply_token(st: ScanState, d: ParserModel, tok: TokenModel) -> ScanState {
    match tok {
        TokenModel::Zone(z) => if z == st.zone {
            st
        } else {
            let cur = st.zone_items(st.zone);
            let st1 = if st.zone != Zone::Right && cur.len() > 0 && !cur.last().is_filler() {
                st.with_zone_items(st.zone, cur.push(ItemModel::Filler(snapshot_bg(st, d))))
            } else {
                st
            };
            ScanState { zone: z, ..st1 }
        },
        TokenModel::Swap => ScanState { fg: st.bg, bg: st.fg, ..st },
        TokenModel::SetColour(tgt, arg) => match arg {
            None => set_colour(st, tgt, default_colour(d, tgt)),
            Some(digits) => match from_hex_spec(digits) {
                Ok(c) => set_colour(st, tgt, c),
                Err(_) => ScanState { warns: st.warns.push(Warning::InvalidColor), ..st },
            },
        },
        TokenModel::Attr(tgt, op) => {
            let cur = if tgt == AttrTarget::Overline {
                st.oline
            } else {
                st.uline
            };
            let v = match op {
                AttrOp::Toggle => !cur,
                AttrOp::On => true,
                AttrOp::Off => false,
            };
            if tgt == AttrTarget::Overline {
                ScanState { oline: v, ..st }
            } else {
                ScanState { uline: v, ..st }
            }
        },
        TokenModel::Font(arg) => match arg {
            None => ScanState { font: join_spec(d.font_list), ..st },
            Some(ix) => if 1 <= ix && ix - 1 < d.font_list.len() {
                ScanState { font: d.font_list[ix - 1], ..st }
            } else {
                ScanState {
                    font: join_spec(d.font_list),
                    warns: st.warns.push(Warning::FontIndexOutOfRange(ix)),
                    ..st
                }
            },
        },
        TokenModel::ClickOpen(b, cmd) => ScanState { butts: st.butts.push((b, cmd)), ..st },
        TokenModel::ClickClose => if st.butts.len() > 0 {
            ScanState { butts: st.butts.drop_last(), ..st }
        } else {
            ScanState { warns: st.warns.push(Warning::UnassociatedClose), ..st }
        },
        TokenModel::Image => st,
    }
}

/// The scan interpreter: read `rem`, accumulating literal text in `lit`.
/// Where a tag starts, the pending literal is flushed and the tag applied;
/// any other character is literal. The trailing literal is flushed at the
/// end of input.
pub open spec fn scan(st: ScanState, d: ParserModel, rem: Seq<char>, lit: Seq<char>) -> ScanState
    decreases rem.len(),
        via scan_dec
{
    if rem.len() == 0 {
        flush_spec(st, d, lit)
    } else {
        match tag_parse(rem) {
            Some(tu) => scan(
                apply_token(flush_spec(st, d, lit), d, tu.0),
                d,
                rem.skip(tu.1),
                Seq::empty(),
            ),
            None => scan(st, d, rem.skip(1), lit.push(rem[0])),
        }
    }
}

#[via_fn]
proof fn scan_dec(st: ScanState, d: ParserModel, rem: Seq<char>, lit: Seq<char>) {
    lemma_tag_parse_len(rem);
}

/// The state a parse starts from: empty zones, the active zone Left, the
/// configured default colours, both line attributes off, the combined font
/// list, no open bindings, no warnings.
pub open spec fn init_scan(d: ParserModel) -> ScanState {
    ScanState {
        left: Seq::empty(),
        center: Seq::empty(),
        right: Seq::empty(),
        zone: Zone::Left,
        bg: d.bg,
        fg: d.fg,
        ol: d.ol,
        ul: d.ul,
        oline: false,
        uline: false,
        font: join_spec(d.font_list),
        butts: Seq::empty(),
        warns: Seq::empty(),
    }
}

/// The meaning of a whole format string: the final scan state.
pub open spec fn parse_spec(d: ParserModel, s: Seq<char>) -> ScanState {
    scan(init_scan(d), d, s, Seq::empty())
}

/// No two filler segments stand next to each other: consecutive filler
/// requests collapse into one.
pub open spec fn no_adjacent_fillers(items: Seq<ItemModel>) -> bool {
    forall|i: int|
        0 <= i < items.len() - 1 ==> !(#[trigger] items[i].is_filler() && items[i
            + 1].is_filler())
}

/// Every zone of the state is free of adjacent fillers.
pub open spec fn zones_wf(st: ScanState) -> bool {
    no_adjacent_fillers(st.left) && no_adjacent_fillers(st.center) && no_adjacent_fillers(
        st.right,
    )
}

proof fn lemma_push_keeps_no_adjacent(items: Seq<ItemModel>, it: ItemModel)
    requires
        no_adjacent_fillers(items),
        !it.is_filler() || items.len() == 0 || !items.last().is_filler(),
    ensures
        no_adjacent_fillers(items.push(it)),
{
    let out = items.push(it);
    assert forall|i: int| 0 <= i < out.len() - 1 implies !(#[trigger] out[i].is_filler() && out[i
        + 1].is_filler()) by {
        if i + 1 < items.len() {
            assert(out[i] == items[i] && out[i + 1] == items[i + 1]);
        } else {
            assert(out[i] == items.last() && out[i + 1] == it);
        }
    }
}

proof fn lemma_flush_keeps_zones_wf(st: ScanState, d: ParserModel, lit: Seq<char>)
    requires
        zones_wf(st),
    ensures
        zones_wf(flush_spec(st, d, lit)),
{
    if lit.len() != 0 {
        let item = ItemModel::Text(
            TextModel { fg: st.fg, text: lit, font: st.font },
            snapshot_bg(st, d),
        );
        lemma_push_keeps_no_adjacent(st.zone_items(st.zone), item);
    }
}

proof fn lemma_apply_keeps_zones_wf(st: ScanState, d: ParserModel, tok: TokenModel)
    requires
        zones_wf(st),
    ensures
        zones_wf(apply_token(st, d, tok)),
{
    match tok {
        TokenModel::Zone(z) => {
            if z != st.zone {
                let cur = st.zone_items(st.zone);
                if st.zone != Zone::Right && cur.len() > 0 && !cur.last().is_filler() {
                    lemma_push_keeps_no_adjacent(cur, ItemModel::Filler(snapshot_bg(st, d)));
                }
            }
        },
        _ => {},
    }
}

proof fn lemma_scan_keeps_zones_wf(st: ScanState, d: ParserModel, rem: Seq<char>, lit: Seq<char>)
    requires
        zones_wf(st),
    ensures
        zones_wf(scan(st, d, rem, lit)),
    decreases rem.len(),
{
    lemma_tag_parse_len(rem);
    if rem.len() == 0 {
        lemma_flush_keeps_zones_wf(st, d, lit);
    } else {
        match tag_parse(rem) {
            Some(tu) => {
                lemma_flush_keeps_zones_wf(st, d, lit);
                lemma_apply_keeps_zones_wf(flush_spec(st, d, lit), d, tu.0);
                lemma_scan_keeps_zones_wf(
                    apply_token(flush_spec(st, d, lit), d, tu.0),
                    d,
                    rem.skip(tu.1),
                    Seq::empty(),
                );
            },
            None => {
                lemma_scan_keeps_zones_wf(st, d, rem.skip(1), lit.push(rem[0]));
            },
        }
    }
}

/// The parser collapses consecutive filler requests: in every zone of a
/// parsed line, no filler segment stands next to another filler segment.
pub proof fn lemma_parse_no_adjacent_fillers(d: ParserModel, s: Seq<char>)
    ensures
        no_adjacent_fillers(parse_spec(d, s).left),
        no_adjacent_fillers(parse_spec(d, s).center),
        no_adjacent_fillers(parse_spec(d, s).right),
{
    lemma_scan_keeps_zones_wf(init_scan(d), d, s, Seq::empty());
}

/// Two scan states that agree on everything but the warnings reported so
/// far.
pub open spec fn agree_except_warns(st1: ScanState, st2: ScanState) -> bool {
    st2 == (ScanState { warns: st2.warns, ..st1 })
}

proof fn lemma_apply_token_warns(st1: ScanState, st2: ScanState, d: ParserModel, tok: TokenModel)
    requires
        agree_except_warns(st1, st2),
    ensures
        agree_except_warns(apply_token(st1, d, tok), apply_token(st2, d, tok)),
        exists|e: Seq<Warning>|
            apply_token(st1, d, tok).warns == st1.warns + e && apply_token(st2, d, tok).warns
                == st2.warns + e,
{
    let a1 = apply_token(st1, d, tok);
    let a2 = apply_token(st2, d, tok);
    if a1.warns == st1.warns {
        assert(st1.warns + Seq::<Warning>::empty() =~= st1.warns);
        assert(st2.warns + Seq::<Warning>::empty() =~= st2.warns);
        assert(a1.warns == st1.warns + Seq::<Warning>::empty() && a2.warns == st2.warns
            + Seq::<Warning>::empty());
    } else {
        let e = a1.warns.skip(st1.warns.len() as int);
        assert(e =~= a1.warns.skip(st1.warns.len() as int));
        match tok {
            TokenModel::SetColour(_, arg) => {
                assert(a1.warns == st1.warns.push(Warning::InvalidColor));
                assert(st1.warns + seq![Warning::InvalidColor] =~= a1.warns);
                assert(st2.warns + seq![Warning::InvalidColor] =~= a2.warns);
            },
            TokenModel::Font(arg) => {
                match arg {
                    Some(ix) => {
                        assert(st1.warns + seq![Warning::FontIndexOutOfRange(ix)] =~= a1.warns);
                        assert(st2.warns + seq![Warning::FontIndexOutOfRange(ix)] =~= a2.warns);
                    },
                    None => {},
                }
            },
            TokenModel::ClickClose => {
                assert(st1.warns + seq![Warning::UnassociatedClose] =~= a1.warns);
                assert(st2.warns + seq![Warning::UnassociatedClose] =~= a2.warns);
            },
            _ => {},
        }
    }
}

proof fn lemma_scan_warns(
    st1: ScanState,
    st2: ScanState,
    d: ParserModel,
    rem: Seq<char>,
    lit: Seq<char>,
)
    requires
        agree_except_warns(st1, st2),
    ensures
        agree_except_warns(scan(st1, d, rem, lit), scan(st2, d, rem, lit)),
        exists|e: Seq<Warning>|
            scan(st1, d, rem, lit).warns == st1.warns + e && scan(st2, d, rem, lit).warns
                == st2.warns + e,
    decreases rem.len(),
{
    lemma_tag_parse_len(rem);
    let f1 = flush_spec(st1, d, lit);
    let f2 = flush_spec(st2, d, lit);
    assert(agree_except_warns(f1, f2) && f1.warns == st1.warns && f2.warns == st2.warns);
    if rem.len() == 0 {
        assert(st1.warns + Seq::<Warning>::empty() =~= st1.warns);
        assert(st2.warns + Seq::<Warning>::empty() =~= st2.warns);
        assert(scan(st1, d, rem, lit).warns == st1.warns + Seq::<Warning>::empty() && scan(
            st2,
            d,
            rem,
            lit,
        ).warns == st2.warns + Seq::<Warning>::empty());
    } else {
        match tag_parse(rem) {
            Some(tu) => {
                let u1 = apply_token(f1, d, tu.0);
                let u2 = apply_token(f2, d, tu.0);
                lemma_apply_token_warns(f1, f2, d, tu.0);
                let e1 = choose|e: Seq<Warning>|
                    u1.warns == f1.warns + e && u2.warns == f2.warns + e;
                lemma_scan_warns(u1, u2, d, rem.skip(tu.1), Seq::empty());
                let e2 = choose|e: Seq<Warning>|
                    scan(u1, d, rem.skip(tu.1), Seq::empty()).warns == u1.warns + e && scan(
                        u2,
                        d,
                        rem.skip(tu.1),
                        Seq::empty(),
                    ).warns == u2.warns + e;
                assert(st1.warns + (e1 + e2) =~= (st1.warns + e1) + e2);
                assert(st2.warns + (e1 + e2) =~= (st2.warns + e1) + e2);
                assert(scan(st1, d, rem, lit).warns == st1.warns + (e1 + e2) && scan(
                    st2,
                    d,
                    rem,
                    lit,
                ).warns == st2.warns + (e1 + e2));
            },
            None => {
                lemma_scan_warns(st1, st2, d, rem.skip(1), lit.push(rem[0]));
            },
        }
    }
}

/// Closing a click binding with none open is harmless: a format string
/// beginning with `%{A}` parses to the very zones, style and bindings that
/// the rest alone would produce, with one `UnassociatedClose` warning
/// reported first.
pub proof fn lemma_unassociated_close_is_harmless(d: ParserModel, s: Seq<char>)
    ensures
        agree_except_warns(parse_spec(d, s), parse_spec(d, seq!['%', '{', 'A', '}'] + s)),
        parse_spec(d, seq!['%', '{', 'A', '}'] + s).warns == seq![Warning::UnassociatedClose]
            + parse_spec(d, s).warns,
{
    let pre = seq!['%', '{', 'A', '}'];
    let full = pre + s;
    let st0 = init_scan(d);
    assert(full.len() >= 4 && full[0] == '%' && full[1] == '{' && full[2] == 'A' && full[3]
        == '}');
    assert(tag_parse(full) == Some((TokenModel::ClickClose, 4int)));
    let st1 = apply_token(st0, d, TokenModel::ClickClose);
    assert(st1 == (ScanState { warns: st0.warns.push(Warning::UnassociatedClose), ..st0 }));
    assert(flush_spec(st0, d, Seq::empty()) == st0);
    assert(scan(st0, d, full, Seq::empty()) == scan(st1, d, full.skip(4), Seq::empty()));
    assert(full.skip(4) =~= s);
    lemma_scan_warns(st0, st1, d, s, Seq::empty());
    let e = choose|e: Seq<Warning>|
        scan(st0, d, s, Seq::empty()).warns == st0.warns + e && scan(
            st1,
            d,
            s,
            Seq::empty(),
        ).warns == st1.warns + e;
    assert(st0.warns + e =~= e);
    assert(st1.warns + e =~= seq![Warning::UnassociatedClose] + e);
    assert(seq![Warning::UnassociatedClose] + (st0.warns + e) =~= st1.warns + e);
}

/// The parser: the default style restored by reset tags, the line
/// thicknesses stamped into every snapshot, and the font table that font
/// tags index.
pub struct LemonParser {
    pub bg: Colour,
    pub fg: Colour,
    pub ol: Colour,
    pub ul: Colour,
    pub ol_size: u32,
    pub ul_size: u32,
    pub font_list: Vec<String>,
}

impl View for LemonParser {
    type V = ParserModel;

    open spec fn view(&self) -> ParserModel {
        ParserModel {
            bg: self.bg,
            fg: self.fg,
            ol: self.ol,
            ul: self.ul,
            ol_size: self.ol_size,
            ul_size: self.ul_size,
            font_list: self.font_list.deep_view(),
        }
    }
}

/// A parsed line: the segments of the three zones, in final output order
/// Left, Center, Right.
pub struct Line {
    pub left: Vec<FormatItem>,
    pub center: Vec<FormatItem>,
    pub right: Vec<FormatItem>,
}

/// Join the font table with `", "`.
fn join_fonts(fonts: &Vec<String>) -> (r: String)
    ensures
        r@ == join_spec(fonts.deep_view()),
{
    let ghost fl = fonts.deep_view();
    let mut s = String::new();
    let mut i: usize = 0;
    while i < fonts.len()
        invariant
            0 <= i <= fonts@.len(),
            fl == fonts.deep_view(),
            fl.len() == fonts@.len(),
            s@ == join_up_to(fl, i as int),
        decreases fonts@.len() - i,
    {
        if i > 0 {
            s.append(", ");
            proof {
                reveal_strlit(", ");
                assert(", "@ =~= seq![',', ' ']);
            }
        }
        s.append(fonts[i].as_str());
        proof {
            assert(fl[i as int] == fonts@[i as int]@);
        }
        i += 1;
    }
    s
}

/// The mutable scan state: the exec image of `ScanState`.
struct Scan {
    left: Vec<FormatItem>,
    center: Vec<FormatItem>,
    right: Vec<FormatItem>,
    zone: Zone,
    bg: Colour,
    fg: Colour,
    ol: Colour,
    ul: Colour,
    oline: bool,
    uline: bool,
    font: String,
    butts: Vec<(u8, String)>,
    warns: Vec<Warning>,
}

impl View for Scan {
    type V = ScanState;

    closed spec fn view(&self) -> ScanState {
        ScanState {
            left: self.left.deep_view(),
            center: self.center.deep_view(),
            right: self.right.deep_view(),
            zone: self.zone,
            bg: self.bg,
            fg: self.fg,
            ol: self.ol,
            ul: self.ul,
            oline: self.oline,
            uline: self.uline,
            font: self.font@,
            butts: self.butts.deep_view(),
            warns: self.warns@,
        }
    }
}

/// Copy the stack of open bindings for a snapshot.
fn clone_cmds(src: &Vec<(u8, String)>) -> (r: Vec<(u8, String)>)
    ensures
        r.deep_view() == src.deep_view(),
{
    let mut r: Vec<(u8, String)> = Vec::new();
    let mut i: usize = 0;
    while i < src.len()
        invariant
            0 <= i <= src@.len(),
            r.deep_view() =~= src.deep_view().take(i as int),
        decreases src@.len() - i,
    {
        let ghost old_r = r.deep_view();
        let pair = &src[i];
        r.push((pair.0, pair.1.clone()));
        proof {
            assert(r.deep_view() =~= old_r.push((pair.0, pair.1@)));
            assert(r.deep_view() =~= src.deep_view().take(i + 1));
        }
        i += 1;
    }
    proof {
        assert(src.deep_view().take(src@.len() as int) =~= src.deep_view());
    }
    r
}

/// Snapshot the current style as the `BG` a new segment carries.
fn make_bg(sc: &Scan, p: &LemonParser) -> (r: BG)
    ensures
        r@ == snapshot_bg(sc@, p@),
{
    BG {
        bg: sc.bg,
        ol: if sc.oline {
            Some(sc.ol)
        } else {
            None
        },
        ul: if sc.uline {
            Some(sc.ul)
        } else {
            None
        },
        ol_size: p.ol_size,
        ul_size: p.ul_size,
        cmd: clone_cmds(&sc.butts),
    }
}

/// Append `item` to the active zone.
fn push_item(sc: &mut Scan, item: FormatItem)
    ensures
        final(sc)@ == old(sc)@.with_zone_items(
            old(sc)@.zone,
            old(sc)@.zone_items(old(sc)@.zone).push(item.deep_view()),
        ),
{
    let ghost target = old(sc)@.with_zone_items(
        old(sc)@.zone,
        old(sc)@.zone_items(old(sc)@.zone).push(item.deep_view()),
    );
    let ghost iv = item.deep_view();
    match sc.zone {
        Zone::Left => {
            let ghost old_z = sc.left.deep_view();
            sc.left.push(item);
            proof {
                assert(sc.left.deep_view() =~= old_z.push(iv));
            }
        },
        Zone::Center => {
            let ghost old_z = sc.center.deep_view();
            sc.center.push(item);
            proof {
                assert(sc.center.deep_view() =~= old_z.push(iv));
            }
        },
        Zone::Right => {
            let ghost old_z = sc.right.deep_view();
            sc.right.push(item);
            proof {
                assert(sc.right.deep_view() =~= old_z.push(iv));
            }
        },
    }
}

/// Whether the active zone is nonempty, and whether its last segment is a
/// filler.
fn zone_state(sc: &Scan) -> (r: (bool, bool))
    ensures
        r.0 == (sc@.zone_items(sc@.zone).len() > 0),
        r.1 == (sc@.zone_items(sc@.zone).len() > 0 && sc@.zone_items(sc@.zone).last().is_filler()),
{
    let v = match sc.zone {
        Zone::Left => &sc.left,
        Zone::Center => &sc.center,
        Zone::Right => &sc.right,
    };
    let n = v.len();
    if n == 0 {
        (false, false)
    } else {
        proof {
            assert(v.deep_view().last() == v@[n - 1].deep_view());
        }
        match &v[n - 1] {
            FormatItem::Filler(_) => (true, true),
            _ => (true, false),
        }
    }
}

/// Flush the literal span `fmt[a..b)` into the active zone.
fn flush_lit(sc: &mut Scan, p: &LemonParser, fmt: &str, a: usize, b: usize)
    requires
        a <= b <= fmt@.len(),
    ensures
        final(sc)@ == flush_spec(old(sc)@, p@, fmt@.subrange(a as int, b as int)),
{
    if a == b {
        proof {
            assert(fmt@.subrange(a as int, b as int).len() == 0);
        }
        return ;
    }
    let text = fmt.substring_char(a, b).to_owned();
    let bg = make_bg(sc, p);
    let item = FormatItem::Text(Text { fg: sc.fg, text, font: sc.font.clone() }, bg);
    push_item(sc, item);
}

/// Apply one recognized tag to the scan state.
fn apply(sc: &mut Scan, p: &LemonParser, tok: Token)
    ensures
        final(sc)@ == apply_token(old(sc)@, p@, tok@),
{
    match tok {
        Token::Zone(z) => {
            if z != sc.zone {
                let zs = zone_state(sc);
                if sc.zone != Zone::Right && zs.0 && !zs.1 {
                    let bg = make_bg(sc, p);
                    push_item(sc, FormatItem::Filler(bg));
                }
                sc.zone = z;
            }
        },
        Token::Swap => {
            let t = sc.fg;
            sc.fg = sc.bg;
            sc.bg = t;
        },
        Token::SetColour(tgt, arg) => {
            match arg {
                None => {
                    let c = match tgt {
                        ColourTarget::Fg => p.fg,
                        ColourTarget::Bg => p.bg,
                        ColourTarget::Under => p.ul,
                        ColourTarget::Over => p.ol,
                    };
                    match tgt {
                        ColourTarget::Fg => sc.fg = c,
                        ColourTarget::Bg => sc.bg = c,
                        ColourTarget::Under => sc.ul = c,
                        ColourTarget::Over => sc.ol = c,
                    }
                },
                Some(digits) => {
                    match Colour::from_hex(digits.as_str()) {
                        Ok(c) => {
                            match tgt {
                                ColourTarget::Fg => sc.fg = c,
                                ColourTarget::Bg => sc.bg = c,
                                ColourTarget::Under => sc.ul = c,
                                ColourTarget::Over => sc.ol = c,
                            }
                        },
                        Err(_) => {
                            sc.warns.push(Warning::InvalidColor);
                        },
                    }
                },
            }
        },
        Token::Attr(tgt, op) => {
            let cur = match tgt {
                AttrTarget::Overline => sc.oline,
                AttrTarget::Underline => sc.uline,
            };
            let v = match op {
                AttrOp::Toggle => !cur,
                AttrOp::On => true,
                AttrOp::Off => false,
            };
            match tgt {
                AttrTarget::Overline => sc.oline = v,
                AttrTarget::Underline => sc.uline = v,
            }
        },
        Token::Font(arg) => {
            match arg {
                None => {
                    sc.font = join_fonts(&p.font_list);
                },
                Some(ix) => {
                    if ix >= 1 && ((ix - 1) as usize) < p.font_list.len() {
                        sc.font = p.font_list[(ix - 1) as usize].clone();
                        proof {
                            assert(p.font_list.deep_view()[ix - 1] == p.font_list@[ix - 1]@);
                        }
                    } else {
                        sc.warns.push(Warning::FontIndexOutOfRange(ix));
                        sc.font = join_fonts(&p.font_list);
                    }
                },
            }
        },
        Token::ClickOpen(b, cmd) => {
            let ghost old_b = sc.butts.deep_view();
            let ghost cmdv = cmd@;
            sc.butts.push((b, cmd));
            proof {
                assert(sc.butts.deep_view() =~= old_b.push((b, cmdv)));
            }
        },
        Token::ClickClose => {
            if sc.butts.len() > 0 {
                let ghost old_b = sc.butts.deep_view();
                sc.butts.pop();
                proof {
                    assert(sc.butts.deep_view() =~= old_b.drop_last());
                }
            } else {
                sc.warns.push(Warning::UnassociatedClose);
                proof {
                    assert(sc.butts.deep_view() =~= old(sc)@.butts);
                }
            }
        },
        Token::Image => {},
    }
}

impl LemonParser {
    /// A parser with the stock defaults: transparent black background and
    /// line colours, opaque white foreground, line thickness 1, and a font
    /// table holding one empty name (so the combined list is empty and the
    /// renderer's own default face applies).
    pub fn new() -> (p: Self)
        ensures
            p.bg == (Colour { r: 0, g: 0, b: 0, a: 0 }),
            p.fg == (Colour { r: 255, g: 255, b: 255, a: 255 }),
            p.ol == p.bg,
            p.ul == p.bg,
            p.ol_size == 1,
            p.ul_size == 1,
            p@.font_list == seq![Seq::<char>::empty()],
    {
        let bg = Colour::new(0, 0, 0, 0);
        let fg = Colour::new(255, 255, 255, 255);
        let mut font_list: Vec<String> = Vec::new();
        font_list.push(String::new());
        proof {
            assert(font_list.deep_view() =~= seq![Seq::<char>::empty()]);
        }
        LemonParser {
            bg,
            fg,
            ol: bg,
            ul: bg,
            ol_size: 1,
            ul_size: 1,
            font_list,
        }
    }

    /// Parse a format string into the three zones, together with the
    /// warnings met on the way. Never fails: every string parses.
    pub fn parse_line(&self, fmt: &str) -> (r: (Line, Vec<Warning>))
        ensures
            r.0.left.deep_view() == parse_spec(self@, fmt@).left,
            r.0.center.deep_view() == parse_spec(self@, fmt@).center,
            r.0.right.deep_view() == parse_spec(self@, fmt@).right,
            r.1@ == parse_spec(self@, fmt@).warns,
    {
        let n = fmt.unicode_len();
        let mut sc = Scan {
            left: Vec::new(),
            center: Vec::new(),
            right: Vec::new(),
            zone: Zone::Left,
            bg: self.bg,
            fg: self.fg,
            ol: self.ol,
            ul: self.ul,
            oline: false,
            uline: false,
            font: join_fonts(&self.font_list),
            butts: Vec::new(),
            warns: Vec::new(),
        };
        proof {
            assert(sc@.left =~= init_scan(self@).left);
            assert(sc@.center =~= init_scan(self@).center);
            assert(sc@.right =~= init_scan(self@).right);
            assert(sc@.butts =~= init_scan(self@).butts);
            assert(sc@.warns =~= init_scan(self@).warns);
            assert(sc@ == init_scan(self@));
            assert(fmt@.skip(0) =~= fmt@);
            assert(fmt@.subrange(0, 0) =~= Seq::<char>::empty());
        }
        let mut i: usize = 0;
        let mut ls: usize = 0;
        while i < n
            invariant
                0 <= ls <= i <= n,
                n == fmt@.len(),
                parse_spec(self@, fmt@) == scan(
                    sc@,
                    self@,
                    fmt@.skip(i as int),
                    fmt@.subrange(ls as int, i as int),
                ),
            decreases n - i,
        {
            let ghost st0 = sc@;
            let ghost rem = fmt@.skip(i as int);
            let ghost lit = fmt@.subrange(ls as int, i as int);
            match try_tag(fmt, i, n) {
                Some(tu) => {
                    let (tok, used) = tu;
                    let ghost tokv = tok@;
                    flush_lit(&mut sc, self, fmt, ls, i);
                    apply(&mut sc, self, tok);
                    proof {
                        assert(rem.len() > 0);
                        assert(tag_parse(rem) == Some((tokv, used as int)));
                        assert(scan(st0, self@, rem, lit) == scan(
                            apply_token(flush_spec(st0, self@, lit), self@, tokv),
                            self@,
                            rem.skip(used as int),
                            Seq::empty(),
                        ));
                        assert(rem.skip(used as int) =~= fmt@.skip(i + used));
                        assert(Seq::<char>::empty() =~= fmt@.subrange(
                            (i + used) as int,
                            (i + used) as int,
                        ));
                    }
                    i = i + used;
                    ls = i;
                },
                None => {
                    proof {
                        assert(rem.len() > 0);
                        assert(scan(st0, self@, rem, lit) == scan(
                            st0,
                            self@,
                            rem.skip(1),
                            lit.push(rem[0]),
                        ));
                        assert(rem[0] == fmt@[i as int]);
                        assert(rem.skip(1) =~= fmt@.skip(i + 1));
                        assert(lit.push(fmt@[i as int]) =~= fmt@.subrange(ls as int, i + 1));
                    }
                    i = i + 1;
                },
            }
        }
        let ghost st0 = sc@;
        flush_lit(&mut sc, self, fmt, ls, n);
        proof {
            assert(fmt@.skip(n as int).len() == 0);
            assert(scan(st0, self@, fmt@.skip(n as int), fmt@.subrange(ls as int, n as int))
                == flush_spec(st0, self@, fmt@.subrange(ls as int, n as int)));
        }
        (Line { left: sc.left, center: sc.center, right: sc.right }, sc.warns)
    }

    /// Parse a format string into the flat segment sequence the layout
    /// pass consumes: the zones' segments concatenated in Left, Center,
    /// Right order, whatever order the zone tags appeared in.
    pub fn parse(&self, fmt: &str) -> (r: (Vec<FormatItem>, Vec<Warning>))
        ensures
            r.0.deep_view() == parse_spec(self@, fmt@).left + parse_spec(self@, fmt@).center
                + parse_spec(self@, fmt@).right,
            r.1@ == parse_spec(self@, fmt@).warns,
    {
        let (line, warns) = self.parse_line(fmt);
        let mut flat = line.left;
        let mut center = line.center;
        let mut right = line.right;
        let ghost l = flat.deep_view();
        let ghost c = center.deep_view();
        let ghost rr = right.deep_view();
        flat.append(&mut center);
        proof {
            assert(flat.deep_view() =~= l + c);
        }
        flat.append(&mut right);
        proof {
            assert(flat.deep_view() =~= (l + c) + rr);
        }
        (flat, warns)
    }
}

} // verus!
