//! The line layout pass: resolve every filler's width, place every segment
//! at its absolute pixel offset, and map the placed segments' click bindings
//! to pixel ranges.
//!
//! With `F` fillers on a line of width `W`, the line is divided into `F`
//! target intervals of `W / F` pixels. The `k`-th filler (1-based, in line
//! order) is widened so that the run of text following it is centred in its
//! interval; the last filler instead subtracts the full trailing run, so the
//! final run sits flush against the right edge. A filler width that would
//! come out negative is clamped to zero.

use vstd::prelude::*;

use crate::format::{FormatItem, ItemModel};
use vstd::arithmetic::div_mod::{lemma_div_is_ordered, lemma_div_multiples_vanish,
    lemma_div_pos_is_pos};
use vstd::arithmetic::mul::lemma_mul_inequality;

verus! {

/// Rejected layout input.
#[derive(Clone, Copy, PartialEq, Eq, Structural, Debug)]
pub enum LayoutError {
    /// The line width was zero; layout needs a positive width.
    InvalidWidth,
}

/// Where one segment lands: its absolute x offset and its resolved pixel
/// width (the measured width for a text run, the computed width for a
/// filler).
#[derive(Clone, Copy, PartialEq, Eq, Structural, Debug)]
pub struct Placement {
    pub x: u64,
    pub width: u64,
}

/// Mathematical image of a click region.
pub ghost struct RegionModel {
    pub button: u8,
    pub cmd: Seq<char>,
    pub x_min: int,
    pub x_max: int,
}

/// A pixel range bound to a pointer button and a command: a press of
/// `button` between `x_min` and `x_max` runs `cmd`.
#[derive(Clone, Debug)]
pub struct ClickRegion {
    pub button: u8,
    pub cmd: String,
    pub x_min: u64,
    pub x_max: u64,
}

impl View for ClickRegion {
    type V = RegionModel;

    open spec fn view(&self) -> RegionModel {
        RegionModel {
            button: self.button,
            cmd: self.cmd@,
            x_min: self.x_min as int,
            x_max: self.x_max as int,
        }
    }
}

impl DeepView for ClickRegion {
    type V = RegionModel;

    open spec fn deep_view(&self) -> RegionModel {
        self.view()
    }
}

/// How many fillers stand in `items` at or after position `i`.
pub open spec fn fillers_from(items: Seq<ItemModel>, i: int) -> int
    decreases items.len() - i,
{
    if i < 0 || i >= items.len() {
        0
    } else {
        (if items[i].is_filler() {
            1int
        } else {
            0int
        }) + fillers_from(items, i + 1)
    }
}

/// How many text runs stand in `items` at or after position `i`.
pub open spec fn texts_from(items: Seq<ItemModel>, i: int) -> int
    decreases items.len() - i,
{
    if i < 0 || i >= items.len() {
        0
    } else {
        (if items[i] is Text {
            1int
        } else {
            0int
        }) + texts_from(items, i + 1)
    }
}

pub open spec fn spec_filler_count(items: Seq<ItemModel>) -> int {
    fillers_from(items, 0)
}

pub open spec fn spec_text_count(items: Seq<ItemModel>) -> int {
    texts_from(items, 0)
}

pub proof fn lemma_fillers_from_bounds(items: Seq<ItemModel>, i: int)
    requires
        0 <= i <= items.len(),
    ensures
        0 <= fillers_from(items, i) <= items.len() - i,
    decreases items.len() - i,
{
    if i < items.len() {
        lemma_fillers_from_bounds(items, i + 1);
    }
}

pub proof fn lemma_texts_from_bounds(items: Seq<ItemModel>, i: int)
    requires
        0 <= i <= items.len(),
    ensures
        0 <= texts_from(items, i) <= items.len() - i,
    decreases items.len() - i,
{
    if i < items.len() {
        lemma_texts_from_bounds(items, i + 1);
    }
}

/// The text-run lengths of the line, reading from position `i` with `acc`
/// pixels of text already accumulated in the current run and `ti` text runs
/// already consumed: one entry per run, where a run is the maximal stretch
/// of text between two fillers (or a line end). A line with `F` fillers has
/// `F + 1` runs, the outer ones possibly empty.
pub open spec fn runs_from(items: Seq<ItemModel>, tw: Seq<int>, i: int, ti: int, acc: int) -> Seq<
    int,
>
    decreases items.len() - i,
{
    if i < 0 || i >= items.len() {
        seq![acc]
    } else if items[i].is_filler() {
        seq![acc] + runs_from(items, tw, i + 1, ti, 0)
    } else {
        runs_from(items, tw, i + 1, ti + 1, acc + tw[ti])
    }
}

/// The run lengths of the whole line: entry 0 is the text before the first
/// filler, entry `k` the text between filler `k` and what follows it.
pub open spec fn runs_spec(items: Seq<ItemModel>, tw: Seq<int>) -> Seq<int> {
    runs_from(items, tw, 0, 0, 0)
}

pub proof fn lemma_runs_from_len(items: Seq<ItemModel>, tw: Seq<int>, i: int, ti: int, acc: int)
    requires
        0 <= i <= items.len(),
    ensures
        runs_from(items, tw, i, ti, acc).len() == fillers_from(items, i) + 1,
    decreases items.len() - i,
{
    if i < items.len() {
        if items[i].is_filler() {
            lemma_runs_from_len(items, tw, i + 1, ti, 0);
        } else {
            lemma_runs_from_len(items, tw, i + 1, ti + 1, acc + tw[ti]);
        }
    }
}

/// The placements of the segments from position `i` on, with `ti` text runs
/// and `k` fillers already behind and the pen standing at `pos`. `lens` are
/// the run lengths of the whole line, `fc` its filler count, `wid` its
/// width.
pub open spec fn place_from(
    items: Seq<ItemModel>,
    tw: Seq<int>,
    lens: Seq<int>,
    wid: int,
    fc: int,
    i: int,
    ti: int,
    k: int,
    pos: int,
) -> Seq<(int, int)>
    decreases items.len() - i,
{
    if i < 0 || i >= items.len() {
        Seq::empty()
    } else if items[i].is_filler() {
        let kk = k + 1;
        let target = wid * kk / fc;
        let part = if kk == fc {
            lens[kk]
        } else {
            lens[kk] / 2
        };
        let fw = if target >= pos + part {
            target - pos - part
        } else {
            0
        };
        seq![(pos, fw)] + place_from(items, tw, lens, wid, fc, i + 1, ti, kk, pos + fw)
    } else {
        seq![(pos, tw[ti])] + place_from(items, tw, lens, wid, fc, i + 1, ti + 1, k, pos + tw[ti])
    }
}

/// Every placement of the line: the `k`-th filler (1-based) gets
/// `wid * k / fc` minus the pen position minus half the following run
/// (the whole run for the last filler), clamped at zero; text runs keep
/// their measured width; offsets accumulate left to right from zero.
pub open spec fn placements_spec(items: Seq<ItemModel>, tw: Seq<int>, wid: int) -> Seq<(int, int)> {
    place_from(items, tw, runs_spec(items, tw), wid, spec_filler_count(items), 0, 0, 0, 0)
}

/// The placements as the pairs of a placement vector's fields.
pub open spec fn placements_view(v: Seq<Placement>) -> Seq<(int, int)> {
    v.map_values(|p: Placement| (p.x as int, p.width as int))
}

/// The click regions of one placed segment: one region per binding, all
/// spanning the segment's pixel range, in binding order (outermost first).
pub open spec fn item_regions(bg: crate::format::BgModel, p: (int, int)) -> Seq<RegionModel> {
    bg.cmd.map_values(
        |c: (u8, Seq<char>)|
            RegionModel { button: c.0, cmd: c.1, x_min: p.0, x_max: p.0 + p.1 },
    )
}

/// The click regions of the segments from position `i` on, in segment
/// order.
pub open spec fn regions_from(items: Seq<ItemModel>, pl: Seq<(int, int)>, i: int) -> Seq<
    RegionModel,
>
    decreases items.len() - i,
{
    if i < 0 || i >= items.len() {
        Seq::empty()
    } else {
        item_regions(items[i].bg(), pl[i]) + regions_from(items, pl, i + 1)
    }
}

/// The click-region table of the whole laid-out line.
pub open spec fn regions_spec(items: Seq<ItemModel>, tw: Seq<int>, wid: int) -> Seq<RegionModel> {
    regions_from(items, placements_spec(items, tw, wid), 0)
}

/// Count the filler segments of the line.
pub fn filler_count(items: &Vec<FormatItem>) -> (r: usize)
    ensures
        r == spec_filler_count(items.deep_view()),
        r <= items@.len(),
{
    let ghost im = items.deep_view();
    proof {
        lemma_fillers_from_bounds(im, 0);
    }
    let mut r: usize = 0;
    let mut i: usize = 0;
    while i < items.len()
        invariant
            0 <= i <= items@.len(),
            im == items.deep_view(),
            im.len() == items@.len(),
            r <= i,
            r + fillers_from(im, i as int) == fillers_from(im, 0),
            fillers_from(im, 0) <= im.len(),
        decreases items@.len() - i,
    {
        proof {
            lemma_fillers_from_bounds(im, i + 1);
        }
        match &items[i] {
            FormatItem::Filler(_) => {
                r = r + 1;
            },
            _ => {},
        }
        i += 1;
    }
    r
}

/// Count the text segments of the line.
pub fn text_count(items: &Vec<FormatItem>) -> (r: usize)
    ensures
        r == spec_text_count(items.deep_view()),
        r <= items@.len(),
{
    let ghost im = items.deep_view();
    proof {
        lemma_texts_from_bounds(im, 0);
    }
    let mut r: usize = 0;
    let mut i: usize = 0;
    while i < items.len()
        invariant
            0 <= i <= items@.len(),
            im == items.deep_view(),
            im.len() == items@.len(),
            r <= i,
            r + texts_from(im, i as int) == texts_from(im, 0),
            texts_from(im, 0) <= im.len(),
        decreases items@.len() - i,
    {
        proof {
            lemma_texts_from_bounds(im, i + 1);
        }
        match &items[i] {
            FormatItem::Text(_, _) => {
                r = r + 1;
            },
            _ => {},
        }
        i += 1;
    }
    r
}

/// The summed pixel width of each run of text between fillers: one entry
/// per run, `filler_count + 1` entries in all. `text_widths` holds the
/// measured width of each text segment, in segment order.
pub fn get_lengths(items: &Vec<FormatItem>, text_widths: &Vec<u32>) -> (r: Vec<u64>)
    requires
        items@.len() <= 0x4000_0000,
        text_widths@.len() == spec_text_count(items.deep_view()),
    ensures
        r@.map_values(|v: u64| v as int) == runs_spec(
            items.deep_view(),
            text_widths@.map_values(|w: u32| w as int),
        ),
        r@.len() == spec_filler_count(items.deep_view()) + 1,
        forall|j: int| 0 <= j < r@.len() ==> #[trigger] r@[j] <= 0x4000_0000_0000_0000u64,
{
    let ghost im = items.deep_view();
    let ghost twi = text_widths@.map_values(|w: u32| w as int);
    proof {
        lemma_runs_from_len(im, twi, 0, 0, 0);
        lemma_fillers_from_bounds(im, 0);
        lemma_texts_from_bounds(im, 0);
    }
    let mut r: Vec<u64> = Vec::new();
    let mut acc: u64 = 0;
    let mut ti: usize = 0;
    let mut i: usize = 0;
    while i < items.len()
        invariant
            0 <= i <= items@.len(),
            im == items.deep_view(),
            im.len() == items@.len(),
            im.len() <= 0x4000_0000,
            twi == text_widths@.map_values(|w: u32| w as int),
            twi.len() == spec_text_count(im),
            ti + texts_from(im, i as int) == texts_from(im, 0),
            ti <= i,
            acc as int <= 0x1_0000_0000 * (ti as int),
            r@.map_values(|v: u64| v as int) + runs_from(im, twi, i as int, ti as int, acc as int)
                == runs_from(im, twi, 0, 0, 0),
            forall|j: int| 0 <= j < r@.len() ==> #[trigger] r@[j] <= 0x4000_0000_0000_0000u64,
        decreases items@.len() - i,
    {
        proof {
            lemma_texts_from_bounds(im, i as int);
            lemma_texts_from_bounds(im, i + 1);
        }
        let ghost old_map = r@.map_values(|v: u64| v as int);
        let ghost old_acc = acc as int;
        match &items[i] {
            FormatItem::Filler(_) => {
                r.push(acc);
                acc = 0;
                proof {
                    assert(im[i as int].is_filler());
                    assert(runs_from(im, twi, i as int, ti as int, old_acc) == seq![old_acc]
                        + runs_from(im, twi, i + 1, ti as int, 0));
                    assert(r@.map_values(|v: u64| v as int) =~= old_map.push(old_acc));
                    assert(r@.map_values(|v: u64| v as int) + runs_from(
                        im,
                        twi,
                        i + 1,
                        ti as int,
                        0,
                    ) =~= old_map + runs_from(im, twi, i as int, ti as int, old_acc));
                }
            },
            FormatItem::Text(_, _) => {
                proof {
                    assert(im[i as int] is Text);
                    assert(texts_from(im, i as int) >= 1);
                }
                let w = text_widths[ti];
                acc = acc + (w as u64);
                ti = ti + 1;
            },
        }
        i += 1;
    }
    let ghost old_map = r@.map_values(|v: u64| v as int);
    r.push(acc);
    proof {
        assert(runs_from(im, twi, im.len() as int, ti as int, acc as int) == seq![acc as int]);
        assert(r@.map_values(|v: u64| v as int) =~= old_map.push(acc as int));
        assert(r@.map_values(|v: u64| v as int) =~= old_map + seq![acc as int]);
    }
    r
}

/// Lay out a line: resolve every segment's pixel width and absolute offset,
/// then derive the click-region table from the placed segments' bindings.
/// `text_widths` holds the measured pixel width of each text segment, in
/// segment order, as the measurement collaborator reports them. A width of
/// zero is rejected; nothing else fails.
pub fn layout(items: &Vec<FormatItem>, width: u32, text_widths: &Vec<u32>) -> (r: Result<
    (Vec<Placement>, Vec<ClickRegion>),
    LayoutError,
>)
    requires
        items@.len() <= 0x4000_0000,
        text_widths@.len() == spec_text_count(items.deep_view()),
    ensures
        r is Err <==> width == 0,
        r matches Err(e) ==> e == LayoutError::InvalidWidth,
        r matches Ok(pr) ==> placements_view(pr.0@) == placements_spec(
            items.deep_view(),
            text_widths@.map_values(|w: u32| w as int),
            width as int,
        ),
        r matches Ok(pr) ==> pr.1.deep_view() == regions_spec(
            items.deep_view(),
            text_widths@.map_values(|w: u32| w as int),
            width as int,
        ),
        r matches Ok(pr) ==> pr.0@.len() == items@.len(),
{
    if width == 0 {
        return Err(LayoutError::InvalidWidth);
    }
    let ghost im = items.deep_view();
    let ghost twi = text_widths@.map_values(|w: u32| w as int);
    let fc = filler_count(items);
    let lens = get_lengths(items, text_widths);
    let ghost lensi = lens@.map_values(|v: u64| v as int);
    let ghost pspec = placements_spec(im, twi, width as int);
    proof {
        lemma_texts_from_bounds(im, 0);
    }

    let mut pl: Vec<Placement> = Vec::new();
    let mut pos: u64 = 0;
    let mut ti: usize = 0;
    let mut k: usize = 0;
    let mut i: usize = 0;
    while i < items.len()
        invariant
            0 <= i <= im.len(),
            im == items.deep_view(),
            im.len() == items@.len(),
            im.len() <= 0x4000_0000,
            1 <= width,
            twi == text_widths@.map_values(|w: u32| w as int),
            twi.len() == texts_from(im, 0),
            lensi == lens@.map_values(|v: u64| v as int),
            lensi == runs_spec(im, twi),
            lens@.len() == fillers_from(im, 0) + 1,
            forall|j: int| 0 <= j < lens@.len() ==> #[trigger] lens@[j] <= 0x4000_0000_0000_0000u64,
            fc == fillers_from(im, 0),
            fc <= im.len(),
            k + fillers_from(im, i as int) == fc,
            ti + texts_from(im, i as int) == texts_from(im, 0),
            ti <= i,
            k <= i,
            pos as int <= width as int + 0x1_0000_0000 * (ti as int),
            pl@.len() == i,
            forall|j: int|
                0 <= j < i ==> #[trigger] pl@[j].x as int + pl@[j].width as int <= pos as int,
            pspec == placements_spec(im, twi, width as int),
            placements_view(pl@) + place_from(
                im,
                twi,
                lensi,
                width as int,
                fc as int,
                i as int,
                ti as int,
                k as int,
                pos as int,
            ) == pspec,
        decreases im.len() - i,
    {
        proof {
            lemma_texts_from_bounds(im, i as int);
            lemma_texts_from_bounds(im, i + 1);
            lemma_fillers_from_bounds(im, i as int);
            lemma_fillers_from_bounds(im, i + 1);
        }
        let ghost old_view = placements_view(pl@);
        let ghost old_pos = pos as int;
        match &items[i] {
            FormatItem::Text(_, _) => {
                proof {
                    assert(im[i as int] is Text);
                    assert(texts_from(im, i as int) >= 1);
                }
                let w = text_widths[ti] as u64;
                pl.push(Placement { x: pos, width: w });
                pos = pos + w;
                ti = ti + 1;
                proof {
                    assert(placements_view(pl@) =~= old_view.push((old_pos, w as int)));
                    assert(placements_view(pl@) + place_from(
                        im,
                        twi,
                        lensi,
                        width as int,
                        fc as int,
                        i + 1,
                        ti as int,
                        k as int,
                        pos as int,
                    ) =~= old_view + place_from(
                        im,
                        twi,
                        lensi,
                        width as int,
                        fc as int,
                        i as int,
                        ti as int - 1,
                        k as int,
                        old_pos,
                    ));
                }
            },
            FormatItem::Filler(_) => {
                proof {
                    assert(im[i as int].is_filler());
                    assert(fillers_from(im, i as int) >= 1);
                    assert(k < fc);
                }
                k = k + 1;
                proof {
                    lemma_mul_inequality(width as int, 0xffff_ffff, k as int);
                    assert(0xffff_ffff * (k as int) <= 0xffff_ffff * 0x4000_0000);
                    lemma_mul_inequality(k as int, fc as int, width as int);
                    lemma_div_is_ordered(
                        (width as int) * (k as int),
                        (width as int) * (fc as int),
                        fc as int,
                    );
                    lemma_div_multiples_vanish(width as int, fc as int);
                    assert((width as int) * (fc as int) / (fc as int) == width as int);
                    lemma_div_pos_is_pos((width as int) * (k as int), fc as int);
                }
                let target = (width as u64) * (k as u64) / (fc as u64);
                proof {
                    assert(target as int == (width as int) * (k as int) / (fc as int));
                    assert(target as int <= width as int);
                }
                let part = if k == fc {
                    lens[k]
                } else {
                    lens[k] / 2
                };
                let fw = if target >= pos + part {
                    target - pos - part
                } else {
                    0
                };
                pl.push(Placement { x: pos, width: fw });
                pos = pos + fw;
                proof {
                    assert(fw as int == ({
                        let t = (width as int) * (k as int) / (fc as int);
                        let p = if k as int == fc as int {
                            lensi[k as int]
                        } else {
                            lensi[k as int] / 2
                        };
                        if t >= old_pos + p {
                            t - old_pos - p
                        } else {
                            0
                        }
                    }));
                    assert(pos as int <= width as int + 0x1_0000_0000 * (ti as int));
                    assert(placements_view(pl@) =~= old_view.push((old_pos, fw as int)));
                    assert(placements_view(pl@) + place_from(
                        im,
                        twi,
                        lensi,
                        width as int,
                        fc as int,
                        i + 1,
                        ti as int,
                        k as int,
                        pos as int,
                    ) =~= old_view + place_from(
                        im,
                        twi,
                        lensi,
                        width as int,
                        fc as int,
                        i as int,
                        ti as int,
                        k as int - 1,
                        old_pos,
                    ));
                }
            },
        }
        i += 1;
    }
    proof {
        assert(place_from(
            im,
            twi,
            lensi,
            width as int,
            fc as int,
            im.len() as int,
            ti as int,
            k as int,
            pos as int,
        ) == Seq::<(int, int)>::empty());
        assert(placements_view(pl@) =~= placements_view(pl@) + Seq::<(int, int)>::empty());
        assert(placements_view(pl@) == pspec);
    }

    let ghost rspec = regions_from(im, pspec, 0);
    let mut regions: Vec<ClickRegion> = Vec::new();
    let mut i2: usize = 0;
    while i2 < items.len()
        invariant
            0 <= i2 <= im.len(),
            im == items.deep_view(),
            im.len() == items@.len(),
            pl@.len() == im.len(),
            placements_view(pl@) == pspec,
            (pos as int) < 0x8000_0000_0000_0000,
            forall|j: int|
                0 <= j < pl@.len() ==> #[trigger] pl@[j].x as int + pl@[j].width as int
                    <= pos as int,
            rspec == regions_from(im, pspec, 0),
            regions.deep_view() + regions_from(im, pspec, i2 as int) == rspec,
        decreases im.len() - i2,
    {
        let bg = match &items[i2] {
            FormatItem::Text(_, b) => b,
            FormatItem::Filler(b) => b,
        };
        proof {
            assert(bg@ == im[i2 as int].bg());
        }
        let x = pl[i2].x;
        let wdt = pl[i2].width;
        proof {
            assert(pspec[i2 as int] == (x as int, wdt as int));
        }
        let mut j: usize = 0;
        while j < bg.cmd.len()
            invariant
                0 <= j <= bg.cmd@.len(),
                0 <= i2 < im.len(),
                im == items.deep_view(),
                bg@ == im[i2 as int].bg(),
                x as int + (wdt as int) < 0x8000_0000_0000_0000,
                pspec[i2 as int] == (x as int, wdt as int),
                rspec == regions_from(im, pspec, 0),
                regions.deep_view() + item_regions(im[i2 as int].bg(), pspec[i2 as int]).skip(
                    j as int,
                ) + regions_from(im, pspec, i2 + 1) == rspec,
            decreases bg.cmd@.len() - j,
        {
            let ghost old_regions = regions.deep_view();
            let ghost ir = item_regions(im[i2 as int].bg(), pspec[i2 as int]);
            let pair = &bg.cmd[j];
            let region = ClickRegion {
                button: pair.0,
                cmd: pair.1.clone(),
                x_min: x,
                x_max: x + wdt,
            };
            proof {
                assert(bg.cmd.deep_view()[j as int] == (pair.0, pair.1@));
                assert(ir[j as int] == region@);
            }
            regions.push(region);
            proof {
                assert(regions.deep_view() =~= old_regions.push(ir[j as int]));
                assert(ir.skip(j as int) =~= seq![ir[j as int]] + ir.skip(j + 1));
                assert(regions.deep_view() + ir.skip(j + 1) + regions_from(im, pspec, i2 + 1)
                    =~= old_regions + ir.skip(j as int) + regions_from(im, pspec, i2 + 1));
            }
            j += 1;
        }
        proof {
            let ir = item_regions(im[i2 as int].bg(), pspec[i2 as int]);
            assert(ir.skip(bg.cmd@.len() as int) =~= Seq::<RegionModel>::empty());
            assert(regions.deep_view() + Seq::<RegionModel>::empty() =~= regions.deep_view());
            assert(regions_from(im, pspec, i2 as int) == ir + regions_from(im, pspec, i2 + 1));
            assert(regions.deep_view() + regions_from(im, pspec, i2 + 1) =~= regions.deep_view()
                + ir.skip(bg.cmd@.len() as int) + regions_from(im, pspec, i2 + 1));
        }
        i2 += 1;
    }
    proof {
        assert(regions_from(im, pspec, im.len() as int) == Seq::<RegionModel>::empty());
        assert(regions.deep_view() =~= regions.deep_view() + Seq::<RegionModel>::empty());
        assert(regions.deep_view() == rspec);
    }
    Ok((pl, regions))
}

/// The summed widths `tw[a] + ... + tw[b - 1]`.
pub open spec fn width_sum(tw: Seq<int>, a: int, b: int) -> int
    decreases b - a,
{
    if a >= b {
        0
    } else {
        tw[a] + width_sum(tw, a + 1, b)
    }
}

pub proof fn lemma_width_sum_split(tw: Seq<int>, a: int, m: int, b: int)
    requires
        a <= m <= b,
    ensures
        width_sum(tw, a, b) == width_sum(tw, a, m) + width_sum(tw, m, b),
    decreases m - a,
{
    if a < m {
        lemma_width_sum_split(tw, a + 1, m, b);
    }
}

pub proof fn lemma_width_sum_pos(tw: Seq<int>, a: int, b: int)
    requires
        0 <= a < b <= tw.len(),
        forall|t: int| a <= t < b ==> tw[t] > 0,
    ensures
        width_sum(tw, a, b) > 0,
    decreases b - a,
{
    if a + 1 < b {
        lemma_width_sum_pos(tw, a + 1, b);
    } else {
        assert(width_sum(tw, a + 1, b) == 0);
    }
}

/// Every position of a line holds either a text run or a filler.
pub proof fn lemma_counts_partition(items: Seq<ItemModel>, i: int)
    requires
        0 <= i <= items.len(),
    ensures
        texts_from(items, i) + fillers_from(items, i) == items.len() - i,
    decreases items.len() - i,
{
    if i < items.len() {
        lemma_counts_partition(items, i + 1);
    }
}

proof fn lemma_place_from_texts(
    items: Seq<ItemModel>,
    tw: Seq<int>,
    lens: Seq<int>,
    wid: int,
    fc: int,
    i: int,
    ti: int,
    k: int,
    pos: int,
)
    requires
        0 <= i <= items.len(),
        fillers_from(items, i) == 0,
        0 <= ti,
        ti + (items.len() - i) <= tw.len(),
    ensures
        place_from(items, tw, lens, wid, fc, i, ti, k, pos).len() == items.len() - i,
        forall|j: int|
            0 <= j < items.len() - i ==> place_from(items, tw, lens, wid, fc, i, ti, k, pos)[j]
                == (pos + width_sum(tw, ti, ti + j), tw[ti + j]),
    decreases items.len() - i,
{
    if i < items.len() {
        lemma_fillers_from_bounds(items, i + 1);
        assert(!items[i].is_filler());
        lemma_place_from_texts(items, tw, lens, wid, fc, i + 1, ti + 1, k, pos + tw[ti]);
        let out = place_from(items, tw, lens, wid, fc, i, ti, k, pos);
        let rec = place_from(items, tw, lens, wid, fc, i + 1, ti + 1, k, pos + tw[ti]);
        assert(out == seq![(pos, tw[ti])] + rec);
        assert forall|j: int| 0 <= j < items.len() - i implies out[j] == (
            pos + width_sum(tw, ti, ti + j),
            tw[ti + j],
        ) by {
            if j == 0 {
                assert(width_sum(tw, ti, ti) == 0);
                assert(out[0] == (pos, tw[ti]));
            } else {
                assert(out[j] == rec[j - 1]);
                assert(rec[j - 1] == (pos + tw[ti] + width_sum(tw, ti + 1, ti + j), tw[ti + j]));
                assert(width_sum(tw, ti, ti + j) == tw[ti] + width_sum(tw, ti + 1, ti + j));
            }
        }
    }
}

/// A line with no fillers gets no justification: every segment keeps its
/// measured width and sits at the sum of the widths of the segments before
/// it, and with all widths positive the offsets strictly increase.
pub proof fn lemma_layout_without_fillers(items: Seq<ItemModel>, tw: Seq<int>, wid: int)
    requires
        spec_filler_count(items) == 0,
        tw.len() == spec_text_count(items),
    ensures
        placements_spec(items, tw, wid).len() == items.len(),
        forall|j: int|
            0 <= j < items.len() ==> placements_spec(items, tw, wid)[j] == (
                width_sum(tw, 0, j),
                tw[j],
            ),
        (forall|t: int| 0 <= t < tw.len() ==> tw[t] > 0) ==> (forall|a: int, b: int|
            0 <= a < b < items.len() ==> placements_spec(items, tw, wid)[a].0 < placements_spec(
                items,
                tw,
                wid,
            )[b].0),
{
    lemma_counts_partition(items, 0);
    lemma_place_from_texts(
        items,
        tw,
        runs_spec(items, tw),
        wid,
        spec_filler_count(items),
        0,
        0,
        0,
        0,
    );
    if (forall|t: int| 0 <= t < tw.len() ==> tw[t] > 0) {
        assert forall|a: int, b: int| 0 <= a < b < items.len() implies placements_spec(
            items,
            tw,
            wid,
        )[a].0 < placements_spec(items, tw, wid)[b].0 by {
            lemma_width_sum_split(tw, 0, a, b);
            lemma_width_sum_pos(tw, a, b);
        }
    }
}

} // verus!
