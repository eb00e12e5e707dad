//! Screen areas and their division into panes, done by tui's layout solver.

use vstd::prelude::*;
use tui::layout::{Constraint, Direction, Layout, Rect};

verus! {

/// A rectangle of terminal cells: top-left corner and size.
#[derive(Clone, Copy, Debug, PartialEq, Eq, Structural)]
pub struct Area {
    pub x: u16,
    pub y: u16,
    pub width: u16,
    pub height: u16,
}

/// The direction in which an area is divided.
#[derive(Clone, Copy, Debug, PartialEq, Eq, Structural)]
pub enum Split {
    /// Pieces stacked top to bottom.
    Vertical,
    /// Pieces side by side, left to right.
    Horizontal,
}

/// Whether `area` is too small to keep a margin of `margin` on every side.
pub open spec fn margin_swallows(area: Area, margin: u16) -> bool {
    area.width < 2 * margin || area.height < 2 * margin
}

/// The length, along `split`, of what is left of `area` inside the margin.
pub open spec fn inner_extent(area: Area, margin: u16, split: Split) -> int {
    if margin_swallows(area, margin) {
        0
    } else {
        match split {
            Split::Vertical => area.height - 2 * margin,
            Split::Horizontal => area.width - 2 * margin,
        }
    }
}

/// Left edge of what is left of `area` inside the margin; tui uses the
/// empty area at the origin when the margin swallows `area`.
pub open spec fn inner_x(area: Area, margin: u16) -> int {
    if margin_swallows(area, margin) { 0 } else { area.x + margin }
}

/// Top edge of what is left of `area` inside the margin.
pub open spec fn inner_y(area: Area, margin: u16) -> int {
    if margin_swallows(area, margin) { 0 } else { area.y + margin }
}

/// Width of what is left of `area` inside the margin.
pub open spec fn inner_width(area: Area, margin: u16) -> int {
    if margin_swallows(area, margin) { 0 } else { area.width - 2 * margin }
}

/// Height of what is left of `area` inside the margin.
pub open spec fn inner_height(area: Area, margin: u16) -> int {
    if margin_swallows(area, margin) { 0 } else { area.height - 2 * margin }
}

/// Whether tui can divide `area` by these percentages with this margin
/// without its cell arithmetic overflowing `u16` and with constraints its
/// solver can meet: twice the margin, the corner moved inside the margin and
/// each percentage times the inner length must fit, and the far edge of the
/// inner area across the cut (its right edge for a vertical cut, its bottom
/// edge for a horizontal one) must not pass the largest cell coordinate,
/// since every piece has to reach exactly that edge.
pub open spec fn split_fits(area: Area, margin: u16, split: Split, percentages: Seq<u16>) -> bool {
    &&& 2 * margin <= u16::MAX
    &&& margin_swallows(area, margin) || (area.x + margin <= u16::MAX && area.y + margin <= u16::MAX)
    &&& forall|k: int|
        0 <= k < percentages.len() ==> #[trigger] percentages[k] * inner_extent(area, margin, split)
            <= u16::MAX
    &&& match split {
        Split::Vertical => inner_x(area, margin) + inner_width(area, margin) <= u16::MAX,
        Split::Horizontal => inner_y(area, margin) + inner_height(area, margin) <= u16::MAX,
    }
}

/// Whether `piece` lies inside what is left of `area` within the margin,
/// give or take one cell of rounding: no wider or taller than it, and ending
/// no further right or lower than it.
pub open spec fn lies_within(piece: Area, area: Area, margin: u16) -> bool {
    &&& piece.width <= inner_width(area, margin) + 1
    &&& piece.height <= inner_height(area, margin) + 1
    &&& piece.x + piece.width <= inner_x(area, margin) + inner_width(area, margin) + 1
    &&& piece.y + piece.height <= inner_y(area, margin) + inner_height(area, margin) + 1
}

/// Whether `a` and `b` differ by at most one cell.
pub open spec fn near(a: int, b: int) -> bool {
    a - 1 <= b <= a + 1
}

/// Where `piece` starts along the cut `split`.
pub open spec fn along_start(piece: Area, split: Split) -> int {
    match split {
        Split::Vertical => piece.y as int,
        Split::Horizontal => piece.x as int,
    }
}

/// The length of `piece` along the cut `split`.
pub open spec fn along_len(piece: Area, split: Split) -> int {
    match split {
        Split::Vertical => piece.height as int,
        Split::Horizontal => piece.width as int,
    }
}

/// Where `piece` ends along the cut `split`.
pub open spec fn along_end(piece: Area, split: Split) -> int {
    along_start(piece, split) + along_len(piece, split)
}

/// Where `piece` starts across the cut `split`.
pub open spec fn across_start(piece: Area, split: Split) -> int {
    match split {
        Split::Vertical => piece.x as int,
        Split::Horizontal => piece.y as int,
    }
}

/// The length of `piece` across the cut `split`.
pub open spec fn across_len(piece: Area, split: Split) -> int {
    match split {
        Split::Vertical => piece.width as int,
        Split::Horizontal => piece.height as int,
    }
}

/// Where the inner area of `area` starts along the cut `split`.
pub open spec fn inner_along_start(area: Area, margin: u16, split: Split) -> int {
    match split {
        Split::Vertical => inner_y(area, margin),
        Split::Horizontal => inner_x(area, margin),
    }
}

/// Where the inner area of `area` starts across the cut `split`.
pub open spec fn inner_across_start(area: Area, margin: u16, split: Split) -> int {
    match split {
        Split::Vertical => inner_x(area, margin),
        Split::Horizontal => inner_y(area, margin),
    }
}

/// The length of the inner area of `area` across the cut `split`.
pub open spec fn inner_across_len(area: Area, margin: u16, split: Split) -> int {
    match split {
        Split::Vertical => inner_width(area, margin),
        Split::Horizontal => inner_height(area, margin),
    }
}

/// Where tui takes the inner area of `area` to end along the cut: its far
/// edge, stopped at the largest cell coordinate.
pub open spec fn inner_along_end(area: Area, margin: u16, split: Split) -> int {
    let end = inner_along_start(area, margin, split) + inner_extent(area, margin, split);
    if end <= u16::MAX {
        end
    } else {
        u16::MAX as int
    }
}

/// The sum of `percentages`.
pub open spec fn percent_total(percentages: Seq<u16>) -> int
    decreases percentages.len(),
{
    if percentages.len() == 0 {
        0
    } else {
        percent_total(percentages.drop_last()) + percentages.last()
    }
}

/// Whether `pieces` is a cut of `area` along `split` into the shares
/// `percentages` of what lies inside `margin`, each edge within one cell of
/// rounding: one piece per share; each spanning the inner area across the
/// cut and lying inside it; the first starting where the inner area starts,
/// each next one where the one before ends, and the last ending exactly
/// where the inner area ends; and, when the shares add up to 100 and the
/// inner area ends before the largest cell coordinate, each piece taking its
/// share of the inner length.
pub open spec fn is_cut(
    pieces: Seq<Area>,
    area: Area,
    margin: u16,
    split: Split,
    percentages: Seq<u16>,
) -> bool {
    let n = pieces.len();
    let start = inner_along_start(area, margin, split);
    let len = inner_extent(area, margin, split);
    &&& n == percentages.len()
    &&& forall|k: int| 0 <= k < n ==> lies_within(#[trigger] pieces[k], area, margin)
    &&& forall|k: int|
        0 <= k < n ==> near(
            across_start(#[trigger] pieces[k], split),
            inner_across_start(area, margin, split),
        ) && near(across_len(pieces[k], split), inner_across_len(area, margin, split))
            && along_start(pieces[k], split) + 1 >= start
    &&& n > 0 ==> near(along_start(pieces[0], split), start)
    &&& forall|k: int|
        0 <= k < n - 1 ==> near(along_end(#[trigger] pieces[k], split), along_start(pieces[k + 1], split))
    &&& n > 0 ==> along_end(pieces[n - 1], split) == inner_along_end(area, margin, split)
    &&& (percent_total(percentages) == 100 && start + len <= u16::MAX) ==> forall|k: int|
        0 <= k < n ==> -100 <= 100 * along_len(#[trigger] pieces[k], split) - percentages[k] * len <= 100
}

/// Whether `split_area` may be asked to divide `area` this way.
pub fn split_fits_exec(area: Area, margin: u16, split: Split, percentages: &Vec<u16>) -> (res: bool)
    ensures
        res == split_fits(area, margin, split, percentages@),
{
    if margin > 32767 {
        return false;
    }
    let swallowed = area.width < 2 * margin || area.height < 2 * margin;
    if !swallowed && (area.x as u32 + margin as u32 > 65535 || area.y as u32 + margin as u32
        > 65535) {
        return false;
    }
    if !swallowed {
        let far_edge: u32 = match split {
            Split::Vertical => area.x as u32 + area.width as u32 - margin as u32,
            Split::Horizontal => area.y as u32 + area.height as u32 - margin as u32,
        };
        if far_edge > 65535 {
            return false;
        }
    }
    let extent: u32 = if swallowed {
        0
    } else {
        match split {
            Split::Vertical => (area.height - 2 * margin) as u32,
            Split::Horizontal => (area.width - 2 * margin) as u32,
        }
    };
    let mut k: usize = 0;
    while k < percentages.len()
        invariant
            k <= percentages@.len(),
            extent == inner_extent(area, margin, split),
            extent <= u16::MAX,
            forall|j: int| 0 <= j < k ==> #[trigger] percentages@[j] * inner_extent(area, margin, split) <= u16::MAX,
        decreases percentages@.len() - k,
    {
        let p = percentages[k] as u32;
        assert(p * extent <= 65535 * 65535) by (nonlinear_arith)
            requires
                p <= 65535,
                extent <= 65535,
        ;
        if p * extent > 65535 {
            return false;
        }
        k = k + 1;
    }
    true
}

/// Divides `area` along `split` into one piece per entry of `percentages`,
/// each asking for that share of the area inside `margin`, with tui's
/// `Layout::split`.
///
/// Stated (`is_cut`): the constraints that tui hands its solver as required
/// hold of the pieces, each edge within one cell. They are: every piece
/// inside the inner area and of non-negative size, spanning it across the
/// cut; the first piece at the inner area's start, each next one where the
/// one before ends, the last at its far edge. The solver works in floating
/// point and each coordinate is truncated to a cell, hence the one cell of
/// slack; tui sets the last piece to end exactly at the far edge. When the
/// shares add up to 100 (and the far edge is not stopped at the largest
/// coordinate), every share can be met at once, so the solver meets each,
/// again to within a cell. Where exactly each piece lands beyond that is left
/// unsaid: the solver's tables are hash maps, so its rounding is not fixed
/// by the arguments.
#[verifier::external_body]
fn split_area(split: Split, margin: u16, percentages: &Vec<u16>, area: Area) -> (res: Vec<Area>)
    requires
        split_fits(area, margin, split, percentages@),
    ensures
        is_cut(res@, area, margin, split, percentages@),
{
    let direction = match split {
        Split::Vertical => Direction::Vertical,
        Split::Horizontal => Direction::Horizontal,
    };
    let constraints: Vec<Constraint> = percentages.iter().map(|p| Constraint::Percentage(*p)).collect();
    let rect = Rect { x: area.x, y: area.y, width: area.width, height: area.height };
    let pieces = Layout::default().direction(direction).margin(margin).constraints(constraints).split(rect);
    pieces.into_iter().map(|r| Area { x: r.x, y: r.y, width: r.width, height: r.height }).collect()
}

/// Divides `area` as `split_area` does, or gives `None` where tui's cell
/// arithmetic would overflow.
pub fn try_split(split: Split, margin: u16, percentages: &Vec<u16>, area: Area) -> (res: Option<Vec<Area>>)
    ensures
        res is Some <==> split_fits(area, margin, split, percentages@),
        res matches Some(pieces) ==> is_cut(pieces@, area, margin, split, percentages@),
{
    if split_fits_exec(area, margin, split, percentages) {
        Some(split_area(split, margin, percentages, area))
    } else {
        None
    }
}

} // verus!
