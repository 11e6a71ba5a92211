//! Where the parts of the screen lie.

use ratatui::layout as tui;
use ratatui::widgets::{Block, Borders};
use vstd::prelude::*;

verus! {

/// A rectangle of terminal cells.
#[derive(Clone, Copy, Debug, PartialEq, Eq, Structural)]
pub struct Rect {
    pub x: u16,
    pub y: u16,
    pub width: u16,
    pub height: u16,
}

/// The direction in which an area is split.
#[derive(Clone, Copy, Debug, PartialEq, Eq, Structural)]
pub enum Direction {
    Horizontal,
    Vertical,
}

/// What size a part of a split area is to have.
#[derive(Clone, Copy, Debug, PartialEq, Eq, Structural)]
pub enum Constraint {
    /// So many cells.
    Length(u16),
    /// At least so many cells.
    Min(u16),
    /// So many hundredths of the whole.
    Percentage(u16),
}

/// The first coordinate behind `size` cells from `start` on, which is a `u16` too.
pub open spec fn far(start: u16, size: u16) -> int {
    if start + size <= u16::MAX {
        start + size
    } else {
        u16::MAX as int
    }
}

/// Where `r` starts in a direction.
pub open spec fn start_of(direction: Direction, r: Rect) -> int {
    match direction {
        Direction::Horizontal => r.x as int,
        Direction::Vertical => r.y as int,
    }
}

/// How many cells `r` has in a direction.
pub open spec fn size_of(direction: Direction, r: Rect) -> int {
    match direction {
        Direction::Horizontal => r.width as int,
        Direction::Vertical => r.height as int,
    }
}

/// Where `r` ends in a direction.
pub open spec fn end_of(direction: Direction, r: Rect) -> int {
    start_of(direction, r) + size_of(direction, r)
}

/// How many cells of `r` there are in a direction before the coordinates end.
pub open spec fn extent_of(direction: Direction, r: Rect) -> int {
    match direction {
        Direction::Horizontal => far(r.x, r.width) - r.x,
        Direction::Vertical => far(r.y, r.height) - r.y,
    }
}

/// Whether `part` lies in `area`, and has its full size across the direction.
pub open spec fn is_slice(direction: Direction, area: Rect, part: Rect) -> bool {
    &&& start_of(direction, area) <= start_of(direction, part)
    &&& end_of(direction, part) <= start_of(direction, area) + extent_of(direction, area)
    &&& match direction {
        Direction::Horizontal => part.y == area.y && part.height == area.height,
        Direction::Vertical => part.x == area.x && part.width == area.width,
    }
}

/// Whether `part` goes from `from` to `to`, counted from the start of `area` in the direction.
pub open spec fn covers(direction: Direction, area: Rect, part: Rect, from: int, to: int) -> bool {
    &&& start_of(direction, part) == start_of(direction, area) + from
    &&& size_of(direction, part) == to - from
}

/// So many hundredths of `extent`, to the nearest cell.
pub open spec fn hundredths(extent: int, percent: int) -> int {
    (extent * percent + 50) / 100
}

/// The sum of the first `n` percentages.
pub open spec fn percent_before(constraints: Seq<Constraint>, n: int) -> int
    decreases n,
{
    if n <= 0 {
        0
    } else {
        percent_before(constraints, n - 1) + match constraints[n - 1] {
            Constraint::Percentage(p) => p as int,
            _ => 0,
        }
    }
}

/// Whether there are only percentages, and not more than the whole of them.
pub open spec fn percentages_fit(constraints: Seq<Constraint>) -> bool {
    &&& forall|i: int|
        0 <= i < constraints.len() ==> (#[trigger] constraints[i]) is Percentage
    &&& percent_before(constraints, constraints.len() as int) <= 100
}

/// The sum of the lengths among the first `n` constraints.
pub open spec fn length_before(constraints: Seq<Constraint>, n: int) -> int
    decreases n,
{
    if n <= 0 {
        0
    } else {
        length_before(constraints, n - 1) + match constraints[n - 1] {
            Constraint::Length(l) => l as int,
            _ => 0,
        }
    }
}

/// Whether there are only lengths but for a minimum at `m`, and few of them.
pub open spec fn one_minimum(constraints: Seq<Constraint>, m: int) -> bool {
    &&& 0 <= m < constraints.len() <= 10
    &&& constraints[m] is Min
    &&& forall|i: int|
        0 <= i < constraints.len() && i != m ==> (#[trigger] constraints[i]) is Length
}

/// The size of the minimum at `m` among lengths: what the lengths leave, but at least the minimum,
/// as far as there is so much.
pub open spec fn minimum_size(constraints: Seq<Constraint>, m: int, extent: int) -> int {
    let left = extent - length_before(constraints, constraints.len() as int);
    let least = constraints[m]->Min_0 as int;
    if left >= least {
        left
    } else if least <= extent {
        least
    } else {
        extent
    }
}

/// Whether the parts fill the area without a gap as lengths and a minimum at `m` ask: the minimum
/// has its size, and no length has more than its own. Where all of it fits, each length has its
/// own.
pub open spec fn filled(
    direction: Direction,
    area: Rect,
    constraints: Seq<Constraint>,
    m: int,
    parts: Seq<Rect>,
) -> bool {
    let extent = extent_of(direction, area);
    &&& start_of(direction, parts[0]) == start_of(direction, area)
    &&& end_of(direction, parts.last()) == start_of(direction, area) + extent
    &&& forall|i: int, j: int|
        0 <= i < j == i + 1 < parts.len() ==> end_of(direction, #[trigger] parts[i]) == start_of(
            direction,
            #[trigger] parts[j],
        )
    &&& size_of(direction, parts[m]) == minimum_size(constraints, m, extent)
    &&& forall|i: int|
        0 <= i < parts.len() && i != m ==> {
            &&& size_of(direction, #[trigger] parts[i]) <= constraints[i]->Length_0
            &&& extent >= length_before(constraints, constraints.len() as int)
                + constraints[m]->Min_0 ==> size_of(direction, parts[i])
                == constraints[i]->Length_0
        }
}

/// `k` of `n` equal shares of `total` cells, to the nearest cell, and up from the half.
pub open spec fn shares(total: int, k: int, n: int) -> int {
    if n <= 0 {
        0
    } else {
        (2 * total * k + n) / (2 * n)
    }
}

/// Whether there are only single cells but for a minimum of at least one at `m`, with fewer parts
/// before it than behind it.
pub open spec fn cells_around_minimum(constraints: Seq<Constraint>, m: int) -> bool {
    &&& one_minimum(constraints, m)
    &&& m < constraints.len() - m - 1
    &&& constraints[m]->Min_0 >= 1
    &&& forall|i: int|
        0 <= i < constraints.len() && i != m ==> (#[trigger] constraints[i])->Length_0 == 1
}

/// Where part `i` of `n` starts among single cells and a minimum of `least` at `m`, where the
/// minimum fits in `extent` but not all cells do: the cells before the minimum come first to what
/// is left, those behind it to the rest, and on each side they share it evenly.
pub open spec fn short_cut(n: int, m: int, least: int, extent: int, i: int) -> int {
    let room = extent - least;
    let before = if room < m {
        room
    } else {
        m
    };
    if i <= m {
        shares(before, i, m)
    } else {
        before + least + shares(room - before, i - m - 1, n - m - 1)
    }
}

/// Calls `ratatui`'s `Layout::split`, for a layout with no margin, no spacing and the default
/// `Flex::Start`. There is a part for each constraint. It lies in the area, which `split` demands
/// of its solver, and has the full size of the area across the direction.
///
/// Sizes are requests, which `split` ranks by strength: first that no space stands between the
/// parts, then minimums, then lengths, then percentages, and last that minimums grow and that space
/// stands behind all parts. So:
/// - percentages of together at most 100 stand one behind the other, each end rounded to the
///   nearest cell;
/// - lengths and one minimum fill the area without a gap. Where they fit, the lengths are met and
///   the minimum takes the rest; where they do not, the minimum is met first, as far as it can be,
///   and the lengths lose what is missing.
///
/// Weakest of all is the request that neighbours have the same size. It settles how single cells
/// share what is left by a minimum of at least one: each side of the minimum best shares it evenly,
/// as it then lies least below the minimum, and the side with fewer parts gains most by it. So that
/// side is served first. Each end is again rounded to the nearest cell.
///
/// What is said of lengths is said of at most ten parts, so that no cut can come to lie where the
/// rounding of the solver's floating point shows. Left unsaid is how other lengths share what is
/// missing: there `split` may take one of several answers, as its solver walks hash maps.
#[verifier::external_body]
fn split_area(direction: Direction, constraints: &Vec<Constraint>, area: Rect) -> (parts: Vec<Rect>)
    ensures
        parts@.len() == constraints@.len(),
        forall|i: int|
            0 <= i < parts@.len() ==> is_slice(direction, area, #[trigger] parts@[i]),
        percentages_fit(constraints@) ==> forall|i: int|
            0 <= i < parts@.len() ==> covers(
                direction,
                area,
                #[trigger] parts@[i],
                hundredths(extent_of(direction, area), percent_before(constraints@, i)),
                hundredths(extent_of(direction, area), percent_before(constraints@, i + 1)),
            ),
        forall|m: int|
            #![trigger constraints@[m]]
            one_minimum(constraints@, m) ==> filled(direction, area, constraints@, m, parts@),
        forall|m: int, i: int|
            #![trigger constraints@[m], parts@[i]]
            cells_around_minimum(constraints@, m) && constraints@[m]->Min_0 <= extent_of(
                direction,
                area,
            ) < constraints@[m]->Min_0 + constraints@.len() - 1 && 0 <= i < parts@.len() ==> covers(
                direction,
                area,
                parts@[i],
                short_cut(
                    constraints@.len() as int,
                    m,
                    constraints@[m]->Min_0 as int,
                    extent_of(direction, area),
                    i,
                ),
                short_cut(
                    constraints@.len() as int,
                    m,
                    constraints@[m]->Min_0 as int,
                    extent_of(direction, area),
                    i + 1,
                ),
            ),
{
    let to = |c: &Constraint| match *c {
        Constraint::Length(n) => tui::Constraint::Length(n),
        Constraint::Min(n) => tui::Constraint::Min(n),
        Constraint::Percentage(n) => tui::Constraint::Percentage(n),
    };
    let direction = match direction {
        Direction::Horizontal => tui::Direction::Horizontal,
        Direction::Vertical => tui::Direction::Vertical,
    };
    let Rect { x, y, width, height } = area;
    let whole = tui::Rect { x, y, width, height };
    let parts = tui::Layout::new(direction, constraints.iter().map(to)).split(whole);
    parts.iter().map(|r| Rect { x: r.x, y: r.y, width: r.width, height: r.height }).collect()
}

/// The area that a border on all sides leaves of `area`.
pub open spec fn inside_border(area: Rect) -> Rect {
    Rect {
        x: (if area.x < far(area.x, area.width) {
            area.x + 1
        } else {
            area.x as int
        }) as u16,
        y: (if area.y < far(area.y, area.height) {
            area.y + 1
        } else {
            area.y as int
        }) as u16,
        width: (if area.width >= 2 {
            area.width - 2
        } else {
            0
        }) as u16,
        height: (if area.height >= 2 {
            area.height - 2
        } else {
            0
        }) as u16,
    }
}

/// Calls `ratatui`'s `Block::inner` on a block with all borders and no padding, which takes one
/// cell from each side, as far as there are cells.
#[verifier::external_body]
fn block_inner(area: Rect) -> (inner: Rect)
    ensures
        inner == inside_border(area),
{
    let Rect { x, y, width, height } = area;
    let block = Block::default().borders(Borders::ALL);
    let r = block.inner(tui::Rect { x, y, width, height });
    Rect { x: r.x, y: r.y, width: r.width, height: r.height }
}

/// The percentage that is left on each side of a middle part.
pub open spec fn side(percent: int) -> int {
    (100 - percent) / 2
}

/// The rectangle in the middle of `r` that has so many hundredths of its width and height.
pub open spec fn centered(percent_x: int, percent_y: int, r: Rect) -> Rect {
    let w = extent_of(Direction::Horizontal, r);
    let h = extent_of(Direction::Vertical, r);
    let left = hundredths(w, side(percent_x));
    let top = hundredths(h, side(percent_y));
    Rect {
        x: (r.x + left) as u16,
        y: (r.y + top) as u16,
        width: (hundredths(w, side(percent_x) + percent_x) - left) as u16,
        height: (hundredths(h, side(percent_y) + percent_y) - top) as u16,
    }
}

/// The part in the middle of `area`, of so many hundredths of its size in the direction.
fn middle(direction: Direction, percent: u16, area: Rect) -> (part: Rect)
    requires
        percent <= 100,
    ensures
        is_slice(direction, area, part),
        covers(
            direction,
            area,
            part,
            hundredths(extent_of(direction, area), side(percent as int)),
            hundredths(extent_of(direction, area), side(percent as int) + percent),
        ),
{
    let edge: u16 = (100 - percent) / 2;
    let constraints = vec![
        Constraint::Percentage(edge),
        Constraint::Percentage(percent),
        Constraint::Percentage(edge),
    ];
    let parts = split_area(direction, &constraints, area);
    proof {
        reveal_with_fuel(percent_before, 4);
        assert(constraints@[0] == Constraint::Percentage(edge));
        assert(percent_before(constraints@, 1) == edge);
        assert(percent_before(constraints@, 2) == edge + percent);
        assert(percentages_fit(constraints@));
    }
    parts[1]
}

/// The rectangle in the middle of `r` that has so many hundredths of its width and height.
pub fn centered_rect(percent_x: u16, percent_y: u16, r: Rect) -> (rect: Rect)
    requires
        percent_x <= 100,
        percent_y <= 100,
    ensures
        rect == centered(percent_x as int, percent_y as int, r),
{
    let row = middle(Direction::Vertical, percent_y, r);
    middle(Direction::Horizontal, percent_x, row)
}

/// Where the header and the list of devices lie.
#[derive(Clone, Copy, Debug, PartialEq, Eq, Structural)]
pub struct MainAreas {
    pub header: Rect,
    pub list: Rect,
}

/// The rows that the header takes of `extent` rows.
pub open spec fn header_rows(extent: int) -> int {
    if extent < 3 {
        extent
    } else {
        3
    }
}

/// The header on the first three rows of the screen, the list on the rest.
pub open spec fn main_areas_of(screen: Rect) -> MainAreas {
    let extent = extent_of(Direction::Vertical, screen);
    MainAreas {
        header: Rect { height: header_rows(extent) as u16, ..screen },
        list: Rect {
            y: (screen.y + header_rows(extent)) as u16,
            height: (extent - header_rows(extent)) as u16,
            ..screen
        },
    }
}

/// Where the header and the list of devices lie on the screen.
pub fn main_areas(screen: Rect) -> (areas: MainAreas)
    ensures
        areas == main_areas_of(screen),
{
    let constraints = vec![Constraint::Length(3), Constraint::Min(0)];
    let parts = split_area(Direction::Vertical, &constraints, screen);
    proof {
        reveal_with_fuel(length_before, 3);
        assert(constraints@[0] == Constraint::Length(3));
        assert(constraints@[1] == Constraint::Min(0));
        assert(length_before(constraints@, 2) == 3);
        assert(one_minimum(constraints@, 1));
        assert(end_of(Direction::Vertical, parts@[0]) == start_of(Direction::Vertical, parts@[1]));
    }
    MainAreas { header: parts[0], list: parts[1] }
}

/// Where the parts of the question about the current serial number lie.
#[derive(Clone, Copy, Debug, PartialEq, Eq, Structural)]
pub struct ConfirmAreas {
    pub frame: Rect,
    pub title: Rect,
    pub description: Rect,
    pub question: Rect,
    /// The row of both buttons.
    pub buttons: Rect,
    pub keep: Rect,
    pub clear: Rect,
}

/// The area of a row of `inner`: so many rows from its top on, so many rows high.
pub open spec fn rows_of(inner: Rect, from: int, rows: int) -> Rect {
    Rect { y: (inner.y + from) as u16, height: rows as u16, ..inner }
}

/// The title in a frame with so many rows inside: on the first row, where the description leaves
/// one.
pub open spec fn title_in(inner: Rect, rows: int) -> Rect {
    rows_of(
        inner,
        0,
        if rows <= 4 {
            0
        } else {
            1
        },
    )
}

/// The description: from the third row on, with what the other rows leave, but with at least four
/// rows, as far as there are so many.
pub open spec fn description_in(inner: Rect, rows: int) -> Rect {
    if rows <= 4 {
        rows_of(inner, 0, rows)
    } else if rows == 5 {
        rows_of(inner, 1, 4)
    } else if rows < 10 {
        rows_of(inner, 2, 4)
    } else {
        rows_of(inner, 2, rows - 6)
    }
}

/// The question: third from the bottom. With fewer than ten rows it comes earlier, or has no row.
pub open spec fn question_in(inner: Rect, rows: int) -> Rect {
    if rows <= 6 {
        rows_of(inner, rows, 0)
    } else if rows == 7 {
        rows_of(inner, 6, 1)
    } else if rows == 8 {
        rows_of(inner, 7, 0)
    } else if rows == 9 {
        rows_of(inner, 7, 1)
    } else {
        rows_of(inner, rows - 3, 1)
    }
}

/// The buttons: at the bottom, from nine rows on.
pub open spec fn buttons_in(inner: Rect, rows: int) -> Rect {
    if rows <= 8 {
        rows_of(inner, rows, 0)
    } else {
        rows_of(inner, rows - 1, 1)
    }
}

/// The areas of the question on a screen. It stands in a frame in the middle, and the two buttons
/// share their row. In full it takes ten rows inside the frame.
pub open spec fn confirm_areas_of(screen: Rect) -> ConfirmAreas {
    let frame = centered(75, 50, screen);
    let inner = inside_border(frame);
    let rows = extent_of(Direction::Vertical, inner);
    let columns = extent_of(Direction::Horizontal, inner);
    let buttons = buttons_in(inner, rows);
    ConfirmAreas {
        frame,
        title: title_in(inner, rows),
        description: description_in(inner, rows),
        question: question_in(inner, rows),
        buttons,
        keep: Rect { width: hundredths(columns, 50) as u16, ..buttons },
        clear: Rect {
            x: (inner.x + hundredths(columns, 50)) as u16,
            width: (columns - hundredths(columns, 50)) as u16,
            ..buttons
        },
    }
}

/// The cuts of the question between five and nine rows.
proof fn lemma_question_cuts(rows: int)
    requires
        5 <= rows <= 9,
    ensures
        short_cut(7, 2, 4, rows, 0) == 0,
        short_cut(7, 2, 4, rows, 1) == 1,
        short_cut(7, 2, 4, rows, 2) == (if rows == 5 {
            1int
        } else {
            2
        }),
        short_cut(7, 2, 4, rows, 3) == (if rows == 5 {
            5int
        } else {
            6
        }),
        short_cut(7, 2, 4, rows, 4) == (if rows <= 7 {
            if rows == 5 {
                5int
            } else {
                6
            }
        } else {
            7
        }),
        short_cut(7, 2, 4, rows, 5) == (if rows <= 6 {
            rows
        } else if rows == 9 {
            8
        } else {
            7
        }),
        short_cut(7, 2, 4, rows, 6) == (if rows == 9 {
            8
        } else {
            rows
        }),
        short_cut(7, 2, 4, rows, 7) == rows,
{
    assert(shares(1, 0, 2) == 0) by (nonlinear_arith);
    assert(shares(1, 1, 2) == 1) by (nonlinear_arith);
    assert(shares(1, 2, 2) == 1) by (nonlinear_arith);
    assert(shares(2, 0, 2) == 0) by (nonlinear_arith);
    assert(shares(2, 1, 2) == 1) by (nonlinear_arith);
    assert(shares(2, 2, 2) == 2) by (nonlinear_arith);
    assert(shares(0, 0, 4) == 0) by (nonlinear_arith);
    assert(shares(0, 1, 4) == 0) by (nonlinear_arith);
    assert(shares(0, 2, 4) == 0) by (nonlinear_arith);
    assert(shares(0, 3, 4) == 0) by (nonlinear_arith);
    assert(shares(0, 4, 4) == 0) by (nonlinear_arith);
    assert(shares(1, 0, 4) == 0) by (nonlinear_arith);
    assert(shares(1, 1, 4) == 0) by (nonlinear_arith);
    assert(shares(1, 2, 4) == 1) by (nonlinear_arith);
    assert(shares(1, 3, 4) == 1) by (nonlinear_arith);
    assert(shares(1, 4, 4) == 1) by (nonlinear_arith);
    assert(shares(2, 0, 4) == 0) by (nonlinear_arith);
    assert(shares(2, 1, 4) == 1) by (nonlinear_arith);
    assert(shares(2, 2, 4) == 1) by (nonlinear_arith);
    assert(shares(2, 3, 4) == 2) by (nonlinear_arith);
    assert(shares(2, 4, 4) == 2) by (nonlinear_arith);
    assert(shares(3, 0, 4) == 0) by (nonlinear_arith);
    assert(shares(3, 1, 4) == 1) by (nonlinear_arith);
    assert(shares(3, 2, 4) == 2) by (nonlinear_arith);
    assert(shares(3, 3, 4) == 2) by (nonlinear_arith);
    assert(shares(3, 4, 4) == 3) by (nonlinear_arith);
    assert(rows == 5 || rows == 6 || rows == 7 || rows == 8 || rows == 9);
}

/// Where the parts of the question about the current serial number lie on the screen.
pub fn confirm_areas(screen: Rect) -> (areas: ConfirmAreas)
    ensures
        areas == confirm_areas_of(screen),
{
    let frame = centered_rect(75, 50, screen);
    let inner = block_inner(frame);
    let one = Constraint::Length(1);
    let constraints = vec![one, one, Constraint::Min(4), one, one, one, one];
    let rows = split_area(Direction::Vertical, &constraints, inner);
    proof {
        reveal_with_fuel(length_before, 8);
        assert(constraints@[2] == Constraint::Min(4));
        assert(length_before(constraints@, 7) == 6);
        assert(one_minimum(constraints@, 2));
        assert(filled(Direction::Vertical, inner, constraints@, 2, rows@));
        assert(end_of(Direction::Vertical, rows@[0]) == start_of(Direction::Vertical, rows@[1]));
        assert(end_of(Direction::Vertical, rows@[1]) == start_of(Direction::Vertical, rows@[2]));
        assert(end_of(Direction::Vertical, rows@[2]) == start_of(Direction::Vertical, rows@[3]));
        assert(end_of(Direction::Vertical, rows@[3]) == start_of(Direction::Vertical, rows@[4]));
        assert(end_of(Direction::Vertical, rows@[4]) == start_of(Direction::Vertical, rows@[5]));
        assert(end_of(Direction::Vertical, rows@[5]) == start_of(Direction::Vertical, rows@[6]));
        let extent = extent_of(Direction::Vertical, inner);
        if 5 <= extent <= 9 {
            lemma_question_cuts(extent);
            assert(cells_around_minimum(constraints@, 2));
        }
        assert(rows@[0] == title_in(inner, extent));
        assert(rows@[2] == description_in(inner, extent));
        assert(rows@[4] == question_in(inner, extent));
        assert(rows@[6] == buttons_in(inner, extent));
    }
    let halves = vec![Constraint::Percentage(50), Constraint::Percentage(50)];
    let buttons = split_area(Direction::Horizontal, &halves, rows[6]);
    proof {
        reveal_with_fuel(percent_before, 3);
        assert(halves@[0] == Constraint::Percentage(50));
        assert(percent_before(halves@, 1) == 50);
        assert(percent_before(halves@, 2) == 100);
        assert(percentages_fit(halves@));
        let columns = extent_of(Direction::Horizontal, inner);
        assert(extent_of(Direction::Horizontal, rows@[6]) == columns);
        assert(columns * 0 == 0);
        assert(hundredths(columns, 0) == 0);
        assert(hundredths(columns, 100) == columns);
    }
    ConfirmAreas {
        frame,
        title: rows[0],
        description: rows[2],
        question: rows[4],
        buttons: rows[6],
        keep: buttons[0],
        clear: buttons[1],
    }
}

/// More hundredths are not fewer cells, and a hundred of them are all cells.
proof fn lemma_hundredths(extent: int, a: int, b: int)
    requires
        0 <= extent,
        0 <= a <= b <= 100,
    ensures
        0 <= hundredths(extent, a) <= hundredths(extent, b) <= extent,
{
    assert(0 <= extent * a <= extent * b <= extent * 100) by (nonlinear_arith)
        requires
            0 <= extent,
            0 <= a <= b <= 100,
    ;
}

/// The rectangle in the middle lies in the area around it.
pub proof fn law_centered_lies_inside(percent_x: int, percent_y: int, r: Rect)
    requires
        0 <= percent_x <= 100,
        0 <= percent_y <= 100,
    ensures
        ({
            let c = centered(percent_x, percent_y, r);
            &&& r.x <= c.x
            &&& c.x + c.width <= far(r.x, r.width)
            &&& r.y <= c.y
            &&& c.y + c.height <= far(r.y, r.height)
        }),
{
    lemma_hundredths(
        extent_of(Direction::Horizontal, r),
        side(percent_x),
        side(percent_x) + percent_x,
    );
    lemma_hundredths(
        extent_of(Direction::Vertical, r),
        side(percent_y),
        side(percent_y) + percent_y,
    );
}

/// What is left of `extent` cells behind a middle part is what is left before it, to the nearest
/// cell; where the percentage is odd, the hundredth that the sides cannot share comes on top.
proof fn lemma_margins(extent: int, percent: int)
    requires
        0 <= extent,
        0 <= percent <= 100,
    ensures
        ({
            let before = hundredths(extent, side(percent));
            let behind = extent - hundredths(extent, side(percent) + percent);
            &&& before - 1 <= behind
            &&& behind <= before + 1 + (if percent % 2 == 0 {
                0
            } else {
                extent / 100
            })
        }),
{
    let q = side(percent);
    assert(extent * (q + percent) == extent * 100 - extent * q - extent * (100 - 2 * q - percent))
        by (nonlinear_arith);
    if percent % 2 == 0 {
        assert(100 - 2 * q - percent == 0);
    } else {
        assert(100 - 2 * q - percent == 1);
    }
    assert(extent * 0 == 0 && extent * 1 == extent);
}

/// The rectangle in the middle has the same margins on both sides, to the nearest cell; where a
/// percentage is odd, the hundredth that the sides cannot share comes behind it.
pub proof fn law_centered_is_in_the_middle(percent_x: int, percent_y: int, r: Rect)
    requires
        0 <= percent_x <= 100,
        0 <= percent_y <= 100,
    ensures
        ({
            let c = centered(percent_x, percent_y, r);
            let left = c.x - r.x;
            let right = far(r.x, r.width) - (c.x + c.width);
            let above = c.y - r.y;
            let below = far(r.y, r.height) - (c.y + c.height);
            &&& left - 1 <= right
            &&& above - 1 <= below
            &&& right <= left + 1 + (if percent_x % 2 == 0 {
                0
            } else {
                extent_of(Direction::Horizontal, r) / 100
            })
            &&& below <= above + 1 + (if percent_y % 2 == 0 {
                0
            } else {
                extent_of(Direction::Vertical, r) / 100
            })
        }),
{
    law_centered_lies_inside(percent_x, percent_y, r);
    lemma_hundredths(
        extent_of(Direction::Horizontal, r),
        side(percent_x),
        side(percent_x) + percent_x,
    );
    lemma_hundredths(
        extent_of(Direction::Vertical, r),
        side(percent_y),
        side(percent_y) + percent_y,
    );
    lemma_margins(extent_of(Direction::Horizontal, r), percent_x);
    lemma_margins(extent_of(Direction::Vertical, r), percent_y);
}

/// Whether `next` stands below `part`, with at most one row between them.
pub open spec fn stands_below(part: Rect, next: Rect) -> bool {
    part.y + part.height <= next.y <= part.y + part.height + 1
}

/// On every screen the title, the description, the question and the buttons stand in this order
/// from the top of the frame's inside to its bottom, across its whole width. The description has
/// at least four rows, or all where there are fewer. The buttons share their row.
pub proof fn law_question_stands_in_order(screen: Rect)
    ensures
        ({
            let areas = confirm_areas_of(screen);
            let inner = inside_border(areas.frame);
            let rows = extent_of(Direction::Vertical, inner);
            &&& is_slice(Direction::Vertical, inner, areas.title)
            &&& is_slice(Direction::Vertical, inner, areas.description)
            &&& is_slice(Direction::Vertical, inner, areas.question)
            &&& is_slice(Direction::Vertical, inner, areas.buttons)
            &&& areas.title.y == inner.y
            &&& stands_below(areas.title, areas.description)
            &&& stands_below(areas.description, areas.question)
            &&& stands_below(areas.question, areas.buttons)
            &&& areas.buttons.y + areas.buttons.height == inner.y + rows
            &&& areas.description.height >= 4 || areas.description.height == rows
            &&& is_slice(Direction::Horizontal, areas.buttons, areas.keep)
            &&& is_slice(Direction::Horizontal, areas.buttons, areas.clear)
            &&& areas.keep.x == areas.buttons.x
            &&& areas.keep.x + areas.keep.width == areas.clear.x
        }),
{
    let inner = inside_border(centered(75, 50, screen));
    lemma_hundredths(extent_of(Direction::Horizontal, inner), 50, 100);
}

/// The cells that a middle part leaves to its sides can be counted exactly where it asks for no
/// more than a hundred hundredths: that is where there is a rectangle in the middle.
pub proof fn law_domain_of_centered(percent_x: u16, percent_y: u16)
    ensures
        100u16.checked_sub(percent_x) is Some && 100u16.checked_sub(percent_y) is Some
            <==> percent_x <= 100 && percent_y <= 100,
{
}

/// The header and the list share the screen: the list starts where the header ends, and ends where
/// the screen does.
pub proof fn law_main_areas_fill_the_screen(screen: Rect)
    ensures
        ({
            let areas = main_areas_of(screen);
            &&& areas.header.y == screen.y
            &&& areas.list.y == areas.header.y + areas.header.height
            &&& areas.list.y + areas.list.height == far(screen.y, screen.height)
        }),
{
}

/// Whether `cells` are so many hundredths of `extent`, to the nearest cell.
pub open spec fn is_nearest(cells: int, extent: int, percent: int) -> bool {
    100 * cells - 50 <= extent * percent < 100 * cells + 50
}

/// What `hundredths` means.
proof fn lemma_nearest(extent: int, percent: int)
    ensures
        is_nearest(hundredths(extent, percent), extent, percent),
{
}

/// Each edge of the rectangle in the middle lies at its percentage of the area, to the nearest
/// cell: the first at half of what the rectangle leaves, in whole hundredths, and the second so
/// much further as the rectangle is to have.
pub proof fn law_edges_of_centered(
    percent_x: int,
    percent_y: int,
    r: Rect,
    side_x: int,
    side_y: int,
)
    requires
        0 <= percent_x <= 100,
        0 <= percent_y <= 100,
        2 * side_x <= 100 - percent_x < 2 * side_x + 2,
        2 * side_y <= 100 - percent_y < 2 * side_y + 2,
    ensures
        ({
            let c = centered(percent_x, percent_y, r);
            let w = if r.x + r.width <= 65535 {
                r.width as int
            } else {
                65535 - r.x
            };
            let h = if r.y + r.height <= 65535 {
                r.height as int
            } else {
                65535 - r.y
            };
            &&& is_nearest(c.x - r.x, w, side_x)
            &&& is_nearest(c.x + c.width - r.x, w, side_x + percent_x)
            &&& is_nearest(c.y - r.y, h, side_y)
            &&& is_nearest(c.y + c.height - r.y, h, side_y + percent_y)
        }),
{
    let w = extent_of(Direction::Horizontal, r);
    let h = extent_of(Direction::Vertical, r);
    assert(side_x == side(percent_x) && side_y == side(percent_y));
    lemma_hundredths(w, side_x, side_x + percent_x);
    lemma_hundredths(h, side_y, side_y + percent_y);
    lemma_nearest(w, side_x);
    lemma_nearest(w, side_x + percent_x);
    lemma_nearest(h, side_y);
    lemma_nearest(h, side_y + percent_y);
}

/// The header takes the first three rows of the screen, or all where there are fewer, and both the
/// header and the list take all of its columns.
pub proof fn law_header_has_three_rows(screen: Rect)
    ensures
        ({
            let areas = main_areas_of(screen);
            let rows = if screen.y + screen.height <= 65535 {
                screen.height as int
            } else {
                65535 - screen.y
            };
            &&& rows >= 3 ==> areas.header.height == 3
            &&& rows < 3 ==> areas.header.height == rows
            &&& areas.list.height + areas.header.height == rows
            &&& areas.header.x == screen.x && areas.header.width == screen.width
            &&& areas.list.x == screen.x && areas.list.width == screen.width
        }),
{
}

/// The frame of the question has three quarters of the screen's width, twelve hundredths from its
/// left, and the middle half of its height, to the nearest cell.
pub proof fn law_frame_of_the_question(screen: Rect)
    ensures
        ({
            let c = confirm_areas_of(screen).frame;
            let w = if screen.x + screen.width <= 65535 {
                screen.width as int
            } else {
                65535 - screen.x
            };
            let h = if screen.y + screen.height <= 65535 {
                screen.height as int
            } else {
                65535 - screen.y
            };
            &&& is_nearest(c.x - screen.x, w, 12)
            &&& is_nearest(c.x + c.width - screen.x, w, 87)
            &&& is_nearest(c.y - screen.y, h, 25)
            &&& is_nearest(c.y + c.height - screen.y, h, 75)
        }),
{
    law_edges_of_centered(75, 50, screen, 12, 25);
}

/// Whether `part` starts so many rows below `top` and has so many rows.
pub open spec fn takes(part: Rect, top: int, from: int, rows: int) -> bool {
    part.y == top + from && part.height == rows
}

/// The rows of the question inside its frame, for each number of rows that there are.
pub proof fn law_rows_of_the_question(screen: Rect)
    ensures
        ({
            let areas = confirm_areas_of(screen);
            let frame = areas.frame;
            let top = if frame.height > 0 {
                frame.y + 1
            } else {
                frame.y as int
            };
            let rows = if frame.height >= 2 {
                frame.height - 2
            } else {
                0
            };
            &&& rows <= 4 ==> takes(areas.title, top, 0, 0) && takes(
                areas.description,
                top,
                0,
                rows,
            ) && takes(areas.question, top, rows, 0) && takes(areas.buttons, top, rows, 0)
            &&& rows > 4 ==> takes(areas.title, top, 0, 1)
            &&& rows == 5 ==> takes(areas.description, top, 1, 4)
            &&& 6 <= rows <= 9 ==> takes(areas.description, top, 2, 4)
            &&& rows == 5 || rows == 6 ==> takes(areas.question, top, rows, 0)
            &&& rows == 7 ==> takes(areas.question, top, 6, 1)
            &&& rows == 8 ==> takes(areas.question, top, 7, 0)
            &&& rows == 9 ==> takes(areas.question, top, 7, 1)
            &&& 5 <= rows <= 8 ==> takes(areas.buttons, top, rows, 0)
            &&& rows == 9 ==> takes(areas.buttons, top, 8, 1)
            &&& rows >= 10 ==> takes(areas.description, top, 2, rows - 6) && takes(
                areas.question,
                top,
                rows - 3,
                1,
            ) && takes(areas.buttons, top, rows - 1, 1)
        }),
{
    law_centered_lies_inside(75, 50, screen);
}

/// The columns of the question are those that the border leaves of its frame. The buttons stand
/// side by side in one row, together as wide as that, and the first is wider by one column where
/// the number of columns is odd.
pub proof fn law_columns_of_the_question(screen: Rect)
    ensures
        ({
            let areas = confirm_areas_of(screen);
            let frame = areas.frame;
            let left = if frame.width > 0 {
                frame.x + 1
            } else {
                frame.x as int
            };
            let columns = if frame.width >= 2 {
                frame.width - 2
            } else {
                0
            };
            &&& areas.title.x == left && areas.title.width == columns
            &&& areas.description.x == left && areas.description.width == columns
            &&& areas.question.x == left && areas.question.width == columns
            &&& areas.buttons.x == left && areas.buttons.width == columns
            &&& areas.keep.x == left && areas.clear.x == left + areas.keep.width
            &&& areas.keep.width + areas.clear.width == columns
            &&& areas.keep.width - areas.clear.width == columns % 2
            &&& areas.keep.y == areas.buttons.y && areas.keep.height == areas.buttons.height
            &&& areas.clear.y == areas.buttons.y && areas.clear.height == areas.buttons.height
        }),
{
    law_centered_lies_inside(75, 50, screen);
}

} // verus!
