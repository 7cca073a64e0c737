//! Rectangles of the screen and how they are split.
use ratatui::layout::{Constraint, Layout, Margin, Rect};
use vstd::prelude::*;

verus! {

/// A rectangle of the screen, in cells.
#[derive(Clone, Copy, Debug, PartialEq, Eq, Structural)]
pub struct Area {
    pub x: u16,
    pub y: u16,
    pub width: u16,
    pub height: u16,
}

/// Which way a rectangle is split: into rows or into columns.
#[derive(Clone, Copy, Debug, PartialEq, Eq, Structural)]
pub enum Direction {
    Rows,
    Columns,
}

/// How large a part of a rectangle is to be.
#[derive(Clone, Copy, Debug, PartialEq, Eq, Structural)]
pub enum Size {
    /// So many cells.
    Length(u16),
    /// At least so many cells.
    Min(u16),
    /// So many hundredths of the whole.
    Percentage(u16),
}

/// Whether `part` is a row or a column of `area`: it runs across the whole of it, lies within it, and
/// ends where coordinates end or before.
pub open spec fn is_slice(part: Area, area: Area, direction: Direction) -> bool {
    match direction {
        Direction::Rows => {
            &&& part.x == area.x && part.width == area.width
            &&& area.y <= part.y && part.y + part.height <= area.y + area.height
            &&& part.y + part.height <= u16::MAX
        },
        Direction::Columns => {
            &&& part.y == area.y && part.height == area.height
            &&& area.x <= part.x && part.x + part.width <= area.x + area.width
            &&& part.x + part.width <= u16::MAX
        },
    }
}

pub open spec fn min(a: int, b: int) -> int {
    if a < b {
        a
    } else {
        b
    }
}

/// Where a rectangle begins in a direction.
pub open spec fn begin(area: Area, direction: Direction) -> int {
    match direction {
        Direction::Rows => area.y as int,
        Direction::Columns => area.x as int,
    }
}

/// How far a rectangle reaches in a direction.
pub open spec fn extent(area: Area, direction: Direction) -> int {
    match direction {
        Direction::Rows => area.height as int,
        Direction::Columns => area.width as int,
    }
}

/// The part of `area` that begins `from` cells behind its beginning and reaches `n` cells.
pub open spec fn part(area: Area, direction: Direction, from: int, n: int) -> Area {
    match direction {
        Direction::Rows => Area { y: (area.y + from) as u16, height: n as u16, ..area },
        Direction::Columns => Area { x: (area.x + from) as u16, width: n as u16, ..area },
    }
}

/// What a size gets in cells: a length what it says, and a lower bound what is spare besides.
pub open spec fn granted(size: Size, spare: int) -> int {
    match size {
        Size::Length(n) => n as int,
        Size::Min(n) => n + spare,
        Size::Percentage(_) => 0,
    }
}

/// What the first `i` sizes get together.
pub open spec fn granted_before(sizes: Seq<Size>, i: int, spare: int) -> int
    decreases i,
{
    if i <= 0 {
        0
    } else {
        granted_before(sizes, i - 1, spare) + granted(sizes[i - 1], spare)
    }
}

/// What the sizes ask for together at least.
pub open spec fn asked(sizes: Seq<Size>) -> int {
    granted_before(sizes, sizes.len() as int, 0)
}

/// Whether the sizes are lengths with at most one lower bound among them.
pub open spec fn is_in_cells(sizes: Seq<Size>) -> bool {
    &&& forall|i: int| 0 <= i < sizes.len() ==> !(#[trigger] sizes[i] is Percentage)
    &&& forall|i: int, j: int|
        0 <= i < j < sizes.len() ==> !(#[trigger] sizes[i] is Min && #[trigger] sizes[j] is Min)
}

/// How many hundredths the first `i` sizes ask for together.
pub open spec fn hundredths_before(sizes: Seq<Size>, i: int) -> int
    decreases i,
{
    if i <= 0 {
        0
    } else {
        hundredths_before(sizes, i - 1) + match sizes[i - 1] {
            Size::Percentage(p) => p as int,
            _ => 0,
        }
    }
}

/// Whether the sizes are hundredths that make up the whole.
pub open spec fn is_in_hundredths(sizes: Seq<Size>) -> bool {
    &&& forall|i: int| 0 <= i < sizes.len() ==> #[trigger] sizes[i] is Percentage
    &&& hundredths_before(sizes, sizes.len() as int) == 100
}

/// So many hundredths of `whole`, rounded to the nearest cell.
pub open spec fn hundredths_of(whole: int, p: int) -> int {
    (whole * p + 50) / 100
}

/// Whether the sizes are up to eight lengths, all of them the same.
pub open spec fn is_uniform(sizes: Seq<Size>) -> bool {
    &&& 1 <= sizes.len() <= 8
    &&& sizes[0] is Length
    &&& forall|i: int| 0 <= i < sizes.len() ==> #[trigger] sizes[i] == sizes[0]
}

/// Where the part `i` begins when `whole` cells are shared equally by `n` parts, rounded to the nearest
/// cell.
pub open spec fn equal_cut(whole: int, n: int, i: int) -> int {
    (2 * whole * i + n) / (2 * n)
}

/// Whether the parts of `area` are what the sizes ask for, where they settle it: the parts follow each
/// other from its beginning; lengths are kept, and a lower bound takes what is spare; where a lower
/// bound and a length ask for too much, the lower bound goes first; where equal lengths ask for too
/// much, they share equally; shares and hundredths are cut at the nearest cell.
pub open spec fn follows_sizes(
    parts: Seq<Area>,
    area: Area,
    direction: Direction,
    sizes: Seq<Size>,
) -> bool {
    let whole = extent(area, direction);
    let spare = whole - asked(sizes);
    &&& is_in_cells(sizes) && spare >= 0 ==> forall|i: int|
        0 <= i < sizes.len() ==> #[trigger] parts[i] == part(
            area,
            direction,
            granted_before(sizes, i, spare),
            granted(sizes[i], spare),
        )
    &&& spare < 0 && sizes.len() == 2 && sizes[0] is Min && sizes[0]->Min_0 <= i16::MAX && sizes[1]
        is Length ==> {
        let first = min(sizes[0]->Min_0 as int, whole);
        &&& parts[0] == part(area, direction, 0, first)
        &&& parts[1] == part(area, direction, first, whole - first)
    }
    &&& spare < 0 && is_uniform(sizes) ==> forall|i: int|
        0 <= i < sizes.len() ==> #[trigger] parts[i] == part(
            area,
            direction,
            equal_cut(whole, sizes.len() as int, i),
            equal_cut(whole, sizes.len() as int, i + 1) - equal_cut(whole, sizes.len() as int, i),
        )
    &&& is_in_hundredths(sizes) ==> forall|i: int|
        0 <= i < sizes.len() ==> #[trigger] parts[i] == part(
            area,
            direction,
            hundredths_of(whole, hundredths_before(sizes, i)),
            hundredths_of(whole, hundredths_before(sizes, i + 1)) - hundredths_of(
                whole,
                hundredths_before(sizes, i),
            ),
        )
}

/// `ratatui::layout::Layout::split`. There is one part for each size; each runs across the whole
/// rectangle and lies within it. A rectangle that ends where coordinates end or before is cut as the
/// sizes ask, where they settle it. Where they do not (different lengths that ask for too much, say),
/// the cuts are left open: a solver weighs the sizes against each other, and its answer may differ
/// between processes.
#[verifier::external_body]
fn split(area: Area, direction: Direction, sizes: &Vec<Size>) -> (r: Vec<Area>)
    ensures
        r@.len() == sizes@.len(),
        forall|i: int| 0 <= i < r@.len() ==> is_slice(#[trigger] r@[i], area, direction),
        begin(area, direction) + extent(area, direction) <= u16::MAX ==> follows_sizes(
            r@,
            area,
            direction,
            sizes@,
        ),
{
    let sizes = sizes.iter().map(|s| match s {
        Size::Length(n) => Constraint::Length(*n),
        Size::Min(n) => Constraint::Min(*n),
        Size::Percentage(n) => Constraint::Percentage(*n),
    });
    let layout = match direction {
        Direction::Rows => Layout::vertical(sizes),
        Direction::Columns => Layout::horizontal(sizes),
    };
    let area = Rect { x: area.x, y: area.y, width: area.width, height: area.height };
    let parts = layout.split(area);
    parts.iter().map(|p| Area { x: p.x, y: p.y, width: p.width, height: p.height }).collect()
}

/// `area` with a margin taken off on each side; the empty rectangle where it is too small for that.
pub open spec fn shrunk(area: Area, horizontal: u16, vertical: u16) -> Area {
    let (w, h) = (min(2 * horizontal, u16::MAX as int), min(2 * vertical, u16::MAX as int));
    if area.width < w || area.height < h {
        Area { x: 0, y: 0, width: 0, height: 0 }
    } else {
        Area {
            x: min(area.x + horizontal, u16::MAX as int) as u16,
            y: min(area.y + vertical, u16::MAX as int) as u16,
            width: (area.width - w) as u16,
            height: (area.height - h) as u16,
        }
    }
}

/// `ratatui::layout::Rect::inner`: the margins come off on each side, and a rectangle too small for
/// them becomes empty.
#[verifier::external_body]
pub(crate) fn inner(area: Area, horizontal: u16, vertical: u16) -> (r: Area)
    ensures
        r == shrunk(area, horizontal, vertical),
{
    let area = Rect { x: area.x, y: area.y, width: area.width, height: area.height };
    let r = area.inner(Margin::new(horizontal, vertical));
    Area { x: r.x, y: r.y, width: r.width, height: r.height }
}

/// The sizes of the header, the content and the footer.
pub fn screen_sizes() -> (r: Vec<Size>)
    ensures
        r@ == seq![Size::Length(3), Size::Min(0), Size::Length(3)],
{
    let r = vec![Size::Length(3), Size::Min(0), Size::Length(3)];
    assert(r@ =~= seq![Size::Length(3), Size::Min(0), Size::Length(3)]);
    r
}

/// The rectangles of the header, the content and the footer, in this order.
pub fn screen_areas(area: Area) -> (r: Vec<Area>)
    ensures
        r@.len() == 3,
        forall|i: int| 0 <= i < 3 ==> is_slice(#[trigger] r@[i], area, Direction::Rows),
        area.y + area.height <= u16::MAX && area.height >= 6 ==> {
            &&& r@[0] == part(area, Direction::Rows, 0, 3)
            &&& r@[1] == part(area, Direction::Rows, 3, area.height - 6)
            &&& r@[2] == part(area, Direction::Rows, area.height - 3, 3)
        },
{
    let sizes = screen_sizes();
    let r = split(area, Direction::Rows, &sizes);
    proof {
        reveal_with_fuel(granted_before, 4);
        assert(is_in_cells(sizes@));
    }
    r
}

/// Whether the overview has room for the chart.
pub open spec fn has_chart(area: Area) -> bool {
    area.height >= 16
}

/// The sizes of the table and the chart of the overview.
pub fn overview_sizes() -> (r: Vec<Size>)
    ensures
        r@ == seq![Size::Min(6), Size::Length(13)],
{
    let r = vec![Size::Min(6), Size::Length(13)];
    assert(r@ =~= seq![Size::Min(6), Size::Length(13)]);
    r
}

/// The height of the table above the chart: what the 13 cells of the chart leave, and not less than 6.
pub open spec fn table_height(area: Area) -> int {
    if area.height >= 19 {
        area.height - 13
    } else {
        6
    }
}

/// The rectangles of the table and, where there is room, of the chart of the overview.
pub fn overview_areas(area: Area) -> (r: Vec<Area>)
    ensures
        has_chart(area) ==> r@.len() == 2 && forall|i: int|
            0 <= i < 2 ==> is_slice(#[trigger] r@[i], area, Direction::Rows),
        has_chart(area) && area.y + area.height <= u16::MAX ==> {
            &&& r@[0] == part(area, Direction::Rows, 0, table_height(area))
            &&& r@[1] == part(
                area,
                Direction::Rows,
                table_height(area),
                area.height - table_height(area),
            )
        },
        !has_chart(area) ==> r@ == seq![area],
{
    if area.height >= 16 {
        let sizes = overview_sizes();
        let r = split(area, Direction::Rows, &sizes);
        proof {
            reveal_with_fuel(granted_before, 3);
            assert(is_in_cells(sizes@));
        }
        r
    } else {
        let r = vec![area];
        assert(r@ =~= seq![area]);
        r
    }
}

/// The sizes of the two columns of the view of one key.
pub fn detail_sizes() -> (r: Vec<Size>)
    ensures
        r@ == seq![Size::Percentage(46), Size::Percentage(54)],
{
    let r = vec![Size::Percentage(46), Size::Percentage(54)];
    assert(r@ =~= seq![Size::Percentage(46), Size::Percentage(54)]);
    r
}

/// The rectangles of the gauges and of the chart of one key.
pub fn detail_areas(area: Area) -> (r: Vec<Area>)
    ensures
        r@.len() == 2,
        forall|i: int| 0 <= i < 2 ==> is_slice(#[trigger] r@[i], area, Direction::Columns),
        area.x + area.width <= u16::MAX ==> {
            let cut = hundredths_of(area.width as int, 46);
            &&& r@[0] == part(area, Direction::Columns, 0, cut)
            &&& r@[1] == part(area, Direction::Columns, cut, area.width - cut)
        },
{
    let sizes = detail_sizes();
    let r = split(area, Direction::Columns, &sizes);
    proof {
        reveal_with_fuel(hundredths_before, 3);
        assert(is_in_hundredths(sizes@));
        assert(hundredths_of(area.width as int, 0) == 0);
        assert(hundredths_of(area.width as int, 100) == area.width);
    }
    r
}

/// The sizes of a stack of gauges.
pub fn gauge_sizes(n: usize) -> (r: Vec<Size>)
    ensures
        r@ == Seq::new(n as nat, |i: int| Size::Length(4)),
{
    let mut r: Vec<Size> = Vec::new();
    for i in 0..n
        invariant
            r@ == Seq::new(i as nat, |i: int| Size::Length(4)),
    {
        r.push(Size::Length(4));
        assert(r@ =~= Seq::new((i + 1) as nat, |i: int| Size::Length(4)));
    }
    r
}

proof fn lemma_gauges_before(sizes: Seq<Size>, i: int, spare: int)
    requires
        0 <= i <= sizes.len(),
        forall|k: int| 0 <= k < sizes.len() ==> #[trigger] sizes[k] == Size::Length(4),
    ensures
        granted_before(sizes, i, spare) == 4 * i,
    decreases i,
{
    if i > 0 {
        lemma_gauges_before(sizes, i - 1, spare);
    }
}

/// The rectangles of a stack of gauges. Where there is room for all of them, each is 4 cells high;
/// elsewhere up to eight of them share the height equally.
pub fn gauge_areas(area: Area, n: usize) -> (r: Vec<Area>)
    ensures
        r@.len() == n,
        forall|i: int| 0 <= i < n ==> is_slice(#[trigger] r@[i], area, Direction::Rows),
        area.y + area.height <= u16::MAX && 4 * n <= area.height ==> forall|i: int|
            0 <= i < n ==> #[trigger] r@[i] == part(area, Direction::Rows, 4 * i, 4),
        area.y + area.height <= u16::MAX && n <= 8 && 4 * n > area.height ==> forall|i: int|
            0 <= i < n ==> #[trigger] r@[i] == part(
                area,
                Direction::Rows,
                equal_cut(area.height as int, n as int, i),
                equal_cut(area.height as int, n as int, i + 1) - equal_cut(
                    area.height as int,
                    n as int,
                    i,
                ),
            ),
{
    let sizes = gauge_sizes(n);
    let r = split(area, Direction::Rows, &sizes);
    proof {
        let spare = area.height - asked(sizes@);
        lemma_gauges_before(sizes@, n as int, 0);
        assert(is_in_cells(sizes@));
        assert forall|i: int| 0 <= i < n implies granted_before(sizes@, i, spare) == 4 * i by {
            lemma_gauges_before(sizes@, i, spare);
        }
    }
    r
}

/// The width of the window for a new key: 62 cells, or 4 less than there are.
pub open spec fn popup_width(area: Area) -> int {
    if area.width >= 66 {
        62
    } else if area.width >= 4 {
        area.width - 4
    } else {
        0
    }
}

/// The free cells above the window for a new key.
pub open spec fn popup_top(area: Area) -> int {
    if area.height >= 7 {
        (area.height - 7) / 2
    } else {
        0
    }
}

/// Whether the coordinates of the window for a new key can be written.
pub open spec fn popup_fits(area: Area) -> bool {
    &&& area.x + (area.width - popup_width(area)) / 2 <= u16::MAX
    &&& area.y + popup_top(area) <= u16::MAX
}

/// The window for a new key: in the middle of `area`, and 7 cells high.
pub open spec fn popup(area: Area) -> Area {
    Area {
        x: (area.x + (area.width - popup_width(area)) / 2) as u16,
        y: (area.y + popup_top(area)) as u16,
        width: popup_width(area) as u16,
        height: 7,
    }
}

/// The width of the window for a new key.
fn popup_columns(area: Area) -> (r: u16)
    ensures
        r == popup_width(area),
        r <= area.width,
{
    let room: u16 = if area.width >= 4 {
        area.width - 4
    } else {
        0
    };
    if room < 62 {
        room
    } else {
        62
    }
}

/// The free cells above the window for a new key.
fn popup_rows_above(area: Area) -> (r: u16)
    ensures
        r == popup_top(area),
{
    if area.height >= 7 {
        (area.height - 7) / 2
    } else {
        0
    }
}

/// Whether the coordinates of the window for a new key can be written.
pub fn can_pop_up(area: Area) -> (r: bool)
    ensures
        r == popup_fits(area),
{
    let left: u16 = (area.width - popup_columns(area)) / 2;
    left <= u16::MAX - area.x && popup_rows_above(area) <= u16::MAX - area.y
}

/// The window for a new key.
pub fn popup_area(area: Area) -> (r: Area)
    requires
        popup_fits(area),
    ensures
        r == popup(area),
{
    let width = popup_columns(area);
    Area {
        x: area.x + (area.width - width) / 2,
        y: area.y + popup_rows_above(area),
        width,
        height: 7,
    }
}

/// The part of the window for a new key inside its border.
pub fn popup_inner(popup: Area) -> (r: Area)
    ensures
        r == shrunk(popup, 1, 1),
{
    inner(popup, 1, 1)
}

/// The window for a new key lies within its area, in the middle of it, wherever the area is high
/// enough for it.
pub proof fn law_popup_is_centered(area: Area)
    requires
        area.x + area.width <= u16::MAX,
        area.y + area.height <= u16::MAX,
        area.height >= 7,
    ensures
        popup_fits(area),
        area.x <= popup(area).x,
        popup(area).x + popup(area).width <= area.x + area.width,
        area.y <= popup(area).y,
        popup(area).y + popup(area).height <= area.y + area.height,
        ({
            let left = popup(area).x - area.x;
            let right = area.x + area.width - popup(area).x - popup(area).width;
            left <= right <= left + 1
        }),
        ({
            let above = popup(area).y - area.y;
            let below = area.y + area.height - popup(area).y - popup(area).height;
            above <= below <= above + 1
        }),
{
}

/// The chart of the overview has 13 rows wherever that leaves at least 6 for the table, and else what 6
/// rows for the table leave.
pub proof fn law_chart_below_the_table(area: Area)
    requires
        has_chart(area),
    ensures
        6 <= table_height(area) <= area.height,
        area.height >= 19 ==> area.height - table_height(area) == 13,
        area.height < 19 ==> table_height(area) == 6,
        has_chart(area) <==> area.height > 15,
{
}

/// Parts that share equally fill the whole one after the other, and no two differ by more than a cell.
pub proof fn law_equal_parts_fill_the_whole(whole: int, n: int, i: int, j: int)
    requires
        0 <= whole,
        0 < n,
        0 <= i < n,
        0 <= j < n,
    ensures
        equal_cut(whole, n, 0) == 0,
        equal_cut(whole, n, n) == whole,
        equal_cut(whole, n, i) <= equal_cut(whole, n, i + 1),
        equal_cut(whole, n, i + 1) - equal_cut(whole, n, i) <= equal_cut(whole, n, j + 1) - equal_cut(
            whole,
            n,
            j,
        ) + 1,
{
    lemma_cut(whole, n, 0);
    lemma_cut(whole, n, n);
    lemma_cut(whole, n, i);
    lemma_cut(whole, n, i + 1);
    lemma_cut(whole, n, j);
    lemma_cut(whole, n, j + 1);
    let (a, b, c, d) = (
        equal_cut(whole, n, i),
        equal_cut(whole, n, i + 1),
        equal_cut(whole, n, j),
        equal_cut(whole, n, j + 1),
    );
    assert(equal_cut(whole, n, 0) == 0) by (nonlinear_arith)
        requires
            2 * n * equal_cut(whole, n, 0) <= 2 * whole * 0 + n < 2 * n * (equal_cut(whole, n, 0) + 1),
            0 < n,
    ;
    assert(equal_cut(whole, n, n) == whole) by (nonlinear_arith)
        requires
            2 * n * equal_cut(whole, n, n) <= 2 * whole * n + n < 2 * n * (equal_cut(whole, n, n) + 1),
            0 < n,
    ;
    assert(a <= b) by (nonlinear_arith)
        requires
            2 * n * a <= 2 * whole * i + n,
            2 * whole * (i + 1) + n < 2 * n * (b + 1),
            0 < n,
            0 <= whole,
    ;
    assert(b - a <= d - c + 1) by (nonlinear_arith)
        requires
            2 * n * b <= 2 * whole * (i + 1) + n,
            2 * whole * i + n < 2 * n * (a + 1),
            2 * n * c <= 2 * whole * j + n,
            2 * whole * (j + 1) + n < 2 * n * (d + 1),
            0 < n,
    ;
}

proof fn lemma_cut(whole: int, n: int, i: int)
    requires
        0 < n,
    ensures
        2 * n * equal_cut(whole, n, i) <= 2 * whole * i + n < 2 * n * (equal_cut(whole, n, i) + 1),
{
    let x = 2 * whole * i + n;
    vstd::arithmetic::div_mod::lemma_fundamental_div_mod(x, 2 * n);
    vstd::arithmetic::div_mod::lemma_mod_bound(x, 2 * n);
    assert(2 * n * (x / (2 * n) + 1) == 2 * n * (x / (2 * n)) + 2 * n) by (nonlinear_arith);
}

/// The window for a new key leaves two cells free on each side, is 62 cells wide at most, and 7 high.
pub proof fn law_popup_size(area: Area)
    ensures
        popup(area).height == 7,
        popup(area).width <= 62,
        area.width >= 66 ==> popup(area).width == 62,
        4 <= area.width <= 66 ==> popup(area).width == area.width - 4,
        area.width < 4 ==> popup(area).width == 0,
{
}

} // verus!
