//! The table of all keys.
use crate::app::{App, AppView};
use crate::label;
use crate::ollama;
use crate::ollama::{KeyEntry, KeyView, Usage, UsageView};
use crate::order;
use crate::style;
use crate::style::{Color, Span, SpanView};
use crate::summary;
use crate::text;
use vstd::prelude::*;

verus! {

/// A cell of the table.
#[derive(Debug)]
pub enum Cell {
    Plain(Span),
    /// What is left of a window, given by its reported usage; all of it where none is reported.
    Left(Option<u64>),
}

#[verifier::ext_equal]
pub enum CellView {
    Plain(SpanView),
    Left(Option<u64>),
}

impl View for Cell {
    type V = CellView;

    open spec fn view(&self) -> CellView {
        match self {
            Cell::Plain(span) => CellView::Plain(span@),
            Cell::Left(usage) => CellView::Left(*usage),
        }
    }
}

/// What several cells are.
pub open spec fn cell_views(cells: Seq<Cell>) -> Seq<CellView> {
    cells.map_values(|c: Cell| c@)
}

/// A row of the table.
#[derive(Debug)]
pub struct Row {
    pub cells: Vec<Cell>,
    pub selected: bool,
}

#[verifier::ext_equal]
pub struct RowView {
    pub cells: Seq<CellView>,
    pub selected: bool,
}

impl View for Row {
    type V = RowView;

    open spec fn view(&self) -> RowView {
        RowView { cells: cell_views(self.cells@), selected: self.selected }
    }
}

/// What several rows are.
pub open spec fn row_views(rows: Seq<Row>) -> Seq<RowView> {
    rows.map_values(|r: Row| r@)
}

/// The table of all keys.
#[derive(Debug)]
pub struct Table {
    pub title: String,
    pub header: Vec<String>,
    /// The widths of the columns, in hundredths of the whole.
    pub widths: Vec<u16>,
    pub rows: Vec<Row>,
}

#[verifier::ext_equal]
pub struct TableView {
    pub title: Seq<char>,
    pub header: Seq<Seq<char>>,
    pub widths: Seq<u16>,
    pub rows: Seq<RowView>,
}

impl View for Table {
    type V = TableView;

    open spec fn view(&self) -> TableView {
        TableView {
            title: self.title@,
            header: summary::texts(self.header@),
            widths: self.widths@,
            rows: row_views(self.rows@),
        }
    }
}

/// The reported usage of the first window of that name.
pub open spec fn window_share(windows: Seq<(Seq<char>, u64)>, name: Seq<char>) -> Option<u64>
    decreases windows.len(),
{
    if windows.len() == 0 {
        None
    } else if windows[0].0 == name {
        Some(windows[0].1)
    } else {
        window_share(windows.drop_first(), name)
    }
}

/// The cells of a key behind its label: what went wrong, or that nothing is known yet, or what is
/// left of each window.
pub open spec fn usage_cells(u: UsageView, names: Seq<Seq<char>>) -> Seq<CellView> {
    match u.error {
        Some(e) => seq![CellView::Plain(style::colored("⚠ "@ + e, Color::Red))],
        None => if u.windows.len() == 0 {
            seq![CellView::Plain(style::colored("…"@, Color::DarkGray))]
        } else {
            names.map_values(|w: Seq<char>| CellView::Left(window_share(u.windows, w)))
        },
    }
}

/// The row of a key.
pub open spec fn row_view(
    k: KeyView,
    u: UsageView,
    names: Seq<Seq<char>>,
    selected: bool,
) -> RowView {
    let label = CellView::Plain(
        if selected {
            style::bold(label::label_of(k), Color::Cyan)
        } else {
            style::colored(label::label_of(k), Color::White)
        },
    );
    RowView { cells: seq![label] + usage_cells(u, names), selected }
}

/// The number by which the width for the windows is divided: how many there are, in 16 bits, and at
/// least 1.
pub open spec fn divisor(columns: nat) -> int {
    if columns == 0 {
        1
    } else {
        columns as int % 0x1_0000
    }
}

/// The widths of the columns: 22 hundredths for the label, and 78 for the windows in equal parts.
pub open spec fn column_widths(columns: nat) -> Seq<u16> {
    seq![22u16] + Seq::new(columns, |i: int| (78int / divisor(columns)) as u16)
}

/// The table of all keys.
pub open spec fn table_view(s: AppView) -> TableView {
    let names = summary::window_names(s.usages);
    TableView {
        title: " All keys · % left per window "@,
        header: seq!["Key"@] + names,
        widths: column_widths(names.len()),
        rows: Seq::new(
            s.keys.len(),
            |i: int| row_view(s.keys[i], s.usages[i], names, i == s.selected),
        ),
    }
}

/// Whether the table can be shown: all keys can be called, and the width for the windows can be
/// divided.
pub open spec fn table_fits(s: AppView) -> bool {
    label::all_callable(s.keys) && divisor(summary::window_names(s.usages).len()) != 0
}

/// The reported usage of the first window of that name.
fn share_in(windows: &Vec<(String, u64)>, name: &str) -> (r: Option<u64>)
    ensures
        r == window_share(order::pairs(windows@), name@),
{
    let ghost all = order::pairs(windows@);
    assert(all.skip(0) =~= all);
    for i in 0..windows.len()
        invariant
            all == order::pairs(windows@),
            window_share(all, name@) == window_share(all.skip(i as int), name@),
    {
        assert(all[i as int] == (windows@[i as int].0@, windows@[i as int].1));
        if text::same(windows[i].0.as_str(), name) {
            return Some(windows[i].1);
        }
        assert(all.skip(i as int).drop_first() =~= all.skip(i + 1));
    }
    None
}

/// The row of a key.
pub fn table_row(k: &KeyEntry, u: &Usage, names: &Vec<String>, selected: bool) -> (r: Row)
    requires
        label::is_callable(k@),
    ensures
        r@ == row_view(k@, u@, summary::texts(names@), selected),
{
    let label = label::display_label(k);
    let span = if selected {
        style::emphasize(label.as_str(), Color::Cyan)
    } else {
        style::paint(label.as_str(), Color::White)
    };
    let mut cells: Vec<Cell> = Vec::new();
    cells.push(Cell::Plain(span));
    let ghost first = row_view(k@, u@, summary::texts(names@), selected).cells[0];
    assert(cell_views(cells@) =~= seq![first]);
    match &u.error {
        Some(e) => {
            cells.push(Cell::Plain(style::paint(text::joined("⚠ ", e.as_str()).as_str(), Color::Red)));
        },
        None => {
            if u.windows.is_empty() {
                cells.push(Cell::Plain(style::paint("…", Color::DarkGray)));
            } else {
                let ghost views = summary::texts(names@);
                let ghost more = usage_cells(u@, views);
                assert(seq![first] + more.take(0) =~= seq![first]);
                for i in 0..names.len()
                    invariant
                        views == summary::texts(names@),
                        more == views.map_values(
                            |w: Seq<char>| CellView::Left(window_share(u@.windows, w)),
                        ),
                        cell_views(cells@) == seq![first] + more.take(i as int),
                {
                    let ghost was = cells@;
                    let cell = Cell::Left(share_in(&u.windows, names[i].as_str()));
                    cells.push(cell);
                    assert(cell@ == more[i as int]);
                    assert(cell_views(cells@) =~= cell_views(was).push(cell@));
                    assert(more.take(i + 1) =~= more.take(i as int).push(more[i as int]));
                    assert(cell_views(cells@) =~= seq![first] + more.take(i + 1));
                }
                assert(more.take(more.len() as int) =~= more);
            }
        },
    }
    let r = Row { cells, selected };
    assert(r@.cells =~= row_view(k@, u@, summary::texts(names@), selected).cells);
    r
}

/// The widths of the columns.
pub fn widths(columns: usize) -> (r: Vec<u16>)
    requires
        divisor(columns as nat) != 0,
    ensures
        r@ == column_widths(columns as nat),
{
    let by: u16 = if columns == 0 {
        1
    } else {
        #[verifier::truncate] (columns as u16)
    };
    assert(columns as u16 == columns % 0x1_0000) by (bit_vector);
    let rest: u16 = 78 / by;
    let mut r: Vec<u16> = Vec::new();
    r.push(22);
    for i in 0..columns
        invariant
            r@ == seq![22u16] + Seq::new(i as nat, |i: int| rest),
    {
        r.push(rest);
        assert(r@ =~= seq![22u16] + Seq::new((i + 1) as nat, |i: int| rest));
    }
    assert(r@ =~= column_widths(columns as nat));
    r
}

/// The table of all keys.
pub fn table(app: &App) -> (r: Table)
    requires
        app@.well_formed(),
        table_fits(app@),
    ensures
        r@ == table_view(app@),
{
    let names = summary::all_windows(&app.usages);
    let ghost views = summary::texts(names@);
    let mut header: Vec<String> = Vec::new();
    header.push("Key".to_owned());
    assert(summary::texts(header@) =~= seq!["Key"@] + views.take(0));
    for i in 0..names.len()
        invariant
            views == summary::texts(names@),
            summary::texts(header@) == seq!["Key"@] + views.take(i as int),
    {
        let ghost was = header@;
        header.push(names[i].clone());
        assert(summary::texts(header@) =~= summary::texts(was).push(views[i as int]));
        assert(views.take(i + 1) =~= views.take(i as int).push(views[i as int]));
        assert(summary::texts(header@) =~= seq!["Key"@] + views.take(i + 1));
    }
    assert(views.take(views.len() as int) =~= views);
    let ghost all = table_view(app@).rows;
    let mut rows: Vec<Row> = Vec::new();
    for i in 0..app.keys.len()
        invariant
            app@.well_formed(),
            label::all_callable(app@.keys),
            views == summary::texts(names@),
            views == summary::window_names(app@.usages),
            all == table_view(app@).rows,
            row_views(rows@) == all.take(i as int),
    {
        let ghost was = rows@;
        assert(app@.keys[i as int] == app.keys@[i as int]@);
        assert(app@.usages[i as int] == app.usages@[i as int]@);
        let row = table_row(&app.keys[i], &app.usages[i], &names, i == app.selected);
        rows.push(row);
        assert(row@ == all[i as int]);
        assert(row_views(rows@) =~= row_views(was).push(row@));
        assert(all.take(i + 1) =~= all.take(i as int).push(all[i as int]));
    }
    assert(all.take(all.len() as int) =~= all);
    let widths = widths(names.len());
    Table { title: " All keys · % left per window ".to_owned(), header, widths, rows }
}

/// The widths of the columns of the table are 100 hundredths together at most.
pub proof fn law_widths_fit(columns: nat)
    requires
        columns < 0x1_0000,
    ensures
        divisor(columns) != 0,
        column_widths(columns).len() == columns + 1,
        column_widths(columns)[0] == 22,
        forall|i: int|
            1 <= i <= columns ==> 22 + columns * (#[trigger] column_widths(columns)[i]) <= 100,
{
    if columns > 0 {
        vstd::arithmetic::div_mod::lemma_small_mod(columns, 0x1_0000);
        let rest = 78int / columns as int;
        vstd::arithmetic::div_mod::lemma_fundamental_div_mod(78, columns as int);
        vstd::arithmetic::div_mod::lemma_mod_bound(78, columns as int);
        vstd::arithmetic::div_mod::lemma_div_nonincreasing(78, columns as int);
        vstd::arithmetic::div_mod::lemma_div_pos_is_pos(78, columns as int);
        assert forall|i: int| 1 <= i <= columns implies 22 + columns * (
        #[trigger] column_widths(columns)[i]) <= 100 by {
            assert(column_widths(columns)[i] == rest as u16);
            assert(0 <= rest <= 78);
            assert(columns * rest <= 78) by (nonlinear_arith)
                requires
                    78 == columns * rest + 78int % (columns as int),
                    78int % (columns as int) >= 0,
            ;
        }
    }
}

/// Each key has one row, each window one column, and exactly the row of the selected key is marked.
pub proof fn law_table_rows(s: AppView)
    requires
        s.well_formed(),
    ensures
        table_view(s).rows.len() == s.keys.len(),
        table_view(s).header.len() == table_view(s).widths.len(),
        forall|i: int|
            0 <= i < s.keys.len() ==> ((#[trigger] table_view(s).rows[i]).selected <==> i
                == s.selected),
        forall|i: int|
            0 <= i < s.keys.len() && s.usages[i].error is None && s.usages[i].windows.len() > 0
                ==> (#[trigger] table_view(s).rows[i]).cells.len() == table_view(s).header.len(),
{
}

proof fn lemma_window_share(windows: Seq<(Seq<char>, u64)>, name: Seq<char>, k: int)
    requires
        0 <= k <= windows.len(),
        forall|j: int| 0 <= j < k ==> (#[trigger] windows[j]).0 != name,
        k < windows.len() ==> windows[k].0 == name,
    ensures
        window_share(windows, name) == if k < windows.len() {
            Some(windows[k].1)
        } else {
            None
        },
    decreases k,
{
    if k > 0 {
        assert(windows[0].0 != name);
        let rest = windows.drop_first();
        assert forall|j: int| 0 <= j < k - 1 implies (#[trigger] rest[j]).0 != name by {
            assert(rest[j] == windows[j + 1]);
        }
        lemma_window_share(rest, name, k - 1);
    }
}

/// In the row of a key, the cell of every column is about the window that the column is headed by: it
/// holds the usage that the key reports for that window, for the first one where several have the name,
/// and no usage where the key has no such window.
pub proof fn law_cells_stand_under_their_windows(s: AppView, i: int, c: int, k: int)
    requires
        s.well_formed(),
        0 <= i < s.keys.len(),
        s.usages[i].error is None,
        s.usages[i].windows.len() > 0,
        1 <= c < table_view(s).header.len(),
        0 <= k <= s.usages[i].windows.len(),
        forall|j: int|
            0 <= j < k ==> (#[trigger] s.usages[i].windows[j]).0 != table_view(s).header[c],
        k < s.usages[i].windows.len() ==> s.usages[i].windows[k].0 == table_view(s).header[c],
    ensures
        table_view(s).rows[i].cells.len() == table_view(s).header.len(),
        k < s.usages[i].windows.len() ==> table_view(s).rows[i].cells[c] == CellView::Left(
            Some(s.usages[i].windows[k].1),
        ),
        k == s.usages[i].windows.len() ==> table_view(s).rows[i].cells[c] == CellView::Left(None),
{
    lemma_window_share(s.usages[i].windows, table_view(s).header[c], k);
}

/// Every window of every key heads a column, each column but the first is headed by such a window, and
/// they stand in the canonical order.
pub proof fn law_every_window_heads_a_column(s: AppView, i: int, k: int, c: int, d: int)
    ensures
        table_view(s).header.len() > 0,
        table_view(s).header[0] == "Key"@,
        0 <= i < s.usages.len() && 0 <= k < s.usages[i].windows.len() ==> exists|e: int|
            1 <= e < table_view(s).header.len() && #[trigger] table_view(s).header[e]
                == s.usages[i].windows[k].0,
        1 <= c < table_view(s).header.len() ==> exists|a: int, b: int|
            0 <= a < s.usages.len() && 0 <= b < s.usages[a].windows.len() && (
            #[trigger] s.usages[a].windows[b]).0 == table_view(s).header[c],
        1 <= c < d < table_view(s).header.len() ==> ollama::rank_lt(
            table_view(s).header[c],
            table_view(s).header[d],
        ),
{
    let names = summary::window_names(s.usages);
    let header = table_view(s).header;
    summary::law_window_names(s.usages);
    if 0 <= i < s.usages.len() && 0 <= k < s.usages[i].windows.len() {
        let name = s.usages[i].windows[k].0;
        summary::law_window_is_named(s.usages, name);
        let e = choose|e: int| 0 <= e < names.len() && names[e] == name;
        assert(header[e + 1] == name);
    }
    if 1 <= c < header.len() {
        assert(names[c - 1] == header[c]);
        assert(names.contains(header[c]));
        summary::law_window_is_named(s.usages, header[c]);
        if c < d < header.len() {
            assert(names[d - 1] == header[d]);
        }
    }
}

/// Each row starts with how its key is called, in bold where the key is selected. Behind it, a key with an
/// error shows that error and nothing else, and one of which nothing is known shows dots.
pub proof fn law_rows_call_their_keys(s: AppView, i: int)
    requires
        s.well_formed(),
        0 <= i < s.keys.len(),
    ensures
        ({
            let row = table_view(s).rows[i];
            &&& row.cells.len() > 0
            &&& row.cells[0] matches CellView::Plain(span) && span.text == label::label_of(s.keys[i])
                && (span.bold <==> i == s.selected)
            &&& s.usages[i].error matches Some(e) ==> row.cells.len() == 2 && (
            row.cells[1] matches CellView::Plain(span) && text::ends_with(span.text, e) && span.fg
                == Some(Color::Red))
            &&& s.usages[i].error is None && s.usages[i].windows.len() == 0 ==> row.cells.len() == 2
                && (row.cells[1] matches CellView::Plain(span) && span.text == "…"@)
        }),
{
    if let Some(e) = s.usages[i].error {
        text::lemma_ends_with("⚠ "@, e);
    }
}

/// The windows have columns of one width, the largest with which all of them fit beside the label.
pub proof fn law_widths_are_equal(columns: nat, i: int)
    requires
        0 < columns < 0x1_0000,
        1 <= i <= columns,
    ensures
        ({
            let w = column_widths(columns)[i] as int;
            &&& w == column_widths(columns)[1]
            &&& columns * w <= 78 < columns * (w + 1)
        }),
{
    let n = columns as int;
    vstd::arithmetic::div_mod::lemma_small_mod(columns, 0x1_0000);
    let rest = 78int / n;
    vstd::arithmetic::div_mod::lemma_fundamental_div_mod(78, n);
    vstd::arithmetic::div_mod::lemma_mod_bound(78, n);
    vstd::arithmetic::div_mod::lemma_div_nonincreasing(78, n);
    vstd::arithmetic::div_mod::lemma_div_pos_is_pos(78, n);
    assert(column_widths(columns)[i] == rest as u16);
    assert(column_widths(columns)[1] == rest as u16);
    assert(0 <= rest <= 78);
    assert(n * rest <= 78 < n * (rest + 1)) by (nonlinear_arith)
        requires
            78 == n * rest + 78int % n,
            0 <= 78int % n < n,
    ;
}

} // verus!
