//! What is shown on the screen.
use crate::app::{App, AppView};
use crate::chart;
use crate::chart::{Pie, PieView};
use crate::label;
use crate::layout;
use crate::layout::Area;
use crate::ollama;
use crate::ollama::{KeyView, Usage, UsageView};
use crate::order;
use crate::style;
use crate::style::{Color, Panel, PanelView, Span, SpanView};
use crate::summary;
use crate::table;
use crate::table::Table;
use crate::text;
use vstd::prelude::*;

verus! {

/// What the header says of the requests.
pub open spec fn status(s: AppView) -> SpanView {
    if s.fetching {
        style::colored("⟳ fetching…"@, Color::Yellow)
    } else if s.last_fetch is Some {
        style::colored("✓ auto-refresh in "@ + text::decimal(s.countdown as nat) + "s"@, Color::Green)
    } else {
        style::colored("· idle"@, Color::DarkGray)
    }
}

/// The header: which view it is, how many keys there are, and how the requests stand.
pub open spec fn header_view(s: AppView) -> PanelView {
    let mode = if s.view {
        "key detail"@
    } else {
        "overview"@
    };
    PanelView {
        title: Some(" Ollama Cloud Usage "@),
        lines: seq![
            seq![
                style::bold("🐑 Ollama Shepherd"@, Color::Cyan),
                style::colored(
                    "  "@ + mode + " · "@ + text::decimal(s.keys.len()) + " keys"@,
                    Color::DarkGray,
                ),
                style::raw("   "@),
                status(s),
            ],
        ],
        centered: false,
    }
}

/// The header.
pub fn header(app: &App) -> (r: Panel)
    ensures
        r@ == header_view(app@),
{
    let state = if app.fetching {
        style::paint("⟳ fetching…", Color::Yellow)
    } else if app.last_fetch.is_some() {
        let count = text::to_decimal(app.countdown as u128);
        style::paint(text::enclosed("✓ auto-refresh in ", count.as_str(), "s").as_str(), Color::Green)
    } else {
        style::paint("· idle", Color::DarkGray)
    };
    let mut info = if app.view {
        text::joined("  ", "key detail")
    } else {
        text::joined("  ", "overview")
    };
    info.append(" · ");
    info.append(text::to_decimal(app.keys.len() as u128).as_str());
    info.append(" keys");
    let mut spans: Vec<Span> = Vec::new();
    spans.push(style::emphasize("🐑 Ollama Shepherd", Color::Cyan));
    spans.push(style::paint(info.as_str(), Color::DarkGray));
    spans.push(style::plain("   "));
    spans.push(state);
    assert(style::span_views(spans@) =~= header_view(app@).lines[0]);
    let r = style::short_panel(Some(" Ollama Cloud Usage ".to_owned()), spans);
    assert(r@.lines =~= header_view(app@).lines);
    r
}

/// What is shown while there are no keys.
pub open spec fn empty_state_view() -> PanelView {
    PanelView {
        title: Some(" Ollama Shepherd "@),
        lines: seq![
            seq![style::raw(""@)],
            seq![style::raw("No keys yet. Press a to add one."@)],
            seq![style::raw(""@)],
            seq![
                style::colored(" Format: "@, Color::DarkGray),
                style::colored("label,ok-xxxx"@, Color::Cyan),
                style::colored("  or just the key."@, Color::DarkGray),
            ],
            seq![style::raw(" Get keys: https://ollama.com/settings/keys"@)],
        ],
        centered: true,
    }
}

/// What is shown while there are no keys.
pub fn empty_state() -> (r: Panel)
    ensures
        r@ == empty_state_view(),
{
    let mut format: Vec<Span> = Vec::new();
    format.push(style::paint(" Format: ", Color::DarkGray));
    format.push(style::paint("label,ok-xxxx", Color::Cyan));
    format.push(style::paint("  or just the key.", Color::DarkGray));
    assert(style::span_views(format@) =~= empty_state_view().lines[3]);
    let mut lines: Vec<Vec<Span>> = Vec::new();
    lines.push(style::line(style::plain("")));
    lines.push(style::line(style::plain("No keys yet. Press a to add one.")));
    lines.push(style::line(style::plain("")));
    lines.push(format);
    lines.push(style::line(style::plain(" Get keys: https://ollama.com/settings/keys")));
    assert(style::line_views(lines@) =~= empty_state_view().lines);
    style::panel(Some(" Ollama Shepherd ".to_owned()), lines, true)
}

/// The footer: the keys of the keyboard and what they do.
pub open spec fn footer_view() -> PanelView {
    PanelView {
        title: None,
        lines: seq![
            seq![
                style::bold("r"@, Color::Cyan),
                style::colored(" refresh  "@, Color::DarkGray),
                style::bold("a"@, Color::Cyan),
                style::colored(" add key  "@, Color::DarkGray),
                style::bold("↑/↓"@, Color::Cyan),
                style::colored(" select  "@, Color::DarkGray),
                style::bold("Enter"@, Color::Cyan),
                style::colored(" drill-in  "@, Color::DarkGray),
                style::bold("d"@, Color::Cyan),
                style::colored(" delete  "@, Color::DarkGray),
                style::bold("q"@, Color::Cyan),
                style::colored(" quit"@, Color::DarkGray),
            ],
        ],
        centered: false,
    }
}

/// The footer.
pub fn footer() -> (r: Panel)
    ensures
        r@ == footer_view(),
{
    let mut spans: Vec<Span> = Vec::new();
    spans.push(style::emphasize("r", Color::Cyan));
    spans.push(style::paint(" refresh  ", Color::DarkGray));
    spans.push(style::emphasize("a", Color::Cyan));
    spans.push(style::paint(" add key  ", Color::DarkGray));
    spans.push(style::emphasize("↑/↓", Color::Cyan));
    spans.push(style::paint(" select  ", Color::DarkGray));
    spans.push(style::emphasize("Enter", Color::Cyan));
    spans.push(style::paint(" drill-in  ", Color::DarkGray));
    spans.push(style::emphasize("d", Color::Cyan));
    spans.push(style::paint(" delete  ", Color::DarkGray));
    spans.push(style::emphasize("q", Color::Cyan));
    spans.push(style::paint(" quit", Color::DarkGray));
    assert(style::span_views(spans@) =~= footer_view().lines[0]);
    let r = style::short_panel(None, spans);
    assert(r@.lines =~= footer_view().lines);
    r
}

/// The window for a new key: the text so far, and how it is ended.
pub open spec fn edit_popup_view(input: Seq<char>) -> PanelView {
    PanelView {
        title: Some(" Add API key "@),
        lines: seq![
            seq![style::colored(input + "█"@, Color::White)],
            seq![style::raw(""@)],
            seq![style::colored("label,ok-…  ·  Enter=save  ·  Esc=cancel"@, Color::DarkGray)],
        ],
        centered: false,
    }
}

/// The window for a new key.
pub fn edit_popup(input: &str) -> (r: Panel)
    ensures
        r@ == edit_popup_view(input@),
{
    let mut lines: Vec<Vec<Span>> = Vec::new();
    lines.push(style::line(style::paint(text::joined(input, "█").as_str(), Color::White)));
    lines.push(style::line(style::plain("")));
    lines.push(style::line(style::paint("label,ok-…  ·  Enter=save  ·  Esc=cancel", Color::DarkGray)));
    assert(style::line_views(lines@) =~= edit_popup_view(input@).lines);
    style::panel(Some(" Add API key ".to_owned()), lines, false)
}

/// The window that the models of the overview are named after: that of the first usage that has one.
pub open spec fn first_models_window(usages: Seq<UsageView>) -> Seq<char>
    decreases usages.len(),
{
    if usages.len() == 0 {
        Seq::empty()
    } else {
        match usages[0].models_window {
            Some(w) => w,
            None => first_models_window(usages.drop_first()),
        }
    }
}

fn source_window(usages: &Vec<Usage>) -> (r: String)
    ensures
        r@ == first_models_window(ollama::usage_views(usages@)),
{
    let ghost views = ollama::usage_views(usages@);
    assert(views.skip(0) =~= views);
    for i in 0..usages.len()
        invariant
            views == ollama::usage_views(usages@),
            first_models_window(views) == first_models_window(views.skip(i as int)),
    {
        assert(views[i as int] == usages@[i as int]@);
        if let Some(w) = &usages[i].models_window {
            return w.clone();
        }
        assert(views.skip(i as int).drop_first() =~= views.skip(i + 1));
    }
    String::new()
}

/// The title of the chart of the overview.
pub open spec fn overview_pie_title(usages: Seq<UsageView>) -> Seq<char> {
    " Requests by model · all keys ("@ + first_models_window(usages) + ") "@
}

/// The overview: the table of all keys and, where there is room, the chart of all requests.
#[derive(Debug)]
pub struct Overview {
    pub table: Table,
    pub pie: Option<Pie>,
}

/// Whether the overview can be shown in `area`.
pub open spec fn overview_fits(s: AppView, area: Area) -> bool {
    table::table_fits(s) && (layout::has_chart(area) ==> summary::totals_fit(
        summary::all_models(s.usages),
    ))
}

/// Whether `pie` charts the requests of all keys, added up by model.
pub open spec fn charts_all(pie: PieView, usages: Seq<UsageView>) -> bool {
    exists|sums: Seq<(Seq<char>, u64)>| #[trigger]
        summary::is_aggregate(sums, usages) && pie == chart::pie_view(sums, overview_pie_title(usages))
}

/// Whether this is the overview of a state in `area`.
pub open spec fn is_overview(o: Overview, s: AppView, area: Area) -> bool {
    &&& o.table@ == table::table_view(s)
    &&& o.pie is Some <==> layout::has_chart(area)
    &&& o.pie matches Some(pie) ==> charts_all(pie@, s.usages)
}

/// The overview.
pub fn overview(app: &App, area: Area) -> (r: Overview)
    requires
        app@.well_formed(),
        overview_fits(app@, area),
    ensures
        is_overview(r, app@, area),
{
    let table = table::table(app);
    if area.height < 16 {
        return Overview { table, pie: None };
    }
    let models = summary::aggregate_models(&app.usages);
    let source = source_window(&app.usages);
    let title = text::enclosed(" Requests by model · all keys (", source.as_str(), ") ");
    let pie = chart::render_pie(&models, title);
    assert(summary::is_aggregate(order::pairs(models@), app@.usages));
    Overview { table, pie: Some(pie) }
}

/// A gauge for one window. Behind the label stand the shares that are used and left.
#[derive(Debug)]
pub struct Gauge {
    pub title: String,
    pub label: String,
    /// The reported usage.
    pub usage: u64,
}

#[verifier::ext_equal]
pub struct GaugeView {
    pub title: Seq<char>,
    pub label: Seq<char>,
    pub usage: u64,
}

impl View for Gauge {
    type V = GaugeView;

    open spec fn view(&self) -> GaugeView {
        GaugeView { title: self.title@, label: self.label@, usage: self.usage }
    }
}

/// What several gauges are.
pub open spec fn gauge_views(gauges: Seq<Gauge>) -> Seq<GaugeView> {
    gauges.map_values(|g: Gauge| g@)
}

/// The left side of the view of one key.
#[derive(Debug)]
pub enum Windows {
    /// There is nothing to show yet.
    Waiting(Panel),
    Gauges(Vec<Gauge>),
}

#[verifier::ext_equal]
pub enum WindowsView {
    Waiting(PanelView),
    Gauges(Seq<GaugeView>),
}

impl View for Windows {
    type V = WindowsView;

    open spec fn view(&self) -> WindowsView {
        match self {
            Windows::Waiting(panel) => WindowsView::Waiting(panel@),
            Windows::Gauges(gauges) => WindowsView::Gauges(gauge_views(gauges@)),
        }
    }
}

/// The view of one key.
#[derive(Debug)]
pub enum Detail {
    Failed(Panel),
    Shown { windows: Windows, pie: Pie },
}

#[verifier::ext_equal]
pub enum DetailView {
    Failed(PanelView),
    Shown { windows: WindowsView, pie: PieView },
}

impl View for Detail {
    type V = DetailView;

    open spec fn view(&self) -> DetailView {
        match self {
            Detail::Failed(panel) => DetailView::Failed(panel@),
            Detail::Shown { windows, pie } => DetailView::Shown { windows: windows@, pie: pie@ },
        }
    }
}

/// What is shown of a key whose usage could not be had.
pub open spec fn failed_view(label: Seq<char>, error: Seq<char>) -> PanelView {
    PanelView {
        title: Some(" "@ + label + " "@),
        lines: seq![
            seq![style::bold("⚠ fetch failed"@, Color::Red)],
            seq![style::colored(error, Color::Red)],
            seq![style::raw(""@)],
            seq![
                style::colored("check the key at https://ollama.com/settings/keys"@, Color::DarkGray),
            ],
        ],
        centered: false,
    }
}

/// What is shown of a key of which nothing is known yet.
pub open spec fn waiting_view(label: Seq<char>, fetching: bool) -> PanelView {
    PanelView {
        title: Some(" "@ + label + " "@),
        lines: seq![
            seq![
                style::colored(
                    if fetching {
                        "fetching…"@
                    } else {
                        "no data — press r"@
                    },
                    Color::DarkGray,
                ),
            ],
        ],
        centered: false,
    }
}

/// The gauges of the windows of a key, eight at most. The first one has a title.
pub open spec fn gauges_view(label: Seq<char>, windows: Seq<(Seq<char>, u64)>) -> Seq<GaugeView> {
    let n: nat = if windows.len() < 8 {
        windows.len()
    } else {
        8
    };
    Seq::new(
        n,
        |i: int|
            GaugeView {
                title: if i == 0 {
                    " "@ + label + " · usage windows "@
                } else {
                    Seq::empty()
                },
                label: if i == 0 {
                    windows[i].0 + ": "@
                } else {
                    "  "@ + windows[i].0 + ": "@
                },
                usage: windows[i].1,
            },
    )
}

/// The title of the chart of one key.
pub open spec fn detail_pie_title(label: Seq<char>, window: Option<Seq<char>>) -> Seq<char> {
    let source = match window {
        Some(w) => w,
        None => Seq::empty(),
    };
    " Requests by model · "@ + label + " ("@ + source + ") "@
}

/// The view of one key.
pub open spec fn detail_view(k: KeyView, u: UsageView, fetching: bool) -> DetailView {
    let label = label::label_of(k);
    match u.error {
        Some(e) => DetailView::Failed(failed_view(label, e)),
        None => DetailView::Shown {
            windows: if u.windows.len() == 0 {
                WindowsView::Waiting(waiting_view(label, fetching))
            } else {
                WindowsView::Gauges(gauges_view(label, u.windows))
            },
            pie: chart::pie_view(u.models, detail_pie_title(label, u.models_window)),
        },
    }
}

fn failed_panel(label: &str, error: &str) -> (r: Panel)
    ensures
        r@ == failed_view(label@, error@),
{
    let mut lines: Vec<Vec<Span>> = Vec::new();
    lines.push(style::line(style::emphasize("⚠ fetch failed", Color::Red)));
    lines.push(style::line(style::paint(error, Color::Red)));
    lines.push(style::line(style::plain("")));
    lines.push(style::line(style::paint("check the key at https://ollama.com/settings/keys", Color::DarkGray)));
    assert(style::line_views(lines@) =~= failed_view(label@, error@).lines);
    style::panel(Some(text::enclosed(" ", label, " ")), lines, false)
}

fn waiting_panel(label: &str, fetching: bool) -> (r: Panel)
    ensures
        r@ == waiting_view(label@, fetching),
{
    let text = if fetching {
        style::paint("fetching…", Color::DarkGray)
    } else {
        style::paint("no data — press r", Color::DarkGray)
    };
    let r = style::short_panel(Some(text::enclosed(" ", label, " ")), style::line(text));
    assert(r@.lines =~= waiting_view(label@, fetching).lines);
    r
}

fn gauges(label: &str, windows: &Vec<(String, u64)>) -> (r: Vec<Gauge>)
    ensures
        gauge_views(r@) == gauges_view(label@, order::pairs(windows@)),
{
    let ghost listed = order::pairs(windows@);
    let ghost all = gauges_view(label@, listed);
    let n: usize = if windows.len() < 8 {
        windows.len()
    } else {
        8
    };
    let mut out: Vec<Gauge> = Vec::new();
    for i in 0..n
        invariant
            n <= windows@.len(),
            n == all.len(),
            listed == order::pairs(windows@),
            all == gauges_view(label@, listed),
            gauge_views(out@) == all.take(i as int),
    {
        let ghost was = out@;
        let name = windows[i].0.as_str();
        assert(listed[i as int] == (name@, windows@[i as int].1));
        let gauge = if i == 0 {
            Gauge {
                title: text::enclosed(" ", label, " · usage windows "),
                label: text::joined(name, ": "),
                usage: windows[i].1,
            }
        } else {
            Gauge {
                title: String::new(),
                label: text::enclosed("  ", name, ": "),
                usage: windows[i].1,
            }
        };
        out.push(gauge);
        assert(gauge@ == all[i as int]);
        assert(gauge_views(out@) =~= gauge_views(was).push(gauge@));
        assert(all.take(i + 1) =~= all.take(i as int).push(all[i as int]));
    }
    assert(all.take(all.len() as int) =~= all);
    out
}

/// The key that is shown: the selected one, or the last one where the selection lies behind it.
pub open spec fn shown_key(s: AppView) -> int {
    if s.selected < s.keys.len() {
        s.selected
    } else {
        s.keys.len() - 1
    }
}

/// The view of the selected key, or of the last one where the selection lies behind it.
pub fn detail(app: &App) -> (r: Detail)
    requires
        app@.usages.len() == app@.keys.len(),
        app@.keys.len() > 0,
        label::is_callable(app@.keys[shown_key(app@)]),
    ensures
        r@ == detail_view(
            app@.keys[shown_key(app@)],
            app@.usages[shown_key(app@)],
            app@.fetching,
        ),
{
    let i: usize = if app.selected < app.keys.len() {
        app.selected
    } else {
        app.keys.len() - 1
    };
    let k = &app.keys[i];
    let u = &app.usages[i];
    assert(app@.keys[i as int] == k@);
    assert(app@.usages[i as int] == u@);
    let label = label::display_label(k);
    match &u.error {
        Some(e) => Detail::Failed(failed_panel(label.as_str(), e.as_str())),
        None => {
            let windows = if u.windows.is_empty() {
                Windows::Waiting(waiting_panel(label.as_str(), app.fetching))
            } else {
                Windows::Gauges(gauges(label.as_str(), &u.windows))
            };
            let mut title = text::enclosed(" Requests by model · ", label.as_str(), " (");
            if let Some(w) = &u.models_window {
                title.append(w.as_str());
            }
            title.append(") ");
            proof {
                assert(title@ =~= detail_pie_title(label@, u@.models_window));
            }
            let pie = chart::render_pie(&u.models, title);
            Detail::Shown { windows, pie }
        },
    }
}

/// The content of the screen between the header and the footer.
#[derive(Debug)]
pub enum Content {
    Empty(Panel),
    Detail(Detail),
    Overview(Overview),
}

/// The window for a new key, and where it stands.
#[derive(Debug)]
pub struct Popup {
    pub area: Area,
    /// The part inside the border.
    pub inner: Area,
    pub panel: Panel,
}

/// What is shown on the screen.
#[derive(Debug)]
pub struct Screen {
    pub header: Panel,
    pub content: Content,
    pub footer: Panel,
    pub popup: Option<Popup>,
}

/// Whether a state can be shown with `area` for the content: what is shown of it has labels that can
/// be cut, widths that can be divided, totals that can be added up, and coordinates.
pub open spec fn is_drawable(s: AppView, area: Area) -> bool {
    &&& s.keys.len() == 0 || if s.view {
        label::is_callable(s.keys[s.selected])
    } else {
        overview_fits(s, area)
    }
    &&& s.editing is Some ==> layout::popup_fits(area)
}

/// Whether this is the content of the screen for a state.
pub open spec fn is_content(c: Content, s: AppView, area: Area) -> bool {
    if s.keys.len() == 0 {
        c matches Content::Empty(panel) && panel@ == empty_state_view()
    } else if s.view {
        c matches Content::Detail(d) && d@ == detail_view(
            s.keys[s.selected],
            s.usages[s.selected],
            s.fetching,
        )
    } else {
        c matches Content::Overview(o) && is_overview(o, s, area)
    }
}

/// Whether a state can be shown with `area` for the content.
pub fn can_draw(app: &App, area: Area) -> (r: bool)
    requires
        app@.well_formed(),
    ensures
        r == is_drawable(app@, area),
{
    if app.editing.is_some() && !layout::can_pop_up(area) {
        return false;
    }
    if app.keys.is_empty() {
        return true;
    }
    if app.view {
        assert(app@.keys[app@.selected] == app.keys@[app@.selected]@);
        return label::can_label(&app.keys[app.selected]);
    }
    let n = summary::all_windows(&app.usages).len();
    label::can_label_all(&app.keys) && (n == 0 || n % 0x1_0000 != 0) && (area.height < 16
        || summary::checked_aggregate_models(&app.usages).is_some())
}

/// What is shown on the screen, with `area` for the content.
pub fn ui(app: &App, area: Area) -> (r: Screen)
    requires
        app@.well_formed(),
        is_drawable(app@, area),
    ensures
        r.header@ == header_view(app@),
        is_content(r.content, app@, area),
        r.footer@ == footer_view(),
        match app@.editing {
            Some(input) => r.popup matches Some(p) && p.area == layout::popup(area) && p.inner
                == layout::shrunk(p.area, 1, 1) && p.panel@ == edit_popup_view(input),
            None => r.popup is None,
        },
{
    let content = if app.keys.is_empty() {
        Content::Empty(empty_state())
    } else if app.view {
        Content::Detail(detail(app))
    } else {
        Content::Overview(overview(app, area))
    };
    let popup = match &app.editing {
        Some(input) => {
            let place = layout::popup_area(area);
            Some(
                Popup {
                    area: place,
                    inner: layout::popup_inner(place),
                    panel: edit_popup(input.as_str()),
                },
            )
        },
        None => None,
    };
    Screen { header: header(app), content, footer: footer(), popup }
}

/// In the view of a key with windows there is one gauge for each of the first eight windows, in their
/// order. Each carries the usage that was reported for its window, and its label names the window.
pub proof fn law_gauges_show_their_windows(k: KeyView, u: UsageView, fetching: bool, i: int)
    requires
        u.error is None,
        u.windows.len() > 0,
    ensures
        detail_view(k, u, fetching) matches DetailView::Shown {
            windows: WindowsView::Gauges(gauges),
            ..
        } && {
            &&& gauges.len() <= 8 && gauges.len() <= u.windows.len()
            &&& gauges.len() == 8 || gauges.len() == u.windows.len()
            &&& 0 <= i < gauges.len() ==> gauges[i].usage == u.windows[i].1 && text::ends_with(
                gauges[i].label,
                u.windows[i].0 + ": "@,
            ) && gauges[i].label.len() <= u.windows[i].0.len() + 4
        },
{
    reveal_strlit("  ");
    reveal_strlit(": ");
    if 0 <= i < u.windows.len() {
        let name = u.windows[i].0 + ": "@;
        text::lemma_ends_with("  "@, name);
        assert("  "@ + name =~= "  "@ + u.windows[i].0 + ": "@);
        assert(name.skip(0) =~= name);
    }
}

/// The view of a key says how the key is called. With an error it shows that error and no gauges; without
/// one it charts the models of the key: a slice for each, with its requests.
pub proof fn law_detail_is_about_its_key(k: KeyView, u: UsageView, fetching: bool, i: int)
    ensures
        u.error matches Some(e) ==> (detail_view(k, u, fetching) matches DetailView::Failed(panel)
            && panel.title == Some(" "@ + label::label_of(k) + " "@) && (exists|l: int|
            0 <= l < panel.lines.len() && (#[trigger] panel.lines[l]).len() == 1
                && panel.lines[l][0].text == e)),
        u.error is None ==> (detail_view(k, u, fetching) matches DetailView::Shown { windows, pie } && {
            &&& windows is Waiting <==> u.windows.len() == 0
            &&& pie.slices is Some <==> exists|m: int|
                0 <= m < u.models.len() && (#[trigger] u.models[m]).1 != 0
            &&& pie.slices matches Some(slices) ==> slices.len() == u.models.len()
            &&& pie.slices matches Some(slices) ==> 0 <= i < u.models.len() ==> slices[i].count
                == u.models[i].1 && text::starts_with(slices[i].label, u.models[i].0)
            &&& u.models_window matches Some(w) ==> text::ends_with(pie.title, w + ") "@)
        }),
{
    if let Some(e) = u.error {
        let panel = failed_view(label::label_of(k), e);
        assert(panel.lines[1].len() == 1 && panel.lines[1][0].text == e);
    } else {
        let title = detail_pie_title(label::label_of(k), u.models_window);
        if 0 <= i < u.models.len() {
            chart::law_slices_name_their_models(u.models, title, i);
        }
        if let Some(w) = u.models_window {
            text::lemma_ends_with(" Requests by model · "@ + label::label_of(k) + " ("@, w + ") "@);
            assert(title =~= " Requests by model · "@ + label::label_of(k) + " ("@ + (w + ") "@));
        }
    }
}

/// Where the overview has a chart, every model with requests has a slice in it that is labelled with the
/// model and counts the requests of all keys to it.
pub proof fn law_overview_charts_every_model(o: Overview, s: AppView, area: Area, i: int, j: int)
    requires
        is_overview(o, s, area),
        area.height >= 16,
        0 <= i < s.usages.len(),
        0 <= j < s.usages[i].models.len(),
        summary::total(summary::all_models(s.usages), s.usages[i].models[j].0) > 0,
    ensures
        ({
            let name = s.usages[i].models[j].0;
            o.pie matches Some(pie) && (pie@.slices matches Some(slices) && exists|k: int|
                0 <= k < slices.len() && (#[trigger] slices[k]).count == summary::total(
                    summary::all_models(s.usages),
                    name,
                ) && text::starts_with(slices[k].label, name))
        }),
{
    let pie = o.pie->0;
    assert(charts_all(pie@, s.usages));
    let sums = choose|sums: Seq<(Seq<char>, u64)>| #[trigger]
        summary::is_aggregate(sums, s.usages) && pie@ == chart::pie_view(
            sums,
            overview_pie_title(s.usages),
        );
    let k = summary::law_aggregate_lists_every_model(sums, s.usages, i, j);
    chart::law_slices_name_their_models(sums, overview_pie_title(s.usages), k);
    let slices = pie@.slices->0;
    assert(slices[k].count == sums[k].1);
}

/// The overview has a table, and a chart only with 16 rows or more.
pub proof fn law_overview_has_a_chart_with_room(o: Overview, s: AppView, area: Area)
    requires
        is_overview(o, s, area),
    ensures
        o.table@ == table::table_view(s),
        o.pie is Some <==> area.height >= 16,
{
}

/// Without keys the screen says so; with keys it shows the selected one or all of them.
pub proof fn law_content_follows_the_state(c: Content, s: AppView, area: Area)
    requires
        is_content(c, s, area),
    ensures
        c is Empty <==> s.keys.len() == 0,
        c is Detail <==> s.keys.len() > 0 && s.view,
        c is Overview <==> s.keys.len() > 0 && !s.view,
        c matches Content::Detail(d) ==> d@ == detail_view(
            s.keys[s.selected],
            s.usages[s.selected],
            s.fetching,
        ),
{
}

/// The header tells how many keys there are, whether requests are under way, and after a round how many
/// seconds are left until the next.
pub proof fn law_header_tells_the_state(s: AppView)
    ensures
        ({
            let line = header_view(s).lines[0];
            &&& header_view(s).lines.len() == 1 && line.len() == 4
            &&& text::ends_with(line[1].text, text::decimal(s.keys.len()) + " keys"@)
            &&& s.fetching ==> line[3].text == "⟳ fetching…"@
            &&& !s.fetching && s.last_fetch is Some ==> text::ends_with(
                line[3].text,
                text::decimal(s.countdown as nat) + "s"@,
            ) && text::starts_with(line[3].text, "✓ auto-refresh in "@)
            &&& !s.fetching && s.last_fetch is None ==> line[3].text == "· idle"@
        }),
{
    let mode = if s.view {
        "key detail"@
    } else {
        "overview"@
    };
    let keys = text::decimal(s.keys.len()) + " keys"@;
    text::lemma_ends_with("  "@ + mode + " · "@, keys);
    assert(header_view(s).lines[0][1].text =~= "  "@ + mode + " · "@ + keys);
    let left = text::decimal(s.countdown as nat) + "s"@;
    text::lemma_ends_with("✓ auto-refresh in "@, left);
    assert("✓ auto-refresh in "@ + text::decimal(s.countdown as nat) + "s"@ =~= "✓ auto-refresh in "@
        + left);
}

/// The chart of the overview is named after the window of the first usage that has one.
pub proof fn law_first_window_names_the_chart(usages: Seq<UsageView>, i: int)
    requires
        0 <= i <= usages.len(),
        forall|j: int| 0 <= j < i ==> (#[trigger] usages[j]).models_window is None,
        i < usages.len() ==> usages[i].models_window is Some,
    ensures
        i < usages.len() ==> Some(first_models_window(usages)) == usages[i].models_window,
        i == usages.len() ==> first_models_window(usages).len() == 0,
    decreases i,
{
    if i > 0 {
        assert(usages[0].models_window is None);
        let rest = usages.drop_first();
        assert forall|j: int| 0 <= j < i - 1 implies (#[trigger] rest[j]).models_window is None by {
            assert(rest[j] == usages[j + 1]);
        }
        law_first_window_names_the_chart(rest, i - 1);
    }
}

/// The window for a new key shows the text so far, in full.
pub proof fn law_entry_is_shown(input: Seq<char>)
    ensures
        ({
            let shown = edit_popup_view(input).lines[0][0].text;
            &&& text::starts_with(shown, input)
            &&& shown.len() == input.len() + 1
        }),
{
    reveal_strlit("█");
    text::lemma_ends_with(input, "█"@);
}

/// A state whose keys have labels can be shown, but for a table whose windows are too many to divide the
/// width by, and for totals that do not fit.
pub proof fn law_labelled_keys_can_be_shown(s: AppView, area: Area)
    requires
        s.well_formed(),
        area.x + area.width <= 0xffff,
        area.y + area.height <= 0xffff,
        forall|i: int| 0 <= i < s.keys.len() ==> text::trimmed((#[trigger] s.keys[i]).label).len() > 0,
    ensures
        s.keys.len() == 0 || s.view ==> is_drawable(s, area),
        summary::window_names(s.usages).len() < 0x1_0000 && (area.height < 16 || summary::totals_fit(
            summary::all_models(s.usages),
        )) ==> is_drawable(s, area),
{
    assert forall|i: int| 0 <= i < s.keys.len() implies label::is_callable(#[trigger] s.keys[i]) by {
        label::law_label_goes_first(s.keys[i], Seq::empty());
    }
    let n = summary::window_names(s.usages).len();
    if n < 0x1_0000 {
        table::law_widths_fit(n);
    }
}

/// In the footer each key of the keyboard stands in bold before what it does.
pub proof fn law_footer_marks_the_keys(i: int)
    requires
        0 <= i < 12,
    ensures
        footer_view().lines.len() == 1,
        footer_view().lines[0].len() == 12,
        footer_view().lines[0][i].bold <==> i % 2 == 0,
        footer_view().lines[0][i].fg == Some(
            if i % 2 == 0 {
                Color::Cyan
            } else {
                Color::DarkGray
            },
        ),
{
}

/// The title of the chart of the overview ends with the window that names it.
pub proof fn law_overview_chart_names_its_window(usages: Seq<UsageView>)
    ensures
        text::ends_with(overview_pie_title(usages), first_models_window(usages) + ") "@),
{
    let tail = first_models_window(usages) + ") "@;
    text::lemma_ends_with(" Requests by model · all keys ("@, tail);
    assert(overview_pie_title(usages) =~= " Requests by model · all keys ("@ + tail);
}

/// The key that is shown is one of the keys, and the selected one wherever there is one.
pub proof fn law_shown_key_is_the_selected_one(s: AppView)
    requires
        s.keys.len() > 0,
        0 <= s.selected,
    ensures
        0 <= shown_key(s) < s.keys.len(),
        shown_key(s) <= s.selected,
        shown_key(s) == s.selected || shown_key(s) + 1 == s.keys.len(),
        s.well_formed() ==> shown_key(s) == s.selected,
{
}

} // verus!
