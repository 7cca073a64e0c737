use ollama_shepherd::app::{App, Key, KeyPress};
use ollama_shepherd::chart::{render_pie, Pie};
use ollama_shepherd::label::{can_label, can_label_all, display_label};
use ollama_shepherd::layout::Area;
use ollama_shepherd::ollama::{KeyEntry, Usage};
use ollama_shepherd::store::KeyStore;
use ollama_shepherd::style::{Color, Panel};
use ollama_shepherd::table::{table, widths, Cell};
use ollama_shepherd::view::{
    can_draw, detail, edit_popup, empty_state, footer, header, overview, ui, Content, Detail,
    Windows,
};

const TALL: Area = Area { x: 0, y: 3, width: 80, height: 18 };
const FLAT: Area = Area { x: 0, y: 3, width: 80, height: 15 };

fn key(label: &str, key: &str) -> KeyEntry {
    KeyEntry { label: label.to_string(), key: key.to_string() }
}

fn app(keys: Vec<KeyEntry>) -> App {
    App::new(KeyStore { keys })
}

fn pairs(list: &[(&str, u64)]) -> Vec<(String, u64)> {
    list.iter().map(|p| (p.0.to_string(), p.1)).collect()
}

fn usage(windows: &[(&str, u64)], models: &[(&str, u64)]) -> Usage {
    Usage { windows: pairs(windows), models: pairs(models), ..Usage::default() }
}

fn text(panel: &Panel) -> Vec<String> {
    panel
        .lines
        .iter()
        .map(|line| line.iter().map(|s| s.text.as_str()).collect::<String>())
        .collect()
}

fn slices(pie: &Pie) -> Vec<(String, u64, Color)> {
    pie.slices
        .as_ref()
        .unwrap()
        .iter()
        .map(|s| (s.label.clone(), s.count, s.color))
        .collect()
}

#[test]
fn labels() {
    assert_eq!(display_label(&key(" work ", "k")), " work ");
    assert_eq!(display_label(&key("  ", "ok-123456789")), "…6789");
    assert_eq!(display_label(&key("", "12345678")), "key");
    assert_eq!(display_label(&key("", "123456789")), "…6789");
    assert_eq!(display_label(&key("", "")), "key");
    assert_eq!(display_label(&key("", "12345678éé")), "…éé");
    assert!(!can_label(&key("", "12345678€€")));
    assert!(can_label(&key("l", "12345678€€")));
    assert!(can_label(&key("", "€€")));
    assert!(!can_label_all(&vec![key("", "k"), key("", "12345678€€")]));
}

#[test]
fn headers() {
    let mut a = app(vec![key("", "a"), key("", "b")]);
    let h = header(&a);
    assert_eq!(h.title.as_deref(), Some(" Ollama Cloud Usage "));
    assert_eq!(text(&h), ["🐑 Ollama Shepherd  overview · 2 keys   · idle"]);
    assert!(h.lines[0][0].bold);
    assert_eq!(h.lines[0][0].fg, Some(Color::Cyan));
    assert_eq!(h.lines[0][2].fg, None);
    assert_eq!(h.lines[0][3].fg, Some(Color::DarkGray));
    a.view = true;
    a.start_fetch();
    assert_eq!(text(&header(&a)), ["🐑 Ollama Shepherd  key detail · 2 keys   ⟳ fetching…"]);
    a.fetching = false;
    a.last_fetch = Some(0);
    a.countdown = 42;
    let h = header(&a);
    assert_eq!(h.lines[0][3].text, "✓ auto-refresh in 42s");
    assert_eq!(h.lines[0][3].fg, Some(Color::Green));
}

#[test]
fn fixed_panels() {
    let e = empty_state();
    assert!(e.centered);
    assert_eq!(
        text(&e),
        [
            "",
            "No keys yet. Press a to add one.",
            "",
            " Format: label,ok-xxxx  or just the key.",
            " Get keys: https://ollama.com/settings/keys"
        ]
    );
    let f = footer();
    assert_eq!(f.title, None);
    assert_eq!(
        text(&f),
        ["r refresh  a add key  ↑/↓ select  Enter drill-in  d delete  q quit"]
    );
    let p = edit_popup("ab");
    assert_eq!(p.title.as_deref(), Some(" Add API key "));
    assert_eq!(text(&p), ["ab█", "", "label,ok-…  ·  Enter=save  ·  Esc=cancel"]);
}

#[test]
fn widths_of_columns() {
    assert_eq!(widths(0), [22]);
    assert_eq!(widths(1), [22, 78]);
    assert_eq!(widths(3), [22, 26, 26, 26]);
    assert_eq!(widths(4), [22, 19, 19, 19, 19]);
    assert_eq!(widths(100)[1], 0);
    assert_eq!(widths(0x1_0001)[1], 78);
}

#[test]
fn rows_of_the_table() {
    let mut a = app(vec![key("one", "1"), key("two", "2"), key("three", "3")]);
    a.usages[0] = usage(&[("Weekly", 7), ("Daily", 8)], &[]);
    a.usages[1].error = Some("down".to_string());
    let t = table(&a);
    assert_eq!(t.title, " All keys · % left per window ");
    assert_eq!(t.header, ["Key", "Weekly", "Daily"]);
    assert_eq!(t.widths, [22, 39, 39]);
    assert_eq!(t.rows.len(), 3);
    assert!(t.rows[0].selected && !t.rows[1].selected);
    match &t.rows[0].cells[..] {
        [Cell::Plain(name), Cell::Left(Some(7)), Cell::Left(Some(8))] => {
            assert_eq!((name.text.as_str(), name.fg, name.bold), ("one", Some(Color::Cyan), true));
        }
        other => panic!("{other:?}"),
    }
    match &t.rows[1].cells[..] {
        [Cell::Plain(name), Cell::Plain(error)] => {
            assert_eq!((name.fg, name.bold), (Some(Color::White), false));
            assert_eq!((error.text.as_str(), error.fg), ("⚠ down", Some(Color::Red)));
        }
        other => panic!("{other:?}"),
    }
    match &t.rows[2].cells[..] {
        [_, Cell::Plain(dots)] => {
            assert_eq!((dots.text.as_str(), dots.fg), ("…", Some(Color::DarkGray)));
        }
        other => panic!("{other:?}"),
    }
}

#[test]
fn a_window_that_a_key_lacks() {
    let mut a = app(vec![key("one", "1"), key("two", "2")]);
    a.usages[0] = usage(&[("Weekly", 7)], &[]);
    a.usages[1] = usage(&[("Monthly", 1), ("Monthly", 2)], &[]);
    let t = table(&a);
    assert_eq!(t.header, ["Key", "Monthly", "Weekly"]);
    assert!(matches!(t.rows[0].cells[1..], [Cell::Left(None), Cell::Left(Some(7))]));
    assert!(matches!(t.rows[1].cells[1..], [Cell::Left(Some(1)), Cell::Left(None)]));
}

#[test]
fn charts() {
    let models: Vec<(String, u64)> = (0..9).map(|i| (format!("m{i}"), 9 - i)).collect();
    let pie = render_pie(&models, "t".to_string());
    let all = slices(&pie);
    assert_eq!(pie.title, "t");
    assert_eq!(all.len(), 9);
    assert_eq!(all[0], ("m0 · 9".to_string(), 9, Color::Cyan));
    assert_eq!(all[7], ("m7 · 2".to_string(), 2, Color::LightMagenta));
    assert_eq!(all[8], ("m8 · 1".to_string(), 1, Color::Cyan));
    assert!(render_pie(&vec![], "t".to_string()).slices.is_none());
    assert!(render_pie(&pairs(&[("a", 0), ("b", 0)]), "t".to_string()).slices.is_none());
    assert_eq!(slices(&render_pie(&pairs(&[("a", 0), ("b", 1)]), "t".to_string())).len(), 2);
}

#[test]
fn the_overview() {
    let mut a = app(vec![key("one", "1"), key("two", "2")]);
    a.usages[0] = usage(&[], &[("x", 1)]);
    a.usages[1] = usage(&[], &[("y", 4), ("x", 2)]);
    a.usages[1].models_window = Some("Weekly".to_string());
    assert!(overview(&a, FLAT).pie.is_none());
    let o = overview(&a, Area { height: 16, ..FLAT });
    let pie = o.pie.unwrap();
    assert_eq!(pie.title, " Requests by model · all keys (Weekly) ");
    let counts: Vec<(String, u64)> = slices(&pie).into_iter().map(|s| (s.0, s.1)).collect();
    assert_eq!(counts, pairs(&[("y · 4", 4), ("x · 3", 3)]));
    assert_eq!(o.table.rows.len(), 2);
    let empty = app(vec![key("one", "1")]);
    assert_eq!(overview(&empty, TALL).pie.unwrap().title, " Requests by model · all keys () ");
}

#[test]
fn one_key_in_detail() {
    let mut a = app(vec![key("one", "1"), key("two", "2")]);
    a.selected = 1;
    match detail(&a) {
        Detail::Shown { windows: Windows::Waiting(p), pie } => {
            assert_eq!(p.title.as_deref(), Some(" two "));
            assert_eq!(text(&p), ["no data — press r"]);
            assert_eq!(pie.title, " Requests by model · two () ");
        }
        other => panic!("{other:?}"),
    }
    a.start_fetch();
    match detail(&a) {
        Detail::Shown { windows: Windows::Waiting(p), .. } => assert_eq!(text(&p), ["fetching…"]),
        other => panic!("{other:?}"),
    }
    let names: Vec<(String, u64)> = (0..10).map(|i| (format!("W{i}"), i)).collect();
    a.usages[1].windows = names;
    a.usages[1].models_window = Some("Weekly".to_string());
    match detail(&a) {
        Detail::Shown { windows: Windows::Gauges(g), pie } => {
            assert_eq!(g.len(), 8);
            assert_eq!((g[0].title.as_str(), g[0].label.as_str()), (" two · usage windows ", "W0: "));
            assert_eq!((g[7].title.as_str(), g[7].label.as_str()), ("", "  W7: "));
            assert_eq!(g[7].usage, 7);
            assert_eq!(pie.title, " Requests by model · two (Weekly) ");
        }
        other => panic!("{other:?}"),
    }
    a.usages[1].error = Some("HTTP 500".to_string());
    match detail(&a) {
        Detail::Failed(p) => assert_eq!(
            text(&p),
            [
                "⚠ fetch failed",
                "HTTP 500",
                "",
                "check the key at https://ollama.com/settings/keys"
            ]
        ),
        other => panic!("{other:?}"),
    }
}

#[test]
fn a_selection_behind_the_keys() {
    let mut a = app(vec![key("one", "1"), key("two", "2")]);
    a.usages[1] = usage(&[("Weekly", 7)], &[]);
    a.selected = 9;
    match detail(&a) {
        Detail::Shown { windows: Windows::Gauges(g), .. } => {
            assert_eq!((g.len(), g[0].title.as_str()), (1, " two · usage windows "));
        }
        other => panic!("{other:?}"),
    }
}

#[test]
fn screens() {
    let mut a = app(vec![]);
    assert!(can_draw(&a, TALL));
    assert!(matches!(ui(&a, TALL).content, Content::Empty(_)));
    a.handle_key(KeyPress { code: Key::Char('a'), control: false });
    let popup = ui(&a, TALL).popup.unwrap();
    assert_eq!(popup.area, Area { x: 9, y: 8, width: 62, height: 7 });
    assert_eq!(popup.inner, Area { x: 10, y: 9, width: 60, height: 5 });
    assert_eq!(text(&popup.panel)[0], "█");
    assert!(!can_draw(&a, Area { x: 0, y: u16::MAX, width: 80, height: 20 }));

    let mut b = app(vec![key("one", "1")]);
    assert!(matches!(ui(&b, TALL).content, Content::Overview(_)));
    b.view = true;
    let s = ui(&b, TALL);
    assert!(matches!(s.content, Content::Detail(_)));
    assert!(s.popup.is_none());
}

#[test]
fn states_that_cannot_be_drawn() {
    let mut a = app(vec![key("one", "1"), key("", "12345678€€")]);
    assert!(!can_draw(&a, FLAT));
    a.view = true;
    assert!(can_draw(&a, FLAT));
    a.selected = 1;
    assert!(!can_draw(&a, FLAT));
    let mut b = app(vec![key("one", "1")]);
    b.usages[0] = usage(&[], &[("m", u64::MAX), ("m", 1)]);
    assert!(can_draw(&b, FLAT));
    assert!(!can_draw(&b, TALL));
}
