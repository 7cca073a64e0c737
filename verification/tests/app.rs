use ollama_shepherd::app::{parse_entry, App, Input, Key, KeyPress, Msg, AUTO_SECS};
use ollama_shepherd::ollama::{KeyEntry, Usage};
use ollama_shepherd::store::KeyStore;

const SECOND: u64 = 1_000_000_000;

fn app(keys: &[&str]) -> App {
    let keys = keys
        .iter()
        .map(|k| KeyEntry { label: String::new(), key: k.to_string() })
        .collect();
    App::new(KeyStore { keys })
}

fn plain(code: Key) -> KeyPress {
    KeyPress { code, control: false }
}

fn press(app: &mut App, code: Key) -> (bool, usize) {
    let e = app.handle_key(plain(code));
    (e.save, e.fetch.len())
}

fn type_in(app: &mut App, text: &str) {
    for c in text.chars() {
        press(app, Key::Char(c));
    }
}

fn names(app: &App) -> Vec<&str> {
    app.keys.iter().map(|k| k.key.as_str()).collect()
}

fn usage(error: &str) -> Usage {
    Usage { error: Some(error.to_string()), ..Usage::default() }
}

#[test]
fn the_start() {
    let a = app(&["a", "b"]);
    assert_eq!((a.keys.len(), a.usages.len(), a.selected), (2, 2, 0));
    assert!(!a.fetching && !a.view && !a.quit && a.editing.is_none() && a.last_fetch.is_none());
    assert_eq!(a.countdown, AUTO_SECS);
    assert_eq!(a.outstanding, 0);
}

#[test]
fn a_round_of_requests() {
    let mut a = app(&["a", "b"]);
    let jobs = a.start_fetch();
    let jobs: Vec<(usize, &str)> = jobs.iter().map(|j| (j.slot, j.key.as_str())).collect();
    assert_eq!(jobs, [(0, "a"), (1, "b")]);
    assert!(a.fetching);
    assert!(a.start_fetch().is_empty());
    a.drain(vec![], 1);
    assert_eq!(a.outstanding, 2);
    a.drain(vec![Msg::Usage(1, usage("one"))], 2);
    assert!(a.fetching && a.last_fetch.is_none());
    assert_eq!(a.usages[1].error.as_deref(), Some("one"));
    a.drain(vec![Msg::Usage(0, usage("zero"))], 3);
    assert!(!a.fetching);
    assert_eq!((a.outstanding, a.last_fetch), (0, Some(3)));
    assert_eq!(a.usages[0].error.as_deref(), Some("zero"));
    a.drain(vec![Msg::Usage(0, usage("late"))], 4);
    assert_eq!(a.usages[0].error.as_deref(), Some("zero"));
}

#[test]
fn messages_at_once_and_in_parts() {
    let (mut a, mut b) = (app(&["x", "y"]), app(&["x", "y"]));
    a.start_fetch();
    b.start_fetch();
    a.drain(vec![Msg::Usage(0, usage("0")), Msg::Usage(7, usage("7")), Msg::Usage(1, usage("1"))], 9);
    b.drain(vec![Msg::Usage(0, usage("0"))], 5);
    b.drain(vec![Msg::Usage(7, usage("7")), Msg::Usage(1, usage("1"))], 9);
    assert!(!a.fetching && !b.fetching);
    assert_eq!(a.last_fetch, b.last_fetch);
    assert_eq!(a.usages.len(), 2);
    assert_eq!(a.usages[1].error, b.usages[1].error);
}

#[test]
fn no_keys_no_requests() {
    let mut a = app(&[]);
    assert!(a.start_fetch().is_empty());
    assert!(!a.fetching);
}

#[test]
fn refresh_after_a_minute() {
    let mut a = app(&["a"]);
    assert!(a.tick(100 * SECOND).is_empty());
    assert_eq!(a.countdown, 60);
    a.start_fetch();
    assert!(a.tick(100 * SECOND).is_empty());
    a.drain(vec![Msg::Usage(0, usage("u"))], 5 * SECOND);
    assert!(a.tick(5 * SECOND + SECOND / 2).is_empty());
    assert_eq!(a.countdown, 60);
    assert!(a.tick(6 * SECOND).is_empty());
    assert_eq!(a.countdown, 59);
    assert!(a.tick(65 * SECOND - 1).is_empty());
    assert_eq!(a.countdown, 1);
    assert!(a.tick(0).is_empty());
    assert_eq!(a.countdown, 60);
    assert_eq!(a.tick(65 * SECOND).len(), 1);
    assert!(a.fetching);
    assert_eq!(a.countdown, 0);
}

#[test]
fn entries() {
    let e = |s: &str| parse_entry(s).map(|k| (k.label, k.key));
    let some = |l: &str, k: &str| Some((l.to_string(), k.to_string()));
    assert_eq!(e("label,ok-xxxx"), some("label", "ok-xxxx"));
    assert_eq!(e("  my label , ok-1 \n"), some("my label", "ok-1"));
    assert_eq!(e(" ok-1 "), some("", "ok-1"));
    assert_eq!(e(",ok"), some("", "ok"));
    assert_eq!(e("a,b,c"), some("a", "b,c"));
    assert_eq!(e("a, "), None);
    assert_eq!(e("  "), None);
    assert_eq!(e(""), None);
    assert_eq!(e(","), None);
}

#[test]
fn adding_a_key() {
    let mut a = app(&["a"]);
    press(&mut a, Key::Char('a'));
    assert_eq!(a.editing.as_deref(), Some(""));
    type_in(&mut a, "work,okq");
    assert_eq!(press(&mut a, Key::Backspace), (false, 0));
    assert_eq!(a.editing.as_deref(), Some("work,ok"));
    assert_eq!(press(&mut a, Key::Tab), (false, 0));
    assert_eq!(press(&mut a, Key::Enter), (true, 2));
    assert_eq!(names(&a), ["a", "ok"]);
    assert_eq!(a.keys[1].label, "work");
    assert_eq!((a.selected, a.usages.len()), (1, 2));
    assert!(a.editing.is_none() && a.fetching);
    assert_eq!(a.save_keys().keys.len(), 2);
}

#[test]
fn adding_a_key_during_a_round() {
    let mut a = app(&["a"]);
    a.start_fetch();
    press(&mut a, Key::Char('a'));
    type_in(&mut a, "k");
    assert_eq!(press(&mut a, Key::Enter), (true, 0));
    assert_eq!(names(&a), ["a", "k"]);
    assert_eq!((a.outstanding, a.usages.len()), (1, 2));
}

#[test]
fn entries_that_are_given_up() {
    let mut a = app(&[]);
    press(&mut a, Key::Char('a'));
    type_in(&mut a, "q");
    assert!(!a.quit);
    press(&mut a, Key::Esc);
    assert!(a.editing.is_none() && !a.quit && a.keys.is_empty());
    press(&mut a, Key::Char('a'));
    press(&mut a, Key::Backspace);
    assert_eq!(a.editing.as_deref(), Some(""));
    assert_eq!(press(&mut a, Key::Enter), (false, 0));
    assert!(a.editing.is_none() && a.keys.is_empty());
}

#[test]
fn moving_the_selection() {
    let mut a = app(&["a", "b", "c"]);
    press(&mut a, Key::Up);
    assert_eq!(a.selected, 2);
    press(&mut a, Key::Down);
    assert_eq!(a.selected, 0);
    press(&mut a, Key::Tab);
    assert_eq!(a.selected, 1);
    press(&mut a, Key::Down);
    press(&mut a, Key::Up);
    assert_eq!(a.selected, 1);
    let mut none = app(&[]);
    press(&mut none, Key::Down);
    press(&mut none, Key::Up);
    press(&mut none, Key::Enter);
    assert_eq!((none.selected, none.view), (0, false));
}

#[test]
fn deleting_keys() {
    let mut a = app(&["a", "b", "c"]);
    a.handle_key(plain(Key::Char('v')));
    press(&mut a, Key::Down);
    assert_eq!(press(&mut a, Key::Char('d')), (true, 0));
    assert_eq!((names(&a), a.selected), (vec!["a", "c"], 1));
    press(&mut a, Key::Char('d'));
    assert_eq!((names(&a), a.selected, a.usages.len()), (vec!["a"], 0, 1));
    assert!(a.view);
    press(&mut a, Key::Char('d'));
    assert!(a.keys.is_empty() && !a.view);
    assert_eq!(press(&mut a, Key::Char('d')), (false, 0));
}

#[test]
fn deleting_an_added_key() {
    let mut a = app(&["a"]);
    a.start_fetch();
    press(&mut a, Key::Char('a'));
    type_in(&mut a, "k");
    press(&mut a, Key::Enter);
    press(&mut a, Key::Char('d'));
    assert_eq!((names(&a), a.usages.len()), (vec!["a"], 1));
}

#[test]
fn views_and_the_end() {
    let mut a = app(&["a"]);
    press(&mut a, Key::Enter);
    assert!(a.view);
    press(&mut a, Key::Left);
    assert!(!a.view);
    press(&mut a, Key::Right);
    press(&mut a, Key::Esc);
    assert!(!a.view && !a.quit);
    press(&mut a, Key::Char('v'));
    press(&mut a, Key::Char('v'));
    assert!(!a.view);
    press(&mut a, Key::Other);
    press(&mut a, Key::Char('x'));
    assert!(!a.quit);
    press(&mut a, Key::Esc);
    assert!(a.quit);
    let mut b = app(&[]);
    press(&mut b, Key::Char('q'));
    assert!(b.quit);
    let mut c = app(&["a"]);
    assert_eq!(press(&mut c, Key::Char('r')), (false, 1));
    assert_eq!(press(&mut c, Key::Char('r')), (false, 0));
}

#[test]
fn control_c_always_quits() {
    let stop = KeyPress { code: Key::Char('c'), control: true };
    let mut a = app(&["a"]);
    press(&mut a, Key::Char('a'));
    type_in(&mut a, "x");
    a.handle_key(KeyPress { code: Key::Char('y'), control: true });
    a.handle_key(stop);
    assert!(a.quit);
    assert_eq!(a.editing.as_deref(), Some("xy"));
}

#[test]
fn pastes() {
    let mut a = app(&[]);
    a.handle_input(Input::Paste("lost".to_string()));
    assert!(a.editing.is_none());
    press(&mut a, Key::Char('a'));
    type_in(&mut a, "l,");
    a.handle_input(Input::Paste("k1".to_string()));
    assert_eq!(a.editing.as_deref(), Some("l,k1"));
    a.handle_input(Input::Key { pressed: false, key: plain(Key::Enter) });
    a.handle_input(Input::Other);
    assert!(a.editing.is_some());
    let e = a.handle_input(Input::Key { pressed: true, key: plain(Key::Enter) });
    assert!(e.save);
    assert_eq!(e.fetch.len(), 1);
}
