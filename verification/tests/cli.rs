use ollama_shepherd::cli::{command, Command};

fn args(list: &[&str]) -> Vec<String> {
    list.iter().map(|s| s.to_string()).collect()
}

#[test]
fn no_arguments_show_the_monitor() {
    assert!(matches!(command(&args(&[])), Command::Monitor));
}

#[test]
fn updates() {
    assert!(matches!(command(&args(&["update"])), Command::Update { check_only: false }));
    assert!(matches!(command(&args(&["update", "--check"])), Command::Update { check_only: true }));
    assert!(matches!(command(&args(&["update", "x", "-n"])), Command::Update { check_only: true }));
    assert!(matches!(command(&args(&["update", "-N"])), Command::Update { check_only: false }));
}

#[test]
fn the_version() {
    for flag in ["--version", "-V"] {
        match command(&args(&[flag])) {
            Command::Say(line) => assert_eq!(line, "ollama-shepherd v0.2.1"),
            other => panic!("{other:?}"),
        }
    }
}

#[test]
fn anything_else_is_refused() {
    match command(&args(&["--check", "update"])) {
        Command::Refuse(lines) => assert_eq!(
            lines,
            [
                "unknown command: --check",
                "usage: ollama-shepherd [update [--check] | --version]"
            ]
        ),
        other => panic!("{other:?}"),
    }
}
