use ollama_shepherd::net::Body;
use ollama_shepherd::release::{target_asset, Os, Platform};
use ollama_shepherd::update::{run, Action, CommandEnd, Download, Event, Stage, Step, Updater};

const LINUX: Platform = Platform { os: Os::Linux, x86_64: true };
const WINDOWS: Platform = Platform { os: Os::Windows, x86_64: true };

fn release(tag: &str, platform: Platform) -> Event {
    let asset = target_asset(platform).unwrap();
    let text = format!(
        r#"{{"tag_name":"{tag}","assets":[{{"name":"{asset}","browser_download_url":"https://u"}}]}}"#
    );
    Event::Release(Ok(Body::Read(text.into_bytes())))
}

fn located() -> Event {
    Event::Located { has_dir: true, millis: 123 }
}

fn staged() -> Event {
    Event::Staged { archive: "/d/a".to_string(), stage: "/d/s".to_string() }
}

fn listed(names: &[&str]) -> Event {
    Event::Listed(names.iter().map(|n| n.to_string()).collect())
}

fn feed(u: &mut Updater, event: Event) -> Step {
    assert!(u.awaits(&event));
    u.step(event)
}

fn error(u: &mut Updater, event: Event) -> (bool, String) {
    let s = feed(u, event);
    assert_eq!(u.stage, Stage::Done);
    assert!(!u.awaits(&Event::Cleaned));
    match s.action {
        Action::Fail { roll_back, error } => (roll_back, error),
        other => panic!("{other:?}"),
    }
}

fn at(platform: Platform, stage: Stage) -> Updater {
    let (mut u, _) = run(false, platform);
    u.tag = "v9.0.0".to_string();
    u.stage = stage;
    u
}

#[test]
fn an_update_on_linux() {
    let (mut u, s) = run(false, LINUX);
    assert_eq!(s.say, ["🐑 ollama-shepherd v0.2.1 — checking for updates…"]);
    assert!(matches!(s.action, Action::Ask(_)));
    let s = feed(&mut u, release("v9.0.0", LINUX));
    assert_eq!(s.say, ["⬆ update available: v0.2.1 → v9.0.0"]);
    assert!(matches!(s.action, Action::Locate));
    let s = feed(&mut u, located());
    assert_eq!(s.say, ["⇣ downloading ollama-shepherd-x86_64-unknown-linux-gnu.tar.gz…"]);
    match s.action {
        Action::Fetch { request, archive, stage } => {
            assert_eq!(request.url, "https://u");
            assert_eq!(archive, ".shepherd-update-123.pkg");
            assert_eq!(stage, ".shepherd-update-123");
        }
        other => panic!("{other:?}"),
    }
    let s = feed(&mut u, Event::Downloaded(Download::Complete));
    assert!(matches!(s.action, Action::MakeStage));
    match feed(&mut u, staged()).action {
        Action::Run { program, args } => {
            assert_eq!(program, "tar");
            assert_eq!(args, ["xzf", "/d/a", "-C", "/d/s"]);
        }
        other => panic!("{other:?}"),
    }
    let s = feed(&mut u, Event::Extracted(CommandEnd::Success));
    assert!(matches!(s.action, Action::List));
    let s = feed(&mut u, listed(&["README.md", "ollama-shepherd", "ollama-shepherd"]));
    assert!(matches!(s.action, Action::Permit(1)));
    let s = feed(&mut u, Event::Moved(Ok(())));
    assert!(matches!(s.action, Action::Install(1)));
    let s = feed(&mut u, Event::Moved(Ok(())));
    assert!(matches!(s.action, Action::CleanUp { old: false }));
    let s = feed(&mut u, Event::Cleaned);
    assert!(matches!(s.action, Action::Finish));
    assert_eq!(
        s.say,
        [
            "✓ updated to v9.0.0",
            "  release notes: https://github.com/gianni-bischoff/OllamaShepherd/releases/tag/v9.0.0",
            "  restart ollama-shepherd to use the new version."
        ]
    );
}

#[test]
fn an_update_on_windows() {
    let (mut u, _) = run(false, WINDOWS);
    feed(&mut u, release("v9.0.0", WINDOWS));
    feed(&mut u, located());
    feed(&mut u, Event::Downloaded(Download::Complete));
    match feed(&mut u, staged()).action {
        Action::Run { program, args } => {
            assert_eq!(program, "powershell");
            assert_eq!(
                args,
                [
                    "-NoProfile",
                    "-Command",
                    "Expand-Archive -LiteralPath '/d/a' -DestinationPath '/d/s' -Force"
                ]
            );
        }
        other => panic!("{other:?}"),
    }
    feed(&mut u, Event::Extracted(CommandEnd::Success));
    let s = feed(&mut u, listed(&["ollama-shepherd.exe"]));
    assert!(matches!(s.action, Action::MoveAside));
    let s = feed(&mut u, Event::Moved(Ok(())));
    assert!(matches!(s.action, Action::Install(0)));
    let s = feed(&mut u, Event::Moved(Ok(())));
    assert!(matches!(s.action, Action::CleanUp { old: true }));
}

#[test]
fn nothing_newer() {
    for tag in ["v0.2.1", "v0.2.0", "0.1.9", "nightly"] {
        let (mut u, _) = run(false, LINUX);
        let s = feed(&mut u, release(tag, LINUX));
        assert_eq!(s.say, [format!("✓ already up to date (v0.2.1 ≥ {tag})")]);
        assert!(matches!(s.action, Action::Finish));
    }
}

#[test]
fn only_a_check() {
    let (mut u, _) = run(true, LINUX);
    let s = feed(&mut u, release("v0.3", LINUX));
    assert_eq!(
        s.say,
        ["⬆ update available: v0.2.1 → v0.3", "  run `ollama-shepherd update` to install"]
    );
    assert!(matches!(s.action, Action::Finish));
    assert_eq!(u.stage, Stage::Done);
}

#[test]
fn failures() {
    let text = |s: &str| s.to_string();
    let fails = |stage: Stage, event: Event| error(&mut at(LINUX, stage), event);
    let plain = |s: &str| (false, s.to_string());
    assert_eq!(
        fails(Stage::Checking, Event::Release(Err(text("e")))),
        plain("cannot reach GitHub: e")
    );
    assert_eq!(
        fails(Stage::Locating, Event::NotLocated(text("e"))),
        plain("cannot locate own binary: e")
    );
    assert_eq!(
        fails(Stage::Locating, Event::Located { has_dir: false, millis: 0 }),
        plain("cannot resolve install dir")
    );
    assert_eq!(
        fails(Stage::Downloading, Event::Downloaded(Download::NotReached(text("e")))),
        plain("download failed: e")
    );
    assert_eq!(
        fails(
            Stage::Downloading,
            Event::Downloaded(Download::NotCreated { path: text("/p"), error: text("e") })
        ),
        plain("cannot create /p: e")
    );
    assert_eq!(
        fails(Stage::Downloading, Event::Downloaded(Download::Interrupted(text("e")))),
        plain("download failed: e")
    );
    assert_eq!(fails(Stage::Staging, Event::NotStaged(text("e"))), plain("cannot stage: e"));
    assert_eq!(
        fails(Stage::Extracting, Event::Extracted(CommandEnd::NotStarted(text("e")))),
        plain("failed to run tar: e")
    );
    assert_eq!(
        fails(Stage::Extracting, Event::Extracted(CommandEnd::Failed(text("exit status: 2")))),
        plain("tar exited with exit status: 2")
    );
    assert_eq!(
        fails(Stage::Searching, listed(&["ollama-shepherd.exe"])),
        plain("archive did not contain the binary")
    );
    assert_eq!(fails(Stage::Permitting, Event::Moved(Err(text("e")))), plain("chmod failed: e"));
    assert_eq!(fails(Stage::Installing, Event::Moved(Err(text("e")))), plain("install failed: e"));
}

#[test]
fn a_failed_install_is_rolled_back() {
    let mut u = at(WINDOWS, Stage::Installing);
    assert_eq!(
        error(&mut u, Event::Moved(Err("e".to_string()))),
        (true, "install failed: e".to_string())
    );
    let mut u = at(WINDOWS, Stage::MovingAside);
    assert_eq!(
        error(&mut u, Event::Moved(Err("e".to_string()))),
        (false, "rename failed: e".to_string())
    );
}

#[test]
fn events_out_of_turn() {
    let (u, _) = run(false, LINUX);
    assert!(!u.awaits(&located()));
    assert!(!u.awaits(&Event::Cleaned));
    let u = at(LINUX, Stage::Installing);
    assert!(!u.awaits(&staged()));
    assert!(u.awaits(&Event::Moved(Ok(()))));
}

#[test]
fn platforms_without_modes() {
    let mut u = at(Platform { os: Os::Other, x86_64: true }, Stage::Searching);
    let s = feed(&mut u, listed(&["ollama-shepherd"]));
    assert!(matches!(s.action, Action::Install(0)));
    let mut u = at(Platform { os: Os::OtherUnix, x86_64: true }, Stage::Searching);
    let s = feed(&mut u, listed(&["ollama-shepherd"]));
    assert!(matches!(s.action, Action::Permit(0)));
}
