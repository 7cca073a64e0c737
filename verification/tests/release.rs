use ollama_shepherd::json::parse;
use ollama_shepherd::net::Body;
use ollama_shepherd::release::{
    current_version, download_request, is_at_most, latest_release, parse_version, pick_release,
    release_request, target_asset, Os, Platform, VERSION,
};

const LINUX: Platform = Platform { os: Os::Linux, x86_64: true };
const ASSET: &str = "ollama-shepherd-x86_64-unknown-linux-gnu.tar.gz";

#[test]
fn versions() {
    assert_eq!(parse_version("v0.2.1"), (0, 2, 1));
    assert_eq!(parse_version(" 1.20.300\n"), (1, 20, 300));
    assert_eq!(parse_version("v1"), (1, 0, 0));
    assert_eq!(parse_version("v1.x.3"), (1, 0, 3));
    assert_eq!(parse_version("vv1.2.3"), (0, 2, 3));
    assert_eq!(parse_version("1.2.3-beta"), (1, 2, 0));
    assert_eq!(parse_version("1.2.3.4"), (1, 2, 3));
    assert_eq!(parse_version(""), (0, 0, 0));
    assert_eq!(parse_version("v"), (0, 0, 0));
    assert_eq!(current_version(), (0, 2, 1));
    assert_eq!(current_version(), parse_version(VERSION));
}

#[test]
fn order_of_versions_is_that_of_tuples() {
    let all = [(0, 0, 0), (0, 0, 1), (0, 1, 0), (0, 2, 1), (1, 0, 0), (0, 10, 0), (1, 2, 3)];
    for a in all {
        for b in all {
            assert_eq!(is_at_most(a, b), a <= b);
        }
    }
}

#[test]
fn files_for_platforms() {
    assert_eq!(target_asset(LINUX), Some(ASSET));
    assert_eq!(
        target_asset(Platform { os: Os::Windows, x86_64: true }),
        Some("ollama-shepherd-x86_64-pc-windows-msvc.zip")
    );
    assert_eq!(target_asset(Platform { os: Os::Linux, x86_64: false }), None);
    assert_eq!(target_asset(Platform { os: Os::Windows, x86_64: false }), None);
    assert_eq!(target_asset(Platform { os: Os::OtherUnix, x86_64: true }), None);
    assert_eq!(target_asset(Platform { os: Os::Other, x86_64: true }), None);
}

#[test]
fn requests() {
    let r = release_request();
    assert_eq!(
        r.url,
        "https://api.github.com/repos/gianni-bischoff/OllamaShepherd/releases/latest"
    );
    assert_eq!(r.headers[0], ("User-Agent".to_string(), "ollama-shepherd-updater".to_string()));
    assert_eq!(r.headers[1], ("Accept".to_string(), "application/vnd.github+json".to_string()));
    assert_eq!((r.headers.len(), r.timeout_secs), (2, 30));
    let r = download_request("u");
    assert_eq!((r.url.as_str(), r.headers.len(), r.timeout_secs), ("u", 1, 300));
}

#[test]
fn a_release_with_the_file() {
    let text = format!(
        r#"{{"tag_name":"v9.0.0","assets":[{{"name":"other"}},
            {{"name":"{ASSET}","browser_download_url":"u1"}},
            {{"name":"{ASSET}","browser_download_url":"u2"}}]}}"#
    );
    let reply = Ok(Body::Read(text.into_bytes()));
    assert_eq!(latest_release(&reply, LINUX), Ok(("v9.0.0".to_string(), "u1".to_string())));
    let other = Platform { os: Os::Other, x86_64: true };
    assert_eq!(latest_release(&reply, other), Err("unsupported platform".to_string()));
}

#[test]
fn releases_without_the_file() {
    let missing = "release t has no asset 'x' — pipeline may still be running".to_string();
    for text in [
        r#"{"tag_name":"t"}"#,
        r#"{"tag_name":"t","assets":{}}"#,
        r#"{"tag_name":"t","assets":[]}"#,
        r#"{"tag_name":"t","assets":[{"name":"x"},{"name":"x","browser_download_url":"u"}]}"#,
        r#"{"tag_name":"t","assets":[{"name":"x","browser_download_url":1}]}"#,
    ] {
        assert_eq!(pick_release(&parse(text.as_bytes()).unwrap(), Some("x")), Err(missing.clone()));
    }
    assert_eq!(
        pick_release(&parse(br#"{"tag_name":1}"#).unwrap(), None),
        Err("response missing tag_name".to_string())
    );
    assert_eq!(
        pick_release(&parse(br#"{"tag_name":"t"}"#).unwrap(), None),
        Err("unsupported platform".to_string())
    );
}

#[test]
fn no_release() {
    assert_eq!(
        latest_release(&Err("down".to_string()), LINUX),
        Err("cannot reach GitHub: down".to_string())
    );
    let e = latest_release(&Ok(Body::Read(b"x".to_vec())), LINUX).unwrap_err();
    assert!(e.starts_with("bad response from GitHub: Failed to read JSON: "));
}
