use ollama_shepherd::json::{parse, Json};
use ollama_shepherd::net::Body;
use ollama_shepherd::ollama::{
    cap, fetch_usage, is_well_named, parse_usage, rank, ranks_before, status_error, usage_request,
    window_models, window_usage, Reply, Usage,
};

fn doc(text: &str) -> Json {
    parse(text.as_bytes()).unwrap()
}

fn pair(name: &str, n: u64) -> (String, u64) {
    (name.to_string(), n)
}

fn answer(text: &str) -> Reply {
    Reply::Answer(Body::Read(text.as_bytes().to_vec()))
}

#[test]
fn names_of_windows() {
    assert_eq!(cap("weekly"), "Weekly");
    assert_eq!(cap(""), "");
    assert_eq!(cap("ärz"), "Ärz");
}

#[test]
fn ranks_of_windows() {
    assert_eq!(rank("Monthly"), (0, String::new()));
    assert_eq!(rank("Weekly"), (1, String::new()));
    assert_eq!(rank("Session"), (2, String::new()));
    assert_eq!(rank("Daily"), (3, "Daily".to_string()));
    assert!(ranks_before("Monthly", "Weekly"));
    assert!(ranks_before("Weekly", "Session"));
    assert!(ranks_before("Session", "Daily"));
    assert!(ranks_before("Daily", "Hourly"));
    assert!(!ranks_before("Hourly", "Daily"));
    assert!(!ranks_before("Weekly", "Weekly"));
}

#[test]
fn usage_of_a_window() {
    let bits = |x: f64| Some(x.to_bits());
    assert_eq!(window_usage(&doc(r#"{"usage":0.25}"#)), bits(0.25));
    assert_eq!(window_usage(&doc(r#"{"used":3,"used_percentage":40}"#)), bits(40.0));
    assert_eq!(window_usage(&doc(r#"{"used":3}"#)), bits(3.0));
    assert_eq!(window_usage(&doc(r#"{"usage":"x","used":0.5}"#)), bits(0.5));
    assert_eq!(window_usage(&doc(r#"{"usage":1,"used":0.5}"#)), bits(1.0));
    assert_eq!(window_usage(&doc(r#"{}"#)), None);
    assert_eq!(window_usage(&doc(r#"7"#)), None);
}

#[test]
fn models_of_a_window() {
    let w = doc(
        r#"{"models":[
            {"name":"a","request_count":1},
            {"model":"b","requests":9},
            {"name":3,"model":"c","count":9},
            {"model":"d","request_count":"x","requests":5},
            {"count":-1},
            7
        ]}"#,
    );
    let expected = vec![
        pair("b", 9), pair("?", 9), pair("a", 1), pair("d", 0), pair("?", 0), pair("?", 0),
    ];
    assert_eq!(window_models(&w), expected);
    assert!(window_models(&doc(r#"{"models":{}}"#)).is_empty());
    assert!(window_models(&doc(r#"{}"#)).is_empty());
}

#[test]
fn a_full_report() {
    let v = doc(
        r#"{"limits":{
            "session":{"usage":0.1,"models":[{"name":"s","request_count":2}]},
            "weekly":{"usage":0.2,"models":[{"name":"w","request_count":3},{"name":"x","request_count":4}]},
            "hourly":{"usage":0.4},
            "daily":{"used":0.3},
            "monthly":{"usage":0.5},
            "broken":{"limit":5}
        }}"#,
    );
    let (windows, models, window) = parse_usage(&v);
    let bits = |x: f64| x.to_bits();
    assert_eq!(
        windows,
        vec![
            pair("Monthly", bits(0.5)),
            pair("Weekly", bits(0.2)),
            pair("Session", bits(0.1)),
            pair("Daily", bits(0.3)),
            pair("Hourly", bits(0.4)),
        ]
    );
    assert_eq!(models, vec![pair("x", 4), pair("w", 3)]);
    assert_eq!(window, Some("Weekly".to_string()));
}

#[test]
fn the_primary_window() {
    let v = doc(
        r#"{"limits":{"weekly":{"usage":0,"models":[]},
            "monthly":{"usage":0,"models":[{"name":"m"}]},
            "session":{"usage":0,"models":[{"name":"s"}]}}}"#,
    );
    let (_, models, window) = parse_usage(&v);
    assert_eq!((models, window), (vec![pair("s", 0)], Some("Session".to_string())));

    let v = doc(
        r#"{"limits":{"daily":{"usage":0,"models":[{"name":"d"}]},
            "monthly":{"usage":0,"models":[{"name":"m"}]}}}"#,
    );
    let (_, models, window) = parse_usage(&v);
    assert_eq!((models, window), (vec![pair("m", 0)], Some("Monthly".to_string())));

    let v = doc(
        r#"{"limits":{"b":{"usage":0,"models":[{"name":"1"}]},"a":{"usage":0},
            "c":{"usage":0,"models":[{"name":"2"}]},
            "weekly":{"models":[{"name":"unread"}]}},
            "activity":{"models":[{"name":"z"}]}}"#,
    );
    let (_, models, window) = parse_usage(&v);
    assert_eq!((models, window), (vec![pair("1", 0)], Some("B".to_string())));
}

#[test]
fn activity_stands_in() {
    let v = doc(
        r#"{"limits":{"weekly":{"usage":1}},
            "activity":{"models":[{"name":"a","count":1},{"name":"b","count":2}]}}"#,
    );
    let (windows, models, window) = parse_usage(&v);
    assert_eq!(windows, vec![pair("Weekly", 1f64.to_bits())]);
    assert_eq!(models, vec![pair("b", 2), pair("a", 1)]);
    assert_eq!(window, Some("Last 4 weeks".to_string()));

    let (_, models, window) = parse_usage(&doc(r#"{"activity":{"models":[]}}"#));
    assert!(models.is_empty());
    assert_eq!(window, Some("Last 4 weeks".to_string()));

    let (windows, models, window) = parse_usage(&doc(r#"{"activity":{}}"#));
    assert!(windows.is_empty() && models.is_empty() && window.is_none());
}

#[test]
fn equal_labels_keep_their_places() {
    let v = doc(r#"{"limits":{"weekly":{"usage":1},"Weekly":{"usage":2}}}"#);
    let (windows, _, _) = parse_usage(&v);
    assert_eq!(windows, vec![pair("Weekly", 2f64.to_bits()), pair("Weekly", 1f64.to_bits())]);
}

#[test]
fn names_that_cannot_be_capitalized() {
    assert!(!is_well_named(&doc(r#"{"limits":{"":{"usage":1}}}"#)));
    assert!(!is_well_named(&doc(r#"{"limits":{"é":{"usage":1}}}"#)));
    assert!(is_well_named(&doc(r#"{"limits":{"":{},"é":7}}"#)));
    assert!(fetch_usage(&answer(r#"{"limits":{"":{"usage":1}}}"#)).is_none());
}

#[test]
fn replies() {
    let u = fetch_usage(&answer(r#"{"limits":{"weekly":{"usage":0.5}}}"#)).unwrap();
    assert_eq!(u.error, None);
    assert_eq!(u.windows, vec![pair("Weekly", 0.5f64.to_bits())]);
    assert_eq!(u.models_window, None);

    let u = fetch_usage(&answer(r#"{"activity":{"models":[{"name":"a"}]}}"#)).unwrap();
    assert_eq!(u.error.as_deref(), Some("no usage windows in response"));
    assert_eq!(u.models, vec![pair("a", 0)]);

    let u = fetch_usage(&answer("nope")).unwrap();
    assert_eq!(
        u.error.as_deref(),
        Some("bad JSON: Failed to read JSON: expected ident at line 1 column 2")
    );
    let u = fetch_usage(&Reply::Failed("no route".to_string())).unwrap();
    assert_eq!(u.error.as_deref(), Some("network: no route"));
    assert!(u.windows.is_empty() && u.models.is_empty() && u.models_window.is_none());
    let u = fetch_usage(&Reply::Status(401, "no".to_string())).unwrap();
    assert_eq!(u.error.as_deref(), Some("HTTP 401 invalid API key · no"));
}

#[test]
fn statuses() {
    assert_eq!(status_error(429, "slow"), "HTTP 429 rate limited · slow");
    assert_eq!(status_error(500, ""), "HTTP 500 API error · ");
    let long = "é".repeat(130);
    assert_eq!(status_error(404, &long), format!("HTTP 404 API error · {}", "é".repeat(120)));
}

#[test]
fn request_for_the_usage_of_a_key() {
    let r = usage_request("ok-1");
    assert_eq!(r.url, "https://ollama.com/api/usage");
    assert_eq!(r.headers, vec![("Authorization".to_string(), "Bearer ok-1".to_string())]);
    assert_eq!(r.timeout_secs, 15);
}

#[test]
fn a_usage_of_nothing() {
    let u = Usage::default();
    assert!(u.error.is_none() && u.windows.is_empty());
    assert!(u.models.is_empty() && u.models_window.is_none());
    let v = Usage { error: Some("e".to_string()), windows: vec![pair("w", 1)], ..u };
    let c = v.clone();
    assert_eq!(c.error.as_deref(), Some("e"));
    assert_eq!(c.windows, vec![pair("w", 1)]);
}
