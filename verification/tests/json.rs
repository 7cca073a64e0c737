use ollama_shepherd::json::{from_value, parse, Json};
use ollama_shepherd::net::{read_body, Body};
use std::io::{self, Read};

fn shown(j: &Json) -> String {
    format!("{:?}", j)
}

#[test]
fn every_kind_of_value() {
    let text = br#"{"t":"x","n":null,"b":true,"w":7,"f":0.5,"neg":-2,"l":[1,[]],"o":{}}"#;
    let j = parse(text).unwrap();
    assert_eq!(j.get("t").and_then(|v| v.text()), Some("x"));
    assert!(matches!(j.get("n"), Some(Json::Null)));
    assert!(matches!(j.get("b"), Some(Json::Bool(true))));
    assert_eq!(j.get("w").and_then(|v| v.whole()), Some(7));
    assert_eq!(j.get("w").and_then(|v| v.bits()), Some(7f64.to_bits()));
    assert_eq!(j.get("f").and_then(|v| v.whole()), None);
    assert_eq!(j.get("f").and_then(|v| v.bits()), Some(0.5f64.to_bits()));
    assert_eq!(j.get("neg").and_then(|v| v.whole()), None);
    assert_eq!(j.get("neg").and_then(|v| v.bits()), Some((-2f64).to_bits()));
    assert_eq!(j.get("l").and_then(|v| v.list()).map(|l| l.len()), Some(2));
    assert_eq!(j.get("o").and_then(|v| v.fields()).map(|f| f.len()), Some(0));
    assert!(j.get("missing").is_none());
    assert!(j.get("t").unwrap().get("x").is_none());
    assert!(j.get("t").unwrap().whole().is_none());
    assert!(j.get("t").unwrap().bits().is_none());
    assert!(j.get("w").unwrap().text().is_none());
    assert!(j.get("w").unwrap().list().is_none());
    assert!(j.get("l").unwrap().fields().is_none());
}

#[test]
fn fields_are_walked_by_name() {
    let j = parse(br#"{"b":1,"a":2}"#).unwrap();
    let names: Vec<&str> = j.fields().unwrap().iter().map(|f| f.0.as_str()).collect();
    assert_eq!(names, ["a", "b"]);
}

#[test]
fn the_last_field_of_a_name_counts() {
    let j = parse(br#"{"a":1,"a":2}"#).unwrap();
    assert_eq!(j.get("a").and_then(|v| v.whole()), Some(2));
    let twice = Json::Fields(vec![
        ("a".to_string(), Json::Bool(false)),
        ("a".to_string(), Json::Bool(true)),
    ]);
    assert!(matches!(twice.get("a"), Some(Json::Bool(true))));
}

#[test]
fn a_parsed_value_and_its_text_say_the_same() {
    let text = r#"{"a":[1,{"b":"c"}],"d":null}"#;
    let v: serde_json::Value = serde_json::from_str(text).unwrap();
    assert_eq!(shown(&from_value(&v)), shown(&parse(text.as_bytes()).unwrap()));
}

#[test]
fn what_is_no_document() {
    assert!(parse(b"").is_err());
    assert!(parse(b"{} x").is_err());
    assert_eq!(
        parse(b"[1,").unwrap_err(),
        serde_json::from_reader::<&[u8], serde_json::Value>(b"[1,").unwrap_err().to_string()
    );
}

#[test]
fn bodies() {
    assert!(read_body(&Body::Read(b"[]".to_vec())).is_ok());
    let e = read_body(&Body::Read(b"nope".to_vec())).unwrap_err();
    assert_eq!(e, "Failed to read JSON: expected ident at line 1 column 2");
}

/// A reader that gives some bytes and then fails.
struct Breaking<'a>(&'a [u8], io::ErrorKind);

impl Read for Breaking<'_> {
    fn read(&mut self, buf: &mut [u8]) -> io::Result<usize> {
        if self.0.is_empty() {
            return Err(io::Error::new(self.1, "lost"));
        }
        self.0.read(buf)
    }
}

fn broken(read: &[u8], timed_out: bool) -> String {
    let message = "lost".to_string();
    read_body(&Body::Broken { read: read.to_vec(), timed_out, message }).unwrap_err()
}

#[test]
fn broken_bodies() {
    assert_eq!(broken(b"", false), "Failed to read JSON: lost");
    assert_eq!(broken(b"", true), "lost");
    assert_eq!(broken(b"{\"a\":1}", false), "Failed to read JSON: lost");
    assert_eq!(broken(b"{\"a\":", false), "Failed to read JSON: lost at line 1 column 5");
    assert_eq!(broken(b"{\n\"a\"", true), "lost at line 2 column 3");
    let malformed = "Failed to read JSON: expected ident at line 1 column 2";
    assert_eq!(broken(b"nope", false), malformed);
    assert_eq!(broken(b"nope", true), malformed);
}

#[test]
fn broken_bodies_are_parsed_while_they_are_read() {
    let whole = b"{\"limits\":{\"weekly\":{\"usage\":-0.5e1,\"x\":[true,null,\"\\u00e9\"]}}} ";
    for n in 0..=whole.len() {
        for late in [false, true] {
            let kind = if late { io::ErrorKind::TimedOut } else { io::ErrorKind::ConnectionReset };
            let e = serde_json::from_reader::<_, serde_json::Value>(Breaking(&whole[..n], kind))
                .unwrap_err()
                .to_string();
            let expected = if late { e } else { format!("Failed to read JSON: {e}") };
            assert_eq!(broken(&whole[..n], late), expected);
        }
    }
}
