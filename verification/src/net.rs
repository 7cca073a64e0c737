//! Requests to be sent and the bodies of the responses.
use crate::json;
use crate::json::{Json, Tree};
use crate::text;
use vstd::prelude::*;

verus! {

/// An HTTP request of the method GET.
#[derive(Debug)]
pub struct Request {
    pub url: String,
    pub headers: Vec<(String, String)>,
    pub timeout_secs: u64,
}

/// What a request asks for.
#[verifier::ext_equal]
pub struct RequestView {
    pub url: Seq<char>,
    pub headers: Seq<(Seq<char>, Seq<char>)>,
    pub timeout_secs: u64,
}

impl View for Request {
    type V = RequestView;

    open spec fn view(&self) -> RequestView {
        RequestView {
            url: self.url@,
            headers: self.headers@.map_values(|h: (String, String)| (h.0@, h.1@)),
            timeout_secs: self.timeout_secs,
        }
    }
}

/// The body of an HTTP response.
#[derive(Debug)]
pub enum Body {
    Read(Vec<u8>),
    /// The bytes up to where reading them failed, and how it did.
    Broken { read: Vec<u8>, timed_out: bool, message: String },
}

/// What the body of a response says, or the error to report.
pub open spec fn body_document(body: Body) -> Result<Tree, Seq<char>> {
    match body {
        Body::Read(bytes) => match json::document(bytes@) {
            Ok(t) => Ok(t),
            Err(e) => Err("Failed to read JSON: "@ + e),
        },
        Body::Broken { read, timed_out, message } => {
            let (late, e) = json::cut_off(read@, timed_out, message@);
            if late {
                Err(e)
            } else {
                Err("Failed to read JSON: "@ + e)
            }
        },
    }
}

/// What the body of a response says, or the error to report.
pub fn read_body(body: &Body) -> (r: Result<Json, String>)
    ensures
        match r {
            Ok(j) => body_document(*body) == Ok::<Tree, Seq<char>>(j.tree()),
            Err(e) => body_document(*body) == Err::<Tree, Seq<char>>(e@),
        },
{
    let mut failure = "Failed to read JSON: ".to_owned();
    match body {
        Body::Read(bytes) => match json::parse(bytes.as_slice()) {
            Ok(j) => Ok(j),
            Err(e) => {
                failure.append(e.as_str());
                Err(failure)
            },
        },
        Body::Broken { read, timed_out, message } => {
            let (late, e) = json::parse_cut_off(read.as_slice(), *timed_out, message.as_str());
            if late {
                Err(e)
            } else {
                failure.append(e.as_str());
                Err(failure)
            }
        },
    }
}

/// A body that was read to the end says what its bytes say; where they say nothing, and where reading
/// them failed, there is an error, and it ends with the message of the parser.
pub proof fn law_body_says_what_its_bytes_say(bytes: Vec<u8>, timed_out: bool, message: String)
    ensures
        json::document(bytes@) matches Ok(t) ==> body_document(Body::Read(bytes)) == Ok::<
            Tree,
            Seq<char>,
        >(t),
        json::document(bytes@) matches Err(e) ==> (body_document(Body::Read(bytes)) matches Err(m)
            && text::ends_with(m, e)),
        body_document(Body::Broken { read: bytes, timed_out, message }) matches Err(m)
            && text::ends_with(m, json::cut_off(bytes@, timed_out, message@).1),
{
    let prefix = "Failed to read JSON: "@;
    if let Err(e) = json::document(bytes@) {
        text::lemma_ends_with(prefix, e);
    }
    let cut = json::cut_off(bytes@, timed_out, message@).1;
    text::lemma_ends_with(prefix, cut);
    assert(cut.skip(0) =~= cut);
}

} // verus!
