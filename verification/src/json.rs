//! JSON documents as trees of plain values.
use crate::text::same;
use serde_json::Value;
use std::io::Read;
use vstd::prelude::*;

verus! {

/// What a JSON document says.
#[verifier::ext_equal]
pub enum Tree {
    Null,
    Bool(bool),
    /// `whole` is the number as an unsigned 64-bit integer, if it is one; `bits` is the bit
    /// pattern of the nearest double-precision number.
    Number { whole: Option<u64>, bits: Option<u64> },
    Text(Seq<char>),
    List(Seq<Tree>),
    /// The fields in the order in which they are walked.
    Fields(Seq<(Seq<char>, Tree)>),
}

/// The value of the field `key`; of several, the last.
pub open spec fn field(fields: Seq<(Seq<char>, Tree)>, key: Seq<char>) -> Option<Tree>
    decreases fields.len(),
{
    if fields.len() == 0 {
        None
    } else if fields.last().0 == key {
        Some(fields.last().1)
    } else {
        field(fields.drop_last(), key)
    }
}

impl Tree {
    /// The field `key` of an object; a document of another kind has none.
    pub open spec fn get(self, key: Seq<char>) -> Option<Tree> {
        match self {
            Tree::Fields(fields) => field(fields, key),
            _ => None,
        }
    }

    pub open spec fn text(self) -> Option<Seq<char>> {
        match self {
            Tree::Text(s) => Some(s),
            _ => None,
        }
    }

    pub open spec fn whole(self) -> Option<u64> {
        match self {
            Tree::Number { whole, .. } => whole,
            _ => None,
        }
    }

    pub open spec fn bits(self) -> Option<u64> {
        match self {
            Tree::Number { bits, .. } => bits,
            _ => None,
        }
    }

    pub open spec fn list(self) -> Option<Seq<Tree>> {
        match self {
            Tree::List(items) => Some(items),
            _ => None,
        }
    }

    pub open spec fn fields(self) -> Option<Seq<(Seq<char>, Tree)>> {
        match self {
            Tree::Fields(fields) => Some(fields),
            _ => None,
        }
    }
}

/// A JSON document.
#[derive(Debug)]
pub enum Json {
    Null,
    Bool(bool),
    Number { whole: Option<u64>, bits: Option<u64> },
    Text(String),
    List(Vec<Json>),
    Fields(Vec<(String, Json)>),
}

/// What each of the documents says.
pub open spec fn trees(items: Seq<Json>) -> Seq<Tree> {
    items.map_values(|j: Json| j.tree())
}

/// What each of the fields says.
pub open spec fn field_trees(fields: Seq<(String, Json)>) -> Seq<(Seq<char>, Tree)> {
    fields.map_values(|f: (String, Json)| (f.0@, f.1.tree()))
}

impl Json {
    /// What the document says.
    pub open spec fn tree(self) -> Tree
        decreases self,
    {
        match self {
            Json::Null => Tree::Null,
            Json::Bool(b) => Tree::Bool(b),
            Json::Number { whole, bits } => Tree::Number { whole, bits },
            Json::Text(s) => Tree::Text(s@),
            Json::List(items) => Tree::List(
                Seq::new(
                    items@.len(),
                    |i: int|
                        if 0 <= i < items@.len() {
                            items@[i].tree()
                        } else {
                            Tree::Null
                        },
                ),
            ),
            Json::Fields(fields) => Tree::Fields(
                Seq::new(
                    fields@.len(),
                    |i: int|
                        if 0 <= i < fields@.len() {
                            (fields@[i].0@, fields@[i].1.tree())
                        } else {
                            (Seq::empty(), Tree::Null)
                        },
                ),
            ),
        }
    }

    /// The field `key` of an object; of several, the last.
    pub fn get(&self, key: &str) -> (r: Option<&Json>)
        ensures
            match r {
                Some(j) => self.tree().get(key@) == Some(j.tree()),
                None => self.tree().get(key@) is None,
            },
    {
        match self {
            Json::Fields(fields) => {
                let ghost all = self.tree()->Fields_0;
                assert(all =~= field_trees(fields@));
                let mut i: usize = fields.len();
                assert(all.take(i as int) =~= all);
                while i > 0
                    invariant
                        i <= fields@.len(),
                        all == field_trees(fields@),
                        self.tree() == Tree::Fields(all),
                        field(all, key@) == field(all.take(i as int), key@),
                    decreases i,
                {
                    i = i - 1;
                    assert(all.take(i + 1).drop_last() =~= all.take(i as int));
                    if same(fields[i].0.as_str(), key) {
                        return Some(&fields[i].1);
                    }
                }
                None
            },
            _ => None,
        }
    }

    /// The text of a string.
    pub fn text(&self) -> (r: Option<&str>)
        ensures
            match r {
                Some(s) => self.tree().text() == Some(s@),
                None => self.tree().text() is None,
            },
    {
        match self {
            Json::Text(s) => Some(s.as_str()),
            _ => None,
        }
    }

    /// The value of an unsigned whole number.
    pub fn whole(&self) -> (r: Option<u64>)
        ensures
            r == self.tree().whole(),
    {
        match self {
            Json::Number { whole, .. } => *whole,
            _ => None,
        }
    }

    /// The bit pattern of a number.
    pub fn bits(&self) -> (r: Option<u64>)
        ensures
            r == self.tree().bits(),
    {
        match self {
            Json::Number { bits, .. } => *bits,
            _ => None,
        }
    }

    /// The items of an array.
    pub fn list(&self) -> (r: Option<&Vec<Json>>)
        ensures
            match r {
                Some(items) => self.tree().list() == Some(trees(items@)),
                None => self.tree().list() is None,
            },
    {
        match self {
            Json::List(items) => {
                assert(self.tree()->List_0 =~= trees(items@));
                Some(items)
            },
            _ => None,
        }
    }

    /// The fields of an object.
    pub fn fields(&self) -> (r: Option<&Vec<(String, Json)>>)
        ensures
            match r {
                Some(fields) => self.tree().fields() == Some(field_trees(fields@)),
                None => self.tree().fields() is None,
            },
    {
        match self {
            Json::Fields(fields) => {
                assert(self.tree()->Fields_0 =~= field_trees(fields@));
                Some(fields)
            },
            _ => None,
        }
    }
}

/// `serde_json::Value`, a parsed document.
#[verifier::external_type_specification]
#[verifier::external_body]
pub struct ExValue(Value);

/// What a parsed value says.
pub uninterp spec fn content(v: Value) -> Tree;

/// What `serde_json::from_reader` makes of a text that holds one JSON document: what the
/// document says, or the message of the error.
pub uninterp spec fn document(text: Seq<u8>) -> Result<Tree, Seq<char>>;

/// One level of a parsed value.
enum Parts<'a> {
    Null,
    Bool(bool),
    Number { whole: Option<u64>, bits: Option<u64> },
    Text(&'a String),
    List(&'a Vec<Value>),
    Fields(Vec<(&'a String, &'a Value)>),
}

spec fn parts_tree(p: Parts<'_>) -> Tree {
    match p {
        Parts::Null => Tree::Null,
        Parts::Bool(b) => Tree::Bool(b),
        Parts::Number { whole, bits } => Tree::Number { whole, bits },
        Parts::Text(s) => Tree::Text(s@),
        Parts::List(items) => Tree::List(items@.map_values(|v: Value| content(v))),
        Parts::Fields(fields) => Tree::Fields(
            fields@.map_values(|f: (&String, &Value)| (f.0@, content(*f.1))),
        ),
    }
}

/// `serde_json::from_reader` on bytes in memory. What it makes of a text has a name; of an error
/// only the message is kept.
#[verifier::external_body]
fn parse_value(text: &[u8]) -> (r: Result<Value, String>)
    ensures
        match r {
            Ok(v) => document(text@) == Ok::<Tree, Seq<char>>(content(v)),
            Err(e) => document(text@) == Err::<Tree, Seq<char>>(e@),
        },
{
    serde_json::from_reader(text).map_err(|e: serde_json::Error| e.to_string())
}

/// `std::io::Error`, the failure of a reader.
#[verifier::external_type_specification]
#[verifier::external_body]
pub struct ExIoError(std::io::Error);

/// What a failure says: whether its kind is that of a time-out, and its message.
pub uninterp spec fn failure(e: std::io::Error) -> (bool, Seq<char>);

/// What `serde_json::from_reader` makes of a reader that gives these bytes and then fails, with the kind
/// of a time-out or another and with this message: whether the error that it reports is a failure of
/// that kind, and the message of the error. It may be one in the bytes, or the failure.
pub uninterp spec fn cut_off(read: Seq<u8>, timed_out: bool, message: Seq<char>) -> (bool, Seq<char>);

/// `std::io::Error::new`: a failure of this kind that says this message.
#[verifier::external_body]
fn io_error(timed_out: bool, message: &str) -> (r: std::io::Error)
    ensures
        failure(r) == (timed_out, message@),
{
    let kind = if timed_out {
        std::io::ErrorKind::TimedOut
    } else {
        std::io::ErrorKind::Other
    };
    std::io::Error::new(kind, message)
}

/// A reader that gives nothing but a failure.
pub struct Failing {
    pub timed_out: bool,
    pub message: String,
}

impl Read for Failing {
    fn read(&mut self, buf: &mut [u8]) -> (r: Result<usize, std::io::Error>)
        ensures
            r matches Err(e) && failure(e) == (old(self).timed_out, old(self).message@),
            *final(self) == *old(self),
            final(buf)@ == old(buf)@,
    {
        Err(io_error(self.timed_out, self.message.as_str()))
    }
}

/// `serde_json::from_reader` on bytes in memory and a failure behind them. It reads on until an error
/// in the bytes or to the failure, so there is always an error, and what it says has a name.
#[verifier::external_body]
fn parse_then_fail(read: &[u8], rest: Failing) -> (r: Result<Value, (bool, String)>)
    ensures
        match r {
            Ok(_) => false,
            Err(e) => cut_off(read@, rest.timed_out, rest.message@) == (e.0, e.1@),
        },
{
    serde_json::from_reader(read.chain(rest)).map_err(
        |e: serde_json::Error|
            (e.io_error_kind() == Some(std::io::ErrorKind::TimedOut), e.to_string()),
    )
}

/// The variants of `serde_json::Value`, with `Number::as_u64` and `Number::as_f64` for a number
/// and `Map::iter` for an object: what a value says is what its parts say.
#[verifier::external_body]
fn parts<'a>(v: &'a Value) -> (r: Parts<'a>)
    ensures
        content(*v) == parts_tree(r),
{
    match v {
        Value::Null => Parts::Null,
        Value::Bool(b) => Parts::Bool(*b),
        Value::Number(n) => Parts::Number {
            whole: n.as_u64(),
            bits: n.as_f64().map(|x| x.to_bits()),
        },
        Value::String(s) => Parts::Text(s),
        Value::Array(items) => Parts::List(items),
        Value::Object(fields) => Parts::Fields(fields.iter().collect()),
    }
}

/// The document that a parsed value holds.
pub fn from_value(v: &Value) -> (r: Json)
    ensures
        r.tree() == content(*v),
    decreases content(*v),
{
    match parts(v) {
        Parts::Null => Json::Null,
        Parts::Bool(b) => Json::Bool(b),
        Parts::Number { whole, bits } => Json::Number { whole, bits },
        Parts::Text(s) => Json::Text(s.clone()),
        Parts::List(items) => {
            let mut out: Vec<Json> = Vec::new();
            for i in 0..items.len()
                invariant
                    content(*v) == parts_tree(Parts::List(items)),
                    out@.len() == i,
                    forall|j: int| 0 <= j < i ==> (#[trigger] out@[j]).tree() == content(items@[j]),
            {
                let ghost inner = content(*v)->List_0;
                assert(inner[i as int] == content(items@[i as int]));
                assert(decreases_to!(content(*v) => inner[i as int]));
                out.push(from_value(&items[i]));
            }
            let r = Json::List(out);
            assert(r.tree()->List_0 =~= content(*v)->List_0);
            r
        },
        Parts::Fields(fields) => {
            let mut out: Vec<(String, Json)> = Vec::new();
            for i in 0..fields.len()
                invariant
                    content(*v) == parts_tree(Parts::Fields(fields)),
                    out@.len() == i,
                    forall|j: int|
                        0 <= j < i ==> (#[trigger] out@[j]).0@ == fields@[j].0@ && out@[j].1.tree()
                            == content(*fields@[j].1),
            {
                let ghost inner = content(*v)->Fields_0;
                assert(inner[i as int].1 == content(*fields@[i as int].1));
                assert(decreases_to!(content(*v) => inner[i as int].1));
                out.push((fields[i].0.clone(), from_value(fields[i].1)));
            }
            let r = Json::Fields(out);
            assert(r.tree()->Fields_0 =~= content(*v)->Fields_0);
            r
        },
    }
}

/// The document that a text holds, or why it holds none.
pub fn parse(text: &[u8]) -> (r: Result<Json, String>)
    ensures
        match r {
            Ok(j) => document(text@) == Ok::<Tree, Seq<char>>(j.tree()),
            Err(e) => document(text@) == Err::<Tree, Seq<char>>(e@),
        },
{
    match parse_value(text) {
        Ok(v) => Ok(from_value(&v)),
        Err(e) => Err(e),
    }
}

/// Why a text that breaks off with a failure holds no document: whether the error is a failure with the
/// kind of a time-out, and its message.
pub fn parse_cut_off(read: &[u8], timed_out: bool, message: &str) -> (r: (bool, String))
    ensures
        (r.0, r.1@) == cut_off(read@, timed_out, message@),
{
    match parse_then_fail(read, Failing { timed_out, message: message.to_owned() }) {
        Err(e) => e,
        Ok(_) => unreached(),
    }
}

/// A field is the last one of its name, and there is none where no field has the name.
pub proof fn law_last_field_counts(fields: Seq<(Seq<char>, Tree)>, key: Seq<char>, i: int)
    requires
        -1 <= i < fields.len(),
        i >= 0 ==> fields[i].0 == key,
        forall|j: int| i < j < fields.len() ==> (#[trigger] fields[j]).0 != key,
    ensures
        i >= 0 ==> Tree::Fields(fields).get(key) == Some(fields[i].1),
        i == -1 ==> Tree::Fields(fields).get(key) is None,
        field(fields, key) == Tree::Fields(fields).get(key),
    decreases fields.len(),
{
    if fields.len() > 0 {
        let rest = fields.drop_last();
        if i < rest.len() {
            assert(fields[fields.len() - 1].0 != key);
            law_last_field_counts(rest, key, i);
        }
    }
}

/// Only objects have fields, only texts a text, only arrays items, and only numbers a value.
pub proof fn law_kinds_of_values(t: Tree, key: Seq<char>, whole: Option<u64>, bits: Option<u64>)
    ensures
        t.get(key) is Some ==> t is Fields,
        t.text() == (if let Tree::Text(s) = t { Some(s) } else { None }),
        t.list() == (if let Tree::List(items) = t { Some(items) } else { None }),
        t.fields() == (if let Tree::Fields(fields) = t { Some(fields) } else { None }),
        t.whole() is Some || t.bits() is Some ==> t is Number,
        (Tree::Number { whole, bits }).whole() == whole,
        (Tree::Number { whole, bits }).bits() == bits,
{
}

} // verus!
