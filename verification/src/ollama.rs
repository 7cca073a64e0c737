//! Subscriptions, and what the service reports of their usage.
use crate::json;
use crate::json::{Json, Tree};
use crate::net;
use crate::net::{Body, Request};
use crate::order;
use crate::text;
use vstd::prelude::*;

verus! {

/// One monitored subscription (an Ollama Cloud API key).
#[derive(Debug)]
pub struct KeyEntry {
    pub label: String,
    pub key: String,
}

/// What a subscription is called and its key.
#[verifier::ext_equal]
pub struct KeyView {
    pub label: Seq<char>,
    pub key: Seq<char>,
}

impl View for KeyEntry {
    type V = KeyView;

    open spec fn view(&self) -> KeyView {
        KeyView { label: self.label@, key: self.key@ }
    }
}

impl Clone for KeyEntry {
    fn clone(&self) -> (r: KeyEntry)
        ensures
            r@ == self@,
    {
        KeyEntry { label: self.label.clone(), key: self.key.clone() }
    }
}

/// Usage data for one key.
#[derive(Debug)]
pub struct Usage {
    /// What went wrong, if anything.
    pub error: Option<String>,
    /// The reported usage of each window, as the bit pattern of a double-precision number, in
    /// the canonical order: Monthly, Weekly, Session, and then the others by name.
    pub windows: Vec<(String, u64)>,
    /// The number of requests to each model, from the primary window.
    pub models: Vec<(String, u64)>,
    /// The window that `models` came from, such as "Weekly".
    pub models_window: Option<String>,
}

/// What a usage says.
#[verifier::ext_equal]
pub struct UsageView {
    pub error: Option<Seq<char>>,
    pub windows: Seq<(Seq<char>, u64)>,
    pub models: Seq<(Seq<char>, u64)>,
    pub models_window: Option<Seq<char>>,
}

pub open spec fn text_view(s: Option<String>) -> Option<Seq<char>> {
    match s {
        Some(s) => Some(s@),
        None => None,
    }
}

impl View for Usage {
    type V = UsageView;

    open spec fn view(&self) -> UsageView {
        UsageView {
            error: text_view(self.error),
            windows: order::pairs(self.windows@),
            models: order::pairs(self.models@),
            models_window: text_view(self.models_window),
        }
    }
}

/// The usage of a key of which nothing is known yet.
pub open spec fn no_usage() -> UsageView {
    UsageView {
        error: None,
        windows: Seq::empty(),
        models: Seq::empty(),
        models_window: None,
    }
}

/// The usage of a key whose usage could not be had.
pub open spec fn failed_usage(error: Seq<char>) -> UsageView {
    UsageView { error: Some(error), ..no_usage() }
}

impl Default for Usage {
    fn default() -> (r: Usage)
        ensures
            r@ == no_usage(),
    {
        let r = Usage {
            error: None,
            windows: Vec::new(),
            models: Vec::new(),
            models_window: None,
        };
        assert(r@ =~= no_usage());
        r
    }
}

/// A copy of a text that may be missing.
pub fn copy_text(s: &Option<String>) -> (r: Option<String>)
    ensures
        text_view(r) == text_view(*s),
{
    match s {
        Some(s) => Some(s.clone()),
        None => None,
    }
}

impl Clone for Usage {
    fn clone(&self) -> (r: Usage)
        ensures
            r@ == self@,
    {
        Usage {
            error: copy_text(&self.error),
            windows: order::copy_pairs(&self.windows),
            models: order::copy_pairs(&self.models),
            models_window: copy_text(&self.models_window),
        }
    }
}

/// Capitalizes a window name as the service writes it ("weekly" becomes "Weekly").
pub fn cap(s: &str) -> (r: String)
    ensures
        r@ == text::capitalized(s@),
        s@.len() > 0 && text::is_ascii_char(s@[0]) ==> r@ == text::ascii_capitalized(s@),
{
    text::capitalize(s)
}

/// The canonical place of a window: Monthly, Weekly, Session, and then the others by name.
pub open spec fn rank_of(name: Seq<char>) -> (u8, Seq<char>) {
    if name == "Monthly"@ {
        (0, Seq::empty())
    } else if name == "Weekly"@ {
        (1, Seq::empty())
    } else if name == "Session"@ {
        (2, Seq::empty())
    } else {
        (3, name)
    }
}

/// Whether the window `a` comes before the window `b`.
pub open spec fn rank_lt(a: Seq<char>, b: Seq<char>) -> bool {
    let (x, y) = (rank_of(a), rank_of(b));
    x.0 < y.0 || x.0 == y.0 && text::text_lt(x.1, y.1)
}

/// The canonical place of a window.
pub fn rank(name: &str) -> (r: (u8, String))
    ensures
        (r.0, r.1@) == rank_of(name@),
{
    if text::same(name, "Monthly") {
        (0, String::new())
    } else if text::same(name, "Weekly") {
        (1, String::new())
    } else if text::same(name, "Session") {
        (2, String::new())
    } else {
        (3, name.to_owned())
    }
}

/// Whether the window `a` comes before the window `b`.
pub fn ranks_before(a: &str, b: &str) -> (r: bool)
    ensures
        r == rank_lt(a@, b@),
{
    let x = rank(a);
    let y = rank(b);
    x.0 < y.0 || (x.0 == y.0 && text::less(x.1.as_str(), y.1.as_str()))
}

/// The canonical order of windows.
pub open spec fn by_rank() -> spec_fn((Seq<char>, u64), (Seq<char>, u64)) -> bool {
    |a: (Seq<char>, u64), b: (Seq<char>, u64)| rank_lt(a.0, b.0)
}

/// The canonical order of window names.
pub open spec fn names_by_rank() -> spec_fn(Seq<char>, Seq<char>) -> bool {
    |a: Seq<char>, b: Seq<char>| rank_lt(a, b)
}

/// Sorts windows canonically.
fn sort_by_rank(v: &mut Vec<(String, u64)>)
    ensures
        order::pairs(final(v)@) == order::arranged(order::pairs(old(v)@), by_rank()),
{
    let ghost given = order::pairs(v@);
    let n = v.len();
    assert(given.skip(0) =~= given);
    assert(given.take(0) =~= Seq::empty());
    assert(Seq::<(Seq<char>, u64)>::empty() + given =~= given);
    for i in 0..n
        invariant
            n == v@.len() == given.len(),
            order::pairs(v@) == order::arranged(given.take(i as int), by_rank()) + given.skip(
                i as int,
            ),
            order::arranged(given.take(i as int), by_rank()).len() == i,
    {
        let mut j: usize = i;
        while j > 0 && ranks_before(v[i].0.as_str(), v[j - 1].0.as_str())
            invariant
                j <= i < v@.len(),
                forall|k: int| j <= k < i ==> rank_lt(v@[i as int].0@, (#[trigger] v@[k]).0@),
            decreases j,
        {
            j = j - 1;
        }
        let ghost now = order::pairs(v@);
        proof {
            assert forall|k: int| j <= k < i implies by_rank()(
                now[i as int],
                #[trigger] now[k],
            ) by {
                assert(rank_lt(v@[i as int].0@, v@[k].0@));
            }
            order::lemma_step(given, now, i as int, j as int, by_rank());
        }
        let ghost moved = now.remove(i as int).insert(j as int, now[i as int]);
        let x = v.remove(i);
        v.insert(j, x);
        assert(order::pairs(v@) =~= moved);
    }
    assert(given.take(n as int) =~= given);
    assert(order::pairs(v@) =~= order::arranged(given, by_rank()));
}

/// The field `key` of a document, as the bit pattern of a number.
pub open spec fn number_field(t: Tree, key: Seq<char>) -> Option<u64> {
    match t.get(key) {
        Some(v) => v.bits(),
        None => None,
    }
}

/// The usage that a window reports: the first of `usage`, `used_percentage` and `used` that is a
/// number.
pub open spec fn reported(w: Tree) -> Option<u64> {
    if number_field(w, "usage"@) is Some {
        number_field(w, "usage"@)
    } else if number_field(w, "used_percentage"@) is Some {
        number_field(w, "used_percentage"@)
    } else {
        number_field(w, "used"@)
    }
}

/// The field `key` of a document, as the bit pattern of a number.
fn field_bits(w: &Json, key: &str) -> (r: Option<u64>)
    ensures
        r == number_field(w.tree(), key@),
{
    match w.get(key) {
        Some(v) => v.bits(),
        None => None,
    }
}

/// The usage that a window object reports, as the bit pattern of the number that stands there: a
/// share (0 to 1) or a percentage (0 to 100).
pub fn window_usage(w: &Json) -> (r: Option<u64>)
    ensures
        r == reported(w.tree()),
{
    if let Some(v) = field_bits(w, "usage") {
        return Some(v);
    }
    if let Some(v) = field_bits(w, "used_percentage") {
        return Some(v);
    }
    field_bits(w, "used")
}

/// The first of the two fields that is there.
pub open spec fn either(t: Tree, a: Seq<char>, b: Seq<char>) -> Option<Tree> {
    if t.get(a) is Some {
        t.get(a)
    } else {
        t.get(b)
    }
}

/// The name of the model in an entry: the text of `name`, or of `model` where there is no
/// `name`; a question mark where that is no text.
pub open spec fn model_name(m: Tree) -> Seq<char> {
    match either(m, "name"@, "model"@) {
        Some(n) => match n.text() {
            Some(s) => s,
            None => "?"@,
        },
        None => "?"@,
    }
}

/// The number of requests in an entry: the first of `request_count`, `requests` and `count` that
/// is there; 0 where that is no unsigned whole number.
pub open spec fn request_count(m: Tree) -> u64 {
    let found = if m.get("request_count"@) is Some {
        m.get("request_count"@)
    } else {
        either(m, "requests"@, "count"@)
    };
    match found {
        Some(c) => match c.whole() {
            Some(n) => n,
            None => 0,
        },
        None => 0,
    }
}

/// The models of a list, the most requested first.
pub open spec fn ranked_models(items: Seq<Tree>) -> Seq<(Seq<char>, u64)> {
    order::arranged(
        items.map_values(|m: Tree| (model_name(m), request_count(m))),
        order::larger_first(),
    )
}

/// The field `models` of a document, where it is a list.
pub open spec fn models_list(t: Tree) -> Option<Seq<Tree>> {
    match t.get("models"@) {
        Some(m) => m.list(),
        None => None,
    }
}

/// The models of a window, the most requested first; none where it has no list of models.
pub open spec fn window_ranked_models(w: Tree) -> Seq<(Seq<char>, u64)> {
    match models_list(w) {
        Some(items) => ranked_models(items),
        None => Seq::empty(),
    }
}

fn model_entry(m: &Json) -> (r: (String, u64))
    ensures
        r.0@ == model_name(m.tree()),
        r.1 == request_count(m.tree()),
{
    let name = match m.get("name") {
        Some(n) => Some(n),
        None => m.get("model"),
    };
    let name = match name {
        Some(n) => match n.text() {
            Some(s) => s.to_owned(),
            None => "?".to_owned(),
        },
        None => "?".to_owned(),
    };
    let count = match m.get("request_count") {
        Some(c) => Some(c),
        None => match m.get("requests") {
            Some(c) => Some(c),
            None => m.get("count"),
        },
    };
    let count: u64 = match count {
        Some(c) => match c.whole() {
            Some(n) => n,
            None => 0,
        },
        None => 0,
    };
    (name, count)
}

fn rank_models(items: &Vec<Json>) -> (r: Vec<(String, u64)>)
    ensures
        order::pairs(r@) == ranked_models(json::trees(items@)),
{
    let ghost entries = json::trees(items@).map_values(
        |m: Tree| (model_name(m), request_count(m)),
    );
    let mut out: Vec<(String, u64)> = Vec::new();
    for i in 0..items.len()
        invariant
            entries == json::trees(items@).map_values(
                |m: Tree| (model_name(m), request_count(m)),
            ),
            order::pairs(out@) == entries.take(i as int),
    {
        let e = model_entry(&items[i]);
        proof {
            order::lemma_pairs_push(out@, e);
            assert(entries[i as int] == (e.0@, e.1));
            assert(entries.take(i + 1) =~= entries.take(i as int).push(entries[i as int]));
        }
        out.push(e);
    }
    assert(entries.take(items@.len() as int) =~= entries);
    order::sort_larger_first(&mut out);
    out
}

/// The list of models of a document, if it has one.
fn models_of(t: &Json) -> (r: Option<&Vec<Json>>)
    ensures
        match r {
            Some(items) => models_list(t.tree()) == Some(json::trees(items@)),
            None => models_list(t.tree()) is None,
        },
{
    match t.get("models") {
        Some(m) => m.list(),
        None => None,
    }
}

/// The models of a window, the most requested first.
pub fn window_models(w: &Json) -> (r: Vec<(String, u64)>)
    ensures
        order::pairs(r@) == window_ranked_models(w.tree()),
{
    match models_of(w) {
        Some(items) => rank_models(items),
        None => {
            let r: Vec<(String, u64)> = Vec::new();
            assert(order::pairs(r@) =~= Seq::empty());
            r
        },
    }
}

/// The windows of a report.
pub open spec fn limits(t: Tree) -> Seq<(Seq<char>, Tree)> {
    match t.get("limits"@) {
        Some(l) => match l.fields() {
            Some(fields) => fields,
            None => Seq::empty(),
        },
        None => Seq::empty(),
    }
}

pub open spec fn is_readable() -> spec_fn((Seq<char>, Tree)) -> bool {
    |w: (Seq<char>, Tree)| reported(w.1) is Some
}

/// The windows of a report that give a usage, in the order in which they stand there.
pub open spec fn readable(t: Tree) -> Seq<(Seq<char>, Tree)> {
    limits(t).filter(is_readable())
}

/// Whether each window that gives a usage has a name that starts with an ASCII character.
pub open spec fn well_named(t: Tree) -> bool {
    forall|i: int|
        0 <= i < readable(t).len() ==> (#[trigger] readable(t)[i]).0.len() > 0
            && text::is_ascii_char(readable(t)[i].0[0])
}

/// The windows that give a usage, under their capitalized names and canonically ordered.
pub open spec fn report_windows(t: Tree) -> Seq<(Seq<char>, u64)> {
    order::arranged(
        readable(t).map_values(
            |w: (Seq<char>, Tree)| (text::ascii_capitalized(w.0), reported(w.1)->0),
        ),
        by_rank(),
    )
}

/// The models of the window `name` among `windows`; none where there is no such window.
pub open spec fn named_models(windows: Seq<(Seq<char>, Tree)>, name: Seq<char>) -> Seq<
    (Seq<char>, u64),
> {
    match json::field(windows, name) {
        Some(w) => window_ranked_models(w),
        None => Seq::empty(),
    }
}

/// The first of `windows` that has models.
pub open spec fn first_with_models(windows: Seq<(Seq<char>, Tree)>) -> Option<
    (Seq<char>, Seq<(Seq<char>, u64)>),
>
    decreases windows.len(),
{
    if windows.len() == 0 {
        None
    } else if window_ranked_models(windows[0].1).len() > 0 {
        Some((windows[0].0, window_ranked_models(windows[0].1)))
    } else {
        first_with_models(windows.drop_first())
    }
}

/// The window whose models are shown: the weekly one, else the one of the session, else the
/// monthly one, else the first; always one that has models.
pub open spec fn primary(windows: Seq<(Seq<char>, Tree)>) -> Option<
    (Seq<char>, Seq<(Seq<char>, u64)>),
> {
    if named_models(windows, "weekly"@).len() > 0 {
        Some(("weekly"@, named_models(windows, "weekly"@)))
    } else if named_models(windows, "session"@).len() > 0 {
        Some(("session"@, named_models(windows, "session"@)))
    } else if named_models(windows, "monthly"@).len() > 0 {
        Some(("monthly"@, named_models(windows, "monthly"@)))
    } else {
        first_with_models(windows)
    }
}

/// The models of the activity of the last four weeks.
pub open spec fn activity(t: Tree) -> Option<Seq<Tree>> {
    match t.get("activity"@) {
        Some(a) => models_list(a),
        None => None,
    }
}

/// The models of a report and the window that they are from.
pub open spec fn report_models(t: Tree) -> (Seq<(Seq<char>, u64)>, Option<Seq<char>>) {
    match primary(readable(t)) {
        Some((name, models)) => (models, Some(text::ascii_capitalized(name))),
        None => match activity(t) {
            Some(items) => (ranked_models(items), Some("Last 4 weeks"@)),
            None => (Seq::empty(), None),
        },
    }
}

spec fn entries(windows: Seq<&(String, Json)>) -> Seq<(Seq<char>, Tree)> {
    windows.map_values(|w: &(String, Json)| (w.0@, w.1.tree()))
}

/// The windows of a report that give a usage.
fn readable_windows(v: &Json) -> (r: Vec<&(String, Json)>)
    ensures
        entries(r@) == readable(v.tree()),
{
    let mut out: Vec<&(String, Json)> = Vec::new();
    assert(entries(out@) =~= Seq::empty());
    if let Some(l) = v.get("limits") {
        if let Some(fields) = l.fields() {
            let ghost all = json::field_trees(fields@);
            assert(all.take(0) =~= Seq::empty());
            for i in 0..fields.len()
                invariant
                    all == json::field_trees(fields@),
                    entries(out@) == all.take(i as int).filter(is_readable()),
            {
                proof {
                    broadcast use Seq::lemma_filter_push;

                    assert(all.take(i + 1) =~= all.take(i as int).push(all[i as int]));
                }
                if window_usage(&fields[i].1).is_some() {
                    let ghost before = out@;
                    out.push(&fields[i]);
                    assert(entries(out@) =~= entries(before).push(all[i as int]));
                }
            }
            assert(all.take(all.len() as int) =~= all);
        }
    }
    out
}

/// The models of the window `name`.
fn models_named(windows: &Vec<&(String, Json)>, name: &str) -> (r: Vec<(String, u64)>)
    ensures
        order::pairs(r@) == named_models(entries(windows@), name@),
{
    let ghost all = entries(windows@);
    let mut i: usize = windows.len();
    assert(all.take(i as int) =~= all);
    while i > 0
        invariant
            i <= windows@.len(),
            all == entries(windows@),
            json::field(all, name@) == json::field(all.take(i as int), name@),
        decreases i,
    {
        i = i - 1;
        assert(all.take(i + 1).drop_last() =~= all.take(i as int));
        if text::same(windows[i].0.as_str(), name) {
            return window_models(&windows[i].1);
        }
    }
    let r: Vec<(String, u64)> = Vec::new();
    assert(order::pairs(r@) =~= Seq::empty());
    r
}

/// The models of the first window that has any.
fn models_first(windows: &Vec<&(String, Json)>) -> (r: Option<(String, Vec<(String, u64)>)>)
    ensures
        match r {
            Some((name, models)) => first_with_models(entries(windows@)) == Some(
                (name@, order::pairs(models@)),
            ),
            None => first_with_models(entries(windows@)) is None,
        },
{
    let ghost all = entries(windows@);
    assert(all.skip(0) =~= all);
    for i in 0..windows.len()
        invariant
            all == entries(windows@),
            first_with_models(all) == first_with_models(all.skip(i as int)),
    {
        let models = window_models(&windows[i].1);
        if models.len() > 0 {
            return Some((windows[i].0.clone(), models));
        }
        assert(all.skip(i as int).drop_first() =~= all.skip(i + 1));
    }
    None
}

/// The models of the primary window.
fn models_primary(windows: &Vec<&(String, Json)>) -> (r: Option<(String, Vec<(String, u64)>)>)
    ensures
        match r {
            Some((name, models)) => primary(entries(windows@)) == Some(
                (name@, order::pairs(models@)),
            ),
            None => primary(entries(windows@)) is None,
        },
{
    let weekly = models_named(windows, "weekly");
    if weekly.len() > 0 {
        return Some(("weekly".to_owned(), weekly));
    }
    let session = models_named(windows, "session");
    if session.len() > 0 {
        return Some(("session".to_owned(), session));
    }
    let monthly = models_named(windows, "monthly");
    if monthly.len() > 0 {
        return Some(("monthly".to_owned(), monthly));
    }
    models_first(windows)
}

/// Reads a report: the windows, the models of the primary window, and the name of that window.
pub fn parse_usage(v: &Json) -> (r: (Vec<(String, u64)>, Vec<(String, u64)>, Option<String>))
    requires
        well_named(v.tree()),
    ensures
        order::pairs(r.0@) == report_windows(v.tree()),
        (order::pairs(r.1@), text_view(r.2)) == report_models(v.tree()),
{
    let kept = readable_windows(v);
    let ghost named = entries(kept@).map_values(
        |w: (Seq<char>, Tree)| (text::ascii_capitalized(w.0), reported(w.1)->0),
    );
    let mut windows: Vec<(String, u64)> = Vec::new();
    for i in 0..kept.len()
        invariant
            entries(kept@) == readable(v.tree()),
            named == entries(kept@).map_values(
                |w: (Seq<char>, Tree)| (text::ascii_capitalized(w.0), reported(w.1)->0),
            ),
            order::pairs(windows@) == named.take(i as int),
    {
        let usage = window_usage(&kept[i].1);
        proof {
            let ghost all = limits(v.tree());
            all.lemma_filter_pred(is_readable(), i as int);
            assert(entries(kept@)[i as int].1 == kept@[i as int].1.tree());
            assert(is_readable()(entries(kept@)[i as int]));
        }
        if let Some(u) = usage {
            let w = (text::ascii_capitalize(kept[i].0.as_str()), u);
            proof {
                order::lemma_pairs_push(windows@, w);
                assert(named[i as int] == (w.0@, w.1));
                assert(named.take(i + 1) =~= named.take(i as int).push(named[i as int]));
            }
            windows.push(w);
        }
    }
    assert(named.take(kept@.len() as int) =~= named);
    sort_by_rank(&mut windows);
    match models_primary(&kept) {
        Some((name, models)) => {
            proof {
                lemma_primary_name(readable(v.tree()));
            }
            (windows, models, Some(cap(name.as_str())))
        },
        None => {
            if let Some(a) = v.get("activity") {
                if let Some(items) = models_of(a) {
                    return (windows, rank_models(items), Some("Last 4 weeks".to_owned()));
                }
            }
            let models: Vec<(String, u64)> = Vec::new();
            assert(order::pairs(models@) =~= Seq::empty());
            (windows, models, None)
        },
    }
}

/// Whether each window that gives a usage has a name that starts with an ASCII character.
pub fn is_well_named(v: &Json) -> (r: bool)
    ensures
        r == well_named(v.tree()),
{
    let kept = readable_windows(v);
    let ghost all = readable(v.tree());
    for i in 0..kept.len()
        invariant
            all == readable(v.tree()),
            entries(kept@) == all,
            forall|j: int|
                0 <= j < i ==> (#[trigger] all[j]).0.len() > 0 && text::is_ascii_char(all[j].0[0]),
    {
        let name = kept[i].0.as_str();
        assert(all[i as int].0 == name@);
        if name.unicode_len() == 0 || name.get_char(0) as u32 >= 128 {
            return false;
        }
    }
    true
}

/// What asking for the usage of a key requires.
pub open spec fn usage_request_view(key: Seq<char>) -> net::RequestView {
    net::RequestView {
        url: "https://ollama.com/api/usage"@,
        headers: seq![("Authorization"@, "Bearer "@ + key)],
        timeout_secs: 15,
    }
}

/// The request for the usage of a key.
pub fn usage_request(key: &str) -> (r: Request)
    ensures
        r@ == usage_request_view(key@),
{
    let mut bearer = "Bearer ".to_owned();
    bearer.append(key);
    let mut headers: Vec<(String, String)> = Vec::new();
    headers.push(("Authorization".to_owned(), bearer));
    let r = Request {
        url: "https://ollama.com/api/usage".to_owned(),
        headers,
        timeout_secs: 15,
    };
    assert(r@.headers =~= usage_request_view(key@).headers);
    r
}

/// What came of a request for the usage of a key.
#[derive(Debug)]
pub enum Reply {
    /// The service answered.
    Answer(Body),
    /// The service answered with the status of an error and a text.
    Status(u16, String),
    /// There was no answer.
    Failed(String),
}

/// What the status of an error means.
pub open spec fn status_hint(code: u16) -> Seq<char> {
    if code == 401 {
        "invalid API key"@
    } else if code == 429 {
        "rate limited"@
    } else {
        "API error"@
    }
}

/// The message for the status of an error: the code, what it means, and the first 120 characters
/// of the text.
pub open spec fn status_message(code: u16, body: Seq<char>) -> Seq<char> {
    "HTTP "@ + text::decimal(code as nat) + " "@ + status_hint(code) + " · "@ + (if body.len()
        > 120 {
        body.take(120)
    } else {
        body
    })
}

/// The usage that a report gives.
pub open spec fn report_usage(t: Tree) -> UsageView {
    UsageView {
        error: if report_windows(t).len() == 0 {
            Some("no usage windows in response"@)
        } else {
            None
        },
        windows: report_windows(t),
        models: report_models(t).0,
        models_window: report_models(t).1,
    }
}

/// The usage that a reply gives.
pub open spec fn reply_usage(reply: Reply) -> UsageView {
    match reply {
        Reply::Answer(body) => match net::body_document(body) {
            Ok(t) => report_usage(t),
            Err(e) => failed_usage("bad JSON: "@ + e),
        },
        Reply::Status(code, body) => failed_usage(status_message(code, body@)),
        Reply::Failed(e) => failed_usage("network: "@ + e@),
    }
}

fn failure(error: String) -> (r: Usage)
    ensures
        r@ == failed_usage(error@),
{
    let mut r = Usage::default();
    r.error = Some(error);
    r
}

/// The message for the status of an error.
pub fn status_error(code: u16, body: &str) -> (r: String)
    ensures
        r@ == status_message(code, body@),
{
    let mut r = "HTTP ".to_owned();
    r.append(text::to_decimal(code as u128).as_str());
    r.append(" ");
    if code == 401 {
        r.append("invalid API key");
    } else if code == 429 {
        r.append("rate limited");
    } else {
        r.append("API error");
    }
    r.append(" · ");
    if body.unicode_len() > 120 {
        assert(body@.subrange(0, 120) =~= body@.take(120));
        r.append(body.substring_char(0, 120));
    } else {
        r.append(body);
    }
    r
}

/// The usage that a report gives.
pub fn usage_of_report(v: &Json) -> (r: Usage)
    requires
        well_named(v.tree()),
    ensures
        r@ == report_usage(v.tree()),
{
    let (windows, models, models_window) = parse_usage(v);
    assert(order::pairs(windows@).len() == windows@.len());
    let error = if windows.is_empty() {
        Some("no usage windows in response".to_owned())
    } else {
        None
    };
    Usage { error, windows, models, models_window }
}

/// Whether a reply is no report, or one in which each window that gives a usage has a name that
/// starts with an ASCII character.
pub open spec fn is_presentable(reply: Reply) -> bool {
    match reply {
        Reply::Answer(body) => match net::body_document(body) {
            Ok(t) => well_named(t),
            Err(_) => true,
        },
        _ => true,
    }
}

/// The usage that the reply to the request for it gives; none where a window in it has a name
/// that cannot be capitalized, one that does not start with an ASCII character.
pub fn fetch_usage(reply: &Reply) -> (r: Option<Usage>)
    ensures
        r is Some <==> is_presentable(*reply),
        r matches Some(u) ==> u@ == reply_usage(*reply),
{
    match reply {
        Reply::Answer(body) => match net::read_body(body) {
            Ok(v) => {
                if is_well_named(&v) {
                    Some(usage_of_report(&v))
                } else {
                    None
                }
            },
            Err(e) => {
                let mut message = "bad JSON: ".to_owned();
                message.append(e.as_str());
                Some(failure(message))
            },
        },
        Reply::Status(code, body) => Some(failure(status_error(*code, body.as_str()))),
        Reply::Failed(e) => {
            let mut message = "network: ".to_owned();
            message.append(e.as_str());
            Some(failure(message))
        },
    }
}

/// What several usages say.
pub open spec fn usage_views(usages: Seq<Usage>) -> Seq<UsageView> {
    usages.map_values(|u: Usage| u@)
}

/// Ranks tell any two different windows apart, and order them.
pub proof fn law_rank_order(a: Seq<char>, b: Seq<char>, c: Seq<char>)
    ensures
        !rank_lt(a, a),
        rank_lt(a, b) ==> !rank_lt(b, a),
        a != b ==> rank_lt(a, b) || rank_lt(b, a),
        !rank_lt(a, b) && !rank_lt(b, c) ==> !rank_lt(a, c),
{
    text::law_text_order(rank_of(a).1, rank_of(b).1, rank_of(c).1);
    text::law_text_order(rank_of(a).1, rank_of(a).1, rank_of(a).1);
}

/// The canonical order of windows and of their names is an order.
pub proof fn law_by_rank_is_order()
    ensures
        order::is_order(by_rank()),
        order::is_order(names_by_rank()),
{
    assert forall|a: (Seq<char>, u64), b: (Seq<char>, u64)| #[trigger]
        by_rank()(a, b) implies !by_rank()(b, a) by {
        law_rank_order(a.0, b.0, a.0);
    }
    assert forall|a: (Seq<char>, u64), b: (Seq<char>, u64), c: (Seq<char>, u64)|
        !(#[trigger] by_rank()(a, b)) && !(#[trigger] by_rank()(b, c)) implies !by_rank()(
        a,
        c,
    ) by {
        law_rank_order(a.0, b.0, c.0);
    }
    assert forall|a: Seq<char>, b: Seq<char>| #[trigger] names_by_rank()(a, b) implies
        !names_by_rank()(b, a) by {
        law_rank_order(a, b, a);
    }
    assert forall|a: Seq<char>, b: Seq<char>, c: Seq<char>|
        !(#[trigger] names_by_rank()(a, b)) && !(#[trigger] names_by_rank()(b, c)) implies
        !names_by_rank()(a, c) by {
        law_rank_order(a, b, c);
    }
}

/// The monthly window comes first, then the weekly one, then the one of the session, and then the
/// others in the order of their names.
pub proof fn law_canonical_order(a: Seq<char>, b: Seq<char>)
    requires
        a != "Monthly"@ && a != "Weekly"@ && a != "Session"@,
        b != "Monthly"@ && b != "Weekly"@ && b != "Session"@,
    ensures
        rank_lt("Monthly"@, "Weekly"@),
        rank_lt("Weekly"@, "Session"@),
        rank_lt("Session"@, a),
        rank_lt(a, b) <==> text::text_lt(a, b),
{
    reveal_strlit("Monthly");
    reveal_strlit("Weekly");
    reveal_strlit("Session");
    assert("Monthly"@.len() != "Weekly"@.len());
    assert("Weekly"@.len() != "Session"@.len());
    assert("Monthly"@[0] != "Session"@[0]);
}

/// The windows of a report are those that give a usage, each once, in the canonical order.
pub proof fn law_report_windows_in_order(t: Tree)
    ensures
        order::in_order(report_windows(t), by_rank()),
        report_windows(t).len() == readable(t).len(),
        report_windows(t).to_multiset() == readable(t).map_values(
            |w: (Seq<char>, Tree)| (text::ascii_capitalized(w.0), reported(w.1)->0),
        ).to_multiset(),
{
    law_by_rank_is_order();
    order::law_arranged_is_in_order(
        readable(t).map_values(
            |w: (Seq<char>, Tree)| (text::ascii_capitalized(w.0), reported(w.1)->0),
        ),
        by_rank(),
    );
}

/// The models of a list are all there, the most requested first.
pub proof fn law_ranked_models_in_order(items: Seq<Tree>)
    ensures
        order::in_order(ranked_models(items), order::larger_first()),
        ranked_models(items).len() == items.len(),
        ranked_models(items).to_multiset() == items.map_values(
            |m: Tree| (model_name(m), request_count(m)),
        ).to_multiset(),
{
    order::law_larger_first_is_order();
    order::law_arranged_is_in_order(
        items.map_values(|m: Tree| (model_name(m), request_count(m))),
        order::larger_first(),
    );
}

/// The models of a report stand with the most requested first, and where there are any, the window
/// that they are from is known.
pub proof fn law_report_models(t: Tree)
    ensures
        order::in_order(report_models(t).0, order::larger_first()),
        report_models(t).0.len() > 0 ==> report_models(t).1 is Some,
{
    let windows = readable(t);
    lemma_primary(windows);
    if primary(windows) is None {
        if let Some(items) = activity(t) {
            law_ranked_models_in_order(items);
        }
    }
}

proof fn lemma_window_models_in_order(w: Tree)
    ensures
        order::in_order(window_ranked_models(w), order::larger_first()),
{
    if let Some(items) = models_list(w) {
        law_ranked_models_in_order(items);
    }
}

proof fn lemma_named_models_in_order(windows: Seq<(Seq<char>, Tree)>, name: Seq<char>)
    ensures
        order::in_order(named_models(windows, name), order::larger_first()),
{
    if let Some(w) = json::field(windows, name) {
        lemma_window_models_in_order(w);
    }
}

proof fn lemma_primary(windows: Seq<(Seq<char>, Tree)>)
    ensures
        primary(windows) matches Some(p) ==> p.1.len() > 0 && order::in_order(
            p.1,
            order::larger_first(),
        ),
    decreases windows.len(),
{
    lemma_named_models_in_order(windows, "weekly"@);
    lemma_named_models_in_order(windows, "session"@);
    lemma_named_models_in_order(windows, "monthly"@);
    lemma_first_with_models(windows);
}

proof fn lemma_first_with_models(windows: Seq<(Seq<char>, Tree)>)
    ensures
        first_with_models(windows) matches Some(p) ==> p.1.len() > 0 && order::in_order(
            p.1,
            order::larger_first(),
        ),
    decreases windows.len(),
{
    if windows.len() > 0 {
        lemma_window_models_in_order(windows[0].1);
        lemma_first_with_models(windows.drop_first());
    }
}

/// The primary window is one of the windows.
proof fn lemma_primary_name(windows: Seq<(Seq<char>, Tree)>)
    ensures
        primary(windows) matches Some(p) ==> exists|i: int|
            0 <= i < windows.len() && (#[trigger] windows[i]).0 == p.0,
{
    lemma_field_name(windows, "weekly"@);
    lemma_field_name(windows, "session"@);
    lemma_field_name(windows, "monthly"@);
    lemma_first_name(windows);
}

proof fn lemma_field_name(windows: Seq<(Seq<char>, Tree)>, name: Seq<char>)
    ensures
        json::field(windows, name) is Some ==> exists|i: int|
            0 <= i < windows.len() && (#[trigger] windows[i]).0 == name,
    decreases windows.len(),
{
    if windows.len() > 0 {
        let rest = windows.drop_last();
        lemma_field_name(rest, name);
        if windows.last().0 == name {
            assert(windows[windows.len() - 1].0 == name);
        } else if json::field(rest, name) is Some {
            let i = choose|i: int| 0 <= i < rest.len() && (#[trigger] rest[i]).0 == name;
            assert(windows[i].0 == name);
        }
    }
}

proof fn lemma_first_name(windows: Seq<(Seq<char>, Tree)>)
    ensures
        first_with_models(windows) matches Some(p) ==> exists|i: int|
            0 <= i < windows.len() && (#[trigger] windows[i]).0 == p.0,
    decreases windows.len(),
{
    if windows.len() > 0 {
        let rest = windows.drop_first();
        lemma_first_name(rest);
        if window_ranked_models(windows[0].1).len() == 0 {
            if let Some(p) = first_with_models(rest) {
                let i = choose|i: int| 0 <= i < rest.len() && (#[trigger] rest[i]).0 == p.0;
                assert(windows[i + 1].0 == p.0);
            }
        }
    }
}

/// The window that the models of a report are from is one of its windows, unless they are from the
/// activity of the last four weeks.
pub proof fn law_models_are_from_a_window(t: Tree)
    requires
        primary(readable(t)) is Some,
    ensures
        exists|i: int|
            0 <= i < report_windows(t).len() && report_models(t).1 == Some(
                (#[trigger] report_windows(t)[i]).0,
            ),
{
    let windows = readable(t);
    let named = windows.map_values(
        |w: (Seq<char>, Tree)| (text::ascii_capitalized(w.0), reported(w.1)->0),
    );
    lemma_primary_name(windows);
    let p = primary(windows)->0;
    let k = choose|k: int| 0 <= k < windows.len() && (#[trigger] windows[k]).0 == p.0;
    law_report_windows_in_order(t);
    let r = report_windows(t);
    named.to_multiset_ensures();
    r.to_multiset_ensures();
    assert(named.contains(named[k]));
    assert(r.to_multiset().count(named[k]) > 0);
    assert(r.contains(named[k]));
    let i = choose|i: int| 0 <= i < r.len() && r[i] == named[k];
    assert(r[i].0 == text::ascii_capitalized(p.0));
}

/// Of the windows with models the weekly one is preferred, then the one of the session, then the
/// monthly one, and then the first. Only where none has models, those of the activity of the last
/// four weeks are shown.
pub proof fn law_preferred_window(t: Tree)
    ensures
        ({
            let windows = readable(t);
            let weekly = named_models(windows, "weekly"@);
            let session = named_models(windows, "session"@);
            let monthly = named_models(windows, "monthly"@);
            &&& weekly.len() > 0 ==> report_models(t) == (weekly, Some("Weekly"@))
            &&& weekly.len() == 0 && session.len() > 0 ==> report_models(t) == (
                session,
                Some("Session"@),
            )
            &&& weekly.len() == 0 && session.len() == 0 && monthly.len() > 0 ==> report_models(t)
                == (monthly, Some("Monthly"@))
            &&& primary(windows) is None && activity(t) is Some ==> report_models(t) == (
                ranked_models(activity(t)->0),
                Some("Last 4 weeks"@),
            )
        }),
{
    reveal_strlit("weekly");
    reveal_strlit("session");
    reveal_strlit("monthly");
    reveal_strlit("Weekly");
    reveal_strlit("Session");
    reveal_strlit("Monthly");
    assert(text::ascii_capitalized("weekly"@) =~= "Weekly"@);
    assert(text::ascii_capitalized("session"@) =~= "Session"@);
    assert(text::ascii_capitalized("monthly"@) =~= "Monthly"@);
}

/// Some window of a report has models exactly if one is chosen to be shown; only where none has
/// does the activity of the last four weeks stand in.
pub proof fn law_primary_is_found(windows: Seq<(Seq<char>, Tree)>)
    ensures
        primary(windows) is Some <==> exists|i: int|
            0 <= i < windows.len() && window_ranked_models((#[trigger] windows[i]).1).len() > 0,
{
    lemma_first_is_found(windows);
    lemma_named_is_window(windows, "weekly"@);
    lemma_named_is_window(windows, "session"@);
    lemma_named_is_window(windows, "monthly"@);
}

proof fn lemma_first_is_found(windows: Seq<(Seq<char>, Tree)>)
    ensures
        first_with_models(windows) is Some <==> exists|i: int|
            0 <= i < windows.len() && window_ranked_models((#[trigger] windows[i]).1).len() > 0,
    decreases windows.len(),
{
    if windows.len() > 0 && window_ranked_models(windows[0].1).len() == 0 {
        let rest = windows.drop_first();
        lemma_first_is_found(rest);
        if exists|i: int|
            0 <= i < windows.len() && window_ranked_models((#[trigger] windows[i]).1).len() > 0 {
            let i = choose|i: int|
                0 <= i < windows.len() && window_ranked_models((#[trigger] windows[i]).1).len() > 0;
            assert(rest[i - 1] == windows[i]);
        }
        if exists|i: int|
            0 <= i < rest.len() && window_ranked_models((#[trigger] rest[i]).1).len() > 0 {
            let i = choose|i: int|
                0 <= i < rest.len() && window_ranked_models((#[trigger] rest[i]).1).len() > 0;
            assert(windows[i + 1] == rest[i]);
        }
    }
}

proof fn lemma_named_is_window(windows: Seq<(Seq<char>, Tree)>, name: Seq<char>)
    ensures
        named_models(windows, name).len() > 0 ==> exists|i: int|
            0 <= i < windows.len() && window_ranked_models((#[trigger] windows[i]).1).len() > 0,
    decreases windows.len(),
{
    if windows.len() > 0 {
        if windows.last().0 == name {
            assert(windows[windows.len() - 1] == windows.last());
        } else {
            let rest = windows.drop_last();
            lemma_named_is_window(rest, name);
            if named_models(windows, name).len() > 0 {
                let i = choose|i: int|
                    0 <= i < rest.len() && window_ranked_models((#[trigger] rest[i]).1).len() > 0;
                assert(windows[i] == rest[i]);
            }
        }
    }
}

/// A reply gives a usage with windows or one with an error, and never both.
pub proof fn law_windows_or_error(reply: Reply)
    ensures
        reply_usage(reply).windows.len() > 0 <==> reply_usage(reply).error is None,
{
}

/// Whether a field is there and is a number.
pub open spec fn is_number(v: Option<Tree>) -> bool {
    v matches Some(Tree::Number { bits: Some(_), .. })
}

/// The usage of a window is its `usage`; where that is no number, its `used_percentage`; where neither
/// is one, its `used`; and it has none where no field of the three is a number.
pub proof fn law_usage_of_a_window(w: Tree, whole: Option<u64>, bits: u64)
    ensures
        ({
            let v = Some(Tree::Number { whole, bits: Some(bits) });
            &&& w.get("usage"@) == v ==> reported(w) == Some(bits)
            &&& !is_number(w.get("usage"@)) && w.get("used_percentage"@) == v ==> reported(w) == Some(
                bits,
            )
            &&& !is_number(w.get("usage"@)) && !is_number(w.get("used_percentage"@)) && w.get("used"@)
                == v ==> reported(w) == Some(bits)
            &&& !is_number(w.get("usage"@)) && !is_number(w.get("used_percentage"@)) && !is_number(
                w.get("used"@),
            ) ==> reported(w) is None
        }),
{
}

/// An entry is named by its `name`, or by its `model` where it has no `name`, and by a question mark
/// where that is no text.
pub proof fn law_name_of_a_model(m: Tree, s: Seq<char>)
    ensures
        m.get("name"@) == Some(Tree::Text(s)) ==> model_name(m) == s,
        m.get("name"@) is None && m.get("model"@) == Some(Tree::Text(s)) ==> model_name(m) == s,
        m.get("name"@) is None && m.get("model"@) is None ==> model_name(m) == "?"@,
        m.get("name"@) matches Some(v) ==> !(v is Text) ==> model_name(m) == "?"@,
{
}

/// The requests of an entry are its `request_count`, or its `requests` where that is not there, or its
/// `count` where neither is there; 0 where that is no whole number.
pub proof fn law_requests_of_a_model(m: Tree, n: u64, bits: Option<u64>)
    ensures
        ({
            let v = Some(Tree::Number { whole: Some(n), bits });
            &&& m.get("request_count"@) == v ==> request_count(m) == n
            &&& m.get("request_count"@) is None && m.get("requests"@) == v ==> request_count(m) == n
            &&& m.get("request_count"@) is None && m.get("requests"@) is None && m.get("count"@) == v
                ==> request_count(m) == n
            &&& m.get("request_count"@) is None && m.get("requests"@) is None && m.get("count"@)
                is None ==> request_count(m) == 0
            &&& m.get("request_count"@) matches Some(c) ==> !(c is Number) ==> request_count(m) == 0
        }),
{
}

/// Whether `models` lists the entries `items`, each with its name and its requests and as often as it
/// stands there, the most requested first.
pub open spec fn lists_all(models: Seq<(Seq<char>, u64)>, items: Seq<Tree>) -> bool {
    &&& models.len() == items.len()
    &&& models.to_multiset() == items.map_values(
        |m: Tree| (model_name(m), request_count(m)),
    ).to_multiset()
    &&& forall|i: int, j: int|
        0 <= i < j < models.len() ==> (#[trigger] models[i]).1 >= (#[trigger] models[j]).1
}

/// Whether the window has a list of models with an entry in it.
pub open spec fn lists_models(w: Tree) -> bool {
    w.get("models"@) matches Some(Tree::List(items)) && items.len() > 0
}

/// Whether no window of that name among `fields` gives a usage and lists models.
pub open spec fn lists_none(fields: Seq<(Seq<char>, Tree)>, name: Seq<char>) -> bool {
    forall|j: int|
        0 <= j < fields.len() && (#[trigger] fields[j]).0 == name && reported(fields[j].1) is Some
            ==> !lists_models(fields[j].1)
}

proof fn lemma_lists_all(items: Seq<Tree>)
    ensures
        lists_all(ranked_models(items), items),
{
    law_ranked_models_in_order(items);
    let models = ranked_models(items);
    assert forall|i: int, j: int| 0 <= i < j < models.len() implies (#[trigger] models[i]).1 >= (
    #[trigger] models[j]).1 by {
        assert(!order::larger_first()(models[j], models[i]));
    }
}

proof fn lemma_named_readable(fields: Seq<(Seq<char>, Tree)>, name: Seq<char>, k: int)
    requires
        0 <= k < fields.len(),
        fields[k].0 == name,
        reported(fields[k].1) is Some,
        forall|j: int| k < j < fields.len() ==> (#[trigger] fields[j]).0 != name,
    ensures
        json::field(fields.filter(is_readable()), name) == Some(fields[k].1),
    decreases fields.len(),
{
    reveal(Seq::filter);
    let rest = fields.drop_last();
    let kept = rest.filter(is_readable());
    if k < rest.len() {
        lemma_named_readable(rest, name, k);
        assert(fields[fields.len() - 1].0 != name);
        assert(kept.push(fields.last()).drop_last() =~= kept);
    } else {
        assert(fields.last() == fields[k]);
        assert(fields.filter(is_readable()) == kept.push(fields.last()));
    }
}

proof fn lemma_none_named(fields: Seq<(Seq<char>, Tree)>, name: Seq<char>)
    requires
        lists_none(fields, name),
    ensures
        named_models(fields.filter(is_readable()), name).len() == 0,
    decreases fields.len(),
{
    reveal(Seq::filter);
    if fields.len() > 0 {
        let rest = fields.drop_last();
        let kept = rest.filter(is_readable());
        assert forall|j: int|
            0 <= j < rest.len() && (#[trigger] rest[j]).0 == name && reported(rest[j].1)
                is Some implies !lists_models(rest[j].1) by {
            assert(rest[j] == fields[j]);
        }
        lemma_none_named(rest, name);
        assert(kept.push(fields.last()).drop_last() =~= kept);
        let last = fields[fields.len() - 1];
        if last.0 == name && reported(last.1) is Some {
            assert(!lists_models(last.1));
            if let Some(items) = models_list(last.1) {
                lemma_lists_all(items);
            }
        }
    }
}

/// The models of a usage are those of the weekly window, where it gives a usage and lists models: all of
/// them, with their requests, the most requested first. Where it lists none, they are those of the
/// window of the session, and where that lists none either, of the monthly one.
pub proof fn law_models_of_the_preferred_window(
    body: Body,
    t: Tree,
    fields: Seq<(Seq<char>, Tree)>,
    k: int,
    items: Seq<Tree>,
)
    requires
        net::body_document(body) == Ok::<Tree, Seq<char>>(t),
        t.get("limits"@) == Some(Tree::Fields(fields)),
        0 <= k < fields.len(),
        reported(fields[k].1) is Some,
        fields[k].1.get("models"@) == Some(Tree::List(items)),
        items.len() > 0,
        forall|j: int| k < j < fields.len() ==> (#[trigger] fields[j]).0 != fields[k].0,
        ({
            let name = fields[k].0;
            ||| name == "weekly"@
            ||| name == "session"@ && lists_none(fields, "weekly"@)
            ||| name == "monthly"@ && lists_none(fields, "weekly"@) && lists_none(fields, "session"@)
        }),
    ensures
        ({
            let u = reply_usage(Reply::Answer(body));
            &&& u.error is None
            &&& lists_all(u.models, items)
            &&& fields[k].0 == "weekly"@ ==> u.models_window == Some("Weekly"@)
            &&& fields[k].0 == "session"@ ==> u.models_window == Some("Session"@)
            &&& fields[k].0 == "monthly"@ ==> u.models_window == Some("Monthly"@)
        }),
{
    let name = fields[k].0;
    lemma_named_readable(fields, name, k);
    lemma_lists_all(items);
    reveal_strlit("weekly");
    reveal_strlit("session");
    reveal_strlit("monthly");
    assert("weekly"@.len() == 6 && "session"@.len() == 7 && "monthly"@.len() == 7);
    assert("session"@[0] != "monthly"@[0]);
    if name != "weekly"@ {
        lemma_none_named(fields, "weekly"@);
        if name != "session"@ {
            lemma_none_named(fields, "session"@);
        }
    }
    law_preferred_window(t);
    lemma_is_readable(fields, k);
    law_report_windows_in_order(t);
}

proof fn lemma_is_readable(fields: Seq<(Seq<char>, Tree)>, k: int)
    requires
        0 <= k < fields.len(),
        reported(fields[k].1) is Some,
    ensures
        fields.filter(is_readable()).contains(fields[k]),
        fields.filter(is_readable()).len() > 0,
{
    assert(is_readable()(fields[k]));
    fields.lemma_filter_contains(is_readable(), k);
}

/// Where none of the three lists models, they are those of the first other window that gives a usage and
/// lists some.
pub proof fn law_models_of_the_first_other_window(
    body: Body,
    t: Tree,
    fields: Seq<(Seq<char>, Tree)>,
    k: int,
    items: Seq<Tree>,
)
    requires
        net::body_document(body) == Ok::<Tree, Seq<char>>(t),
        t.get("limits"@) == Some(Tree::Fields(fields)),
        lists_none(fields, "weekly"@),
        lists_none(fields, "session"@),
        lists_none(fields, "monthly"@),
        0 <= k < fields.len(),
        reported(fields[k].1) is Some,
        fields[k].1.get("models"@) == Some(Tree::List(items)),
        items.len() > 0,
        forall|j: int|
            0 <= j < k && reported((#[trigger] fields[j]).1) is Some ==> !lists_models(fields[j].1),
    ensures
        ({
            let u = reply_usage(Reply::Answer(body));
            &&& u.error is None
            &&& lists_all(u.models, items)
            &&& u.models_window == Some(text::ascii_capitalized(fields[k].0))
        }),
{
    lemma_none_named(fields, "weekly"@);
    lemma_none_named(fields, "session"@);
    lemma_none_named(fields, "monthly"@);
    lemma_lists_all(items);
    lemma_first_listing(fields, k, items);
    lemma_is_readable(fields, k);
    law_report_windows_in_order(t);
}

proof fn lemma_first_push(windows: Seq<(Seq<char>, Tree)>, w: (Seq<char>, Tree))
    ensures
        first_with_models(windows.push(w)) == (if first_with_models(windows) is Some {
            first_with_models(windows)
        } else {
            first_with_models(seq![w])
        }),
    decreases windows.len(),
{
    let more = windows.push(w);
    if windows.len() == 0 {
        assert(more =~= seq![w]);
    } else {
        assert(more.drop_first() =~= windows.drop_first().push(w));
        lemma_first_push(windows.drop_first(), w);
    }
}

proof fn lemma_first_listing(fields: Seq<(Seq<char>, Tree)>, k: int, items: Seq<Tree>)
    requires
        0 <= k < fields.len(),
        reported(fields[k].1) is Some,
        fields[k].1.get("models"@) == Some(Tree::List(items)),
        items.len() > 0,
        forall|j: int|
            0 <= j < k && reported((#[trigger] fields[j]).1) is Some ==> !lists_models(fields[j].1),
    ensures
        first_with_models(fields.filter(is_readable())) == Some((fields[k].0, ranked_models(items))),
    decreases fields.len(),
{
    reveal(Seq::filter);
    let rest = fields.drop_last();
    let kept = rest.filter(is_readable());
    let last = fields[fields.len() - 1];
    lemma_first_push(kept, last);
    if k < rest.len() {
        assert forall|j: int|
            0 <= j < k && reported((#[trigger] rest[j]).1) is Some implies !lists_models(
            rest[j].1,
        ) by {
            assert(rest[j] == fields[j]);
        }
        lemma_first_listing(rest, k, items);
    } else {
        assert forall|j: int|
            0 <= j < rest.len() && reported((#[trigger] rest[j]).1) is Some implies !lists_models(
            rest[j].1,
        ) by {
            assert(rest[j] == fields[j]);
        }
        lemma_none_listing(rest);
        lemma_lists_all(items);
        assert(first_with_models(seq![last]) == Some((last.0, ranked_models(items))));
    }
}

proof fn lemma_none_listing(fields: Seq<(Seq<char>, Tree)>)
    requires
        forall|j: int|
            0 <= j < fields.len() && reported((#[trigger] fields[j]).1) is Some ==> !lists_models(
                fields[j].1,
            ),
    ensures
        first_with_models(fields.filter(is_readable())) is None,
    decreases fields.len(),
{
    reveal(Seq::filter);
    if fields.len() > 0 {
        let rest = fields.drop_last();
        let last = fields[fields.len() - 1];
        assert forall|j: int|
            0 <= j < rest.len() && reported((#[trigger] rest[j]).1) is Some implies !lists_models(
            rest[j].1,
        ) by {
            assert(rest[j] == fields[j]);
        }
        lemma_none_listing(rest);
        lemma_first_push(rest.filter(is_readable()), last);
        if reported(last.1) is Some {
            assert(!lists_models(last.1));
            if let Some(items) = models_list(last.1) {
                lemma_lists_all(items);
            }
            assert(seq![last].drop_first() =~= Seq::empty());
            assert(first_with_models(seq![last].drop_first()) is None);
        }
    }
}

/// Where no window lists models, they are those of the activity of the last four weeks.
pub proof fn law_models_of_the_activity(
    body: Body,
    t: Tree,
    fields: Seq<(Seq<char>, Tree)>,
    a: Tree,
    items: Seq<Tree>,
)
    requires
        net::body_document(body) == Ok::<Tree, Seq<char>>(t),
        t.get("limits"@) == Some(Tree::Fields(fields)),
        forall|j: int|
            0 <= j < fields.len() && reported((#[trigger] fields[j]).1) is Some ==> !lists_models(
                fields[j].1,
            ),
        t.get("activity"@) == Some(a),
        a.get("models"@) == Some(Tree::List(items)),
    ensures
        ({
            let u = reply_usage(Reply::Answer(body));
            &&& lists_all(u.models, items)
            &&& u.models_window == Some("Last 4 weeks"@)
        }),
{
    lemma_none_named(fields, "weekly"@);
    lemma_none_named(fields, "session"@);
    lemma_none_named(fields, "monthly"@);
    lemma_none_listing(fields);
    lemma_lists_all(items);
}

/// Whether a window is one of `fields` that gives a usage: it has its capitalized name and its usage.
pub open spec fn is_from(window: (Seq<char>, u64), fields: Seq<(Seq<char>, Tree)>) -> bool {
    exists|k: int|
        0 <= k < fields.len() && reported((#[trigger] fields[k]).1) is Some && window == (
            text::ascii_capitalized(fields[k].0),
            reported(fields[k].1)->0,
        )
}

/// Every window of a report that gives a usage is listed under its capitalized name with that usage, no
/// other is, and they stand in the canonical order.
pub proof fn law_every_readable_window_is_listed(
    body: Body,
    t: Tree,
    fields: Seq<(Seq<char>, Tree)>,
)
    requires
        net::body_document(body) == Ok::<Tree, Seq<char>>(t),
        t.get("limits"@) == Some(Tree::Fields(fields)),
    ensures
        ({
            let windows = reply_usage(Reply::Answer(body)).windows;
            &&& windows.len() == fields.filter(is_readable()).len()
            &&& forall|k: int|
                0 <= k < fields.len() && reported((#[trigger] fields[k]).1) is Some
                    ==> windows.contains((text::ascii_capitalized(fields[k].0), reported(fields[k].1)->0))
            &&& forall|i: int|
                0 <= i < windows.len() ==> is_from(#[trigger] windows[i], fields)
            &&& forall|i: int, j: int|
                0 <= i < j < windows.len() ==> !rank_lt(
                    (#[trigger] windows[j]).0,
                    (#[trigger] windows[i]).0,
                )
        }),
{
    let windows = reply_usage(Reply::Answer(body)).windows;
    let kept = fields.filter(is_readable());
    let shown = kept.map_values(
        |w: (Seq<char>, Tree)| (text::ascii_capitalized(w.0), reported(w.1)->0),
    );
    law_report_windows_in_order(t);
    assert(windows.to_multiset() == shown.to_multiset());
    windows.to_multiset_ensures();
    shown.to_multiset_ensures();
    assert forall|k: int|
        0 <= k < fields.len() && reported((#[trigger] fields[k]).1) is Some implies windows.contains(
        (text::ascii_capitalized(fields[k].0), reported(fields[k].1)->0),
    ) by {
        lemma_is_readable(fields, k);
        let i = choose|i: int| 0 <= i < kept.len() && kept[i] == fields[k];
        assert(shown[i] == (text::ascii_capitalized(fields[k].0), reported(fields[k].1)->0));
        assert(shown.contains(shown[i]));
        assert(shown.to_multiset().count(shown[i]) > 0);
    }
    assert forall|i: int| 0 <= i < windows.len() implies is_from(#[trigger] windows[i], fields) by {
        assert(windows.contains(windows[i]));
        assert(windows.to_multiset().count(windows[i]) > 0);
        assert(shown.contains(windows[i]));
        let j = choose|j: int| 0 <= j < shown.len() && shown[j] == windows[i];
        assert(kept.contains(kept[j]));
        fields.lemma_filter_pred(is_readable(), j);
        fields.lemma_filter_contains_rev(is_readable(), kept[j]);
        let k = choose|k: int| 0 <= k < fields.len() && fields[k] == kept[j];
        assert(windows[i] == (text::ascii_capitalized(fields[k].0), reported(fields[k].1)->0));
    }
    assert forall|i: int, j: int| 0 <= i < j < windows.len() implies !rank_lt(
        (#[trigger] windows[j]).0,
        (#[trigger] windows[i]).0,
    ) by {
        assert(!by_rank()(windows[j], windows[i]));
    }
}

/// A request that did not bring a report gives a usage with nothing but an error, and the error tells
/// why: it ends with the message, or with the first 120 characters of the answer, and names the status.
pub proof fn law_failures_are_told(code: u16, answer: String, e: String, body: Body, bad: Seq<char>)
    requires
        net::body_document(body) == Err::<Tree, Seq<char>>(bad),
    ensures
        ({
            let u = reply_usage(Reply::Status(code, answer));
            let head = "HTTP "@ + text::decimal(code as nat) + " "@;
            &&& u.windows.len() == 0 && u.models.len() == 0 && u.models_window is None
            &&& u.error matches Some(m) && text::starts_with(m, head) && text::ends_with(
                m,
                if answer@.len() <= 120 {
                    answer@
                } else {
                    answer@.take(120)
                },
            )
        }),
        ({
            let u = reply_usage(Reply::Failed(e));
            &&& u.windows.len() == 0 && u.models.len() == 0 && u.models_window is None
            &&& u.error matches Some(m) && text::ends_with(m, e@) && m.len() == 9 + e@.len()
        }),
        ({
            let u = reply_usage(Reply::Answer(body));
            &&& u.windows.len() == 0 && u.models.len() == 0 && u.models_window is None
            &&& u.error matches Some(m) && text::ends_with(m, bad)
        }),
{
    let cut = if answer@.len() > 120 {
        answer@.take(120)
    } else {
        answer@
    };
    let head = "HTTP "@ + text::decimal(code as nat) + " "@;
    text::lemma_ends_with(head + status_hint(code) + " · "@, cut);
    let m = status_message(code, answer@);
    assert(m.take(head.len() as int) =~= head);
    reveal_strlit("network: ");
    text::lemma_ends_with("network: "@, e@);
    text::lemma_ends_with("bad JSON: "@, bad);
}

/// The usage is asked for with the key itself, and with nothing else that depends on it.
pub proof fn law_key_is_sent(key: Seq<char>, other: Seq<char>)
    ensures
        ({
            let r = usage_request_view(key);
            &&& r.headers.len() == 1 && r.headers[0].0 == "Authorization"@
            &&& text::ends_with(r.headers[0].1, key) && r.headers[0].1.len() == 7 + key.len()
            &&& r.url == usage_request_view(other).url
            &&& r.headers[0].1 == usage_request_view(other).headers[0].1 ==> key == other
        }),
{
    reveal_strlit("Bearer ");
    text::lemma_ends_with("Bearer "@, key);
    text::lemma_ends_with("Bearer "@, other);
}

/// A reply gives a usage, unless it is a report with a window that gives a usage under a name that is
/// empty or starts with a character that is not ASCII.
pub proof fn law_which_replies_give_a_usage(
    code: u16,
    text: String,
    body: Body,
    t: Tree,
    fields: Seq<(Seq<char>, Tree)>,
)
    requires
        net::body_document(body) == Ok::<Tree, Seq<char>>(t),
        t.get("limits"@) == Some(Tree::Fields(fields)),
    ensures
        is_presentable(Reply::Status(code, text)),
        is_presentable(Reply::Failed(text)),
        is_presentable(Reply::Answer(body)) <==> forall|k: int|
            0 <= k < fields.len() && reported((#[trigger] fields[k]).1) is Some
                ==> fields[k].0.len() > 0 && (fields[k].0[0] as u32) < 128,
{
    let kept = fields.filter(is_readable());
    assert(kept == readable(t));
    if is_presentable(Reply::Answer(body)) {
        assert forall|k: int|
            0 <= k < fields.len() && reported((#[trigger] fields[k]).1)
                is Some implies fields[k].0.len() > 0 && (fields[k].0[0] as u32) < 128 by {
            lemma_is_readable(fields, k);
            let i = choose|i: int| 0 <= i < kept.len() && kept[i] == fields[k];
            assert(readable(t)[i] == fields[k]);
        }
    }
    if forall|k: int|
        0 <= k < fields.len() && reported((#[trigger] fields[k]).1) is Some ==> fields[k].0.len() > 0
            && (fields[k].0[0] as u32) < 128 {
        assert forall|i: int| 0 <= i < readable(t).len() implies (
        #[trigger] readable(t)[i]).0.len() > 0 && text::is_ascii_char(readable(t)[i].0[0]) by {
            assert(kept.contains(kept[i]));
            fields.lemma_filter_pred(is_readable(), i);
            fields.lemma_filter_contains_rev(is_readable(), kept[i]);
            let k = choose|k: int| 0 <= k < fields.len() && fields[k] == kept[i];
            assert(reported(fields[k].1) is Some);
        }
    }
}

/// An answer that cannot be read gives a usage too: one with an error.
pub proof fn law_bad_answers_give_a_usage(body: Body, e: Seq<char>)
    requires
        net::body_document(body) == Err::<Tree, Seq<char>>(e),
    ensures
        is_presentable(Reply::Answer(body)),
{
}

/// Only two statuses have a meaning of their own; the messages for any two others differ in the number
/// alone.
pub proof fn law_other_statuses_are_alike(c: u16, d: u16, answer: Seq<char>)
    requires
        c != 401 && c != 429,
        d != 401 && d != 429,
    ensures
        ({
            let (x, y) = (text::decimal(c as nat), text::decimal(d as nat));
            &&& status_message(c, answer).skip(5 + x.len() as int) == status_message(d, answer).skip(
                5 + y.len() as int,
            )
            &&& status_hint(c) != status_hint(401) && status_hint(c) != status_hint(429)
            &&& status_hint(401) != status_hint(429)
        }),
{
    let (x, y) = (text::decimal(c as nat), text::decimal(d as nat));
    reveal_strlit("HTTP ");
    reveal_strlit("invalid API key");
    reveal_strlit("rate limited");
    reveal_strlit("API error");
    assert("invalid API key"@.len() == 15 && "rate limited"@.len() == 12 && "API error"@.len() == 9);
    assert(status_message(c, answer).skip(5 + x.len() as int) =~= status_message(d, answer).skip(
        5 + y.len() as int,
    ));
}

} // verus!
