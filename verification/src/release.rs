//! Versions, and the latest release that is offered.
use crate::json;
use crate::json::{Json, Tree};
use crate::net;
use crate::net::{Body, Request};
use crate::text;
use vstd::prelude::*;

verus! {

/// The repository that the releases are in.
pub const REPO: &'static str = "gianni-bischoff/OllamaShepherd";

/// The version of this program.
pub const VERSION: &'static str = "0.2.1";

/// The operating system, as far as it matters here.
#[derive(Clone, Copy, Debug, PartialEq, Eq, Structural)]
pub enum Os {
    Windows,
    Linux,
    OtherUnix,
    Other,
}

/// What the program runs on.
#[derive(Clone, Copy, Debug, PartialEq, Eq, Structural)]
pub struct Platform {
    pub os: Os,
    pub x86_64: bool,
}

/// The file of a release for a platform.
pub open spec fn asset_of(platform: Platform) -> Option<Seq<char>> {
    if platform.os == Os::Windows && platform.x86_64 {
        Some("ollama-shepherd-x86_64-pc-windows-msvc.zip"@)
    } else if platform.os == Os::Linux && platform.x86_64 {
        Some("ollama-shepherd-x86_64-unknown-linux-gnu.tar.gz"@)
    } else {
        None
    }
}

/// The file of a release for a platform.
pub fn target_asset(platform: Platform) -> (r: Option<&'static str>)
    ensures
        match r {
            Some(name) => asset_of(platform) == Some(name@),
            None => asset_of(platform) is None,
        },
{
    if platform.os == Os::Windows && platform.x86_64 {
        Some("ollama-shepherd-x86_64-pc-windows-msvc.zip")
    } else if platform.os == Os::Linux && platform.x86_64 {
        Some("ollama-shepherd-x86_64-unknown-linux-gnu.tar.gz")
    } else {
        None
    }
}

/// `s` without a `v` at its start.
pub open spec fn without_v(s: Seq<char>) -> Seq<char> {
    if s.len() > 0 && s[0] == 'v' {
        s.skip(1)
    } else {
        s
    }
}

/// The number in the `n`-th of the parts that are separated by dots; 0 where there is none.
pub open spec fn component(s: Seq<char>, n: nat) -> u64 {
    match text::part(s, '.', n) {
        Some(p) => match text::number(p) {
            Some(v) => v,
            None => 0,
        },
        None => 0,
    }
}

/// The version that a text names: "v0.2.1" is (0, 2, 1).
pub open spec fn version(v: Seq<char>) -> (u64, u64, u64) {
    let t = without_v(text::trimmed(v));
    (component(t, 0), component(t, 1), component(t, 2))
}

fn nth_component(s: &str, n: usize) -> (r: u64)
    ensures
        r == component(s@, n as nat),
{
    match text::nth_part(s, '.', n) {
        Some(p) => match text::parse_number(p) {
            Some(v) => v,
            None => 0,
        },
        None => 0,
    }
}

/// The version that a text names: "v0.2.1" is (0, 2, 1).
pub fn parse_version(v: &str) -> (r: (u64, u64, u64))
    ensures
        r == version(v@),
{
    let t = text::trim(v);
    let n = t.unicode_len();
    let t = if n > 0 && t.get_char(0) == 'v' {
        assert(t@.subrange(1, n as int) =~= t@.skip(1));
        t.substring_char(1, n)
    } else {
        t
    };
    (nth_component(t, 0), nth_component(t, 1), nth_component(t, 2))
}

/// The version of this program.
pub fn current_version() -> (r: (u64, u64, u64))
    ensures
        r == version(VERSION@),
{
    parse_version(VERSION)
}

/// Whether the version `a` is `b` or one before it.
pub open spec fn version_le(a: (u64, u64, u64), b: (u64, u64, u64)) -> bool {
    a.0 < b.0 || a.0 == b.0 && (a.1 < b.1 || a.1 == b.1 && a.2 <= b.2)
}

/// Whether the version `a` is `b` or one before it.
pub fn is_at_most(a: (u64, u64, u64), b: (u64, u64, u64)) -> (r: bool)
    ensures
        r == version_le(a, b),
{
    a.0 < b.0 || (a.0 == b.0 && (a.1 < b.1 || (a.1 == b.1 && a.2 <= b.2)))
}

/// What asking for the latest release requires.
pub open spec fn release_request_view() -> net::RequestView {
    net::RequestView {
        url: "https://api.github.com/repos/"@ + REPO@ + "/releases/latest"@,
        headers: seq![
            ("User-Agent"@, "ollama-shepherd-updater"@),
            ("Accept"@, "application/vnd.github+json"@),
        ],
        timeout_secs: 30,
    }
}

/// The request for the latest release.
pub fn release_request() -> (r: Request)
    ensures
        r@ == release_request_view(),
{
    let mut url = "https://api.github.com/repos/".to_owned();
    url.append(REPO);
    url.append("/releases/latest");
    let mut headers: Vec<(String, String)> = Vec::new();
    headers.push(("User-Agent".to_owned(), "ollama-shepherd-updater".to_owned()));
    headers.push(("Accept".to_owned(), "application/vnd.github+json".to_owned()));
    let r = Request { url, headers, timeout_secs: 30 };
    assert(r@.headers =~= release_request_view().headers);
    r
}

/// What asking for a file requires.
pub open spec fn download_request_view(url: Seq<char>) -> net::RequestView {
    net::RequestView {
        url,
        headers: seq![("User-Agent"@, "ollama-shepherd-updater"@)],
        timeout_secs: 300,
    }
}

/// The request for a file.
pub fn download_request(url: &str) -> (r: Request)
    ensures
        r@ == download_request_view(url@),
{
    let mut headers: Vec<(String, String)> = Vec::new();
    headers.push(("User-Agent".to_owned(), "ollama-shepherd-updater".to_owned()));
    let r = Request { url: url.to_owned(), headers, timeout_secs: 300 };
    assert(r@.headers =~= download_request_view(url@).headers);
    r
}

/// The text of a field.
pub open spec fn text_field(t: Tree, key: Seq<char>) -> Option<Seq<char>> {
    match t.get(key) {
        Some(v) => v.text(),
        None => None,
    }
}

/// The first of the files with that name.
pub open spec fn file_named(files: Seq<Tree>, name: Seq<char>) -> Option<Tree>
    decreases files.len(),
{
    if files.len() == 0 {
        None
    } else if text_field(files[0], "name"@) == Some(name) {
        Some(files[0])
    } else {
        file_named(files.drop_first(), name)
    }
}

/// Where the file of that name can be had.
pub open spec fn download_url(release: Tree, name: Seq<char>) -> Option<Seq<char>> {
    match release.get("assets"@) {
        Some(a) => match a.list() {
            Some(files) => match file_named(files, name) {
                Some(file) => text_field(file, "browser_download_url"@),
                None => None,
            },
            None => None,
        },
        None => None,
    }
}

/// The tag of a release and where its file for a platform can be had, or why there is none.
pub open spec fn offered(release: Tree, asset: Option<Seq<char>>) -> Result<
    (Seq<char>, Seq<char>),
    Seq<char>,
> {
    match text_field(release, "tag_name"@) {
        None => Err("response missing tag_name"@),
        Some(tag) => match asset {
            None => Err("unsupported platform"@),
            Some(name) => match download_url(release, name) {
                Some(url) => Ok((tag, url)),
                None => Err(
                    "release "@ + tag + " has no asset '"@ + name
                        + "' — pipeline may still be running"@,
                ),
            },
        },
    }
}

fn field_text<'a>(t: &'a Json, key: &str) -> (r: Option<&'a str>)
    ensures
        match r {
            Some(s) => text_field(t.tree(), key@) == Some(s@),
            None => text_field(t.tree(), key@) is None,
        },
{
    match t.get(key) {
        Some(v) => v.text(),
        None => None,
    }
}

fn find_file<'a>(files: &'a Vec<Json>, name: &str) -> (r: Option<&'a Json>)
    ensures
        match r {
            Some(file) => file_named(json::trees(files@), name@) == Some(file.tree()),
            None => file_named(json::trees(files@), name@) is None,
        },
{
    let ghost all = json::trees(files@);
    assert(all.skip(0) =~= all);
    for i in 0..files.len()
        invariant
            all == json::trees(files@),
            file_named(all, name@) == file_named(all.skip(i as int), name@),
    {
        assert(all[i as int] == files@[i as int].tree());
        if let Some(s) = field_text(&files[i], "name") {
            if text::same(s, name) {
                return Some(&files[i]);
            }
        }
        assert(all.skip(i as int).drop_first() =~= all.skip(i + 1));
    }
    None
}

fn find_url<'a>(release: &'a Json, name: &str) -> (r: Option<&'a str>)
    ensures
        match r {
            Some(url) => download_url(release.tree(), name@) == Some(url@),
            None => download_url(release.tree(), name@) is None,
        },
{
    match release.get("assets") {
        Some(a) => match a.list() {
            Some(files) => match find_file(files, name) {
                Some(file) => field_text(file, "browser_download_url"),
                None => None,
            },
            None => None,
        },
        None => None,
    }
}

/// The tag of a release and where its file can be had, or why there is none.
pub fn pick_release(release: &Json, asset: Option<&str>) -> (r: Result<(String, String), String>)
    ensures
        match r {
            Ok(p) => offered(
                release.tree(),
                match asset {
                    Some(a) => Some(a@),
                    None => None,
                },
            ) == Ok::<(Seq<char>, Seq<char>), Seq<char>>((p.0@, p.1@)),
            Err(e) => offered(
                release.tree(),
                match asset {
                    Some(a) => Some(a@),
                    None => None,
                },
            ) == Err::<(Seq<char>, Seq<char>), Seq<char>>(e@),
        },
{
    let tag = match field_text(release, "tag_name") {
        Some(tag) => tag,
        None => {
            return Err("response missing tag_name".to_owned());
        },
    };
    let name = match asset {
        Some(name) => name,
        None => {
            return Err("unsupported platform".to_owned());
        },
    };
    match find_url(release, name) {
        Some(url) => Ok((tag.to_owned(), url.to_owned())),
        None => {
            let mut e = "release ".to_owned();
            e.append(tag);
            e.append(" has no asset '");
            e.append(name);
            e.append("' — pipeline may still be running");
            Err(e)
        },
    }
}

/// The latest release that the reply to the request for it offers for a platform, or why none can
/// be had.
pub open spec fn latest(reply: Result<Body, String>, platform: Platform) -> Result<
    (Seq<char>, Seq<char>),
    Seq<char>,
> {
    match reply {
        Err(e) => Err("cannot reach GitHub: "@ + e@),
        Ok(body) => match net::body_document(body) {
            Err(e) => Err("bad response from GitHub: "@ + e),
            Ok(release) => offered(release, asset_of(platform)),
        },
    }
}

/// The tag of the latest release and where its file for a platform can be had.
pub fn latest_release(reply: &Result<Body, String>, platform: Platform) -> (r: Result<
    (String, String),
    String,
>)
    ensures
        match r {
            Ok(p) => latest(*reply, platform) == Ok::<(Seq<char>, Seq<char>), Seq<char>>(
                (p.0@, p.1@),
            ),
            Err(e) => latest(*reply, platform) == Err::<(Seq<char>, Seq<char>), Seq<char>>(e@),
        },
{
    match reply {
        Err(e) => {
            let mut message = "cannot reach GitHub: ".to_owned();
            message.append(e.as_str());
            Err(message)
        },
        Ok(body) => match net::read_body(body) {
            Err(e) => {
                let mut message = "bad response from GitHub: ".to_owned();
                message.append(e.as_str());
                Err(message)
            },
            Ok(release) => pick_release(&release, target_asset(platform)),
        },
    }
}

/// A version as a tag writes it.
pub open spec fn version_tag(v: (u64, u64, u64)) -> Seq<char> {
    "v"@ + version_text(v)
}

/// A version in digits and dots.
pub open spec fn version_text(v: (u64, u64, u64)) -> Seq<char> {
    text::decimal(v.0 as nat).push('.') + (text::decimal(v.1 as nat).push('.') + text::decimal(
        v.2 as nat,
    ))
}

/// A version read back from its digits and dots, with or without a `v` before them, is that version.
pub proof fn law_version_reads_back(v: (u64, u64, u64))
    ensures
        version(version_tag(v)) == v,
        version(version_text(v)) == v,
{
    reveal_strlit("v");
    let (a, b, c) = (text::decimal(v.0 as nat), text::decimal(v.1 as nat), text::decimal(
        v.2 as nat,
    ));
    text::lemma_decimal(v.0 as nat);
    text::lemma_decimal(v.1 as nat);
    text::lemma_decimal(v.2 as nat);
    text::law_decimal_reads_back(v.0);
    text::law_decimal_reads_back(v.1);
    text::law_decimal_reads_back(v.2);
    let rest = b.push('.') + c;
    let t = a.push('.') + rest;
    let tag = "v"@ + t;
    assert(tag[0] == 'v');
    assert(tag.last() == c.last());
    assert(t.last() == c.last());
    assert(text::is_digit(c[c.len() - 1]));
    assert(text::is_digit(a[0]));
    assert(t[0] == a[0]);
    assert(text::trimmed(tag) == tag);
    assert(text::trimmed(t) == t);
    assert(tag.skip(1) =~= t);
    assert(without_v(tag) == t);
    assert(without_v(t) == t);
    lemma_first_part(a, rest);
    lemma_first_part(b, c);
    lemma_last_part(c);
    assert(text::part(t, '.', 1) == text::part(rest, '.', 0));
    assert(text::part(t, '.', 2) == text::part(rest, '.', 1));
    assert(text::part(rest, '.', 1) == text::part(c, '.', 0));
}

/// The first part of digits, a dot and more is the digits; the parts behind it are those of the rest.
proof fn lemma_first_part(digits: Seq<char>, rest: Seq<char>)
    requires
        forall|i: int| 0 <= i < digits.len() ==> text::is_digit(#[trigger] digits[i]),
    ensures
        text::part(digits.push('.') + rest, '.', 0) == Some(digits),
        forall|n: nat| n > 0 ==> #[trigger] text::part(digits.push('.') + rest, '.', n)
            == text::part(rest, '.', (n - 1) as nat),
{
    let s = digits.push('.') + rest;
    text::lemma_position(s, '.');
    assert(s[digits.len() as int] == '.');
    let i = text::position(s, '.');
    if i < digits.len() {
        assert(s[i] == digits[i]);
        assert(text::is_digit(digits[i]));
    }
    assert(i == digits.len());
    assert(s.take(i) =~= digits);
    assert(s.skip(i + 1) =~= rest);
}

proof fn lemma_last_part(digits: Seq<char>)
    requires
        forall|i: int| 0 <= i < digits.len() ==> text::is_digit(#[trigger] digits[i]),
    ensures
        text::part(digits, '.', 0) == Some(digits),
{
    text::lemma_position(digits, '.');
    let i = text::position(digits, '.');
    if i < digits.len() {
        assert(text::is_digit(digits[i]));
    }
    assert(digits.take(i) =~= digits);
}

/// This program is version 0.2.1.
pub proof fn law_current_version()
    ensures
        version(VERSION@) == (0u64, 2u64, 1u64),
{
    reveal_strlit("0.2.1");
    let v = (0u64, 2u64, 1u64);
    law_version_reads_back(v);
    reveal_with_fuel(text::decimal, 2);
    assert(VERSION@ =~= version_text(v));
}

/// Of two versions one is at most the other; each is at most the other only if they are the same; and
/// the order can be followed along.
pub proof fn law_version_order(a: (u64, u64, u64), b: (u64, u64, u64), c: (u64, u64, u64))
    ensures
        version_le(a, b) || version_le(b, a),
        version_le(a, b) && version_le(b, a) <==> a == b,
        version_le(a, b) && version_le(b, c) ==> version_le(a, c),
{
}

/// The first number in which two versions differ decides which is the later one: the major number goes
/// before the minor one, and that before the number of the patch.
pub proof fn law_first_number_decides(a: (u64, u64, u64), b: (u64, u64, u64))
    ensures
        a.0 < b.0 ==> version_le(a, b) && !version_le(b, a),
        a.0 == b.0 && a.1 < b.1 ==> version_le(a, b) && !version_le(b, a),
        a.0 == b.0 && a.1 == b.1 && a.2 < b.2 ==> version_le(a, b) && !version_le(b, a),
        version_le(a, a),
{
}

/// Numbers that a tag leaves out are 0.
pub proof fn law_short_versions(a: u64, b: u64)
    ensures
        version("v"@ + text::decimal(a as nat)) == (a, 0u64, 0u64),
        version("v"@ + (text::decimal(a as nat).push('.') + text::decimal(b as nat))) == (a, b, 0u64),
{
    reveal_strlit("v");
    let (x, y) = (text::decimal(a as nat), text::decimal(b as nat));
    text::lemma_decimal(a as nat);
    text::lemma_decimal(b as nat);
    text::law_decimal_reads_back(a);
    text::law_decimal_reads_back(b);
    let one = "v"@ + x;
    assert(text::is_digit(x[x.len() - 1]));
    assert(one.last() == x.last());
    assert(text::trimmed(one) == one);
    assert(one.skip(1) =~= x);
    lemma_last_part(x);
    lemma_only_part(x);
    let t = x.push('.') + y;
    let two = "v"@ + t;
    assert(text::is_digit(y[y.len() - 1]));
    assert(two.last() == y.last());
    assert(text::trimmed(two) == two);
    assert(two.skip(1) =~= t);
    lemma_first_part(x, y);
    lemma_last_part(y);
    lemma_only_part(y);
    assert(text::part(t, '.', 1) == text::part(y, '.', 0));
    assert(text::part(t, '.', 2) == text::part(y, '.', 1));
}

proof fn lemma_only_part(digits: Seq<char>)
    requires
        forall|i: int| 0 <= i < digits.len() ==> text::is_digit(#[trigger] digits[i]),
    ensures
        forall|n: nat| n > 0 ==> (#[trigger] text::part(digits, '.', n)) is None,
{
    text::lemma_position(digits, '.');
    let i = text::position(digits, '.');
    if i < digits.len() {
        assert(text::is_digit(digits[i]));
    }
}

/// White space around a tag does not matter.
pub proof fn law_version_ignores_white_space(tag: Seq<char>)
    ensures
        version(tag) == version(text::trimmed(tag)),
{
    text::law_trimmed_ends(tag);
}

/// Of the files of a release the first one that has the name counts.
pub proof fn law_first_file_of_the_name(files: Seq<Tree>, name: Seq<char>, i: int)
    requires
        0 <= i < files.len(),
        files[i].get("name"@) == Some(Tree::Text(name)),
        forall|j: int|
            0 <= j < i ==> (#[trigger] files[j]).get("name"@) != Some(Tree::Text(name)),
    ensures
        file_named(files, name) == Some(files[i]),
    decreases i,
{
    if i > 0 {
        assert(files[0].get("name"@) != Some(Tree::Text(name)));
        let rest = files.drop_first();
        assert forall|j: int| 0 <= j < i - 1 implies (#[trigger] rest[j]).get("name"@) != Some(
            Tree::Text(name),
        ) by {
            assert(rest[j] == files[j + 1]);
        }
        assert(rest[i - 1] == files[i]);
        law_first_file_of_the_name(rest, name, i - 1);
    }
}

proof fn lemma_no_file(files: Seq<Tree>, name: Seq<char>)
    requires
        forall|j: int|
            0 <= j < files.len() ==> (#[trigger] files[j]).get("name"@) != Some(Tree::Text(name)),
    ensures
        file_named(files, name) is None,
    decreases files.len(),
{
    if files.len() > 0 {
        assert(files[0].get("name"@) != Some(Tree::Text(name)));
        let rest = files.drop_first();
        assert forall|j: int| 0 <= j < rest.len() implies (#[trigger] rest[j]).get("name"@) != Some(
            Tree::Text(name),
        ) by {
            assert(rest[j] == files[j + 1]);
        }
        lemma_no_file(rest, name);
    }
}

/// A release that has a tag and, among its files, one with the name for the platform is offered under
/// that tag and with the address of that file.
pub proof fn law_release_is_offered(
    body: Body,
    release: Tree,
    platform: Platform,
    name: Seq<char>,
    files: Seq<Tree>,
    i: int,
    tag: Seq<char>,
    url: Seq<char>,
)
    requires
        net::body_document(body) == Ok::<Tree, Seq<char>>(release),
        asset_of(platform) == Some(name),
        release.get("tag_name"@) == Some(Tree::Text(tag)),
        release.get("assets"@) == Some(Tree::List(files)),
        0 <= i < files.len(),
        files[i].get("name"@) == Some(Tree::Text(name)),
        forall|j: int|
            0 <= j < i ==> (#[trigger] files[j]).get("name"@) != Some(Tree::Text(name)),
        files[i].get("browser_download_url"@) == Some(Tree::Text(url)),
    ensures
        latest(Ok(body), platform) == Ok::<(Seq<char>, Seq<char>), Seq<char>>((tag, url)),
{
    law_first_file_of_the_name(files, name, i);
}

/// A release is not offered where it has no tag, where there is no file for the platform, or where it
/// has no file of that name; nor is one where there was no answer or none that can be read.
pub proof fn law_release_is_not_offered(
    body: Body,
    release: Tree,
    platform: Platform,
    files: Seq<Tree>,
    e: String,
)
    requires
        net::body_document(body) == Ok::<Tree, Seq<char>>(release),
        release.get("assets"@) == Some(Tree::List(files)),
    ensures
        release.get("tag_name"@) is None ==> latest(Ok(body), platform) is Err,
        asset_of(platform) is None ==> latest(Ok(body), platform) is Err,
        asset_of(platform) matches Some(name) ==> (forall|j: int|
            0 <= j < files.len() ==> (#[trigger] files[j]).get("name"@) != Some(Tree::Text(name)))
            ==> latest(Ok(body), platform) is Err,
        latest(Err(e), platform) is Err,
        asset_of(platform) is Some <==> platform.x86_64 && (platform.os == Os::Windows || platform.os
            == Os::Linux),
{
    if let Some(name) = asset_of(platform) {
        if forall|j: int|
            0 <= j < files.len() ==> (#[trigger] files[j]).get("name"@) != Some(Tree::Text(name)) {
            lemma_no_file(files, name);
        }
    }
}

/// Every request of an update says who asks, and a file is asked for at the address that is given.
pub proof fn law_requests_say_who_asks(url: Seq<char>)
    ensures
        download_request_view(url).url == url,
        download_request_view(url).headers.len() == 1,
        download_request_view(url).headers[0] == release_request_view().headers[0],
        release_request_view().headers[0].0 == "User-Agent"@,
        download_request_view(url).timeout_secs == 10 * release_request_view().timeout_secs,
{
}

} // verus!
