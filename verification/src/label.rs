//! How keys are called.
use crate::ollama::{KeyEntry, KeyView};
use crate::store;
use crate::text;
use vstd::prelude::*;
use vstd::utf8;

verus! {

/// The last four bytes of a text.
pub open spec fn last_four(s: Seq<char>) -> Seq<char> {
    let bytes = utf8::encode_utf8(s);
    utf8::decode_utf8(bytes.skip(bytes.len() - 4))
}

/// Whether a key without a label is long enough to be told by its end: longer than eight bytes.
pub open spec fn is_long(key: Seq<char>) -> bool {
    utf8::encode_utf8(key).len() > 8
}

/// How a key is called: by its label, or where that is blank by the end of the key.
pub open spec fn label_of(k: KeyView) -> Seq<char> {
    if text::trimmed(k.label).len() > 0 {
        k.label
    } else if is_long(k.key) {
        "…"@ + last_four(k.key)
    } else {
        "key"@
    }
}

/// Whether a key can be called: where the end of the key stands for a label, its last four bytes are
/// whole characters.
pub open spec fn is_callable(k: KeyView) -> bool {
    text::trimmed(k.label).len() == 0 && is_long(k.key) ==> utf8::is_char_boundary(
        utf8::encode_utf8(k.key),
        utf8::encode_utf8(k.key).len() - 4,
    )
}

/// Whether a key can be called.
pub fn can_label(k: &KeyEntry) -> (r: bool)
    ensures
        r == is_callable(k@),
{
    if !text::trim(k.label.as_str()).is_empty() {
        return true;
    }
    let key = k.key.as_str();
    let n = key.as_bytes().len();
    n <= 8 || key.is_char_boundary(n - 4)
}

/// How a key is called.
pub fn display_label(k: &KeyEntry) -> (r: String)
    requires
        is_callable(k@),
    ensures
        r@ == label_of(k@),
{
    if !text::trim(k.label.as_str()).is_empty() {
        return k.label.clone();
    }
    let key = k.key.as_str();
    let n = key.as_bytes().len();
    if n > 8 {
        let (_, end) = key.split_at(n - 4);
        proof {
            let bytes = utf8::encode_utf8(key@);
            utf8::encode_utf8_decode_utf8(end@);
            assert(bytes.subrange(n - 4, n as int) =~= bytes.skip(n - 4));
        }
        text::joined("…", end)
    } else {
        "key".to_owned()
    }
}

/// A key of ASCII characters without a label is called by its last four characters, if it has more
/// than eight.
pub proof fn law_label_of_ascii_key(k: KeyView)
    requires
        text::trimmed(k.label).len() == 0,
        utf8::is_ascii_chars(k.key),
    ensures
        is_callable(k),
        k.key.len() > 8 ==> label_of(k) == "…"@ + k.key.skip(k.key.len() - 4),
        k.key.len() <= 8 ==> label_of(k) == "key"@,
{
    let n = k.key.len() as int;
    let bytes = utf8::encode_utf8(k.key);
    utf8::is_ascii_chars_encode_utf8(k.key);
    if n > 8 {
        let end = k.key.skip(n - 4);
        utf8::is_ascii_chars_encode_utf8(end);
        assert(utf8::is_ascii_chars(end)) by {
            assert forall|i: int| 0 <= i < end.len() implies '\0' <= #[trigger] end[i] <= '\u{7f}' by {
                assert(end[i] == k.key[n - 4 + i]);
            }
        }
        assert(utf8::encode_utf8(end) =~= bytes.skip(n - 4));
        utf8::encode_utf8_decode_utf8(end);
        utf8::encode_utf8_valid_utf8(k.key);
        utf8::is_char_boundary_iff_not_is_continuation_byte(bytes, n - 4);
    }
}

/// Whether all keys can be called.
pub open spec fn all_callable(keys: Seq<KeyView>) -> bool {
    forall|i: int| 0 <= i < keys.len() ==> is_callable(#[trigger] keys[i])
}

/// Whether all keys can be called.
pub fn can_label_all(keys: &Vec<KeyEntry>) -> (r: bool)
    ensures
        r == all_callable(store::key_views(keys@)),
{
    let ghost views = store::key_views(keys@);
    for i in 0..keys.len()
        invariant
            views == store::key_views(keys@),
            forall|k: int| 0 <= k < i ==> is_callable(#[trigger] views[k]),
    {
        assert(views[i as int] == keys@[i as int]@);
        if !can_label(&keys[i]) {
            return false;
        }
    }
    true
}

/// A label that is not blank is how its key is called, whatever the key is, and a blank one is as good as
/// none.
pub proof fn law_label_goes_first(k: KeyView, blank: Seq<char>)
    requires
        text::trimmed(blank).len() == 0,
    ensures
        text::trimmed(k.label).len() > 0 ==> label_of(k) == k.label && is_callable(k),
        label_of(KeyView { label: blank, key: k.key }) == label_of(
            KeyView { label: Seq::empty(), key: k.key },
        ),
{
}

} // verus!
