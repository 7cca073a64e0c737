//! The stored list of subscriptions.
use crate::ollama::{KeyEntry, KeyView};
use vstd::prelude::*;

verus! {

/// The subscriptions that are kept between two runs.
#[derive(Debug)]
pub struct KeyStore {
    pub keys: Vec<KeyEntry>,
}

/// What several subscriptions are.
pub open spec fn key_views(keys: Seq<KeyEntry>) -> Seq<KeyView> {
    keys.map_values(|k: KeyEntry| k@)
}

impl View for KeyStore {
    type V = Seq<KeyView>;

    open spec fn view(&self) -> Seq<KeyView> {
        key_views(self.keys@)
    }
}

impl Default for KeyStore {
    fn default() -> (r: KeyStore)
        ensures
            r@ == Seq::<KeyView>::empty(),
    {
        let r = KeyStore { keys: Vec::new() };
        assert(r@ =~= Seq::<KeyView>::empty());
        r
    }
}

/// The stored subscriptions: those that were found, or none.
pub open spec fn loaded(found: Option<Seq<KeyView>>) -> Seq<KeyView> {
    match found {
        Some(keys) => keys,
        None => Seq::empty(),
    }
}

impl KeyStore {
    /// The stored subscriptions: those that were found in the file, or none where there is no
    /// file or its text is no store.
    pub fn load(found: Option<KeyStore>) -> (r: KeyStore)
        ensures
            match found {
                Some(store) => r == store,
                None => r@ == Seq::<KeyView>::empty(),
            },
            r@ == loaded(
                match found {
                    Some(store) => Some(store@),
                    None => None,
                },
            ),
    {
        match found {
            Some(store) => store,
            None => KeyStore::default(),
        }
    }
}

/// Where the subscriptions are stored: the directory of the user, and below it the name of a
/// directory and of a file. The profile directory goes before the home directory.
pub fn store_path<P>(profile: Option<P>, home: Option<P>) -> (r: Option<
    (P, &'static str, &'static str),
>)
    ensures
        r is Some <==> profile is Some || home is Some,
        r matches Some(path) ==> {
            &&& path.0 == (if profile is Some {
                profile->0
            } else {
                home->0
            })
            &&& path.1@ == ".ollama-shepherd"@
            &&& path.2@ == "keys.json"@
        },
{
    let base = match profile {
        Some(p) => Some(p),
        None => home,
    };
    match base {
        Some(p) => Some((p, ".ollama-shepherd", "keys.json")),
        None => None,
    }
}

} // verus!
