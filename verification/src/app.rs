//! The state of the monitor and how keys, messages and the clock change it.
use crate::ollama;
use crate::ollama::{KeyEntry, KeyView, Usage, UsageView};
use crate::store;
use crate::store::KeyStore;
use crate::text;
use vstd::prelude::*;

verus! {

/// The seconds between two automatic refreshes.
pub const AUTO_SECS: u64 = 60;

/// The nanoseconds of a second.
pub const NANOS_PER_SEC: u64 = 1_000_000_000;

/// A key of the keyboard.
#[derive(Clone, Copy, Debug, PartialEq, Eq, Structural)]
pub enum Key {
    Char(char),
    Esc,
    Enter,
    Backspace,
    Tab,
    Up,
    Down,
    Left,
    Right,
    Other,
}

/// A key, and whether the control key was held down with it.
#[derive(Clone, Copy, Debug)]
pub struct KeyPress {
    pub code: Key,
    pub control: bool,
}

/// What comes from the terminal.
#[derive(Debug)]
pub enum Input {
    /// A key went down (`pressed`), repeated or went up.
    Key { pressed: bool, key: KeyPress },
    /// A text was pasted.
    Paste(String),
    Other,
}

/// What comes from the requests for usage.
#[derive(Debug)]
pub enum Msg {
    /// The usage for the slot of a key.
    Usage(usize, Usage),
}

impl View for Msg {
    type V = (int, UsageView);

    open spec fn view(&self) -> (int, UsageView) {
        match self {
            Msg::Usage(slot, usage) => (*slot as int, usage@),
        }
    }
}

/// A request for usage to be sent: the slot that the answer is for, and the key.
#[derive(Debug)]
pub struct FetchJob {
    pub slot: usize,
    pub key: String,
}

impl View for FetchJob {
    type V = (int, Seq<char>);

    open spec fn view(&self) -> (int, Seq<char>) {
        (self.slot as int, self.key@)
    }
}

/// What several jobs are.
pub open spec fn job_views(jobs: Seq<FetchJob>) -> Seq<(int, Seq<char>)> {
    jobs.map_values(|j: FetchJob| j@)
}

/// What several messages say.
pub open spec fn msg_views(msgs: Seq<Msg>) -> Seq<(int, UsageView)> {
    msgs.map_values(|m: Msg| m@)
}

/// What is to be done besides the change of the state, in this order: store the list of keys, and
/// send requests for usage.
#[derive(Debug)]
pub struct Effects {
    pub save: bool,
    pub fetch: Vec<FetchJob>,
}

#[verifier::ext_equal]
pub struct EffectsView {
    pub save: bool,
    pub fetch: Seq<(int, Seq<char>)>,
}

impl View for Effects {
    type V = EffectsView;

    open spec fn view(&self) -> EffectsView {
        EffectsView { save: self.save, fetch: job_views(self.fetch@) }
    }
}

/// Nothing to be done.
pub open spec fn nothing() -> EffectsView {
    EffectsView { save: false, fetch: Seq::empty() }
}

impl Effects {
    fn none() -> (r: Effects)
        ensures
            r@ == nothing(),
    {
        let r = Effects { save: false, fetch: Vec::new() };
        assert(r@ =~= nothing());
        r
    }
}

/// The state of the monitor.
#[derive(Debug)]
pub struct App {
    pub keys: Vec<KeyEntry>,
    pub usages: Vec<Usage>,
    pub selected: usize,
    /// The number of answers that are still to come.
    pub outstanding: usize,
    pub fetching: bool,
    /// When the last round of requests was over, in nanoseconds since the start.
    pub last_fetch: Option<u64>,
    /// The seconds until the next automatic refresh.
    pub countdown: u64,
    /// The text that is being entered for a new key.
    pub editing: Option<String>,
    /// Whether the selected key is shown, not the overview of all keys.
    pub view: bool,
    pub quit: bool,
}

/// What the state of the monitor is.
#[verifier::ext_equal]
pub struct AppView {
    pub keys: Seq<KeyView>,
    pub usages: Seq<UsageView>,
    pub selected: int,
    pub outstanding: int,
    pub fetching: bool,
    pub last_fetch: Option<u64>,
    pub countdown: u64,
    pub editing: Option<Seq<char>>,
    pub view: bool,
    pub quit: bool,
}

impl View for App {
    type V = AppView;

    open spec fn view(&self) -> AppView {
        AppView {
            keys: store::key_views(self.keys@),
            usages: ollama::usage_views(self.usages@),
            selected: self.selected as int,
            outstanding: self.outstanding as int,
            fetching: self.fetching,
            last_fetch: self.last_fetch,
            countdown: self.countdown,
            editing: ollama::text_view(self.editing),
            view: self.view,
            quit: self.quit,
        }
    }
}

impl AppView {
    /// What holds of every state: there is one usage for each key, the selection is one of the
    /// keys or 0 where there is none, and answers are awaited exactly while fetching.
    pub open spec fn well_formed(self) -> bool {
        &&& self.usages.len() == self.keys.len()
        &&& 0 <= self.selected
        &&& self.selected < self.keys.len() || self.keys.len() == 0 && self.selected == 0
        &&& 0 <= self.outstanding
        &&& self.fetching <==> self.outstanding > 0
    }
}

/// The state at the start, with the stored keys.
pub open spec fn initial(keys: Seq<KeyView>) -> AppView {
    AppView {
        keys,
        usages: blank_usages(keys.len()),
        selected: 0,
        outstanding: 0,
        fetching: false,
        last_fetch: None,
        countdown: AUTO_SECS,
        editing: None,
        view: false,
        quit: false,
    }
}

/// Usages of which nothing is known yet.
pub open spec fn blank_usages(n: nat) -> Seq<UsageView> {
    Seq::new(n, |i: int| ollama::no_usage())
}

/// One job for each key.
pub open spec fn jobs(keys: Seq<KeyView>) -> Seq<(int, Seq<char>)> {
    Seq::new(keys.len(), |i: int| (i, keys[i].key))
}

/// Whether a round of requests can start: none is under way, and there are keys.
pub open spec fn can_fetch(s: AppView) -> bool {
    !s.fetching && s.keys.len() > 0
}

/// The state in which a round of requests has started, where it can.
pub open spec fn fetch_started(s: AppView) -> AppView {
    if can_fetch(s) {
        AppView {
            fetching: true,
            outstanding: s.keys.len() as int,
            usages: blank_usages(s.keys.len()),
            ..s
        }
    } else {
        s
    }
}

/// The requests to be sent where a round starts.
pub open spec fn fetch_jobs(s: AppView) -> Seq<(int, Seq<char>)> {
    if can_fetch(s) {
        jobs(s.keys)
    } else {
        Seq::empty()
    }
}

/// The usages with the messages put into their slots; a message for a slot that is not there is
/// dropped.
pub open spec fn received(usages: Seq<UsageView>, msgs: Seq<(int, UsageView)>) -> Seq<UsageView>
    decreases msgs.len(),
{
    if msgs.len() == 0 {
        usages
    } else {
        let before = received(usages, msgs.drop_last());
        let (slot, usage) = msgs.last();
        if 0 <= slot < before.len() {
            before.update(slot, usage)
        } else {
            before
        }
    }
}

/// The state after messages have arrived, at the time `now`.
pub open spec fn drained(s: AppView, msgs: Seq<(int, UsageView)>, now: u64) -> AppView {
    if !s.fetching {
        s
    } else {
        let left = if s.outstanding > msgs.len() {
            s.outstanding - msgs.len()
        } else {
            0
        };
        AppView {
            usages: received(s.usages, msgs),
            outstanding: left,
            fetching: left > 0,
            last_fetch: if left == 0 {
                Some(now)
            } else {
                s.last_fetch
            },
            ..s
        }
    }
}

/// The whole seconds from `last` to `now`; 0 where the clock went back.
pub open spec fn seconds_between(last: u64, now: u64) -> int {
    if now > last {
        (now - last) / (NANOS_PER_SEC as int)
    } else {
        0
    }
}

/// The state with the countdown of the time `now`.
pub open spec fn counted_down(s: AppView, now: u64) -> AppView {
    match s.last_fetch {
        Some(last) if !s.fetching => {
            let passed = seconds_between(last, now);
            AppView {
                countdown: if passed < AUTO_SECS {
                    (AUTO_SECS - passed) as u64
                } else {
                    0
                },
                ..s
            }
        },
        _ => s,
    }
}

/// Whether the time `now` starts a round of requests.
pub open spec fn is_due(s: AppView, now: u64) -> bool {
    !s.fetching && s.last_fetch is Some && counted_down(s, now).countdown == 0
}

/// What the time `now` does: the countdown goes on, and where it is over a round of requests starts.
pub open spec fn ticked(s: AppView, now: u64) -> (AppView, Seq<(int, Seq<char>)>) {
    if is_due(s, now) {
        (fetch_started(counted_down(s, now)), fetch_jobs(s))
    } else {
        (counted_down(s, now), Seq::empty())
    }
}

/// The list of keys to be stored.
pub open spec fn saved(s: AppView) -> Seq<KeyView> {
    s.keys
}

/// The state with the key that is being entered given up.
pub open spec fn not_editing(s: AppView) -> AppView {
    AppView { editing: None, ..s }
}

/// The key that an entered text describes: `label,key` or only the key, without white space
/// around either; none where no key is left.
pub open spec fn entered(input: Seq<char>) -> Option<KeyView> {
    let t = text::trimmed(input);
    let k = match text::halves(t, ',') {
        Some((label, key)) => KeyView { label: text::trimmed(label), key: text::trimmed(key) },
        None => KeyView { label: Seq::empty(), key: t },
    };
    if k.key.len() > 0 {
        Some(k)
    } else {
        None
    }
}

/// The state with a key put behind the others and selected.
pub open spec fn key_added(s: AppView, k: KeyView) -> AppView {
    AppView {
        keys: s.keys.push(k),
        usages: s.usages.push(ollama::no_usage()),
        selected: s.keys.len() as int,
        ..s
    }
}

/// The state with the selected key taken out.
pub open spec fn key_removed(s: AppView) -> AppView {
    let i = if s.selected < s.keys.len() {
        s.selected
    } else {
        s.keys.len() - 1
    };
    let n = s.keys.len() - 1;
    AppView {
        keys: s.keys.remove(i),
        usages: s.usages.remove(i),
        selected: if s.selected >= n && s.selected > 0 {
            s.selected - 1
        } else {
            s.selected
        },
        view: s.view && n > 0,
        ..s
    }
}

/// What the enter key does to an entered text.
pub open spec fn submitted(s: AppView, input: Seq<char>) -> (AppView, EffectsView) {
    match entered(input) {
        Some(k) => {
            let t = key_added(not_editing(s), k);
            (fetch_started(t), EffectsView { save: true, fetch: fetch_jobs(t) })
        },
        None => (not_editing(s), nothing()),
    }
}

/// What a key does while the text `input` is being entered.
pub open spec fn edited(s: AppView, input: Seq<char>, code: Key) -> (AppView, EffectsView) {
    match code {
        Key::Esc => (not_editing(s), nothing()),
        Key::Enter => submitted(s, input),
        Key::Backspace => (
            AppView {
                editing: Some(
                    if input.len() > 0 {
                        input.drop_last()
                    } else {
                        input
                    },
                ),
                ..s
            },
            nothing(),
        ),
        Key::Char(c) => (AppView { editing: Some(input.push(c)), ..s }, nothing()),
        _ => (s, nothing()),
    }
}

/// What a key does while nothing is being entered.
pub open spec fn commanded(s: AppView, code: Key) -> (AppView, EffectsView) {
    let n = s.keys.len() as int;
    match code {
        Key::Char(c) => if c == 'q' {
            (AppView { quit: true, ..s }, nothing())
        } else if c == 'r' {
            (fetch_started(s), EffectsView { save: false, fetch: fetch_jobs(s) })
        } else if c == 'a' {
            (AppView { editing: Some(Seq::empty()), ..s }, nothing())
        } else if c == 'd' && n > 0 {
            (key_removed(s), EffectsView { save: true, fetch: Seq::empty() })
        } else if c == 'v' {
            (AppView { view: !s.view, ..s }, nothing())
        } else {
            (s, nothing())
        },
        Key::Esc => if s.view {
            (AppView { view: false, ..s }, nothing())
        } else {
            (AppView { quit: true, ..s }, nothing())
        },
        Key::Down | Key::Tab => if n > 0 {
            (AppView { selected: (s.selected + 1) % n, ..s }, nothing())
        } else {
            (s, nothing())
        },
        Key::Up => if n > 0 {
            (AppView { selected: (s.selected + n - 1) % n, ..s }, nothing())
        } else {
            (s, nothing())
        },
        Key::Enter | Key::Right => if n > 0 {
            (AppView { view: true, ..s }, nothing())
        } else {
            (s, nothing())
        },
        Key::Left => (AppView { view: false, ..s }, nothing()),
        _ => (s, nothing()),
    }
}

/// What a key does.
pub open spec fn pressed(s: AppView, key: KeyPress) -> (AppView, EffectsView) {
    if key.control && key.code == Key::Char('c') {
        (AppView { quit: true, ..s }, nothing())
    } else {
        match s.editing {
            Some(input) => edited(s, input, key.code),
            None => commanded(s, key.code),
        }
    }
}

/// What comes of something from the terminal.
pub open spec fn handled(s: AppView, input: Input) -> (AppView, EffectsView) {
    match input {
        Input::Key { pressed: true, key } => pressed(s, key),
        Input::Paste(t) => match s.editing {
            Some(entry) => (AppView { editing: Some(entry + t@), ..s }, nothing()),
            None => (s, nothing()),
        },
        _ => (s, nothing()),
    }
}

fn blanks(n: usize) -> (r: Vec<Usage>)
    ensures
        ollama::usage_views(r@) == blank_usages(n as nat),
{
    let mut out: Vec<Usage> = Vec::new();
    for i in 0..n
        invariant
            ollama::usage_views(out@) == blank_usages(i as nat),
    {
        let ghost was = out@;
        out.push(Usage::default());
        assert(ollama::usage_views(out@) =~= ollama::usage_views(was).push(ollama::no_usage()));
        assert(blank_usages((i + 1) as nat) =~= blank_usages(i as nat).push(ollama::no_usage()));
    }
    out
}

/// The key that an entered text describes.
pub fn parse_entry(input: &str) -> (r: Option<KeyEntry>)
    ensures
        match r {
            Some(k) => entered(input@) == Some(k@),
            None => entered(input@) is None,
        },
{
    let input = text::trim(input);
    let entry = match text::split_once(input, ',') {
        Some((label, key)) => KeyEntry {
            label: text::trim(label).to_owned(),
            key: text::trim(key).to_owned(),
        },
        None => KeyEntry { label: String::new(), key: input.to_owned() },
    };
    if entry.key.as_str().is_empty() {
        None
    } else {
        Some(entry)
    }
}

impl App {
    /// The state at the start, with the stored keys.
    pub fn new(store: KeyStore) -> (r: App)
        ensures
            r@ == initial(store@),
            r@.well_formed(),
    {
        let keys = store.keys;
        let usages = blanks(keys.len());
        let r = App {
            keys,
            usages,
            selected: 0,
            outstanding: 0,
            fetching: false,
            last_fetch: None,
            countdown: AUTO_SECS,
            editing: None,
            view: false,
            quit: false,
        };
        assert(r@ =~= initial(store@));
        r
    }

    /// Starts a round of requests, unless one is under way or there are no keys; gives the
    /// requests to be sent.
    pub fn start_fetch(&mut self) -> (r: Vec<FetchJob>)
        requires
            old(self)@.well_formed(),
        ensures
            final(self)@ == fetch_started(old(self)@),
            job_views(r@) == fetch_jobs(old(self)@),
            final(self)@.well_formed(),
    {
        let mut out: Vec<FetchJob> = Vec::new();
        assert(job_views(out@) =~= Seq::empty());
        if self.fetching || self.keys.is_empty() {
            return out;
        }
        self.fetching = true;
        self.outstanding = self.keys.len();
        self.usages = blanks(self.keys.len());
        let ghost all = jobs(self@.keys);
        for i in 0..self.keys.len()
            invariant
                all == jobs(self@.keys),
                job_views(out@) == all.take(i as int),
        {
            let ghost was = out@;
            let job = FetchJob { slot: i, key: self.keys[i].key.clone() };
            out.push(job);
            assert(job_views(out@) =~= job_views(was).push(all[i as int]));
            assert(all.take(i + 1) =~= all.take(i as int).push(all[i as int]));
        }
        assert(all.take(all.len() as int) =~= all);
        assert(self@ =~= fetch_started(old(self)@));
        out
    }

    /// Takes in the messages that have arrived by the time `now`. With the last answer that is
    /// awaited the round is over.
    pub fn drain(&mut self, arrived: Vec<Msg>, now: u64)
        requires
            old(self)@.well_formed(),
        ensures
            final(self)@ == drained(old(self)@, msg_views(arrived@), now),
            final(self)@.well_formed(),
    {
        if !self.fetching {
            return;
        }
        let ghost was = self@;
        let ghost msgs = msg_views(arrived@);
        let n = arrived.len();
        self.outstanding = if self.outstanding > n {
            self.outstanding - n
        } else {
            0
        };
        assert(msgs.take(0) =~= Seq::empty());
        let ghost shape = self@;
        for msg in it: arrived
            invariant
                it.seq() == arrived@,
                msgs == msg_views(arrived@),
                self@ == (AppView {
                    usages: received(was.usages, msgs.take(it.index() as int)),
                    ..shape
                }),
                self@.usages.len() == was.usages.len(),
        {
            let ghost k = it.index() as int;
            let ghost before = self@.usages;
            assert(msgs.take(k + 1).drop_last() =~= msgs.take(k));
            assert(msgs.take(k + 1).last() == msg@);
            match msg {
                Msg::Usage(i, u) => {
                    if i < self.usages.len() {
                        self.usages.set(i, u);
                        assert(ollama::usage_views(self.usages@) =~= before.update(i as int, u@));
                    }
                },
            }
            assert(self@ =~= (AppView {
                usages: received(was.usages, msgs.take(k + 1)),
                ..shape
            }));
        }
        assert(msgs.take(msgs.len() as int) =~= msgs);
        if self.outstanding == 0 {
            self.fetching = false;
            self.last_fetch = Some(now);
        }
        assert(self@ =~= drained(was, msgs, now));
    }

    /// Counts down to the next automatic refresh, and starts it when it is due; gives the
    /// requests to be sent.
    pub fn tick(&mut self, now: u64) -> (r: Vec<FetchJob>)
        requires
            old(self)@.well_formed(),
        ensures
            (final(self)@, job_views(r@)) == ticked(old(self)@, now),
            final(self)@ == (if is_due(old(self)@, now) {
                fetch_started(counted_down(old(self)@, now))
            } else {
                counted_down(old(self)@, now)
            }),
            job_views(r@) == (if is_due(old(self)@, now) {
                fetch_jobs(old(self)@)
            } else {
                Seq::empty()
            }),
            final(self)@.well_formed(),
    {
        if !self.fetching {
            if let Some(last) = self.last_fetch {
                let passed: u64 = if now > last {
                    (now - last) / NANOS_PER_SEC
                } else {
                    0
                };
                self.countdown = if passed < AUTO_SECS {
                    AUTO_SECS - passed
                } else {
                    0
                };
                assert(self@ =~= counted_down(old(self)@, now));
                if self.countdown == 0 {
                    return self.start_fetch();
                }
            }
        }
        let out: Vec<FetchJob> = Vec::new();
        assert(job_views(out@) =~= Seq::empty());
        out
    }

    /// The list of keys to be stored.
    pub fn save_keys(&self) -> (r: KeyStore)
        ensures
            r@ == self@.keys,
            r@ == saved(self@),
    {
        let mut keys: Vec<KeyEntry> = Vec::new();
        let ghost all = self@.keys;
        for i in 0..self.keys.len()
            invariant
                all == self@.keys,
                store::key_views(keys@) == all.take(i as int),
        {
            let ghost was = keys@;
            keys.push(self.keys[i].clone());
            assert(store::key_views(keys@) =~= store::key_views(was).push(all[i as int]));
            assert(all.take(i + 1) =~= all.take(i as int).push(all[i as int]));
        }
        assert(all.take(all.len() as int) =~= all);
        KeyStore { keys }
    }

    fn submit(&mut self, input: String) -> (r: Effects)
        requires
            old(self)@.well_formed(),
        ensures
            (final(self)@, r@) == submitted(old(self)@, input@),
            final(self)@.well_formed(),
    {
        self.editing = None;
        let ghost s = self@;
        assert(s =~= not_editing(old(self)@));
        match parse_entry(input.as_str()) {
            Some(entry) => {
                let ghost k = entry@;
                self.selected = self.keys.len();
                self.keys.push(entry);
                self.usages.push(Usage::default());
                assert(self@.keys =~= s.keys.push(k));
                assert(self@.usages =~= s.usages.push(ollama::no_usage()));
                assert(self@ =~= key_added(s, k));
                let fetch = self.start_fetch();
                Effects { save: true, fetch }
            },
            None => Effects::none(),
        }
    }

    fn edit(&mut self, input: String, code: Key) -> (r: Effects)
        requires
            old(self)@.well_formed(),
            old(self)@.editing == Some(input@),
        ensures
            (final(self)@, r@) == edited(old(self)@, input@, code),
            final(self)@.well_formed(),
    {
        match code {
            Key::Esc => {
                self.editing = None;
            },
            Key::Enter => {
                return self.submit(input);
            },
            Key::Backspace => {
                let mut input = input;
                let _ = input.pop();
                self.editing = Some(input);
            },
            Key::Char(c) => {
                let mut input = input;
                input.push(c);
                self.editing = Some(input);
            },
            _ => {},
        }
        assert(self@ =~= edited(old(self)@, input@, code).0);
        Effects::none()
    }

    fn remove_key(&mut self)
        requires
            old(self)@.well_formed(),
            old(self)@.keys.len() > 0,
        ensures
            final(self)@ == key_removed(old(self)@),
            final(self)@.well_formed(),
    {
        let ghost s = self@;
        let i = self.selected;
        let _ = self.keys.remove(i);
        let _ = self.usages.remove(i);
        assert(self@.keys =~= s.keys.remove(i as int));
        assert(self@.usages =~= s.usages.remove(i as int));
        if self.selected >= self.keys.len() && self.selected > 0 {
            self.selected = self.selected - 1;
        }
        if self.keys.is_empty() {
            self.view = false;
        }
        assert(self@ =~= key_removed(s));
    }

    fn command(&mut self, code: Key) -> (r: Effects)
        requires
            old(self)@.well_formed(),
        ensures
            (final(self)@, r@) == commanded(old(self)@, code),
            final(self)@.well_formed(),
    {
        let n = self.keys.len();
        match code {
            Key::Char(c) => {
                if c == 'q' {
                    self.quit = true;
                } else if c == 'r' {
                    let fetch = self.start_fetch();
                    return Effects { save: false, fetch };
                } else if c == 'a' {
                    self.editing = Some(String::new());
                } else if c == 'd' && n > 0 {
                    self.remove_key();
                    let r = Effects { save: true, fetch: Vec::new() };
                    assert(r@.fetch =~= Seq::empty());
                    return r;
                } else if c == 'v' {
                    self.view = !self.view;
                }
            },
            Key::Esc => {
                if self.view {
                    self.view = false;
                } else {
                    self.quit = true;
                }
            },
            Key::Down | Key::Tab => {
                if n > 0 {
                    self.selected = (self.selected + 1) % n;
                }
            },
            Key::Up => {
                if n > 0 {
                    let ghost s = self.selected as int;
                    proof {
                        lemma_wrap(s, n as int);
                    }
                    self.selected = if self.selected == 0 {
                        n - 1
                    } else {
                        self.selected - 1
                    };
                }
            },
            Key::Enter | Key::Right => {
                if n > 0 {
                    self.view = true;
                }
            },
            Key::Left => {
                self.view = false;
            },
            _ => {},
        }
        assert(self@ =~= commanded(old(self)@, code).0);
        Effects::none()
    }

    /// Acts on a key.
    pub fn handle_key(&mut self, key: KeyPress) -> (r: Effects)
        requires
            old(self)@.well_formed(),
        ensures
            (final(self)@, r@) == pressed(old(self)@, key),
            final(self)@.well_formed(),
    {
        if key.control && key.code == Key::Char('c') {
            self.quit = true;
            return Effects::none();
        }
        match self.editing.clone() {
            Some(input) => self.edit(input, key.code),
            None => self.command(key.code),
        }
    }

    /// Acts on what comes from the terminal.
    pub fn handle_input(&mut self, input: Input) -> (r: Effects)
        requires
            old(self)@.well_formed(),
        ensures
            (final(self)@, r@) == handled(old(self)@, input),
            final(self)@.well_formed(),
    {
        match input {
            Input::Key { pressed, key } => {
                if pressed {
                    return self.handle_key(key);
                }
            },
            Input::Paste(t) => {
                if let Some(entry) = self.editing.clone() {
                    let mut entry = entry;
                    entry.append(t.as_str());
                    self.editing = Some(entry);
                }
            },
            Input::Other => {},
        }
        Effects::none()
    }
}

proof fn lemma_wrap(s: int, n: int)
    requires
        0 <= s < n,
    ensures
        (s + n - 1) % n == if s == 0 {
            n - 1
        } else {
            s - 1
        },
{
    if s == 0 {
        vstd::arithmetic::div_mod::lemma_small_mod((n - 1) as nat, n as nat);
    } else {
        vstd::arithmetic::div_mod::lemma_mod_add_multiples_vanish(s - 1, n);
        vstd::arithmetic::div_mod::lemma_small_mod((s - 1) as nat, n as nat);
    }
}

/// Every way in which the state can change keeps it well-formed: a key or a paste, the arrival of
/// messages, and the clock.
pub proof fn law_well_formed_is_kept(
    s: AppView,
    input: Input,
    msgs: Seq<(int, UsageView)>,
    now: u64,
)
    requires
        s.well_formed(),
    ensures
        handled(s, input).0.well_formed(),
        drained(s, msgs, now).well_formed(),
        fetch_started(s).well_formed(),
        counted_down(s, now).well_formed(),
        fetch_started(counted_down(s, now)).well_formed(),
{
    lemma_received_len(s.usages, msgs);
    let n = s.keys.len() as int;
    if n > 0 {
        lemma_wrap(s.selected, n);
        vstd::arithmetic::div_mod::lemma_mod_bound(s.selected + 1, n);
    }
}

proof fn lemma_received_len(usages: Seq<UsageView>, msgs: Seq<(int, UsageView)>)
    ensures
        received(usages, msgs).len() == usages.len(),
    decreases msgs.len(),
{
    if msgs.len() > 0 {
        lemma_received_len(usages, msgs.drop_last());
    }
}

/// Control-C quits in every state and changes nothing else.
pub proof fn law_control_c_quits(s: AppView)
    ensures
        pressed(s, KeyPress { code: Key::Char('c'), control: true }) == (
            AppView { quit: true, ..s },
            nothing(),
        ),
{
}

/// Moving down and then up, or up and then down, selects the same key again.
pub proof fn law_down_and_up_undo_each_other(s: AppView)
    requires
        s.well_formed(),
    ensures
        commanded(commanded(s, Key::Down).0, Key::Up).0 == s,
        commanded(commanded(s, Key::Up).0, Key::Down).0 == s,
        commanded(s, Key::Tab) == commanded(s, Key::Down),
{
    let n = s.keys.len() as int;
    if n > 0 {
        lemma_wrap(s.selected, n);
        let down = (s.selected + 1) % n;
        let up = (s.selected + n - 1) % n;
        if s.selected == n - 1 {
            vstd::arithmetic::div_mod::lemma_mod_self_0(n);
        } else {
            vstd::arithmetic::div_mod::lemma_small_mod((s.selected + 1) as nat, n as nat);
        }
        lemma_wrap(down, n);
        if up == n - 1 {
            vstd::arithmetic::div_mod::lemma_mod_self_0(n);
        } else {
            vstd::arithmetic::div_mod::lemma_small_mod((up + 1) as nat, n as nat);
        }
        assert(commanded(commanded(s, Key::Down).0, Key::Up).0 =~= s);
        assert(commanded(commanded(s, Key::Up).0, Key::Down).0 =~= s);
    } else {
        assert(commanded(commanded(s, Key::Down).0, Key::Up).0 =~= s);
        assert(commanded(commanded(s, Key::Up).0, Key::Down).0 =~= s);
    }
}

/// The state after `k` steps down.
pub open spec fn moved_down(s: AppView, k: nat) -> AppView
    decreases k,
{
    if k == 0 {
        s
    } else {
        commanded(moved_down(s, (k - 1) as nat), Key::Down).0
    }
}

/// `k` steps down from a key select the key `k` places further, counted round in a circle.
pub proof fn law_steps_down(s: AppView, k: nat)
    requires
        s.well_formed(),
        s.keys.len() > 0,
    ensures
        moved_down(s, k) == (AppView { selected: (s.selected + k) % (s.keys.len() as int), ..s }),
    decreases k,
{
    let n = s.keys.len() as int;
    if k == 0 {
        vstd::arithmetic::div_mod::lemma_small_mod(s.selected as nat, n as nat);
        assert(moved_down(s, k) =~= (AppView { selected: (s.selected + k) % n, ..s }));
    } else {
        law_steps_down(s, (k - 1) as nat);
        vstd::arithmetic::div_mod::lemma_add_mod_noop(s.selected + k - 1, 1, n);
        vstd::arithmetic::div_mod::lemma_add_mod_noop((s.selected + k - 1) % n, 1, n);
        vstd::arithmetic::div_mod::lemma_mod_twice(s.selected + k - 1, n);
        assert(moved_down(s, k) =~= (AppView { selected: (s.selected + k) % n, ..s }));
    }
}

/// Backspace takes back the character typed last.
pub proof fn law_backspace_takes_back_a_character(s: AppView, input: Seq<char>, c: char)
    requires
        s.editing == Some(input),
    ensures
        ({
            let typed = edited(s, input, Key::Char(c)).0;
            edited(typed, input.push(c), Key::Backspace).0 == s
        }),
{
    assert(input.push(c).drop_last() =~= input);
    let typed = edited(s, input, Key::Char(c)).0;
    assert(edited(typed, input.push(c), Key::Backspace).0 =~= s);
}

/// Typing a text character by character enters the same as pasting it.
pub proof fn law_typing_is_pasting(s: AppView, input: Seq<char>, t: Seq<char>)
    requires
        s.editing == Some(input),
    ensures
        typed(s, t) == (AppView { editing: Some(input + t), ..s }),
    decreases t.len(),
{
    if t.len() == 0 {
        assert(input + t =~= input);
        assert(typed(s, t) =~= (AppView { editing: Some(input + t), ..s }));
    } else {
        law_typing_is_pasting(s, input, t.drop_last());
        assert((input + t.drop_last()).push(t.last()) =~= input + t);
    }
}

/// The state after the characters of a text have been typed.
pub open spec fn typed(s: AppView, t: Seq<char>) -> AppView
    decreases t.len(),
{
    if t.len() == 0 {
        s
    } else {
        pressed(typed(s, t.drop_last()), KeyPress { code: Key::Char(t.last()), control: false }).0
    }
}

/// Escape gives up the text that is being entered and leaves everything else as it was before the
/// entry was begun.
pub proof fn law_escape_gives_up_the_entry(s: AppView, t: Seq<char>)
    requires
        s.editing is None,
    ensures
        ({
            let begun = commanded(s, Key::Char('a')).0;
            edited(typed(begun, t), t, Key::Esc) == (s, nothing())
        }),
{
    let begun = commanded(s, Key::Char('a')).0;
    law_typing_is_pasting(begun, Seq::empty(), t);
    assert(Seq::<char>::empty() + t =~= t);
    assert(edited(typed(begun, t), t, Key::Esc).0 =~= s);
}

/// Deleting a key that was just entered brings back the keys of before, and the usages too, unless
/// entering it has started a round of requests, which makes all of them blank.
pub proof fn law_delete_undoes_add(s: AppView, input: Seq<char>)
    requires
        s.well_formed(),
        s.editing == Some(input),
        entered(input) is Some,
    ensures
        ({
            let t = edited(s, input, Key::Enter).0;
            let u = commanded(t, Key::Char('d')).0;
            &&& t.keys.len() == s.keys.len() + 1
            &&& u.keys == s.keys
            &&& u.usages == if s.fetching {
                s.usages
            } else {
                blank_usages(s.keys.len())
            }
            &&& u.editing is None
        }),
{
    let t = edited(s, input, Key::Enter).0;
    assert(t.keys.remove(s.keys.len() as int) =~= s.keys);
    if s.fetching {
        assert(t.usages.remove(s.keys.len() as int) =~= s.usages);
    } else {
        assert(t.usages.remove(s.keys.len() as int) =~= blank_usages(s.keys.len()));
    }
}

/// An entry `label,key` names a key and its label, without the white space around either. The
/// label has no comma; the key is not blank.
pub proof fn law_entry_with_label(label: Seq<char>, key: Seq<char>)
    requires
        !label.contains(','),
        text::trimmed(key).len() > 0,
    ensures
        entered(label.push(',') + key) == Some(
            KeyView { label: text::trimmed(label), key: text::trimmed(key) },
        ),
    decreases label.len() + key.len(),
{
    let s = label.push(',') + key;
    if label.len() > 0 && text::is_white(label.first()) {
        let l = label.drop_first();
        assert forall|i: int| 0 <= i < l.len() implies l[i] != ',' by {
            assert(label.contains(label[i + 1]));
        }
        law_entry_with_label(l, key);
        assert(s.drop_first() =~= l.push(',') + key);
    } else if text::is_white(key.last()) {
        let k = key.drop_last();
        text::lemma_trimmed_last(key);
        law_entry_with_label(label, k);
        assert(s.drop_last() =~= label.push(',') + k);
        assert(!text::is_white(s.first()));
        assert(text::trimmed(s) == text::trimmed(s.drop_last()));
    } else {
        assert(text::trimmed(s) == s);
        let i = text::position(s, ',');
        text::lemma_position(s, ',');
        assert(s[label.len() as int] == ',');
        if i < label.len() {
            assert(label.contains(label[i]));
        }
        assert(s.take(i) =~= label);
        assert(s.skip(i + 1) =~= key);
    }
}

/// An entry without a comma is the key alone, without the white space around it.
pub proof fn law_entry_without_label(key: Seq<char>)
    requires
        !key.contains(','),
        text::trimmed(key).len() > 0,
    ensures
        entered(key) == Some(KeyView { label: Seq::empty(), key: text::trimmed(key) }),
{
    let t = text::trimmed(key);
    text::lemma_position(t, ',');
    if text::position(t, ',') < t.len() {
        text::lemma_trimmed_within(key, ',');
    }
}

/// The key of an entry is never blank, and has no white space around it.
pub proof fn law_entered_key_is_trimmed(input: Seq<char>)
    ensures
        entered(input) matches Some(k) ==> k.key.len() > 0 && text::trimmed(k.key) == k.key
            && text::trimmed(k.label) == k.label,
{
    let t = text::trimmed(input);
    text::law_trimmed_ends(input);
    if let Some((l, k)) = text::halves(t, ',') {
        text::law_trimmed_ends(l);
        text::law_trimmed_ends(k);
    }
}

/// A round of requests asks once for each key, in the order of the keys, and awaits as many
/// answers; no round starts while one is under way.
pub proof fn law_round_asks_for_every_key(s: AppView)
    requires
        s.well_formed(),
    ensures
        fetch_started(s).fetching <==> s.keys.len() > 0 || s.fetching,
        can_fetch(s) ==> {
            &&& fetch_jobs(s).len() == s.keys.len() == fetch_started(s).outstanding
            &&& forall|i: int| 0 <= i < s.keys.len() ==> #[trigger] fetch_jobs(s)[i] == (
                i,
                s.keys[i].key,
            )
        },
        fetch_started(fetch_started(s)) == fetch_started(s),
        fetch_jobs(fetch_started(s)).len() == 0,
{
}

/// Messages may come in parts: taking them in one part after the other is the same as taking in
/// all of them at the time of the second part, as long as the first does not end the round.
pub proof fn law_messages_in_parts(
    s: AppView,
    a: Seq<(int, UsageView)>,
    b: Seq<(int, UsageView)>,
    then: u64,
    now: u64,
)
    requires
        s.fetching,
        a.len() < s.outstanding,
    ensures
        drained(drained(s, a, then), b, now) == drained(s, a + b, now),
{
    lemma_received_parts(s.usages, a, b);
    assert(drained(drained(s, a, then), b, now) =~= drained(s, a + b, now));
}

proof fn lemma_received_parts(
    usages: Seq<UsageView>,
    a: Seq<(int, UsageView)>,
    b: Seq<(int, UsageView)>,
)
    ensures
        received(received(usages, a), b) == received(usages, a + b),
    decreases b.len(),
{
    if b.len() == 0 {
        assert(a + b =~= a);
    } else {
        lemma_received_parts(usages, a, b.drop_last());
        assert((a + b).drop_last() =~= a + b.drop_last());
    }
}

/// A round is over when as many answers have come as requests were sent. Then the usage of each key
/// is what was last answered for it, and the refresh is counted down from that time on.
pub proof fn law_round_ends_with_every_answer(s: AppView, msgs: Seq<(int, UsageView)>, now: u64)
    requires
        s.well_formed(),
        can_fetch(s),
        msgs.len() == s.keys.len(),
    ensures
        ({
            let done = drained(fetch_started(s), msgs, now);
            &&& !done.fetching
            &&& done.outstanding == 0
            &&& done.last_fetch == Some(now)
            &&& done.keys == s.keys
            &&& forall|k: int|
                0 <= k < msgs.len() && 0 <= (#[trigger] msgs[k]).0 < s.keys.len() && (forall|l: int|
                    k < l < msgs.len() ==> (#[trigger] msgs[l]).0 != msgs[k].0)
                    ==> done.usages[msgs[k].0] == msgs[k].1
        }),
{
    let done = drained(fetch_started(s), msgs, now);
    assert forall|k: int|
        0 <= k < msgs.len() && 0 <= (#[trigger] msgs[k]).0 < s.keys.len() && (forall|l: int|
            k < l < msgs.len() ==> (#[trigger] msgs[l]).0 != msgs[k].0) implies done.usages[msgs[k].0]
        == msgs[k].1 by {
        lemma_received_last(blank_usages(s.keys.len()), msgs, k);
    }
}

proof fn lemma_received_last(usages: Seq<UsageView>, msgs: Seq<(int, UsageView)>, k: int)
    requires
        0 <= k < msgs.len(),
        0 <= msgs[k].0 < usages.len(),
        forall|l: int| k < l < msgs.len() ==> (#[trigger] msgs[l]).0 != msgs[k].0,
    ensures
        received(usages, msgs)[msgs[k].0] == msgs[k].1,
    decreases msgs.len(),
{
    let t = msgs.drop_last();
    lemma_received_len(usages, t);
    if k < t.len() {
        assert(msgs[msgs.len() - 1].0 != msgs[k].0);
        assert forall|l: int| k < l < t.len() implies (#[trigger] t[l]).0 != t[k].0 by {
            assert(msgs[l].0 != msgs[k].0);
        }
        lemma_received_last(usages, t, k);
    }
}

/// The automatic refresh comes when 60 seconds have passed since the last round, and not before.
pub proof fn law_refresh_after_a_minute(s: AppView, last: u64, now: u64)
    requires
        !s.fetching,
        s.last_fetch == Some(last),
    ensures
        is_due(s, now) <==> now - last >= 60 * NANOS_PER_SEC,
{
    if now > last {
        let d = now - last;
        assert(d / 1_000_000_000 >= 60 <==> d >= 60_000_000_000) by (nonlinear_arith);
    }
}

/// While a round is under way the clock changes nothing.
pub proof fn law_no_countdown_while_fetching(s: AppView, now: u64)
    requires
        s.fetching,
    ensures
        counted_down(s, now) == s,
        !is_due(s, now),
{
}

/// The list of keys is stored exactly when it has changed, and requests are sent exactly when a round
/// of them starts.
pub proof fn law_changed_keys_are_stored(s: AppView, input: Input)
    requires
        s.well_formed(),
    ensures
        handled(s, input).1.save <==> handled(s, input).0.keys != s.keys,
        handled(s, input).1.fetch.len() > 0 <==> handled(s, input).0.fetching && !s.fetching,
{
    let t = handled(s, input).0;
    if handled(s, input).1.save {
        assert(t.keys.len() != s.keys.len());
    }
}

/// Deleting takes out the selected key together with its usage. Every other key keeps its usage and
/// its place among the others, and the list is stored.
pub proof fn law_delete_keeps_each_key_with_its_usage(s: AppView, control: bool)
    requires
        s.well_formed(),
        s.keys.len() > 0,
        s.editing is None,
    ensures
        ({
            let (t, e) = pressed(s, KeyPress { code: Key::Char('d'), control });
            &&& t.keys.len() == s.keys.len() - 1
            &&& t.usages.len() == s.usages.len() - 1
            &&& forall|j: int|
                #![trigger t.keys[j]]
                #![trigger t.usages[j]]
                0 <= j < s.selected ==> t.keys[j] == s.keys[j] && t.usages[j] == s.usages[j]
            &&& forall|j: int|
                #![trigger t.keys[j]]
                #![trigger t.usages[j]]
                s.selected <= j < t.keys.len() ==> t.keys[j] == s.keys[j + 1] && t.usages[j]
                    == s.usages[j + 1]
            &&& e.save
            &&& e.fetch.len() == 0
        }),
{
}

/// After a deletion the key that stood behind the deleted one is selected, or the last one where there
/// was none behind it. The view of one key is left only when there are no more keys, and nothing else
/// changes.
pub proof fn law_delete_selects_the_next_key(s: AppView, control: bool)
    requires
        s.well_formed(),
        s.keys.len() > 0,
        s.editing is None,
    ensures
        ({
            let t = pressed(s, KeyPress { code: Key::Char('d'), control }).0;
            &&& s.selected + 1 < s.keys.len() ==> t.selected == s.selected && t.keys[t.selected]
                == s.keys[s.selected + 1]
            &&& s.selected + 1 == s.keys.len() && s.keys.len() > 1 ==> t.selected == s.selected - 1
                && t.keys[t.selected] == s.keys[s.selected - 1]
            &&& s.keys.len() == 1 ==> t.selected == 0 && !t.view
            &&& s.keys.len() > 1 ==> t.view == s.view
            &&& t.outstanding == s.outstanding && t.fetching == s.fetching
            &&& t.last_fetch == s.last_fetch && t.countdown == s.countdown
            &&& t.editing is None && t.quit == s.quit
        }),
{
}

/// Without keys there is nothing to delete, to select or to open.
pub proof fn law_no_keys_nothing_to_act_on(s: AppView, code: Key, control: bool)
    requires
        s.keys.len() == 0,
        s.editing is None,
        code == Key::Char('d') || code == Key::Char('r') || code == Key::Down || code == Key::Tab
            || code == Key::Up || code == Key::Enter || code == Key::Right,
    ensures
        pressed(s, KeyPress { code, control }).0 == s,
        !pressed(s, KeyPress { code, control }).1.save,
        pressed(s, KeyPress { code, control }).1.fetch.len() == 0,
{
}

/// A key that is entered stands behind the others and is selected; those before it keep their places.
/// Where no round of requests was under way, one starts that asks for every key, the new one included;
/// otherwise the usages that are there stay, and that of the new key is blank.
pub proof fn law_entered_key_is_put_last(s: AppView, input: Seq<char>, k: KeyView, control: bool)
    requires
        s.well_formed(),
        s.editing == Some(input),
        entered(input) == Some(k),
    ensures
        ({
            let (t, e) = pressed(s, KeyPress { code: Key::Enter, control });
            let n = s.keys.len() as int;
            &&& t.keys.len() == n + 1 && t.usages.len() == n + 1
            &&& forall|j: int| 0 <= j < n ==> #[trigger] t.keys[j] == s.keys[j]
            &&& t.keys[n] == k
            &&& t.selected == n
            &&& t.editing is None
            &&& is_blank(t.usages[n])
            &&& e.save
            &&& s.fetching ==> e.fetch.len() == 0 && t.outstanding == s.outstanding && forall|j: int|
                0 <= j < n ==> #[trigger] t.usages[j] == s.usages[j]
            &&& !s.fetching ==> e.fetch.len() == n + 1 && e.fetch[n] == (n, k.key) && t.outstanding
                == n + 1 && forall|j: int| 0 <= j < n ==> #[trigger] e.fetch[j] == (j, s.keys[j].key)
            &&& t.fetching && t.view == s.view && t.quit == s.quit
            &&& t.last_fetch == s.last_fetch && t.countdown == s.countdown
        }),
{
}

/// An entry that names no key is closed, and nothing else happens.
pub proof fn law_blank_entry_adds_nothing(s: AppView, input: Seq<char>, control: bool)
    requires
        s.editing == Some(input),
        text::trimmed(input).len() == 0,
    ensures
        ({
            let (t, e) = pressed(s, KeyPress { code: Key::Enter, control });
            &&& t == (AppView { editing: None, ..s })
            &&& !e.save && e.fetch.len() == 0
        }),
{
    let t = text::trimmed(input);
    assert(text::position(t, ',') == 0);
}

/// A usage of which nothing is known: no error, no windows and no models.
pub open spec fn is_blank(u: UsageView) -> bool {
    u.error is None && u.windows.len() == 0 && u.models.len() == 0 && u.models_window is None
}

/// While a text is being entered, every character goes into it and does nothing else: none deletes,
/// refreshes, opens or quits. Only control-C quits.
pub proof fn law_characters_only_enter(s: AppView, input: Seq<char>, c: char, control: bool)
    requires
        s.editing == Some(input),
        !(control && c == 'c'),
    ensures
        ({
            let (t, e) = pressed(s, KeyPress { code: Key::Char(c), control });
            &&& t.editing matches Some(more) && more.len() == input.len() + 1 && more.last() == c
                && more.drop_last() == input
            &&& t == (AppView { editing: t.editing, ..s })
            &&& !e.save && e.fetch.len() == 0
        }),
{
    assert(input.push(c).drop_last() =~= input);
}

/// A text that is pasted goes behind the one that is being entered; without an entry it is lost. A key
/// that goes up or repeats, and whatever else comes from the terminal, does nothing.
pub proof fn law_paste_needs_an_entry(s: AppView, pasted: String, key: KeyPress)
    ensures
        s.editing is None ==> handled(s, Input::Paste(pasted)).0 == s,
        s.editing matches Some(input) ==> handled(s, Input::Paste(pasted)).0 == (AppView {
            editing: Some(input + pasted@),
            ..s
        }),
        !handled(s, Input::Paste(pasted)).1.save,
        handled(s, Input::Paste(pasted)).1.fetch.len() == 0,
        handled(s, Input::Key { pressed: false, key }).0 == s,
        handled(s, Input::Other).0 == s,
        handled(s, Input::Key { pressed: true, key }) == pressed(s, key),
{
}

/// Enter and the right arrow open the view of the selected key, the left arrow and escape close it, and
/// `v` changes between the two; nothing else changes. Escape quits only where no key is in view, and `q`
/// quits always.
pub proof fn law_views_open_and_close(s: AppView, control: bool)
    requires
        s.well_formed(),
        s.keys.len() > 0,
        s.editing is None,
    ensures
        pressed(s, KeyPress { code: Key::Enter, control }).0 == (AppView { view: true, ..s }),
        pressed(s, KeyPress { code: Key::Right, control }).0 == (AppView { view: true, ..s }),
        pressed(s, KeyPress { code: Key::Left, control }).0 == (AppView { view: false, ..s }),
        pressed(s, KeyPress { code: Key::Char('v'), control }).0 == (AppView { view: !s.view, ..s }),
        s.view ==> pressed(s, KeyPress { code: Key::Esc, control }).0 == (AppView {
            view: false,
            ..s
        }),
        !s.view ==> pressed(s, KeyPress { code: Key::Esc, control }).0 == (AppView {
            quit: true,
            ..s
        }),
        pressed(s, KeyPress { code: Key::Char('q'), control }).0 == (AppView { quit: true, ..s }),
{
}

/// A new entry is empty, and nothing else changes with it.
pub proof fn law_new_entry_is_empty(s: AppView, control: bool)
    requires
        s.editing is None,
    ensures
        ({
            let t = pressed(s, KeyPress { code: Key::Char('a'), control }).0;
            &&& t.editing matches Some(input) && input.len() == 0
            &&& t == (AppView { editing: t.editing, ..s })
        }),
{
}

/// A round of requests begins with blank usages and leaves the keys and the rest of the state as they
/// are; `r` starts one.
pub proof fn law_round_begins_blank(s: AppView, control: bool)
    requires
        s.well_formed(),
        s.editing is None,
        !s.fetching,
        s.keys.len() > 0,
    ensures
        ({
            let (t, e) = pressed(s, KeyPress { code: Key::Char('r'), control });
            &&& t.fetching && t.outstanding == s.keys.len() && t.usages.len() == s.keys.len()
            &&& forall|i: int| 0 <= i < t.usages.len() ==> is_blank(#[trigger] t.usages[i])
            &&& t == (AppView {
                fetching: true,
                outstanding: t.outstanding,
                usages: t.usages,
                ..s
            })
            &&& !e.save && e.fetch.len() == s.keys.len()
            &&& forall|i: int|
                0 <= i < s.keys.len() ==> (#[trigger] e.fetch[i]).0 == i && e.fetch[i].1
                    == s.keys[i].key
        }),
{
}

/// An answer changes the usage of its own slot and no other; it brings the end of the round one nearer.
/// Messages change nothing else but the end of the round.
pub proof fn law_answer_reaches_its_slot(
    s: AppView,
    slot: int,
    usage: UsageView,
    now: u64,
)
    requires
        s.well_formed(),
        s.fetching,
    ensures
        ({
            let t = drained(s, seq![(slot, usage)], now);
            &&& t.usages.len() == s.usages.len()
            &&& 0 <= slot < s.usages.len() ==> t.usages[slot] == usage
            &&& forall|i: int|
                0 <= i < s.usages.len() && i != slot ==> #[trigger] t.usages[i] == s.usages[i]
            &&& t.outstanding == s.outstanding - 1
            &&& t.fetching <==> s.outstanding > 1
            &&& t.last_fetch == if s.outstanding > 1 {
                s.last_fetch
            } else {
                Some(now)
            }
            &&& t.keys == s.keys && t.selected == s.selected && t.countdown == s.countdown
            &&& t.editing == s.editing && t.view == s.view && t.quit == s.quit
        }),
{
    let msgs = seq![(slot, usage)];
    assert(msgs.drop_last() =~= Seq::empty());
    assert(received(s.usages, msgs.drop_last()) == s.usages);
}

/// A usage stays as it is where none of the messages is for its slot.
pub proof fn law_other_slots_keep_their_usages(
    s: AppView,
    msgs: Seq<(int, UsageView)>,
    now: u64,
    i: int,
)
    requires
        0 <= i < s.usages.len(),
        forall|k: int| 0 <= k < msgs.len() ==> (#[trigger] msgs[k]).0 != i,
    ensures
        drained(s, msgs, now).usages.len() == s.usages.len(),
        drained(s, msgs, now).usages[i] == s.usages[i],
{
    lemma_received_len(s.usages, msgs);
    lemma_received_elsewhere(s.usages, msgs, i);
}

proof fn lemma_received_elsewhere(usages: Seq<UsageView>, msgs: Seq<(int, UsageView)>, i: int)
    requires
        0 <= i < usages.len(),
        forall|k: int| 0 <= k < msgs.len() ==> (#[trigger] msgs[k]).0 != i,
    ensures
        received(usages, msgs)[i] == usages[i],
    decreases msgs.len(),
{
    if msgs.len() > 0 {
        let t = msgs.drop_last();
        assert(msgs[msgs.len() - 1].0 != i);
        assert forall|k: int| 0 <= k < t.len() implies (#[trigger] t[k]).0 != i by {
            assert(msgs[k].0 != i);
        }
        lemma_received_len(usages, t);
        lemma_received_elsewhere(usages, t, i);
    }
}

/// Outside a round, messages change nothing.
pub proof fn law_no_answers_outside_a_round(s: AppView, msgs: Seq<(int, UsageView)>, now: u64)
    requires
        !s.fetching,
    ensures
        drained(s, msgs, now) == s,
{
}

/// The countdown shows the seconds that are left of 60, rounded up: it starts at 60, falls by one with
/// each second, and nothing else changes with it.
pub proof fn law_countdown_falls_by_the_second(s: AppView, last: u64, now: u64)
    requires
        !s.fetching,
        s.last_fetch == Some(last),
        last <= now,
        now - last < 60_000_000_000,
    ensures
        ({
            let t = counted_down(s, now);
            &&& 1 <= t.countdown <= 60
            &&& (60 - t.countdown) * 1_000_000_000 <= now - last < (61 - t.countdown)
                * 1_000_000_000
            &&& t == (AppView { countdown: t.countdown, ..s })
        }),
{
    let d = now - last;
    assert(d / 1_000_000_000 * 1_000_000_000 <= d < (d / 1_000_000_000 + 1) * 1_000_000_000)
        by (nonlinear_arith)
        requires
            d >= 0,
    ;
    assert(d / 1_000_000_000 < 60) by (nonlinear_arith)
        requires
            0 <= d < 60_000_000_000,
    ;
}

/// The monitor starts with the keys that it is given, in their order, and with nothing known of them.
pub proof fn law_start(keys: Seq<KeyView>)
    ensures
        initial(keys).well_formed(),
        initial(keys).keys == keys,
        forall|i: int| 0 <= i < keys.len() ==> is_blank(#[trigger] initial(keys).usages[i]),
        !initial(keys).fetching && !initial(keys).view && !initial(keys).quit,
        initial(keys).editing is None && initial(keys).last_fetch is None,
        initial(keys).selected == 0 && initial(keys).countdown == 60,
{
}

/// The keys that are stored are those that the next start begins with.
pub proof fn law_stored_keys_come_back(s: AppView)
    ensures
        initial(store::loaded(Some(saved(s)))).keys == s.keys,
        initial(store::loaded(None)).keys.len() == 0,
{
}

/// Once 60 seconds have passed since the last round, the clock starts the next one, with a request for
/// every key; before that, and during a round or before the first one, it sends nothing.
pub proof fn law_clock_refreshes_every_key(s: AppView, now: u64)
    requires
        s.well_formed(),
        s.keys.len() > 0,
    ensures
        ({
            let (t, jobs) = ticked(s, now);
            let due = !s.fetching && (s.last_fetch matches Some(last) && now - last >= 60_000_000_000);
            &&& due ==> t.fetching && t.outstanding == s.keys.len() && jobs.len() == s.keys.len()
                && t.countdown == 0
            &&& due ==> forall|i: int|
                0 <= i < s.keys.len() ==> #[trigger] jobs[i] == (i, s.keys[i].key)
            &&& due ==> forall|i: int| 0 <= i < s.keys.len() ==> is_blank(#[trigger] t.usages[i])
            &&& !due ==> jobs.len() == 0 && t.fetching == s.fetching && t.usages == s.usages
                && t.outstanding == s.outstanding
            &&& s.fetching || s.last_fetch is None ==> t == s
            &&& t.keys == s.keys && t.selected == s.selected && t.editing == s.editing
            &&& t.view == s.view && t.quit == s.quit && t.last_fetch == s.last_fetch
        }),
{
    if let Some(last) = s.last_fetch {
        if !s.fetching {
            law_refresh_after_a_minute(s, last, now);
        }
    }
}

/// An entry with a label but without a key adds nothing.
pub proof fn law_entry_without_key(label: Seq<char>, key: Seq<char>)
    requires
        !label.contains(','),
        text::trimmed(key).len() == 0,
    ensures
        entered(label.push(',') + key) is None,
    decreases label.len() + key.len(),
{
    let s = label.push(',') + key;
    if label.len() > 0 && text::is_white(label.first()) {
        let l = label.drop_first();
        assert forall|i: int| 0 <= i < l.len() implies l[i] != ',' by {
            assert(label.contains(label[i + 1]));
        }
        law_entry_without_key(l, key);
        assert(s.drop_first() =~= l.push(',') + key);
    } else if key.len() > 0 {
        let (a, b) = text::law_trimmed_is_the_middle(key);
        assert(text::is_white(key[key.len() - 1]));
        text::lemma_trimmed_last(key);
        law_entry_without_key(label, key.drop_last());
        assert(s.drop_last() =~= label.push(',') + key.drop_last());
        assert(!text::is_white(s.first()));
        assert(text::trimmed(s) == text::trimmed(s.drop_last()));
    } else {
        assert(s =~= label.push(','));
        assert(text::trimmed(s) == s);
        let i = text::position(s, ',');
        text::lemma_position(s, ',');
        assert(s[label.len() as int] == ',');
        if i < label.len() {
            assert(label.contains(label[i]));
        }
        assert(s.skip(i + 1) =~= Seq::empty());
        assert(text::trimmed(s.skip(i + 1)).len() == 0);
    }
}

/// While a text is being entered, only characters, backspace, enter and escape do anything; at other
/// times, only the keys that have a meaning do.
pub proof fn law_other_keys_do_nothing(s: AppView, code: Key, control: bool)
    requires
        s.editing is Some ==> code == Key::Tab || code == Key::Up || code == Key::Down || code
            == Key::Left || code == Key::Right || code == Key::Other,
        s.editing is None ==> code == Key::Backspace || code == Key::Other || (
        code matches Key::Char(c) && c != 'a' && c != 'c' && c != 'd' && c != 'q' && c != 'r' && c
            != 'v'),
    ensures
        pressed(s, KeyPress { code, control }).0 == s,
        !pressed(s, KeyPress { code, control }).1.save,
        pressed(s, KeyPress { code, control }).1.fetch.len() == 0,
{
}

/// Backspace on an empty entry, and escape in an entry, do nothing but what they are for.
pub proof fn law_ends_of_an_entry(s: AppView, input: Seq<char>, control: bool)
    requires
        s.editing == Some(input),
    ensures
        pressed(s, KeyPress { code: Key::Esc, control }).0 == (AppView { editing: None, ..s }),
        !pressed(s, KeyPress { code: Key::Esc, control }).1.save,
        input.len() == 0 ==> pressed(s, KeyPress { code: Key::Backspace, control }).0 == s,
        input.len() > 0 ==> pressed(s, KeyPress { code: Key::Backspace, control }).0 == (AppView {
            editing: Some(input.take(input.len() - 1)),
            ..s
        }),
{
    if input.len() > 0 {
        assert(input.drop_last() =~= input.take(input.len() - 1));
    } else {
        assert(pressed(s, KeyPress { code: Key::Backspace, control }).0 =~= s);
    }
}

} // verus!
