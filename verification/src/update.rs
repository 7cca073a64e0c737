//! The self-update, step by step: what to do next, given what came of the step before.
use crate::net;
use crate::net::{Body, Request};
use crate::release;
use crate::release::{Os, Platform, REPO, VERSION};
use crate::summary;
use crate::text;
use vstd::prelude::*;

verus! {

/// How far an update has come: what is being waited for.
#[derive(Clone, Copy, Debug, PartialEq, Eq, Structural)]
pub enum Stage {
    /// The latest release.
    Checking,
    /// The place of the running program.
    Locating,
    /// The file of the release.
    Downloading,
    /// The directory to unpack into.
    Staging,
    /// The end of the unpacking.
    Extracting,
    /// The names of the unpacked files.
    Searching,
    /// The running program to be moved out of the way.
    MovingAside,
    /// The new program to be made executable.
    Permitting,
    /// The new program to be put in place.
    Installing,
    /// What is left over to be removed.
    Cleaning,
    /// Nothing.
    Done,
}

/// What came of downloading the file of a release.
#[derive(Debug)]
pub enum Download {
    Complete,
    /// There was no answer.
    NotReached(String),
    /// The file could not be made.
    NotCreated { path: String, error: String },
    /// The answer broke off.
    Interrupted(String),
}

/// What came of running a program.
#[derive(Debug)]
pub enum CommandEnd {
    Success,
    NotStarted(String),
    /// It ended with this status.
    Failed(String),
}

/// What came of a step.
#[derive(Debug)]
pub enum Event {
    /// The reply to the request for the latest release.
    Release(Result<Body, String>),
    /// The running program was found; whether its directory is known, and the time in milliseconds.
    Located { has_dir: bool, millis: u128 },
    NotLocated(String),
    Downloaded(Download),
    /// The directory to unpack into was made; the paths of the archive and of the directory.
    Staged { archive: String, stage: String },
    NotStaged(String),
    /// The unpacking ended.
    Extracted(CommandEnd),
    /// The names of the unpacked files.
    Listed(Vec<String>),
    /// A file was moved or made executable, or could not be.
    Moved(Result<(), String>),
    Cleaned,
}

/// What to do next.
#[derive(Debug)]
pub enum Action {
    /// Send a request for the latest release.
    Ask(Request),
    /// Find the place of the running program.
    Locate,
    /// Send a request and store the answer in the file `archive` next to the running program;
    /// `stage` names the directory to unpack into.
    Fetch { request: Request, archive: String, stage: String },
    /// Make the directory to unpack into.
    MakeStage,
    /// Run a program.
    Run { program: String, args: Vec<String> },
    /// List the unpacked files.
    List,
    /// Remove what an earlier update moved aside, and move the running program aside.
    MoveAside,
    /// Make the unpacked file with this number executable.
    Permit(usize),
    /// Move the unpacked file with this number to the place of the running program.
    Install(usize),
    /// Remove the archive and the directory, and, if `old`, what was moved aside.
    CleanUp { old: bool },
    /// End with success.
    Finish,
    /// Move what was moved aside back, if `roll_back`, and end with this error.
    Fail { roll_back: bool, error: String },
}

#[verifier::ext_equal]
pub enum ActionView {
    Ask(net::RequestView),
    Locate,
    Fetch { request: net::RequestView, archive: Seq<char>, stage: Seq<char> },
    MakeStage,
    Run { program: Seq<char>, args: Seq<Seq<char>> },
    List,
    MoveAside,
    Permit(int),
    Install(int),
    CleanUp { old: bool },
    Finish,
    Fail { roll_back: bool, error: Seq<char> },
}

impl View for Action {
    type V = ActionView;

    open spec fn view(&self) -> ActionView {
        match self {
            Action::Ask(request) => ActionView::Ask(request@),
            Action::Locate => ActionView::Locate,
            Action::Fetch { request, archive, stage } => ActionView::Fetch {
                request: request@,
                archive: archive@,
                stage: stage@,
            },
            Action::MakeStage => ActionView::MakeStage,
            Action::Run { program, args } => ActionView::Run {
                program: program@,
                args: summary::texts(args@),
            },
            Action::List => ActionView::List,
            Action::MoveAside => ActionView::MoveAside,
            Action::Permit(i) => ActionView::Permit(*i as int),
            Action::Install(i) => ActionView::Install(*i as int),
            Action::CleanUp { old } => ActionView::CleanUp { old: *old },
            Action::Finish => ActionView::Finish,
            Action::Fail { roll_back, error } => ActionView::Fail {
                roll_back: *roll_back,
                error: error@,
            },
        }
    }
}

/// What to say, line by line, and then what to do next.
#[derive(Debug)]
pub struct Step {
    pub say: Vec<String>,
    pub action: Action,
}

#[verifier::ext_equal]
pub struct StepView {
    pub say: Seq<Seq<char>>,
    pub action: ActionView,
}

impl View for Step {
    type V = StepView;

    open spec fn view(&self) -> StepView {
        StepView { say: summary::texts(self.say@), action: self.action@ }
    }
}

/// An update that is under way.
#[derive(Debug)]
pub struct Updater {
    /// Whether to stop when it is known if there is a newer release.
    pub check_only: bool,
    pub platform: Platform,
    pub stage: Stage,
    /// The tag of the release, once it is known.
    pub tag: String,
    /// Where the file of the release can be had, once it is known.
    pub url: String,
    /// The number of the new program among the unpacked files, once it is known.
    pub found: usize,
}

#[verifier::ext_equal]
pub struct UpdaterView {
    pub check_only: bool,
    pub platform: Platform,
    pub stage: Stage,
    pub tag: Seq<char>,
    pub url: Seq<char>,
    pub found: int,
}

impl View for Updater {
    type V = UpdaterView;

    open spec fn view(&self) -> UpdaterView {
        UpdaterView {
            check_only: self.check_only,
            platform: self.platform,
            stage: self.stage,
            tag: self.tag@,
            url: self.url@,
            found: self.found as int,
        }
    }
}

/// The start of an update.
pub open spec fn begun(check_only: bool, platform: Platform) -> UpdaterView {
    UpdaterView {
        check_only,
        platform,
        stage: Stage::Checking,
        tag: Seq::empty(),
        url: Seq::empty(),
        found: 0,
    }
}

/// What is said and done at the start of an update.
pub open spec fn first_step() -> StepView {
    StepView {
        say: seq!["🐑 ollama-shepherd v"@ + VERSION@ + " — checking for updates…"@],
        action: ActionView::Ask(release::release_request_view()),
    }
}

/// Whether an event is what a stage waits for.
pub open spec fn fits(stage: Stage, event: Event) -> bool {
    match stage {
        Stage::Checking => event is Release,
        Stage::Locating => event is Located || event is NotLocated,
        Stage::Downloading => event is Downloaded,
        Stage::Staging => event is Staged || event is NotStaged,
        Stage::Extracting => event is Extracted,
        Stage::Searching => event is Listed,
        Stage::MovingAside | Stage::Permitting | Stage::Installing => event is Moved,
        Stage::Cleaning => event is Cleaned,
        Stage::Done => false,
    }
}

/// The state in which a stage is reached, with nothing to say.
pub open spec fn go(u: UpdaterView, stage: Stage, action: ActionView) -> (UpdaterView, StepView) {
    (UpdaterView { stage, ..u }, StepView { say: Seq::empty(), action })
}

/// The end with an error.
pub open spec fn failed(u: UpdaterView, error: Seq<char>) -> (UpdaterView, StepView) {
    go(u, Stage::Done, ActionView::Fail { roll_back: false, error })
}

/// Whether a tag names a version that this program has already or had before.
pub open spec fn is_known(tag: Seq<char>) -> bool {
    release::version_le(release::version(tag), release::version(VERSION@))
}

/// What follows from the latest release.
pub open spec fn after_release(u: UpdaterView, reply: Result<Body, String>) -> (
    UpdaterView,
    StepView,
) {
    match release::latest(reply, u.platform) {
        Err(e) => failed(u, e),
        Ok((tag, url)) => {
            let offer = "⬆ update available: v"@ + VERSION@ + " → "@ + tag;
            let known = UpdaterView { tag, url, ..u };
            if is_known(tag) {
                (
                    UpdaterView { stage: Stage::Done, ..known },
                    StepView {
                        say: seq![
                            "✓ already up to date (v"@ + VERSION@ + " ≥ "@ + tag + ")"@,
                        ],
                        action: ActionView::Finish,
                    },
                )
            } else if u.check_only {
                (
                    UpdaterView { stage: Stage::Done, ..known },
                    StepView {
                        say: seq![offer, "  run `ollama-shepherd update` to install"@],
                        action: ActionView::Finish,
                    },
                )
            } else {
                (
                    UpdaterView { stage: Stage::Locating, ..known },
                    StepView { say: seq![offer], action: ActionView::Locate },
                )
            }
        },
    }
}

/// The file of a release for a platform; no name where there is none.
pub open spec fn asset_name(platform: Platform) -> Seq<char> {
    match release::asset_of(platform) {
        Some(name) => name,
        None => Seq::empty(),
    }
}

/// The name of the directory to unpack into; the archive has the same with an ending.
pub open spec fn work_name(millis: u128) -> Seq<char> {
    ".shepherd-update-"@ + text::decimal(millis as nat)
}

/// What follows from the place of the running program.
pub open spec fn after_located(u: UpdaterView, has_dir: bool, millis: u128) -> (
    UpdaterView,
    StepView,
) {
    if !has_dir {
        failed(u, "cannot resolve install dir"@)
    } else {
        (
            UpdaterView { stage: Stage::Downloading, ..u },
            StepView {
                say: seq!["⇣ downloading "@ + asset_name(u.platform) + "…"@],
                action: ActionView::Fetch {
                    request: release::download_request_view(u.url),
                    archive: work_name(millis) + ".pkg"@,
                    stage: work_name(millis),
                },
            },
        )
    }
}

/// What follows from the download.
pub open spec fn after_download(u: UpdaterView, d: Download) -> (UpdaterView, StepView) {
    match d {
        Download::Complete => go(u, Stage::Staging, ActionView::MakeStage),
        Download::NotReached(e) => failed(u, "download failed: "@ + e@),
        Download::NotCreated { path, error } => failed(
            u,
            "cannot create "@ + path@ + ": "@ + error@,
        ),
        Download::Interrupted(e) => failed(u, "download failed: "@ + e@),
    }
}

/// The program that unpacks the archive.
pub open spec fn unpacker(platform: Platform) -> Seq<char> {
    if platform.os == Os::Windows {
        "powershell"@
    } else {
        "tar"@
    }
}

/// What the program that unpacks the archive is told.
pub open spec fn unpacker_args(
    platform: Platform,
    archive: Seq<char>,
    stage: Seq<char>,
) -> Seq<Seq<char>> {
    if platform.os == Os::Windows {
        seq![
            "-NoProfile"@,
            "-Command"@,
            "Expand-Archive -LiteralPath '"@ + archive + "' -DestinationPath '"@ + stage
                + "' -Force"@,
        ]
    } else {
        seq!["xzf"@, archive, "-C"@, stage]
    }
}

/// What follows from the end of the unpacking.
pub open spec fn after_extracted(u: UpdaterView, end: CommandEnd) -> (UpdaterView, StepView) {
    match end {
        CommandEnd::Success => go(u, Stage::Searching, ActionView::List),
        CommandEnd::NotStarted(e) => failed(
            u,
            "failed to run "@ + unpacker(u.platform) + ": "@ + e@,
        ),
        CommandEnd::Failed(status) => failed(
            u,
            unpacker(u.platform) + " exited with "@ + status@,
        ),
    }
}

/// The name of the program in the archive.
pub open spec fn binary_name(platform: Platform) -> Seq<char> {
    if platform.os == Os::Windows {
        "ollama-shepherd.exe"@
    } else {
        "ollama-shepherd"@
    }
}

/// Where a name first stands in a list; the length of the list if it does not stand there.
pub open spec fn name_position(names: Seq<Seq<char>>, name: Seq<char>) -> int
    decreases names.len(),
{
    if names.len() == 0 || names[0] == name {
        0
    } else {
        1 + name_position(names.drop_first(), name)
    }
}

/// Whether files are made executable on a platform.
pub open spec fn has_modes(platform: Platform) -> bool {
    platform.os == Os::Linux || platform.os == Os::OtherUnix
}

/// What follows from the names of the unpacked files.
pub open spec fn after_listed(u: UpdaterView, names: Seq<Seq<char>>) -> (UpdaterView, StepView) {
    let i = name_position(names, binary_name(u.platform));
    let at = UpdaterView { found: i, ..u };
    if i >= names.len() {
        failed(u, "archive did not contain the binary"@)
    } else if u.platform.os == Os::Windows {
        go(at, Stage::MovingAside, ActionView::MoveAside)
    } else if has_modes(u.platform) {
        go(at, Stage::Permitting, ActionView::Permit(i))
    } else {
        go(at, Stage::Installing, ActionView::Install(i))
    }
}

/// What follows from a file having been moved or made executable, or not.
pub open spec fn after_moved(u: UpdaterView, moved: Result<(), String>) -> (UpdaterView, StepView) {
    match moved {
        Ok(_) => if u.stage == Stage::Installing {
            go(u, Stage::Cleaning, ActionView::CleanUp { old: u.platform.os == Os::Windows })
        } else {
            go(u, Stage::Installing, ActionView::Install(u.found))
        },
        Err(e) => if u.stage == Stage::Installing {
            go(
                u,
                Stage::Done,
                ActionView::Fail {
                    roll_back: u.platform.os == Os::Windows,
                    error: "install failed: "@ + e@,
                },
            )
        } else if u.stage == Stage::MovingAside {
            failed(u, "rename failed: "@ + e@)
        } else {
            failed(u, "chmod failed: "@ + e@)
        },
    }
}

/// The end with success.
pub open spec fn after_cleaned(u: UpdaterView) -> (UpdaterView, StepView) {
    (
        UpdaterView { stage: Stage::Done, ..u },
        StepView {
            say: seq![
                "✓ updated to "@ + u.tag,
                "  release notes: https://github.com/"@ + REPO@ + "/releases/tag/"@ + u.tag,
                "  restart ollama-shepherd to use the new version."@,
            ],
            action: ActionView::Finish,
        },
    )
}

/// What follows from an event.
pub open spec fn next(u: UpdaterView, event: Event) -> (UpdaterView, StepView) {
    match event {
        Event::Release(reply) => after_release(u, reply),
        Event::Located { has_dir, millis } => after_located(u, has_dir, millis),
        Event::NotLocated(e) => failed(u, "cannot locate own binary: "@ + e@),
        Event::Downloaded(d) => after_download(u, d),
        Event::Staged { archive, stage } => go(
            u,
            Stage::Extracting,
            ActionView::Run {
                program: unpacker(u.platform),
                args: unpacker_args(u.platform, archive@, stage@),
            },
        ),
        Event::NotStaged(e) => failed(u, "cannot stage: "@ + e@),
        Event::Extracted(end) => after_extracted(u, end),
        Event::Listed(names) => after_listed(u, summary::texts(names@)),
        Event::Moved(moved) => after_moved(u, moved),
        Event::Cleaned => after_cleaned(u),
    }
}

fn silent(action: Action) -> (r: Step)
    ensures
        r@ == (StepView { say: Seq::empty(), action: action@ }),
{
    let r = Step { say: Vec::new(), action };
    assert(r@.say =~= Seq::empty());
    r
}

fn aloud(line: String, action: Action) -> (r: Step)
    ensures
        r@ == (StepView { say: seq![line@], action: action@ }),
{
    let mut say: Vec<String> = Vec::new();
    say.push(line);
    let r = Step { say, action };
    assert(r@.say =~= seq![line@]);
    r
}

fn add_line(step: &mut Step, line: String)
    ensures
        final(step)@ == (StepView { say: old(step)@.say.push(line@), ..old(step)@ }),
{
    let ghost was = step@.say;
    step.say.push(line);
    assert(step@.say =~= was.push(line@));
}

fn unpack_action(platform: Platform, archive: &str, stage: &str) -> (r: Action)
    ensures
        r@ == (ActionView::Run {
            program: unpacker(platform),
            args: unpacker_args(platform, archive@, stage@),
        }),
{
    let mut args: Vec<String> = Vec::new();
    if platform.os == Os::Windows {
        let mut command = text::joined("Expand-Archive -LiteralPath '", archive);
        command.append("' -DestinationPath '");
        command.append(stage);
        command.append("' -Force");
        args.push("-NoProfile".to_owned());
        args.push("-Command".to_owned());
        args.push(command);
        assert(summary::texts(args@) =~= unpacker_args(platform, archive@, stage@));
        Action::Run { program: "powershell".to_owned(), args }
    } else {
        args.push("xzf".to_owned());
        args.push(archive.to_owned());
        args.push("-C".to_owned());
        args.push(stage.to_owned());
        assert(summary::texts(args@) =~= unpacker_args(platform, archive@, stage@));
        Action::Run { program: "tar".to_owned(), args }
    }
}

fn unpacker_name(platform: Platform) -> (r: &'static str)
    ensures
        r@ == unpacker(platform),
{
    if platform.os == Os::Windows {
        "powershell"
    } else {
        "tar"
    }
}

fn find_name(names: &Vec<String>, name: &str) -> (r: usize)
    ensures
        r == name_position(summary::texts(names@), name@),
        r <= names@.len(),
{
    let ghost all = summary::texts(names@);
    assert(all.skip(0) =~= all);
    let mut i: usize = 0;
    while i < names.len() && !text::same(names[i].as_str(), name)
        invariant
            i <= names@.len(),
            all == summary::texts(names@),
            name_position(all, name@) == i + name_position(all.skip(i as int), name@),
        decreases names@.len() - i,
    {
        assert(all[i as int] == names@[i as int]@);
        assert(all.skip(i as int).drop_first() =~= all.skip(i + 1));
        i = i + 1;
    }
    if i < names.len() {
        assert(all[i as int] == names@[i as int]@);
    }
    i
}

/// Begins an update.
pub fn run(check_only: bool, platform: Platform) -> (r: (Updater, Step))
    ensures
        r.0@ == begun(check_only, platform),
        r.1@ == first_step(),
{
    let updater = Updater {
        check_only,
        platform,
        stage: Stage::Checking,
        tag: String::new(),
        url: String::new(),
        found: 0,
    };
    let mut line = text::joined("🐑 ollama-shepherd v", VERSION);
    line.append(" — checking for updates…");
    (updater, aloud(line, Action::Ask(release::release_request())))
}

impl Updater {
    fn fail(&mut self, error: String) -> (r: Step)
        ensures
            (final(self)@, r@) == failed(old(self)@, error@),
    {
        self.stage = Stage::Done;
        silent(Action::Fail { roll_back: false, error })
    }

    fn on_release(&mut self, reply: Result<Body, String>) -> (r: Step)
        ensures
            (final(self)@, r@) == after_release(old(self)@, reply),
    {
        match release::latest_release(&reply, self.platform) {
            Err(e) => self.fail(e),
            Ok((tag, url)) => {
                let known = release::is_at_most(
                    release::parse_version(tag.as_str()),
                    release::current_version(),
                );
                self.url = url;
                self.tag = tag.clone();
                if known {
                    self.stage = Stage::Done;
                    let mut line = text::joined("✓ already up to date (v", VERSION);
                    line.append(" ≥ ");
                    line.append(tag.as_str());
                    line.append(")");
                    return aloud(line, Action::Finish);
                }
                let mut offer = text::joined("⬆ update available: v", VERSION);
                offer.append(" → ");
                offer.append(tag.as_str());
                if self.check_only {
                    self.stage = Stage::Done;
                    let mut step = aloud(offer, Action::Finish);
                    add_line(&mut step, "  run `ollama-shepherd update` to install".to_owned());
                    assert(step@.say =~= after_release(old(self)@, reply).1.say);
                    return step;
                }
                self.stage = Stage::Locating;
                aloud(offer, Action::Locate)
            },
        }
    }

    fn on_located(&mut self, has_dir: bool, millis: u128) -> (r: Step)
        ensures
            (final(self)@, r@) == after_located(old(self)@, has_dir, millis),
    {
        if !has_dir {
            return self.fail("cannot resolve install dir".to_owned());
        }
        self.stage = Stage::Downloading;
        let mut line = "⇣ downloading ".to_owned();
        if let Some(asset) = release::target_asset(self.platform) {
            line.append(asset);
        }
        line.append("…");
        let stage = text::joined(".shepherd-update-", text::to_decimal(millis).as_str());
        let archive = text::joined(stage.as_str(), ".pkg");
        let request = release::download_request(self.url.as_str());
        proof {
            assert(line@ =~= "⇣ downloading "@ + asset_name(self.platform) + "…"@);
        }
        aloud(line, Action::Fetch { request, archive, stage })
    }

    fn on_download(&mut self, d: Download) -> (r: Step)
        ensures
            (final(self)@, r@) == after_download(old(self)@, d),
    {
        match d {
            Download::Complete => {
                self.stage = Stage::Staging;
                silent(Action::MakeStage)
            },
            Download::NotReached(e) => self.fail(text::joined("download failed: ", e.as_str())),
            Download::NotCreated { path, error } => {
                let mut message = text::joined("cannot create ", path.as_str());
                message.append(": ");
                message.append(error.as_str());
                self.fail(message)
            },
            Download::Interrupted(e) => self.fail(text::joined("download failed: ", e.as_str())),
        }
    }

    fn on_extracted(&mut self, end: CommandEnd) -> (r: Step)
        ensures
            (final(self)@, r@) == after_extracted(old(self)@, end),
    {
        let program = unpacker_name(self.platform);
        match end {
            CommandEnd::Success => {
                self.stage = Stage::Searching;
                silent(Action::List)
            },
            CommandEnd::NotStarted(e) => {
                let mut message = text::joined("failed to run ", program);
                message.append(": ");
                message.append(e.as_str());
                self.fail(message)
            },
            CommandEnd::Failed(status) => {
                let mut message = text::joined(program, " exited with ");
                message.append(status.as_str());
                self.fail(message)
            },
        }
    }

    fn on_listed(&mut self, names: Vec<String>) -> (r: Step)
        ensures
            (final(self)@, r@) == after_listed(old(self)@, summary::texts(names@)),
    {
        let i = if self.platform.os == Os::Windows {
            find_name(&names, "ollama-shepherd.exe")
        } else {
            find_name(&names, "ollama-shepherd")
        };
        if i == names.len() {
            return self.fail("archive did not contain the binary".to_owned());
        }
        self.found = i;
        if self.platform.os == Os::Windows {
            self.stage = Stage::MovingAside;
            silent(Action::MoveAside)
        } else if self.platform.os == Os::Linux || self.platform.os == Os::OtherUnix {
            self.stage = Stage::Permitting;
            silent(Action::Permit(i))
        } else {
            self.stage = Stage::Installing;
            silent(Action::Install(i))
        }
    }

    fn on_moved(&mut self, moved: Result<(), String>) -> (r: Step)
        ensures
            (final(self)@, r@) == after_moved(old(self)@, moved),
    {
        match moved {
            Ok(_) => {
                if self.stage == Stage::Installing {
                    self.stage = Stage::Cleaning;
                    silent(Action::CleanUp { old: self.platform.os == Os::Windows })
                } else {
                    self.stage = Stage::Installing;
                    silent(Action::Install(self.found))
                }
            },
            Err(e) => {
                if self.stage == Stage::Installing {
                    self.stage = Stage::Done;
                    let error = text::joined("install failed: ", e.as_str());
                    silent(Action::Fail { roll_back: self.platform.os == Os::Windows, error })
                } else if self.stage == Stage::MovingAside {
                    self.fail(text::joined("rename failed: ", e.as_str()))
                } else {
                    self.fail(text::joined("chmod failed: ", e.as_str()))
                }
            },
        }
    }

    fn on_cleaned(&mut self) -> (r: Step)
        ensures
            (final(self)@, r@) == after_cleaned(old(self)@),
    {
        self.stage = Stage::Done;
        let mut notes = text::joined("  release notes: https://github.com/", REPO);
        notes.append("/releases/tag/");
        notes.append(self.tag.as_str());
        let mut step = aloud(text::joined("✓ updated to ", self.tag.as_str()), Action::Finish);
        add_line(&mut step, notes);
        add_line(&mut step, "  restart ollama-shepherd to use the new version.".to_owned());
        assert(step@.say =~= after_cleaned(old(self)@).1.say);
        step
    }

    /// Whether an event is what is being waited for.
    pub fn awaits(&self, event: &Event) -> (r: bool)
        ensures
            r == fits(self@.stage, *event),
    {
        match (self.stage, event) {
            (Stage::Checking, Event::Release(_)) => true,
            (Stage::Locating, Event::Located { .. }) => true,
            (Stage::Locating, Event::NotLocated(_)) => true,
            (Stage::Downloading, Event::Downloaded(_)) => true,
            (Stage::Staging, Event::Staged { .. }) => true,
            (Stage::Staging, Event::NotStaged(_)) => true,
            (Stage::Extracting, Event::Extracted(_)) => true,
            (Stage::Searching, Event::Listed(_)) => true,
            (Stage::MovingAside, Event::Moved(_)) => true,
            (Stage::Permitting, Event::Moved(_)) => true,
            (Stage::Installing, Event::Moved(_)) => true,
            (Stage::Cleaning, Event::Cleaned) => true,
            _ => false,
        }
    }

    /// Takes in what came of the last step, and gives the next.
    pub fn step(&mut self, event: Event) -> (r: Step)
        requires
            fits(old(self)@.stage, event),
        ensures
            (final(self)@, r@) == next(old(self)@, event),
    {
        match event {
            Event::Release(reply) => self.on_release(reply),
            Event::Located { has_dir, millis } => self.on_located(has_dir, millis),
            Event::NotLocated(e) => self.fail(text::joined("cannot locate own binary: ", e.as_str())),
            Event::Downloaded(d) => self.on_download(d),
            Event::Staged { archive, stage } => {
                self.stage = Stage::Extracting;
                silent(unpack_action(self.platform, archive.as_str(), stage.as_str()))
            },
            Event::NotStaged(e) => self.fail(text::joined("cannot stage: ", e.as_str())),
            Event::Extracted(end) => self.on_extracted(end),
            Event::Listed(names) => self.on_listed(names),
            Event::Moved(moved) => self.on_moved(moved),
            Event::Cleaned => self.on_cleaned(),
        }
    }
}

/// How many steps may still follow in a stage.
pub open spec fn steps_left(stage: Stage) -> nat {
    match stage {
        Stage::Checking => 9,
        Stage::Locating => 8,
        Stage::Downloading => 7,
        Stage::Staging => 6,
        Stage::Extracting => 5,
        Stage::Searching => 4,
        Stage::MovingAside | Stage::Permitting => 3,
        Stage::Installing => 2,
        Stage::Cleaning => 1,
        Stage::Done => 0,
    }
}

/// Every step brings an update closer to its end, and it ends exactly with an action that ends it.
pub proof fn law_update_ends(u: UpdaterView, event: Event)
    requires
        fits(u.stage, event),
    ensures
        steps_left(next(u, event).0.stage) < steps_left(u.stage),
        next(u, event).0.stage == Stage::Done <==> (next(u, event).1.action is Finish
            || next(u, event).1.action is Fail),
{
}

/// An update that only checks ends with the reply about the latest release, whatever it says; nothing
/// is fetched and nothing is changed.
pub proof fn law_check_only_stops(u: UpdaterView, event: Event)
    requires
        u.check_only,
        u.stage == Stage::Checking,
        fits(u.stage, event),
    ensures
        next(u, event).0.stage == Stage::Done,
        next(u, event).1.action is Finish || next(u, event).1.action is Fail,
{
}

/// A release that is not newer than this program is not installed.
pub proof fn law_known_release_is_not_installed(
    u: UpdaterView,
    reply: Result<Body, String>,
    tag: Seq<char>,
    url: Seq<char>,
)
    requires
        release::latest(reply, u.platform) == Ok::<(Seq<char>, Seq<char>), Seq<char>>((tag, url)),
        release::version_le(release::version(tag), release::version(VERSION@)),
    ensures
        next(u, Event::Release(reply)).0.stage == Stage::Done,
        next(u, Event::Release(reply)).1.action is Finish,
        next(u, Event::Release(reply)).1.say.len() == 1,
        text::ends_with(next(u, Event::Release(reply)).1.say[0], tag + ")"@),
{
    let head = "✓ already up to date (v"@ + VERSION@ + " ≥ "@;
    text::lemma_ends_with(head, tag + ")"@);
    assert(head + tag + ")"@ =~= head + (tag + ")"@));
}

/// What was moved aside is moved back exactly where putting the new program in place fails on Windows,
/// the only system on which the running program is moved aside.
pub proof fn law_failed_install_is_rolled_back(u: UpdaterView, event: Event)
    requires
        fits(u.stage, event),
    ensures
        next(u, event).1.action matches ActionView::Fail { roll_back, error } ==> (roll_back
            <==> u.stage == Stage::Installing && u.platform.os == Os::Windows),
        next(u, event).1.action is MoveAside ==> u.platform.os == Os::Windows,
        next(u, event).1.action matches ActionView::CleanUp { old } ==> (old <==> u.platform.os
            == Os::Windows),
{
}

/// The state of an update after a row of events.
pub open spec fn after(u: UpdaterView, events: Seq<Event>) -> UpdaterView
    decreases events.len(),
{
    if events.len() == 0 {
        u
    } else {
        next(after(u, events.drop_last()), events.last()).0
    }
}

/// Whether each of a row of events is what the update waits for at that point.
pub open spec fn is_run(u: UpdaterView, events: Seq<Event>) -> bool
    decreases events.len(),
{
    events.len() == 0 || is_run(u, events.drop_last()) && fits(
        after(u, events.drop_last()).stage,
        events.last(),
    )
}

/// Whether the version `a` is one after `b`: the first number in which they differ decides.
pub open spec fn is_later(a: (u64, u64, u64), b: (u64, u64, u64)) -> bool {
    ||| a.0 > b.0
    ||| a.0 == b.0 && a.1 > b.1
    ||| a.0 == b.0 && a.1 == b.1 && a.2 > b.2
}

/// Whether a row of events is that of an update that went well up to and with the search for the new
/// program: a newer release is offered, the place of the program is known, the file is complete, the
/// unpacking succeeded, and the program is among the unpacked files.
pub open spec fn went_well(check_only: bool, platform: Platform, events: Seq<Event>) -> bool {
    &&& !check_only
    &&& events.len() >= 6
    &&& events[0] matches Event::Release(reply) && release::latest(
        reply,
        platform,
    ) matches Ok(offer) && is_later(release::version(offer.0), release::version(VERSION@))
    &&& events[1] matches Event::Located { has_dir: true, .. }
    &&& events[2] matches Event::Downloaded(Download::Complete)
    &&& events[3] is Staged
    &&& events[4] matches Event::Extracted(CommandEnd::Success)
    &&& events[5] matches Event::Listed(names) && name_position(
        summary::texts(names@),
        binary_name(platform),
    ) < names@.len()
}

/// What a row of events that is not over yet has brought.
spec fn progress(check_only: bool, platform: Platform, events: Seq<Event>) -> bool {
    let u = after(begun(check_only, platform), events);
    let offered = events.len() > 0 && !check_only && (events[0] matches Event::Release(reply)
        && release::latest(reply, platform) matches Ok(offer) && !is_known(offer.0));
    &&& u.check_only == check_only
    &&& u.platform == platform
    &&& u.stage == Stage::Checking ==> events.len() == 0
    &&& u.stage == Stage::Locating ==> events.len() == 1 && offered
    &&& u.stage == Stage::Downloading ==> {
        &&& events.len() == 2 && offered
        &&& events[1] matches Event::Located { has_dir: true, .. }
    }
    &&& u.stage == Stage::Staging ==> {
        &&& events.len() == 3 && offered
        &&& events[1] matches Event::Located { has_dir: true, .. }
        &&& events[2] matches Event::Downloaded(Download::Complete)
    }
    &&& u.stage == Stage::Extracting ==> {
        &&& events.len() == 4 && offered
        &&& events[1] matches Event::Located { has_dir: true, .. }
        &&& events[2] matches Event::Downloaded(Download::Complete)
        &&& events[3] is Staged
    }
    &&& u.stage == Stage::Searching ==> {
        &&& events.len() == 5 && offered
        &&& events[1] matches Event::Located { has_dir: true, .. }
        &&& events[2] matches Event::Downloaded(Download::Complete)
        &&& events[3] is Staged
        &&& events[4] matches Event::Extracted(CommandEnd::Success)
    }
    &&& u.stage == Stage::MovingAside ==> events.len() == 6 && platform.os == Os::Windows
    &&& u.stage == Stage::Permitting ==> events.len() == 6 && has_modes(platform)
    &&& u.stage == Stage::MovingAside || u.stage == Stage::Permitting || u.stage
        == Stage::Installing || u.stage == Stage::Cleaning ==> {
        &&& went_well(check_only, platform, events)
        &&& events[5] matches Event::Listed(names) && u.found == name_position(
            summary::texts(names@),
            binary_name(platform),
        )
    }
    &&& u.stage == Stage::Installing && platform.os == Os::Windows ==> {
        &&& events.len() >= 7
        &&& events[6] matches Event::Moved(Ok(_))
    }
}

proof fn lemma_progress(check_only: bool, platform: Platform, events: Seq<Event>)
    requires
        is_run(begun(check_only, platform), events),
    ensures
        progress(check_only, platform, events),
    decreases events.len(),
{
    if events.len() > 0 {
        let before = events.drop_last();
        lemma_progress(check_only, platform, before);
        lemma_kept(begun(check_only, platform), events);
        let u = after(begun(check_only, platform), before);
        let e = events.last();
        assert(forall|i: int| 0 <= i < before.len() ==> #[trigger] before[i] == events[i]);
        assert(events[events.len() - 1] == e);
        assert(progress(check_only, platform, events));
    }
}

proof fn lemma_kept(u: UpdaterView, events: Seq<Event>)
    ensures
        after(u, events).check_only == u.check_only,
        after(u, events).platform == u.platform,
    decreases events.len(),
{
    if events.len() > 0 {
        lemma_kept(u, events.drop_last());
    }
}

/// The running program is touched, and the new one put in place, only after a newer release was
/// offered, its file was downloaded completely and unpacked with success, and the new program was found
/// in it; and then it is that file that is put in place.
pub proof fn law_program_is_replaced_last(
    check_only: bool,
    platform: Platform,
    events: Seq<Event>,
    event: Event,
)
    requires
        is_run(begun(check_only, platform), events.push(event)),
    ensures
        ({
            let all = events.push(event);
            let action = next(after(begun(check_only, platform), events), event).1.action;
            &&& action is MoveAside || action is Permit || action is Install || action is CleanUp
                ==> went_well(check_only, platform, all)
            &&& action matches ActionView::Install(i) ==> all[5] matches Event::Listed(names) && i
                == name_position(summary::texts(names@), binary_name(platform))
            &&& action is Install && platform.os == Os::Windows ==> all.len() >= 7
                && (all[6] matches Event::Moved(Ok(_)))
        }),
{
    let all = events.push(event);
    assert(all.drop_last() =~= events);
    lemma_progress(check_only, platform, events);
    lemma_progress(check_only, platform, all);
}

/// An update is over after nine events at most.
pub proof fn law_update_is_short(check_only: bool, platform: Platform, events: Seq<Event>)
    requires
        is_run(begun(check_only, platform), events),
    ensures
        events.len() + steps_left(after(begun(check_only, platform), events).stage) <= 9,
    decreases events.len(),
{
    if events.len() > 0 {
        law_update_is_short(check_only, platform, events.drop_last());
    }
}

/// A later release is offered, under its tag and with the address of its file: an update goes on to
/// look for the place of the program, and one that only checks says that there is an update.
pub proof fn law_later_release_is_offered(
    u: UpdaterView,
    reply: Result<Body, String>,
    tag: Seq<char>,
    url: Seq<char>,
)
    requires
        release::latest(reply, u.platform) == Ok::<(Seq<char>, Seq<char>), Seq<char>>((tag, url)),
        is_later(release::version(tag), (0u64, 2u64, 1u64)),
    ensures
        ({
            let (v, step) = next(u, Event::Release(reply));
            &&& step.say.len() > 0 && step.say[0] == "⬆ update available: v0.2.1 → "@ + tag
            &&& v.tag == tag && v.url == url
            &&& !u.check_only ==> v.stage == Stage::Locating && step.action is Locate
            &&& u.check_only ==> v.stage == Stage::Done && step.action is Finish
        }),
{
    release::law_current_version();
    lemma_version_in("⬆ update available: v"@, " → "@, "⬆ update available: v0.2.1 → "@, tag);
}

proof fn lemma_version_in(a: Seq<char>, b: Seq<char>, whole: Seq<char>, tag: Seq<char>)
    requires
        a == "⬆ update available: v"@,
        b == " → "@,
        whole == "⬆ update available: v0.2.1 → "@,
    ensures
        a + VERSION@ + b + tag == whole + tag,
{
    reveal_strlit("⬆ update available: v");
    reveal_strlit(" → ");
    reveal_strlit("⬆ update available: v0.2.1 → ");
    reveal_strlit("0.2.1");
    assert(a + VERSION@ + b =~= whole);
}

/// A release is installed exactly if its version is after that of this program, whatever the numbers
/// are: every later tag leads on, and every other one ends the update.
pub proof fn law_every_later_tag_is_offered(
    u: UpdaterView,
    reply: Result<Body, String>,
    v: (u64, u64, u64),
    url: Seq<char>,
)
    requires
        !u.check_only,
        release::latest(reply, u.platform) == Ok::<(Seq<char>, Seq<char>), Seq<char>>(
            (release::version_tag(v), url),
        ),
    ensures
        is_later(v, (0u64, 2u64, 1u64)) ==> next(u, Event::Release(reply)).1.action is Locate,
        !is_later(v, (0u64, 2u64, 1u64)) ==> next(u, Event::Release(reply)).1.action is Finish,
{
    release::law_version_reads_back(v);
    release::law_current_version();
}

/// What is fetched is the file of the release that was offered.
pub proof fn law_offered_file_is_fetched(
    u: UpdaterView,
    reply: Result<Body, String>,
    tag: Seq<char>,
    url: Seq<char>,
    millis: u128,
)
    requires
        !u.check_only,
        release::latest(reply, u.platform) == Ok::<(Seq<char>, Seq<char>), Seq<char>>((tag, url)),
        is_later(release::version(tag), release::version(VERSION@)),
    ensures
        ({
            let offered = next(u, Event::Release(reply)).0;
            let (v, step) = next(offered, Event::Located { has_dir: true, millis });
            &&& v.stage == Stage::Downloading && v.tag == tag
            &&& step.say.len() == 1
            &&& release::asset_of(u.platform) matches Some(name) ==> text::starts_with(
                step.say[0],
                "⇣ downloading "@ + name,
            )
            &&& step.action matches ActionView::Fetch { request, archive, stage } && request.url == url
                && archive == stage + ".pkg"@ && archive != stage
        }),
{
    reveal_strlit(".pkg");
    if let Some(name) = release::asset_of(u.platform) {
        text::lemma_ends_with("⇣ downloading "@ + name, "…"@);
    }
}

/// Updates at different times use different files and directories.
pub proof fn law_work_names_differ(a: u128, b: u128)
    requires
        a != b,
    ensures
        work_name(a) != work_name(b),
{
    let prefix = ".shepherd-update-"@;
    text::law_decimals_differ(a as nat, b as nat);
    let (x, y) = (text::decimal(a as nat), text::decimal(b as nat));
    if work_name(a) == work_name(b) {
        assert(work_name(a).skip(prefix.len() as int) =~= x);
        assert(work_name(b).skip(prefix.len() as int) =~= y);
    }
}

/// What is unpacked is the archive that was fetched, into the directory that was made.
pub proof fn law_archive_is_unpacked(u: UpdaterView, archive: String, stage: String)
    ensures
        next(u, Event::Staged { archive, stage }).0.stage == Stage::Extracting,
        u.platform.os != Os::Windows ==> (next(
            u,
            Event::Staged { archive, stage },
        ).1.action matches ActionView::Run { program, args } && program == "tar"@ && args.len() == 4
            && args[0] == "xzf"@ && args[1] == archive@ && args[2] == "-C"@ && args[3] == stage@),
        u.platform.os == Os::Windows ==> (next(
            u,
            Event::Staged { archive, stage },
        ).1.action matches ActionView::Run { program, args } && program == "powershell"@ && args.len()
            == 3 && text::starts_with(args[2], "Expand-Archive -LiteralPath '"@ + archive@)
            && text::ends_with(args[2], "' -DestinationPath '"@ + stage@ + "' -Force"@)),
{
    let head = "Expand-Archive -LiteralPath '"@ + archive@;
    let tail = "' -DestinationPath '"@ + stage@ + "' -Force"@;
    text::lemma_ends_with(head, tail);
    assert("Expand-Archive -LiteralPath '"@ + archive@ + "' -DestinationPath '"@ + stage@ + "' -Force"@
        =~= head + tail);
}

/// The new program is the first of the unpacked files that has its name; where none has, the update
/// fails. On Windows the running program is then moved aside, and on Unix the new one is made
/// executable.
pub proof fn law_new_program_is_found(u: UpdaterView, names: Vec<String>, i: int)
    requires
        0 <= i <= names@.len(),
        ({
            let name = if u.platform.os == Os::Windows {
                "ollama-shepherd.exe"@
            } else {
                "ollama-shepherd"@
            };
            &&& forall|j: int| 0 <= j < i ==> (#[trigger] names@[j])@ != name
            &&& i < names@.len() ==> names@[i]@ == name
        }),
    ensures
        ({
            let (v, step) = next(u, Event::Listed(names));
            &&& i == names@.len() ==> v.stage == Stage::Done && step.action is Fail
            &&& i < names@.len() ==> {
                &&& v.found == i
                &&& u.platform.os == Os::Windows ==> step.action is MoveAside
                &&& u.platform.os == Os::Linux || u.platform.os == Os::OtherUnix ==> step.action
                    == ActionView::Permit(i)
                &&& u.platform.os == Os::Other ==> step.action == ActionView::Install(i)
            }
        }),
{
    let all = summary::texts(names@);
    assert forall|j: int| 0 <= j < i implies #[trigger] all[j] != binary_name(u.platform) by {
        assert(names@[j]@ != binary_name(u.platform));
    }
    if i < names@.len() {
        assert(all[i] == names@[i]@);
    }
    lemma_name_position(all, binary_name(u.platform), i);
}

proof fn lemma_name_position(names: Seq<Seq<char>>, name: Seq<char>, i: int)
    requires
        0 <= i <= names.len(),
        forall|j: int| 0 <= j < i ==> #[trigger] names[j] != name,
        i < names.len() ==> names[i] == name,
    ensures
        name_position(names, name) == i,
    decreases i,
{
    if i > 0 {
        assert(names[0] != name);
        let rest = names.drop_first();
        assert forall|j: int| 0 <= j < i - 1 implies #[trigger] rest[j] != name by {
            assert(rest[j] == names[j + 1]);
        }
        lemma_name_position(rest, name, i - 1);
    }
}

/// Where every step succeeds, a later release is installed: the steps follow each other from the offer
/// to the end, and the file that was found takes the place of the running program.
pub proof fn law_update_goes_through(
    platform: Platform,
    reply: Result<Body, String>,
    tag: Seq<char>,
    url: Seq<char>,
    millis: u128,
    archive: String,
    stage: String,
    names: Vec<String>,
    i: int,
)
    requires
        release::latest(reply, platform) == Ok::<(Seq<char>, Seq<char>), Seq<char>>((tag, url)),
        is_later(release::version(tag), release::version(VERSION@)),
        0 <= i < names@.len(),
        platform.os == Os::Windows ==> names@[i]@ == "ollama-shepherd.exe"@ && forall|j: int|
            0 <= j < i ==> (#[trigger] names@[j])@ != "ollama-shepherd.exe"@,
        platform.os != Os::Windows ==> names@[i]@ == "ollama-shepherd"@ && forall|j: int|
            0 <= j < i ==> (#[trigger] names@[j])@ != "ollama-shepherd"@,
    ensures
        ({
            let offered = next(begun(false, platform), Event::Release(reply)).0;
            let located = next(offered, Event::Located { has_dir: true, millis }).0;
            let (fetched, make) = next(located, Event::Downloaded(Download::Complete));
            let staged = next(fetched, Event::Staged { archive, stage }).0;
            let (unpacked, list) = next(staged, Event::Extracted(CommandEnd::Success));
            let (found, first) = next(unpacked, Event::Listed(names));
            let (ready, second) = if platform.os == Os::Other {
                (found, first)
            } else {
                next(found, Event::Moved(Ok(())))
            };
            let (installed, clean) = next(ready, Event::Moved(Ok(())));
            let (done, end) = next(installed, Event::Cleaned);
            &&& make.action is MakeStage && list.action is List
            &&& second.action == ActionView::Install(i)
            &&& clean.action == (ActionView::CleanUp { old: platform.os == Os::Windows })
            &&& done.stage == Stage::Done && end.action is Finish
            &&& end.say.len() == 3 && end.say[0] == "✓ updated to "@ + tag
        }),
{
    let offered = next(begun(false, platform), Event::Release(reply)).0;
    let located = next(offered, Event::Located { has_dir: true, millis }).0;
    let fetched = next(located, Event::Downloaded(Download::Complete)).0;
    let staged = next(fetched, Event::Staged { archive, stage }).0;
    let unpacked = next(staged, Event::Extracted(CommandEnd::Success)).0;
    law_new_program_is_found(unpacked, names, i);
}

/// What went wrong in a step ends the update, and is told: the error of the update ends with the message
/// of the step.
pub proof fn law_what_went_wrong_is_told(u: UpdaterView, event: Event, e: String)
    requires
        fits(u.stage, event),
        event == Event::Release(Err(e)) || event == Event::NotLocated(e) || event == Event::Downloaded(
            Download::NotReached(e),
        ) || event == Event::Downloaded(Download::Interrupted(e)) || (event matches Event::Downloaded(
            Download::NotCreated { error, .. },
        ) && error == e) || event == Event::NotStaged(e) || event == Event::Extracted(
            CommandEnd::NotStarted(e),
        ) || event == Event::Extracted(CommandEnd::Failed(e)) || event == Event::Moved(Err(e)),
    ensures
        next(u, event).0.stage == Stage::Done,
        next(u, event).1.action matches ActionView::Fail { error, .. } && text::ends_with(error, e@),
{
    let error = next(u, event).1.action->error;
    assert(text::ends_with(error, e@)) by {
        text::lemma_ends_with("cannot reach GitHub: "@, e@);
        text::lemma_ends_with("cannot locate own binary: "@, e@);
        text::lemma_ends_with("download failed: "@, e@);
        text::lemma_ends_with("cannot stage: "@, e@);
        text::lemma_ends_with("failed to run "@ + unpacker(u.platform) + ": "@, e@);
        text::lemma_ends_with(unpacker(u.platform) + " exited with "@, e@);
        text::lemma_ends_with("install failed: "@, e@);
        text::lemma_ends_with("rename failed: "@, e@);
        text::lemma_ends_with("chmod failed: "@, e@);
        if let Event::Downloaded(Download::NotCreated { path, .. }) = event {
            text::lemma_ends_with("cannot create "@ + path@ + ": "@, e@);
        }
    }
}

/// Whatever comes of an action is waited for: each action can be answered with every event that reports
/// how it went, and once the update has ended nothing is waited for.
pub proof fn law_answers_are_awaited(u: UpdaterView, event: Event, answer: Event)
    requires
        fits(u.stage, event),
    ensures
        ({
            let (v, step) = next(u, event);
            &&& step.action is Locate && (answer is Located || answer is NotLocated) ==> fits(
                v.stage,
                answer,
            )
            &&& step.action is Fetch && answer is Downloaded ==> fits(v.stage, answer)
            &&& step.action is MakeStage && (answer is Staged || answer is NotStaged) ==> fits(
                v.stage,
                answer,
            )
            &&& step.action is Run && answer is Extracted ==> fits(v.stage, answer)
            &&& step.action is List && answer is Listed ==> fits(v.stage, answer)
            &&& (step.action is MoveAside || step.action is Permit || step.action is Install)
                && answer is Moved ==> fits(v.stage, answer)
            &&& step.action is CleanUp && answer is Cleaned ==> fits(v.stage, answer)
            &&& step.action is Finish || step.action is Fail ==> !fits(v.stage, answer)
        }),
        fits(begun(u.check_only, u.platform).stage, answer) <==> answer is Release,
{
}

} // verus!
