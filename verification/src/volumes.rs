//! Opening a disk for writing on Windows: every volume on it is locked and
//! dismounted, and loses its mount points, before the disk itself is opened.
//!
//! As with [`crate::flasher`], [`OpenMachine::action`] names the next operation, and
//! its outcome is told to [`OpenMachine::step`].
use crate::error::{result_view, FlashError, FlashErrorView, FlashResult, IoError, IoErrorKindView};
use crate::text::{joined, trim_end, trim_end_matches};
use crate::utf16::{decode_wide_nul_string, nul_ended};
use crate::windows::{drive_number, physical_drive_number};
use vstd::prelude::*;

verus! {

/// How often a lock, or the disk, is tried.
pub const MAX_TRIES: u32 = 10;

/// How long to wait after a lock was refused, in milliseconds.
pub const LOCK_PAUSE: u64 = 250;

/// How long to wait after the disk could not be opened, in milliseconds.
pub const OPEN_PAUSE: u64 = 100;

/// What comes next.
#[derive(Debug, Clone, Copy, PartialEq, Eq, Structural)]
pub enum Stage {
    /// Find the first volume
    FindFirst,
    /// Open the volume to ask for its disk
    Query,
    /// Open the volume for writing
    OpenVolume,
    /// Lock it
    Lock,
    /// Wait before the lock is tried again
    LockPause,
    /// Dismount it
    Dismount,
    /// Remove its mount points
    RemoveMountPoints,
    /// Find the next volume
    FindNext,
    /// Open the disk
    OpenDrive,
    /// Wait before the disk is tried again
    OpenPause,
    /// Nothing: the outcome is known
    Finished,
}

/// An operation to perform.
#[derive(Debug)]
pub enum Action {
    /// Find the first volume
    FindFirst,
    /// Open the volume at this path without access, and ask for its disk
    Query(String),
    /// Open the volume at this path for reading and writing
    OpenVolume(String),
    /// Lock the volume that is open
    Lock,
    /// Wait for so many milliseconds
    Pause(u64),
    /// Dismount the volume that is open
    Dismount,
    /// Remove the mount points of the volume with this name
    RemoveMountPoints(String),
    /// Find the next volume
    FindNext,
    /// Open the disk at this path for reading and writing
    OpenDrive(String),
    /// Take the outcome
    Finish,
}

/// An operation, as contracts speak of it.
pub enum ActionView {
    FindFirst,
    Query(Seq<char>),
    OpenVolume(Seq<char>),
    Lock,
    Pause(u64),
    Dismount,
    RemoveMountPoints(Seq<char>),
    FindNext,
    OpenDrive(Seq<char>),
    Finish,
}

impl View for Action {
    type V = ActionView;

    open spec fn view(&self) -> ActionView {
        match self {
            Action::FindFirst => ActionView::FindFirst,
            Action::Query(p) => ActionView::Query(p@),
            Action::OpenVolume(p) => ActionView::OpenVolume(p@),
            Action::Lock => ActionView::Lock,
            Action::Pause(n) => ActionView::Pause(*n),
            Action::Dismount => ActionView::Dismount,
            Action::RemoveMountPoints(p) => ActionView::RemoveMountPoints(p@),
            Action::FindNext => ActionView::FindNext,
            Action::OpenDrive(p) => ActionView::OpenDrive(p@),
            Action::Finish => ActionView::Finish,
        }
    }
}

/// How an operation ended.
#[derive(Debug)]
pub enum Event<'a> {
    /// A volume was found; the buffer holds its name
    Volume(&'a [u16]),
    /// The search for volumes could not be started
    FindFailed,
    /// The search has no valid handle
    FindInvalid,
    /// There is no further volume
    NoMoreVolumes,
    /// The volume lies on the disk with this number, if it could be told
    Queried(Option<u32>),
    /// The operation succeeded
    Done,
    /// The lock was refused
    NotLocked,
    /// The operation failed, for this reason
    Failed(String),
    /// The disk could not be opened
    NotOpened(IoError),
}

/// How an operation ended, as contracts speak of it.
pub enum EventView {
    Volume(Seq<u16>),
    FindFailed,
    FindInvalid,
    NoMoreVolumes,
    Queried(Option<u32>),
    Done,
    NotLocked,
    Failed(Seq<char>),
    NotOpened(IoErrorKindView, Seq<char>),
}

impl<'a> View for Event<'a> {
    type V = EventView;

    open spec fn view(&self) -> EventView {
        match self {
            Event::Volume(buf) => EventView::Volume(buf@),
            Event::FindFailed => EventView::FindFailed,
            Event::FindInvalid => EventView::FindInvalid,
            Event::NoMoreVolumes => EventView::NoMoreVolumes,
            Event::Queried(n) => EventView::Queried(*n),
            Event::Done => EventView::Done,
            Event::NotLocked => EventView::NotLocked,
            Event::Failed(text) => EventView::Failed(text@),
            Event::NotOpened(e) => EventView::NotOpened(e.kind@, e.message@),
        }
    }
}

/// The state of the opening of a disk.
pub struct OpenView {
    /// The path of the disk
    pub path: Seq<char>,
    /// Its number
    pub target: u32,
    /// What comes next
    pub stage: Stage,
    /// The name of the volume at hand
    pub volume: Seq<char>,
    /// How often it was tried to lock the volume, or to open the disk
    pub tries: u32,
    /// How it ended; until then, why the disk could not be opened the last time
    pub outcome: Result<(), FlashErrorView>,
}

impl OpenView {
    /// Going on with `stage`.
    pub open spec fn at(self, stage: Stage) -> OpenView {
        OpenView { stage, ..self }
    }

    /// It ended in `outcome`.
    pub open spec fn finish(self, outcome: Result<(), FlashErrorView>) -> OpenView {
        OpenView { stage: Stage::Finished, outcome, ..self }
    }

    /// It failed for this reason.
    pub open spec fn fail(self, text: Seq<char>) -> OpenView {
        self.finish(Err(FlashErrorView::FilesystemError(text)))
    }

    /// The state after `event`.
    pub open spec fn next(self, event: EventView) -> OpenView {
        match event {
            EventView::Volume(buf) => OpenView {
                volume: nul_ended(buf),
                stage: Stage::Query,
                ..self
            },
            EventView::FindFailed => self.fail("FindFirstVolumeW failed"@),
            EventView::FindInvalid => self.finish(Err(FlashErrorView::SyncError)),
            EventView::NoMoreVolumes => OpenView { tries: 0, stage: Stage::OpenDrive, ..self },
            EventView::Queried(number) => if number == Some(self.target) {
                self.at(Stage::OpenVolume)
            } else {
                self.at(Stage::FindNext)
            },
            EventView::NotLocked => OpenView {
                tries: (self.tries + 1) as u32,
                stage: Stage::LockPause,
                ..self
            },
            EventView::NotOpened(kind, message) => OpenView {
                tries: (self.tries + 1) as u32,
                outcome: Err(FlashErrorView::Io(kind, message)),
                stage: Stage::OpenPause,
                ..self
            },
            EventView::Done => match self.stage {
                Stage::OpenVolume => OpenView { tries: 0, stage: Stage::Lock, ..self },
                Stage::Lock => self.at(Stage::Dismount),
                Stage::LockPause => if self.tries >= MAX_TRIES {
                    self.fail("Failed to lock volume"@)
                } else {
                    self.at(Stage::Lock)
                },
                Stage::Dismount => self.at(Stage::RemoveMountPoints),
                Stage::RemoveMountPoints => self.at(Stage::FindNext),
                Stage::OpenDrive => self.finish(Ok(())),
                Stage::OpenPause => if self.tries >= MAX_TRIES {
                    self.at(Stage::Finished)
                } else {
                    self.at(Stage::OpenDrive)
                },
                _ => self,
            },
            EventView::Failed(text) => match self.stage {
                Stage::Query => self.fail("Failed to query volume attributes: "@ + text),
                Stage::OpenVolume => self.fail("Access denied opening volume: "@ + text),
                _ => self.fail("Failed to dismount volume: "@ + text),
            },
        }
    }

    /// The operation that comes next. The path of a volume is its name without
    /// the backslash at its end.
    pub open spec fn action(self) -> ActionView {
        match self.stage {
            Stage::FindFirst => ActionView::FindFirst,
            Stage::Query => ActionView::Query(trim_end(self.volume, '\\')),
            Stage::OpenVolume => ActionView::OpenVolume(trim_end(self.volume, '\\')),
            Stage::Lock => ActionView::Lock,
            Stage::LockPause => ActionView::Pause(LOCK_PAUSE),
            Stage::Dismount => ActionView::Dismount,
            Stage::RemoveMountPoints => ActionView::RemoveMountPoints(self.volume),
            Stage::FindNext => ActionView::FindNext,
            Stage::OpenDrive => ActionView::OpenDrive(self.path),
            Stage::OpenPause => ActionView::Pause(OPEN_PAUSE),
            Stage::Finished => ActionView::Finish,
        }
    }

    /// Whether `event` can be the outcome of the operation that comes next.
    pub open spec fn answers(self, event: EventView) -> bool {
        match event {
            EventView::Volume(_) => self.stage == Stage::FindFirst || self.stage == Stage::FindNext,
            EventView::FindFailed | EventView::FindInvalid => self.stage == Stage::FindFirst,
            EventView::NoMoreVolumes => self.stage == Stage::FindNext,
            EventView::Queried(_) => self.stage == Stage::Query,
            EventView::NotLocked => self.stage == Stage::Lock,
            EventView::NotOpened(_, _) => self.stage == Stage::OpenDrive,
            EventView::Done => match self.stage {
                Stage::OpenVolume
                | Stage::Lock
                | Stage::LockPause
                | Stage::Dismount
                | Stage::RemoveMountPoints
                | Stage::OpenDrive
                | Stage::OpenPause => true,
                _ => false,
            },
            EventView::Failed(_) => self.stage == Stage::Query || self.stage == Stage::OpenVolume
                || self.stage == Stage::Dismount,
        }
    }

    /// What holds of every state that can be reached: there are tries left as
    /// long as something is tried.
    pub open spec fn valid(self) -> bool {
        &&& self.tries <= MAX_TRIES
        &&& self.stage == Stage::Lock || self.stage == Stage::OpenDrive ==> self.tries < MAX_TRIES
        &&& self.stage == Stage::OpenPause ==> self.outcome is Err
    }
}

/// The state in which the opening of the disk at `path` starts. A path that is
/// not that of a disk is refused.
pub open spec fn open_start(path: Seq<char>) -> OpenView {
    let v = OpenView {
        path,
        target: 0,
        stage: Stage::FindFirst,
        volume: Seq::empty(),
        tries: 0,
        outcome: Err(FlashErrorView::WindowsHandle),
    };
    match drive_number(path) {
        Ok(n) => OpenView { target: n as u32, ..v },
        Err(e) => v.finish(Err(e)),
    }
}

/// Every event keeps the state valid.
pub proof fn lemma_open_next_valid(v: OpenView, event: EventView)
    requires
        v.valid(),
        v.answers(event),
    ensures
        v.next(event).valid(),
{
}

/// The opening of a disk.
pub struct OpenMachine {
    path: String,
    target: u32,
    stage: Stage,
    volume: String,
    tries: u32,
    outcome: FlashResult<()>,
}

impl View for OpenMachine {
    type V = OpenView;

    closed spec fn view(&self) -> OpenView {
        OpenView {
            path: self.path@,
            target: self.target,
            stage: self.stage,
            volume: self.volume@,
            tries: self.tries,
            outcome: result_view(self.outcome),
        }
    }
}

impl OpenMachine {
    /// The opening of the disk at `path`.
    pub fn new(path: &str) -> (m: Self)
        ensures
            m@ == open_start(path@),
            m@.valid(),
    {
        let mut m = OpenMachine {
            path: path.to_owned(),
            target: 0,
            stage: Stage::FindFirst,
            volume: String::new(),
            tries: 0,
            outcome: Err(FlashError::WindowsHandle),
        };
        assert(m@.volume =~= Seq::<char>::empty());
        match physical_drive_number(path) {
            Ok(n) => {
                m.target = n;
            },
            Err(e) => {
                m.stage = Stage::Finished;
                m.outcome = Err(e);
            },
        }
        m
    }

    /// Where the machine stands.
    pub fn stage(&self) -> (stage: Stage)
        ensures
            stage == self@.stage,
    {
        self.stage
    }

    /// The operation to perform next.
    pub fn action(&self) -> (action: Action)
        ensures
            action@ == self@.action(),
    {
        match self.stage {
            Stage::FindFirst => Action::FindFirst,
            Stage::Query => Action::Query(trim_end_matches(self.volume.as_str(), '\\')),
            Stage::OpenVolume => Action::OpenVolume(trim_end_matches(self.volume.as_str(), '\\')),
            Stage::Lock => Action::Lock,
            Stage::LockPause => Action::Pause(LOCK_PAUSE),
            Stage::Dismount => Action::Dismount,
            Stage::RemoveMountPoints => Action::RemoveMountPoints(self.volume.clone()),
            Stage::FindNext => Action::FindNext,
            Stage::OpenDrive => Action::OpenDrive(self.path.clone()),
            Stage::OpenPause => Action::Pause(OPEN_PAUSE),
            Stage::Finished => Action::Finish,
        }
    }

    /// Ends it with a reason.
    fn fail(&mut self, text: String)
        ensures
            final(self)@ == old(self)@.fail(text@),
    {
        self.stage = Stage::Finished;
        self.outcome = Err(FlashError::FilesystemError(text));
    }

    /// Whether `event` can be told: it is an outcome of the operation that comes next.
    pub fn accepts(&self, event: &Event) -> (yes: bool)
        ensures
            yes == self@.answers(event@),
    {
        match event {
            Event::Volume(_) => self.stage == Stage::FindFirst || self.stage == Stage::FindNext,
            Event::FindFailed | Event::FindInvalid => self.stage == Stage::FindFirst,
            Event::NoMoreVolumes => self.stage == Stage::FindNext,
            Event::Queried(_) => self.stage == Stage::Query,
            Event::NotLocked => self.stage == Stage::Lock,
            Event::NotOpened(_) => self.stage == Stage::OpenDrive,
            Event::Done => matches!(
                self.stage,
                Stage::OpenVolume
                | Stage::Lock
                | Stage::LockPause
                | Stage::Dismount
                | Stage::RemoveMountPoints
                | Stage::OpenDrive
                | Stage::OpenPause
            ),
            Event::Failed(_) => self.stage == Stage::Query || self.stage == Stage::OpenVolume
                || self.stage == Stage::Dismount,
        }
    }

    /// Tells how the operation ended that [`OpenMachine::action`] named.
    pub fn step(&mut self, event: Event)
        requires
            old(self)@.valid(),
            old(self)@.answers(event@),
        ensures
            final(self)@.valid(),
            final(self)@ == old(self)@.next(event@),
    {
        proof {
            lemma_open_next_valid(self@, event@);
        }
        match event {
            Event::Volume(buf) => {
                self.volume = decode_wide_nul_string(buf);
                self.stage = Stage::Query;
            },
            Event::FindFailed => {
                self.fail("FindFirstVolumeW failed".to_owned());
            },
            Event::FindInvalid => {
                self.stage = Stage::Finished;
                self.outcome = Err(FlashError::SyncError);
            },
            Event::NoMoreVolumes => {
                self.tries = 0;
                self.stage = Stage::OpenDrive;
            },
            Event::Queried(number) => {
                self.stage =
                if number == Some(self.target) {
                    Stage::OpenVolume
                } else {
                    Stage::FindNext
                };
            },
            Event::NotLocked => {
                self.tries = self.tries + 1;
                self.stage = Stage::LockPause;
            },
            Event::NotOpened(e) => {
                self.tries = self.tries + 1;
                self.outcome = Err(FlashError::Io(e));
                self.stage = Stage::OpenPause;
            },
            Event::Done => {
                match self.stage {
                    Stage::OpenVolume => {
                        self.tries = 0;
                        self.stage = Stage::Lock;
                    },
                    Stage::Lock => {
                        self.stage = Stage::Dismount;
                    },
                    Stage::LockPause => {
                        if self.tries >= MAX_TRIES {
                            self.fail("Failed to lock volume".to_owned());
                        } else {
                            self.stage = Stage::Lock;
                        }
                    },
                    Stage::Dismount => {
                        self.stage = Stage::RemoveMountPoints;
                    },
                    Stage::RemoveMountPoints => {
                        self.stage = Stage::FindNext;
                    },
                    Stage::OpenDrive => {
                        self.stage = Stage::Finished;
                        self.outcome = Ok(());
                    },
                    Stage::OpenPause => {
                        self.stage =
                        if self.tries >= MAX_TRIES {
                            Stage::Finished
                        } else {
                            Stage::OpenDrive
                        };
                    },
                    _ => {},
                }
            },
            Event::Failed(text) => {
                let what = match self.stage {
                    Stage::Query => "Failed to query volume attributes: ",
                    Stage::OpenVolume => "Access denied opening volume: ",
                    _ => "Failed to dismount volume: ",
                };
                self.fail(joined(what, text.as_str()));
            },
        }
    }

    /// How it ended.
    pub fn into_outcome(self) -> (outcome: FlashResult<()>)
        requires
            self@.stage == Stage::Finished,
        ensures
            result_view(outcome) == self@.outcome,
    {
        self.outcome
    }
}

/// The opening of a disk so far.
pub struct OpenRun {
    /// The state of the machine
    pub state: OpenView,
    /// The volumes that were asked for their disk, each with the answer
    pub queried: Seq<(Seq<char>, Option<u32>)>,
    /// The volumes that were locked
    pub locked: Seq<Seq<char>>,
    /// The volumes that were dismounted
    pub dismounted: Seq<Seq<char>>,
    /// The volumes whose mount points were removed
    pub cleaned: Seq<Seq<char>>,
}

impl OpenRun {
    /// The opening of the disk at `path`, in which nothing happened yet.
    pub open spec fn start(path: Seq<char>) -> OpenRun {
        OpenRun {
            state: open_start(path),
            queried: Seq::empty(),
            locked: Seq::empty(),
            dismounted: Seq::empty(),
            cleaned: Seq::empty(),
        }
    }

    /// It went on with `event`.
    pub open spec fn step(self, event: EventView) -> OpenRun {
        let v = self.state;
        let run = OpenRun { state: v.next(event), ..self };
        match event {
            EventView::Queried(number) => OpenRun {
                queried: self.queried.push((v.volume, number)),
                ..run
            },
            EventView::Done => match v.stage {
                Stage::Lock => OpenRun { locked: self.locked.push(v.volume), ..run },
                Stage::Dismount => OpenRun { dismounted: self.dismounted.push(v.volume), ..run },
                Stage::RemoveMountPoints => OpenRun {
                    cleaned: self.cleaned.push(v.volume),
                    ..run
                },
                _ => run,
            },
            _ => run,
        }
    }

    /// The volumes that were found to lie on the disk.
    pub open spec fn on_disk(self) -> Seq<Seq<char>> {
        volumes_on(self.queried, self.state.target)
    }
}

/// Those of the volumes that lie on the disk `target`.
pub open spec fn volumes_on(queried: Seq<(Seq<char>, Option<u32>)>, target: u32) -> Seq<Seq<char>>
    decreases queried.len(),
{
    if queried.len() == 0 {
        Seq::empty()
    } else {
        let before = volumes_on(queried.drop_last(), target);
        if queried.last().1 == Some(target) {
            before.push(queried.last().0)
        } else {
            before
        }
    }
}

/// The opening of the disk at `path` through `events`.
pub open spec fn open_run(path: Seq<char>, events: Seq<EventView>) -> OpenRun
    decreases events.len(),
{
    if events.len() == 0 {
        OpenRun::start(path)
    } else {
        open_run(path, events.drop_last()).step(events.last())
    }
}

/// Whether the machine accepts `events`, one after the other.
pub open spec fn open_legal(path: Seq<char>, events: Seq<EventView>) -> bool
    decreases events.len(),
{
    events.len() == 0 || {
        &&& open_legal(path, events.drop_last())
        &&& open_run(path, events.drop_last()).state.answers(events.last())
    }
}

/// How many of the volumes on the disk still have to be locked, dismounted and
/// cleaned at `stage`: the one at hand, or none.
pub open spec fn volumes_left(stage: Stage) -> (int, int, int) {
    match stage {
        Stage::OpenVolume | Stage::Lock | Stage::LockPause => (1, 1, 1),
        Stage::Dismount => (0, 1, 1),
        Stage::RemoveMountPoints => (0, 0, 1),
        _ => (0, 0, 0),
    }
}

/// What holds of every opening of a disk, unless it failed: the volumes on the
/// disk are treated in the order in which they were found.
spec fn tidy(run: OpenRun) -> bool {
    let v = run.state;
    let failed = v.stage == Stage::Finished && v.outcome is Err;
    let on_disk = run.on_disk();
    let n = on_disk.len() as int;
    let left = volumes_left(v.stage);
    &&& v.valid()
    &&& !failed ==> {
        &&& left.2 > 0 ==> n > 0 && on_disk.last() == v.volume
        &&& run.locked == on_disk.take(n - left.0)
        &&& run.dismounted == on_disk.take(n - left.1)
        &&& run.cleaned == on_disk.take(n - left.2)
    }
    &&& run.locked.is_prefix_of(on_disk)
    &&& run.dismounted.is_prefix_of(run.locked)
    &&& run.cleaned.is_prefix_of(run.dismounted)
}

proof fn lemma_tidy_step(run: OpenRun, event: EventView)
    requires
        tidy(run),
        run.state.answers(event),
    ensures
        tidy(run.step(event)),
{
    let v = run.state;
    let next = run.step(event);
    let on_disk = run.on_disk();
    let n = on_disk.len() as int;
    match event {
        EventView::Queried(number) => {
            assert(next.queried.drop_last() =~= run.queried);
            assert(on_disk.take(n) =~= on_disk);
            let m = next.on_disk().len() as int;
            let left = volumes_left(next.state.stage);
            assert(next.locked =~= next.on_disk().take(m - left.0));
            assert(next.dismounted =~= next.on_disk().take(m - left.1));
            assert(next.cleaned =~= next.on_disk().take(m - left.2));
        },
        EventView::Done => {
            if v.stage == Stage::Lock || v.stage == Stage::Dismount || v.stage
                == Stage::RemoveMountPoints {
                assert(on_disk.take(n - 1).push(v.volume) =~= on_disk);
                assert(on_disk.take(n) =~= on_disk);
            }
        },
        _ => {},
    }
    assert(next.locked.is_prefix_of(next.on_disk()));
    assert(next.dismounted.is_prefix_of(next.locked));
    assert(next.cleaned.is_prefix_of(next.dismounted));
}

proof fn lemma_tidy(path: Seq<char>, events: Seq<EventView>)
    requires
        open_legal(path, events),
    ensures
        tidy(open_run(path, events)),
    decreases events.len(),
{
    if events.len() == 0 {
        let run = OpenRun::start(path);
        assert(run.on_disk() =~= Seq::<Seq<char>>::empty());
        assert(run.locked =~= run.on_disk().take(0));
    } else {
        lemma_tidy(path, events.drop_last());
        lemma_tidy_step(open_run(path, events.drop_last()), events.last());
    }
}

/// When a disk is open, each volume that was found on it was locked, dismounted
/// and lost its mount points, in this order and before the next one.
pub proof fn law_open_disk_has_no_volumes(path: Seq<char>, events: Seq<EventView>)
    requires
        open_legal(path, events),
        open_run(path, events).state.stage == Stage::Finished,
        open_run(path, events).state.outcome is Ok,
    ensures
        open_run(path, events).locked == open_run(path, events).on_disk(),
        open_run(path, events).dismounted == open_run(path, events).on_disk(),
        open_run(path, events).cleaned == open_run(path, events).on_disk(),
{
    lemma_tidy(path, events);
    let run = open_run(path, events);
    assert(run.on_disk().take(run.on_disk().len() as int) =~= run.on_disk());
}

/// Only volumes on the disk are ever locked, only locked ones dismounted, and only
/// dismounted ones lose their mount points, whether the disk could be opened or not.
pub proof fn law_other_volumes_are_left_alone(path: Seq<char>, events: Seq<EventView>)
    requires
        open_legal(path, events),
    ensures
        open_run(path, events).locked.is_prefix_of(open_run(path, events).on_disk()),
        open_run(path, events).dismounted.is_prefix_of(open_run(path, events).locked),
        open_run(path, events).cleaned.is_prefix_of(open_run(path, events).dismounted),
{
    lemma_tidy(path, events);
}

/// Nothing is tried more often than `MAX_TRIES` times.
pub proof fn law_tries_are_limited(path: Seq<char>, events: Seq<EventView>)
    requires
        open_legal(path, events),
    ensures
        open_run(path, events).state.tries <= MAX_TRIES,
        open_run(path, events).state.stage == Stage::Lock || open_run(path, events).state.stage
            == Stage::OpenDrive ==> open_run(path, events).state.tries < MAX_TRIES,
{
    lemma_tidy(path, events);
}

/// The operation that comes next once the operations before ended in `events`.
pub open spec fn asked(path: Seq<char>, events: Seq<EventView>) -> ActionView {
    open_run(path, events).state.action()
}

/// How often in turn a lock was refused, or the disk not opened, with a pause behind each
/// but perhaps the last.
pub open spec fn refused_in_turn(events: Seq<EventView>) -> nat
    decreases events.len(),
{
    if events.len() == 0 {
        0
    } else if events.last() is NotLocked || events.last() is NotOpened {
        1 + refused_in_turn(events.drop_last())
    } else if events.last() is Done && events.len() > 1 && (events[events.len() - 2] is NotLocked
        || events[events.len() - 2] is NotOpened) {
        refused_in_turn(events.drop_last())
    } else {
        0
    }
}

/// What holds of every opening, as the events tell it.
spec fn by_events(path: Seq<char>, events: Seq<EventView>) -> bool {
    let v = open_run(path, events).state;
    let n = events.len();
    &&& v.valid()
    &&& v.path == path
    &&& drive_number(path) is Err ==> n == 0
    &&& drive_number(path) matches Ok(k) ==> v.target == k
    &&& match v.stage {
        Stage::FindFirst => n == 0,
        Stage::Query => n > 0 && events.last() is Volume && v.volume == nul_ended(
            events.last()->Volume_0,
        ),
        Stage::OpenVolume => {
            &&& n > 1
            &&& events.last() == EventView::Queried(Some(v.target))
            &&& events[n - 2] is Volume
            &&& v.volume == nul_ended(events[n - 2]->Volume_0)
        },
        Stage::Lock => {
            &&& n > 0 && events.last() is Done
            &&& v.tries == refused_in_turn(events)
        },
        Stage::LockPause => {
            &&& n > 0 && events.last() is NotLocked
            &&& v.tries == refused_in_turn(events)
        },
        Stage::Dismount | Stage::RemoveMountPoints => n > 0 && events.last() is Done,
        Stage::FindNext => n > 0,
        Stage::OpenDrive => {
            &&& n > 0 && (events.last() is NoMoreVolumes || events.last() is Done)
            &&& v.tries == refused_in_turn(events)
        },
        Stage::OpenPause => {
            &&& n > 0
            &&& events.last() matches EventView::NotOpened(kind, message) && v.outcome == Err::<
                (),
                FlashErrorView,
            >(FlashErrorView::Io(kind, message))
            &&& v.tries == refused_in_turn(events)
        },
        Stage::Finished => n == 0 ==> drive_number(path) is Err && v.outcome == Err::<
            (),
            FlashErrorView,
        >(drive_number(path)->Err_0),
    }
}

proof fn lemma_by_events(path: Seq<char>, events: Seq<EventView>)
    requires
        open_legal(path, events),
    ensures
        by_events(path, events),
    decreases events.len(),
{
    if events.len() == 0 {
        if let Ok(n) = drive_number(path) {
            crate::windows::lemma_drive_number_fits(path);
        }
    } else {
        let before = events.drop_last();
        lemma_by_events(path, before);
        lemma_open_next_valid(open_run(path, before).state, events.last());
        if before.len() > 0 {
            assert(events[events.len() - 2] == before.last());
        }
    }
}

/// How one operation follows another, as the disk and the events decide: every volume is
/// asked for its disk; one on the disk is opened, locked, dismounted and loses its mount
/// points, and any other is passed over; the disk is opened when there is no further volume.
pub proof fn law_opening_goes_on(path: Seq<char>, events: Seq<EventView>)
    requires
        open_legal(path, events),
        events.len() > 0,
    ensures
        ({
            let before = asked(path, events.drop_last());
            let next = asked(path, events);
            match (before, events.last()) {
                (ActionView::FindFirst, EventView::Volume(buf))
                | (ActionView::FindNext, EventView::Volume(buf)) => next == ActionView::Query(
                    trim_end(nul_ended(buf), '\\'),
                ),
                (ActionView::FindNext, EventView::NoMoreVolumes) => next == ActionView::OpenDrive(
                    path,
                ),
                (ActionView::Query(volume), EventView::Queried(number)) => {
                    let own = drive_number(path) matches Ok(n) && (number matches Some(k) && k
                        == n);
                    next == (if own {
                        ActionView::OpenVolume(volume)
                    } else {
                        ActionView::FindNext
                    })
                },
                (ActionView::OpenVolume(_), EventView::Done) => next == ActionView::Lock,
                (ActionView::Lock, EventView::Done) => next == ActionView::Dismount,
                (ActionView::Lock, EventView::NotLocked) => next == ActionView::Pause(250),
                (ActionView::Dismount, EventView::Done) => next is RemoveMountPoints,
                (ActionView::RemoveMountPoints(_), EventView::Done) => next == ActionView::FindNext,
                (ActionView::OpenDrive(_), EventView::Done) => next == ActionView::Finish,
                (ActionView::OpenDrive(_), EventView::NotOpened(_, _)) => next
                    == ActionView::Pause(100),
                (ActionView::Pause(_), EventView::Done) => events.len() > 1 && (
                events[events.len() - 2] is NotLocked || events[events.len() - 2] is NotOpened)
                    && next == (if refused_in_turn(events) >= 10 {
                    ActionView::Finish
                } else if events[events.len() - 2] is NotLocked {
                    ActionView::Lock
                } else {
                    ActionView::OpenDrive(path)
                }),
                _ => next == ActionView::Finish,
            }
        }),
{
    let before = events.drop_last();
    lemma_by_events(path, before);
    lemma_by_events(path, events);
    if drive_number(path) is Ok {
        crate::windows::lemma_drive_number_fits(path);
    }
    if before.len() > 0 {
        assert(events[events.len() - 2] == before.last());
    }
    if before.len() > 1 {
        assert(events[events.len() - 3] == before[before.len() - 2]);
    }
}

/// A search starts with the first volume, unless the path is none of a disk: then the
/// opening fails for that reason.
pub proof fn law_opening_starts(path: Seq<char>)
    ensures
        match drive_number(path) {
            Ok(_) => asked(path, Seq::empty()) == ActionView::FindFirst,
            Err(e) => asked(path, Seq::empty()) == ActionView::Finish && open_run(
                path,
                Seq::empty(),
            ).state.outcome == Err::<(), FlashErrorView>(e),
        },
{
}

/// The outcome of an opening: it succeeds when the disk was opened, and otherwise tells what
/// failed: the search, a question, the opening of a volume, its lock after ten tries, its
/// dismounting, or the opening of the disk after ten tries, by the last of its errors.
pub proof fn law_opening_ends(path: Seq<char>, events: Seq<EventView>)
    requires
        open_legal(path, events),
        events.len() > 0,
        asked(path, events) == ActionView::Finish,
    ensures
        open_run(path, events).state.outcome == (match (
            asked(path, events.drop_last()),
            events.last(),
        ) {
            (ActionView::OpenDrive(_), EventView::Done) => Ok::<(), FlashErrorView>(()),
            (ActionView::FindFirst, EventView::FindFailed) => Err(
                FlashErrorView::FilesystemError("FindFirstVolumeW failed"@),
            ),
            (ActionView::FindFirst, _) => Err(FlashErrorView::SyncError),
            (ActionView::Query(_), EventView::Failed(text)) => Err(
                FlashErrorView::FilesystemError("Failed to query volume attributes: "@ + text),
            ),
            (ActionView::OpenVolume(_), EventView::Failed(text)) => Err(
                FlashErrorView::FilesystemError("Access denied opening volume: "@ + text),
            ),
            (ActionView::Dismount, EventView::Failed(text)) => Err(
                FlashErrorView::FilesystemError("Failed to dismount volume: "@ + text),
            ),
            (_, _) => match events[events.len() - 2] {
                EventView::NotOpened(kind, message) => Err(FlashErrorView::Io(kind, message)),
                _ => Err(FlashErrorView::FilesystemError("Failed to lock volume"@)),
            },
        }),
{
    let before = events.drop_last();
    lemma_by_events(path, before);
    lemma_by_events(path, events);
    if before.len() > 0 {
        assert(events[events.len() - 2] == before.last());
    }
}

/// Every outcome of the operation that comes next is accepted.
pub proof fn law_opening_accepts(
    path: Seq<char>,
    events: Seq<EventView>,
    buf: Seq<u16>,
    number: Option<u32>,
    text: Seq<char>,
    kind: IoErrorKindView,
)
    requires
        open_legal(path, events),
    ensures
        ({
            let v = open_run(path, events).state;
            match asked(path, events) {
                ActionView::FindFirst => v.answers(EventView::Volume(buf)) && v.answers(
                    EventView::FindFailed,
                ) && v.answers(EventView::FindInvalid),
                ActionView::Query(_) => v.answers(EventView::Queried(number)) && v.answers(
                    EventView::Failed(text),
                ),
                ActionView::OpenVolume(_) => v.answers(EventView::Done) && v.answers(
                    EventView::Failed(text),
                ),
                ActionView::Lock => v.answers(EventView::Done) && v.answers(EventView::NotLocked),
                ActionView::Pause(_) => v.answers(EventView::Done),
                ActionView::Dismount => v.answers(EventView::Done) && v.answers(
                    EventView::Failed(text),
                ),
                ActionView::RemoveMountPoints(_) => v.answers(EventView::Done),
                ActionView::FindNext => v.answers(EventView::Volume(buf)) && v.answers(
                    EventView::NoMoreVolumes,
                ),
                ActionView::OpenDrive(_) => v.answers(EventView::Done) && v.answers(
                    EventView::NotOpened(kind, text),
                ),
                ActionView::Finish => true,
            }
        }),
{
}

/// What was accepted was accepted from the start on.
proof fn lemma_open_legal_take(path: Seq<char>, events: Seq<EventView>, k: int)
    requires
        open_legal(path, events),
        0 <= k <= events.len(),
    ensures
        open_legal(path, events.take(k)),
        k < events.len() ==> open_run(path, events.take(k)).state.answers(events[k]),
        k < events.len() ==> open_run(path, events.take(k + 1)).state == open_run(
            path,
            events.take(k),
        ).state.next(events[k]),
    decreases events.len() - k,
{
    if k == events.len() {
        assert(events.take(k) =~= events);
    } else {
        lemma_open_legal_take(path, events, k + 1);
        assert(events.take(k + 1).drop_last() =~= events.take(k));
        assert(events.take(k + 1).last() == events[k]);
    }
}

/// A volume that is being locked when the opening goes on to succeed is locked, dismounted
/// and loses its mount points.
proof fn lemma_released(path: Seq<char>, events: Seq<EventView>, k: int) -> (l: int)
    requires
        open_legal(path, events),
        open_run(path, events).state.stage == Stage::Finished,
        open_run(path, events).state.outcome is Ok,
        0 <= k <= events.len(),
        open_run(path, events.take(k)).state.stage == Stage::Lock || open_run(
            path,
            events.take(k),
        ).state.stage == Stage::LockPause,
    ensures
        k <= l,
        l + 2 < events.len(),
        asked(path, events.take(l)) == ActionView::Lock,
        events[l] is Done,
        asked(path, events.take(l + 1)) == ActionView::Dismount,
        events[l + 1] is Done,
        asked(path, events.take(l + 2)) == ActionView::RemoveMountPoints(
            open_run(path, events.take(k)).state.volume,
        ),
        events[l + 2] is Done,
        forall|i: int|
            k <= i < l ==> (asked(path, #[trigger] events.take(i)) is Lock || asked(
                path,
                events.take(i),
            ) is Pause),
    decreases events.len() - k,
{
    let v = open_run(path, events.take(k)).state;
    if k == events.len() {
        assert(events.take(k) =~= events);
    }
    lemma_open_legal_take(path, events, k);
    if v.stage == Stage::Lock && events[k] is Done {
        lemma_done_goes_on(path, events, k + 1);
        lemma_done_goes_on(path, events, k + 2);
        k
    } else {
        lemma_open_legal_take(path, events, k + 1);
        if open_run(path, events.take(k + 1)).state.stage == Stage::Finished {
            if k + 1 == events.len() {
                assert(events.take(k + 1) =~= events);
            }
        }
        let l = lemma_released(path, events, k + 1);
        l
    }
}

/// In an opening that succeeds, a volume that is locked is dismounted, and one that is
/// dismounted loses its mount points.
proof fn lemma_done_goes_on(path: Seq<char>, events: Seq<EventView>, k: int)
    requires
        open_legal(path, events),
        open_run(path, events).state.stage == Stage::Finished,
        open_run(path, events).state.outcome is Ok,
        0 <= k <= events.len(),
        open_run(path, events.take(k)).state.stage == Stage::Dismount || open_run(
            path,
            events.take(k),
        ).state.stage == Stage::RemoveMountPoints,
    ensures
        k < events.len(),
        events[k] is Done,
        open_run(path, events.take(k + 1)).state == open_run(path, events.take(k)).state.next(
            EventView::Done,
        ),
{
    if k == events.len() {
        assert(events.take(k) =~= events);
    }
    lemma_open_legal_take(path, events, k);
    if !(events[k] is Done) {
        lemma_open_legal_take(path, events, k + 1);
        if k + 1 == events.len() {
            assert(events.take(k + 1) =~= events);
        }
    }
}

/// When a disk was opened, every volume that told to lie on it had been opened right after,
/// and then locked, dismounted and freed of its mount points, before the next volume was
/// looked for.
pub proof fn law_volumes_on_disk_are_released(path: Seq<char>, events: Seq<EventView>, j: int)
    requires
        open_legal(path, events),
        asked(path, events) == ActionView::Finish,
        open_run(path, events).state.outcome is Ok,
        0 <= j < events.len(),
        drive_number(path) matches Ok(n) && (events[j] matches EventView::Queried(Some(k)) && k
            == n),
    ensures
        0 < j,
        events[j - 1] is Volume,
        j + 1 < events.len(),
        asked(path, events.take(j + 1)) == ActionView::OpenVolume(
            trim_end(nul_ended(events[j - 1]->Volume_0), '\\'),
        ),
        events[j + 1] is Done,
        exists|l: int|
            {
                &&& j + 1 < l && l + 2 < events.len()
                &&& asked(path, #[trigger] events.take(l)) == ActionView::Lock
                &&& events[l] is Done
                &&& asked(path, events.take(l + 1)) == ActionView::Dismount
                &&& events[l + 1] is Done
                &&& asked(path, events.take(l + 2)) == ActionView::RemoveMountPoints(
                    nul_ended(events[j - 1]->Volume_0),
                )
                &&& events[l + 2] is Done
                &&& forall|i: int|
                    j + 1 < i < l ==> (asked(path, #[trigger] events.take(i)) is Lock || asked(
                        path,
                        events.take(i),
                    ) is Pause)
            },
{
    lemma_open_legal_take(path, events, j);
    lemma_by_events(path, events.take(j));
    lemma_open_legal_take(path, events, j + 1);
    lemma_by_events(path, events.take(j + 1));
    crate::windows::lemma_drive_number_fits(path);
    assert(events.take(j)[j - 1] == events[j - 1]);
    if j + 1 == events.len() {
        assert(events.take(j + 1) =~= events);
    }
    if !(events[j + 1] is Done) {
        lemma_open_legal_take(path, events, j + 2);
        if j + 2 == events.len() {
            assert(events.take(j + 2) =~= events);
        }
    }
    let l = lemma_released(path, events, j + 2);
    assert(asked(path, events.take(l)) == ActionView::Lock);
}

/// What contracts say of an operation or an event is what it holds.
pub proof fn law_open_views<'a>(
    buf: &'a [u16],
    number: Option<u32>,
    text: String,
    io: IoError,
    n: u64,
)
    ensures
        Event::Volume(buf)@ == EventView::Volume(buf@),
        Event::FindFailed@ == EventView::FindFailed,
        Event::FindInvalid@ == EventView::FindInvalid,
        Event::NoMoreVolumes@ == EventView::NoMoreVolumes,
        Event::Queried(number)@ == EventView::Queried(number),
        Event::Done@ == EventView::Done,
        Event::NotLocked@ == EventView::NotLocked,
        Event::Failed(text)@ == EventView::Failed(text@),
        Event::NotOpened(io)@ == EventView::NotOpened(io.kind@, io.message@),
        Action::FindFirst@ == ActionView::FindFirst,
        Action::Query(text)@ == ActionView::Query(text@),
        Action::OpenVolume(text)@ == ActionView::OpenVolume(text@),
        Action::Lock@ == ActionView::Lock,
        Action::Pause(n)@ == ActionView::Pause(n),
        Action::Dismount@ == ActionView::Dismount,
        Action::RemoveMountPoints(text)@ == ActionView::RemoveMountPoints(text@),
        Action::FindNext@ == ActionView::FindNext,
        Action::OpenDrive(text)@ == ActionView::OpenDrive(text@),
        Action::Finish@ == ActionView::Finish,
{
}

} // verus!
