//! Flashing: which operation on the image, the drive or the progress channel
//! comes next, given how the ones before it ended.
//!
//! A [`FlashMachine`] names the next operation with [`FlashMachine::action`].
//! Its user performs the operation and hands the outcome to
//! [`FlashMachine::step`]. The machine takes no part in input and output, so
//! what it does is a function of the outcomes it is told.
use crate::aligned::{zeros, PageAlignedBuffer};
use crate::data_types::{phase_start, FlashPhase, FlashProgress, HashFailedWhen, Rate};
use crate::error::{result_view, FlashError, FlashErrorView, FlashResult};
use crate::hashing::{absorbed, hex_encode, hex_text, same_digest, sha256, sha256_finalize, sha256_new, sha256_update, MAX_HASHED};
use vstd::prelude::*;

verus! {

/// How an image is flashed.
#[derive(Debug, Clone, Copy, PartialEq, Eq, Structural)]
pub enum Flow {
    /// The image is checked against its hash first and must fit the drive, whose
    /// backup partition table is wiped.
    Guarded,
    /// The image goes straight to the drive.
    Direct,
}

/// How much of a flash is done.
#[derive(Debug, Clone, Copy, PartialEq, Eq, Structural)]
pub enum Scope {
    /// All of it
    Flash,
    /// Only what was written is read back and checked
    Verify,
}

/// What comes next.
#[derive(Debug, Clone, Copy, PartialEq, Eq, Structural)]
pub enum Stage {
    /// Say that the hash of the image is being checked
    AnnounceCheck,
    /// Read on in the image, for its hash
    Check,
    /// Report how far the check is
    ReportCheck,
    /// Go to the start of the image
    RewindChecked,
    /// Say that the drive is being unmounted
    AnnounceUnmount,
    /// Unmount the drive
    Unmount,
    /// Open the drive
    Open,
    /// Overwrite the backup partition table
    Wipe,
    /// Flush that
    WipeFlush,
    /// Go to the start of the drive
    WipeSeek,
    /// Go to the start of the image
    Rewind,
    /// Say that the image is being written
    AnnounceWrite,
    /// Read on in the image, to write it
    Read,
    /// Write a full buffer
    Write,
    /// Write the last buffer, padded with zeros
    WriteLast,
    /// Report how far the writing is
    ReportWrite,
    /// Say that the drive is being flushed
    AnnounceFlush,
    /// Flush the drive
    Flush,
    /// Go to the start of the drive
    SeekTarget,
    /// Say that the drive is being verified
    AnnounceVerify,
    /// Read on in the drive
    ReadBack,
    /// Report how far the verification is
    ReportVerify,
    /// Eject the drive
    Eject,
    /// Say that all is done
    AnnounceDone,
    /// Nothing: the outcome is known
    Finished,
}

/// An operation to perform.
#[derive(Debug, Clone, Copy, PartialEq, Eq, Structural)]
pub enum Action {
    /// Send this progress, then start the clock anew
    Send(FlashProgress),
    /// Read on in the image, as much as comes
    ReadImage,
    /// Go to the start of the image
    RewindImage,
    /// Unmount the drive
    Unmount,
    /// Open the drive and find out its size
    Open,
    /// Write `len` zeros at `offset`
    Wipe { offset: u64, len: usize },
    /// Flush the drive
    Flush,
    /// Go to the start of the drive
    SeekTarget,
    /// Read at most `max` bytes of the image
    Fill { max: usize },
    /// Write the buffer at `offset`
    Write { offset: u64 },
    /// Read at most `max` bytes of the drive at `offset`
    ReadBack { offset: u64, max: usize },
    /// Eject the drive
    Eject,
    /// Take the outcome
    Finish,
}

/// How an operation ended. Times are in nanoseconds since the clock was started.
#[derive(Debug)]
pub enum Event<'a> {
    /// The progress was sent
    Sent,
    /// Nobody receives the progress any more
    Unsent,
    /// The operation succeeded
    Done,
    /// The image went on with these bytes; no bytes: it ended
    Checked { bytes: &'a [u8], elapsed: u64 },
    /// The drive is open and has this size
    Opened { size: u64 },
    /// The image went on with these bytes; no bytes: it ended
    Filled { bytes: &'a [u8] },
    /// The buffer was written
    Wrote { elapsed: u64 },
    /// The drive held these bytes; no bytes: it ended
    ReadBack { bytes: &'a [u8], elapsed: u64 },
    /// The operation failed
    Failed(FlashError),
}

/// An event, as contracts speak of it.
pub enum EventView {
    Sent,
    Unsent,
    Done,
    Checked { bytes: Seq<u8>, elapsed: u64 },
    Opened { size: u64 },
    Filled { bytes: Seq<u8> },
    Wrote { elapsed: u64 },
    ReadBack { bytes: Seq<u8>, elapsed: u64 },
    Failed(FlashErrorView),
}

impl<'a> View for Event<'a> {
    type V = EventView;

    open spec fn view(&self) -> EventView {
        match self {
            Event::Sent => EventView::Sent,
            Event::Unsent => EventView::Unsent,
            Event::Done => EventView::Done,
            Event::Checked { bytes, elapsed } => EventView::Checked {
                bytes: bytes@,
                elapsed: *elapsed,
            },
            Event::Opened { size } => EventView::Opened { size: *size },
            Event::Filled { bytes } => EventView::Filled { bytes: bytes@ },
            Event::Wrote { elapsed } => EventView::Wrote { elapsed: *elapsed },
            Event::ReadBack { bytes, elapsed } => EventView::ReadBack {
                bytes: bytes@,
                elapsed: *elapsed,
            },
            Event::Failed(e) => EventView::Failed(e@),
        }
    }
}

/// A report is due when this many nanoseconds have passed since the last one.
pub const REPORT_INTERVAL: u64 = 1_000_000_000;

/// The state of a flash.
pub struct FlashView {
    /// How the image is flashed
    pub flow: Flow,
    /// How much of the flash is done
    pub scope: Scope,
    /// The size that the image is said to have
    pub total: u64,
    /// The hash that the image should have
    pub expected: Option<Seq<u8>>,
    /// The size of a page
    pub page: nat,
    /// The size of the buffer
    pub capacity: nat,
    /// The address at which the buffer starts
    pub address: nat,
    /// What comes next
    pub stage: Stage,
    /// What of the image was hashed before writing
    pub checked: nat,
    /// The size of the drive, once it is open
    pub target_size: u64,
    /// What was read of the image and not yet written
    pub pending: Seq<u8>,
    /// How much of the image was written
    pub written: nat,
    /// How much was read back of the drive
    pub read_back: nat,
    /// What went into the hash that is being computed
    pub hashed: Seq<u8>,
    /// How much passed since the last report
    pub since_report: nat,
    /// How long ago that was, when a report is due
    pub elapsed: u64,
    /// How the flash ended
    pub outcome: Result<(), FlashErrorView>,
}

impl FlashView {
    /// Whether both are states of a flash of the same image in the same way.
    pub open spec fn same_flash(self, other: FlashView) -> bool {
        &&& self.flow == other.flow
        &&& self.scope == other.scope
        &&& self.total == other.total
        &&& self.expected == other.expected
        &&& self.page == other.page
        &&& self.capacity == other.capacity
        &&& self.address == other.address
    }

    /// Going on with `stage`.
    pub open spec fn at(self, stage: Stage) -> FlashView {
        FlashView { stage, ..self }
    }

    /// The flash ended in `outcome`.
    pub open spec fn finish(self, outcome: Result<(), FlashErrorView>) -> FlashView {
        FlashView { stage: Stage::Finished, outcome, ..self }
    }

    /// Whether the hash that was computed is the expected one, if there is one.
    pub open spec fn hash_matches(self) -> bool {
        self.expected matches Some(h) ==> sha256(self.hashed) == h
    }

    /// After the last byte was read back: the hash decides.
    pub open spec fn conclude(self) -> FlashView {
        if self.hash_matches() {
            match self.scope {
                Scope::Flash => self.at(Stage::Eject),
                Scope::Verify => self.finish(Ok(())),
            }
        } else {
            self.finish(
                Err(
                    match self.flow {
                        Flow::Guarded => FlashErrorView::Sha256HashDoesNotMatch(
                            HashFailedWhen::VerificationCheck,
                        ),
                        Flow::Direct => FlashErrorView::VerificationFailed {
                            failed_hash_hex: hex_text(sha256(self.hashed)),
                            expected_hex: hex_text(self.expected->0),
                        },
                    },
                ),
            )
        }
    }

    /// Reading the drive back, as long as something written was not read yet.
    pub open spec fn go_on_reading_back(self) -> FlashView {
        if self.read_back >= self.written {
            self.conclude()
        } else {
            self.at(Stage::ReadBack)
        }
    }

    /// The next stage of the check once `bytes` of the image were read.
    pub open spec fn after_check(self, bytes: Seq<u8>, elapsed: u64) -> FlashView {
        if bytes.len() == 0 {
            if self.hash_matches() {
                self.at(Stage::RewindChecked)
            } else {
                self.finish(
                    Err(FlashErrorView::Sha256HashDoesNotMatch(HashFailedWhen::FirstCheck)),
                )
            }
        } else {
            FlashView {
                hashed: self.hashed + bytes,
                checked: self.checked + bytes.len(),
                since_report: self.since_report + bytes.len(),
                elapsed,
                stage: if elapsed >= REPORT_INTERVAL {
                    Stage::ReportCheck
                } else {
                    Stage::Check
                },
                ..self
            }
        }
    }

    /// The drive is open: does the image fit?
    pub open spec fn after_open(self, size: u64) -> FlashView {
        match self.flow {
            Flow::Guarded => if self.total > size {
                self.finish(Err(FlashErrorView::TargetToSmall(self.total, size)))
            } else {
                FlashView { target_size: size, stage: Stage::Wipe, ..self }
            },
            Flow::Direct => FlashView { target_size: size, stage: Stage::AnnounceWrite, ..self },
        }
    }

    /// `bytes` of the image were read into the buffer.
    pub open spec fn after_fill(self, bytes: Seq<u8>) -> FlashView {
        let pending = self.pending + bytes;
        FlashView {
            pending,
            stage: if pending.len() == self.capacity {
                Stage::Write
            } else if bytes.len() > 0 {
                Stage::Read
            } else if pending.len() > 0 {
                Stage::WriteLast
            } else {
                Stage::AnnounceFlush
            },
            ..self
        }
    }

    /// The buffer was written.
    pub open spec fn after_write(self, elapsed: u64) -> FlashView {
        FlashView {
            pending: Seq::empty(),
            written: self.written + self.pending.len(),
            since_report: self.since_report + self.pending.len(),
            elapsed,
            stage: if self.stage == Stage::WriteLast {
                Stage::AnnounceFlush
            } else if elapsed >= REPORT_INTERVAL {
                Stage::ReportWrite
            } else {
                Stage::Read
            },
            ..self
        }
    }

    /// `bytes` were read back. Only what was written counts for the hash.
    pub open spec fn after_read_back(self, bytes: Seq<u8>, elapsed: u64) -> FlashView {
        if bytes.len() == 0 {
            self.conclude()
        } else {
            let left = self.written - self.read_back;
            let valid = if bytes.len() <= left {
                bytes.len() as int
            } else {
                left
            };
            let next = FlashView {
                hashed: self.hashed + bytes.take(valid),
                read_back: self.read_back + bytes.len(),
                since_report: self.since_report + bytes.len(),
                elapsed,
                ..self
            };
            if elapsed >= REPORT_INTERVAL {
                next.at(Stage::ReportVerify)
            } else {
                next.go_on_reading_back()
            }
        }
    }

    /// A progress was sent.
    pub open spec fn after_send(self) -> FlashView {
        match self.stage {
            Stage::AnnounceCheck => if self.expected is Some {
                FlashView {
                    hashed: Seq::empty(),
                    checked: 0,
                    since_report: 0,
                    stage: Stage::Check,
                    ..self
                }
            } else {
                self.at(Stage::RewindChecked)
            },
            Stage::ReportCheck => FlashView { since_report: 0, stage: Stage::Check, ..self },
            Stage::AnnounceUnmount => self.at(Stage::Unmount),
            Stage::AnnounceWrite => FlashView {
                pending: Seq::empty(),
                written: 0,
                since_report: 0,
                stage: Stage::Read,
                ..self
            },
            Stage::ReportWrite => FlashView { since_report: 0, stage: Stage::Read, ..self },
            Stage::AnnounceFlush => self.at(Stage::Flush),
            Stage::AnnounceVerify => FlashView {
                hashed: Seq::empty(),
                read_back: 0,
                since_report: 0,
                ..self
            }.go_on_reading_back(),
            Stage::ReportVerify => FlashView { since_report: 0, ..self }.go_on_reading_back(),
            Stage::AnnounceDone => self.finish(Ok(())),
            _ => self,
        }
    }

    /// An operation without a result succeeded.
    pub open spec fn after_done(self) -> FlashView {
        match self.stage {
            Stage::RewindChecked => self.at(Stage::AnnounceUnmount),
            Stage::Unmount => self.at(Stage::Open),
            Stage::Wipe => self.at(Stage::WipeFlush),
            Stage::WipeFlush => self.at(Stage::WipeSeek),
            Stage::WipeSeek => self.at(Stage::Rewind),
            Stage::Rewind => self.at(Stage::AnnounceWrite),
            Stage::Flush => self.at(Stage::SeekTarget),
            Stage::SeekTarget => self.at(Stage::AnnounceVerify),
            Stage::Eject => self.at(Stage::AnnounceDone),
            _ => self,
        }
    }

    /// The state after `event`.
    pub open spec fn next(self, event: EventView) -> FlashView {
        match event {
            EventView::Sent => self.after_send(),
            EventView::Unsent => self.finish(Err(FlashErrorView::SendChannelError)),
            EventView::Done => self.after_done(),
            EventView::Checked { bytes, elapsed } => self.after_check(bytes, elapsed),
            EventView::Opened { size } => self.after_open(size),
            EventView::Filled { bytes } => self.after_fill(bytes),
            EventView::Wrote { elapsed } => self.after_write(elapsed),
            EventView::ReadBack { bytes, elapsed } => self.after_read_back(bytes, elapsed),
            EventView::Failed(e) => self.finish(Err(e)),
        }
    }

    /// The progress that a report or an announcement tells.
    pub open spec fn progress(self) -> FlashProgress {
        let rate = Rate { bytes: self.since_report as u64, nanos: self.elapsed };
        match self.stage {
            Stage::AnnounceCheck => phase_start(FlashPhase::CheckingHash),
            Stage::ReportCheck => FlashProgress {
                bytes_written: self.checked as u64,
                total_bytes: self.total,
                bytes_per_sec: rate,
                phase: FlashPhase::CheckingHash,
            },
            Stage::AnnounceUnmount => phase_start(FlashPhase::Unmounting),
            Stage::AnnounceWrite => FlashProgress {
                total_bytes: self.total,
                ..phase_start(FlashPhase::Writing)
            },
            Stage::ReportWrite => FlashProgress {
                bytes_written: self.written as u64,
                total_bytes: self.total,
                bytes_per_sec: rate,
                phase: FlashPhase::Writing,
            },
            Stage::AnnounceFlush => phase_start(FlashPhase::Flushing),
            Stage::AnnounceVerify => phase_start(FlashPhase::Verifying),
            Stage::ReportVerify => FlashProgress {
                bytes_written: self.read_back as u64,
                total_bytes: self.written as u64,
                bytes_per_sec: rate,
                phase: FlashPhase::Verifying,
            },
            _ => phase_start(FlashPhase::Done),
        }
    }

    /// How much may be read back at once.
    pub open spec fn read_back_max(self) -> nat {
        let left = (self.written - self.read_back) as nat;
        if self.flow == Flow::Direct && left < self.capacity {
            left
        } else {
            self.capacity
        }
    }

    /// Where the wiped page starts: at the last page of the drive, or at 0 if
    /// the drive is smaller than a page.
    pub open spec fn wipe_offset(self) -> int {
        if self.target_size >= self.page {
            self.target_size - self.page
        } else {
            0
        }
    }

    /// The operation that comes next.
    pub open spec fn action(self) -> Action {
        match self.stage {
            Stage::AnnounceCheck
            | Stage::ReportCheck
            | Stage::AnnounceUnmount
            | Stage::AnnounceWrite
            | Stage::ReportWrite
            | Stage::AnnounceFlush
            | Stage::AnnounceVerify
            | Stage::ReportVerify
            | Stage::AnnounceDone => Action::Send(self.progress()),
            Stage::Check => Action::ReadImage,
            Stage::RewindChecked | Stage::Rewind => Action::RewindImage,
            Stage::Unmount => Action::Unmount,
            Stage::Open => Action::Open,
            Stage::Wipe => Action::Wipe {
                offset: self.wipe_offset() as u64,
                len: self.page as usize,
            },
            Stage::WipeFlush | Stage::Flush => Action::Flush,
            Stage::WipeSeek | Stage::SeekTarget => Action::SeekTarget,
            Stage::Read => Action::Fill { max: (self.capacity - self.pending.len()) as usize },
            Stage::Write | Stage::WriteLast => Action::Write { offset: self.written as u64 },
            Stage::ReadBack => Action::ReadBack {
                offset: self.read_back as u64,
                max: self.read_back_max() as usize,
            },
            Stage::Eject => Action::Eject,
            Stage::Finished => Action::Finish,
        }
    }

    /// The data of the next write: what is pending, padded with zeros to a full buffer.
    pub open spec fn write_data(self) -> Seq<u8> {
        self.pending + zeros((self.capacity - self.pending.len()) as nat)
    }

    /// Whether `event` can be the outcome of the operation that comes next, with
    /// no more bytes than were asked for.
    pub open spec fn answers(self, event: EventView) -> bool {
        let action = self.action();
        match event {
            EventView::Sent | EventView::Unsent => action is Send,
            EventView::Done => {
                ||| action is RewindImage
                ||| action is Unmount
                ||| action is Wipe
                ||| action is Flush
                ||| action is SeekTarget
                ||| action is Eject
            },
            EventView::Checked { .. } => action is ReadImage,
            EventView::Opened { .. } => action is Open,
            EventView::Filled { bytes } => {
                &&& action is Fill
                &&& bytes.len() <= self.capacity - self.pending.len()
            },
            EventView::Wrote { .. } => action is Write,
            EventView::ReadBack { bytes, .. } => {
                &&& action is ReadBack
                &&& bytes.len() <= self.read_back_max()
            },
            EventView::Failed(_) => !(action is Send) && !(action is Finish),
        }
    }

    /// Whether the counts after `event` stay below what a hash can take in.
    pub open spec fn countable(self, event: EventView) -> bool {
        match event {
            EventView::Checked { bytes, .. } => self.checked + bytes.len() <= MAX_HASHED,
            EventView::Wrote { .. } => self.written + self.pending.len() <= MAX_HASHED,
            EventView::ReadBack { bytes, .. } => self.read_back + bytes.len() <= MAX_HASHED,
            _ => true,
        }
    }

    /// What holds of every state, whatever comes next.
    pub open spec fn bounded(self) -> bool {
        &&& 0 < self.page <= usize::MAX
        &&& 0 < self.capacity <= usize::MAX
        &&& self.capacity as int % self.page as int == 0
        &&& self.address as int % self.page as int == 0
        &&& self.expected matches Some(h) ==> h.len() == 32
        &&& self.checked <= MAX_HASHED
        &&& self.written <= MAX_HASHED
        &&& self.read_back <= MAX_HASHED
        &&& self.hashed.len() <= MAX_HASHED
        &&& self.since_report <= MAX_HASHED
        &&& self.pending.len() <= self.capacity
    }

    /// What holds of every state that a flash can reach.
    pub open spec fn valid(self) -> bool {
        &&& self.bounded()
        &&& self.stage == Stage::Read ==> {
            &&& self.pending.len() < self.capacity
        }
        &&& self.stage == Stage::ReportWrite ==> self.pending.len() == 0
        &&& self.stage == Stage::Write ==> self.pending.len() == self.capacity
        &&& self.stage == Stage::WriteLast ==> 0 < self.pending.len() < self.capacity
        &&& self.stage == Stage::ReadBack ==> self.read_back < self.written
        &&& self.stage == Stage::Check || self.stage == Stage::ReportCheck ==> {
            &&& self.expected is Some
            &&& self.hashed.len() == self.checked
            &&& self.since_report <= self.checked
        }
        &&& self.stage == Stage::Read || self.stage == Stage::Write || self.stage
            == Stage::ReportWrite || self.stage == Stage::WriteLast ==> self.since_report
            <= self.written
        &&& self.stage == Stage::ReadBack || self.stage == Stage::ReportVerify ==> {
            &&& self.since_report <= self.read_back
            &&& self.hashed.len() == if self.read_back <= self.written {
                self.read_back
            } else {
                self.written
            }
        }
    }
}

/// The state in which a flash starts.
pub open spec fn flash_start(
    flow: Flow,
    total: u64,
    expected: Option<Seq<u8>>,
    page: nat,
    capacity: nat,
    address: nat,
) -> FlashView {
    FlashView {
        flow,
        scope: Scope::Flash,
        total,
        expected,
        page,
        capacity,
        address,
        stage: match flow {
            Flow::Guarded => Stage::AnnounceCheck,
            Flow::Direct => Stage::AnnounceUnmount,
        },
        checked: 0,
        target_size: 0,
        pending: Seq::empty(),
        written: 0,
        read_back: 0,
        hashed: Seq::empty(),
        since_report: 0,
        elapsed: 0,
        outcome: Ok(()),
    }
}

/// The state in which the check of `written` bytes on the drive starts.
pub open spec fn verify_start(
    flow: Flow,
    total: u64,
    expected: Option<Seq<u8>>,
    page: nat,
    capacity: nat,
    address: nat,
    written: nat,
) -> FlashView {
    FlashView {
        scope: Scope::Verify,
        written,
        ..flash_start(flow, total, expected, page, capacity, address)
    }.go_on_reading_back()
}

/// Every event keeps the state valid.
pub proof fn lemma_next_valid(v: FlashView, event: EventView)
    requires
        v.valid(),
        v.answers(event),
        v.countable(event),
    ensures
        v.next(event).valid(),
{
}

/// An expected hash, as contracts speak of it.
pub open spec fn hash_view(hash: Option<[u8; 32]>) -> Option<Seq<u8>> {
    match hash {
        Some(h) => Some(h@),
        None => None,
    }
}

/// A flash in progress.
pub struct FlashMachine {
    flow: Flow,
    scope: Scope,
    total: u64,
    expected: Option<[u8; 32]>,
    buffer: PageAlignedBuffer,
    pending: usize,
    stage: Stage,
    checked: u64,
    target_size: u64,
    written: u64,
    read_back: u64,
    hasher: sha2::Sha256,
    hashed: Ghost<Seq<u8>>,
    since_report: u64,
    elapsed: u64,
    outcome: FlashResult<()>,
}

impl View for FlashMachine {
    type V = FlashView;

    closed spec fn view(&self) -> FlashView {
        FlashView {
            flow: self.flow,
            scope: self.scope,
            total: self.total,
            expected: hash_view(self.expected),
            page: self.buffer.spec_page_size() as nat,
            capacity: self.buffer@.len(),
            address: self.buffer.spec_address(),
            stage: self.stage,
            checked: self.checked as nat,
            target_size: self.target_size,
            pending: self.buffer@.take(self.pending as int),
            written: self.written as nat,
            read_back: self.read_back as nat,
            hashed: self.hashed@,
            since_report: self.since_report as nat,
            elapsed: self.elapsed,
            outcome: result_view(self.outcome),
        }
    }
}

impl FlashMachine {
    /// The state is valid, the hash is computed of what should go into it, and
    /// the buffer is what the next write takes.
    pub closed spec fn wf(&self) -> bool {
        &&& self@.valid()
        &&& self.stage == Stage::Check || self.stage == Stage::ReportCheck || self.stage
            == Stage::ReadBack || self.stage == Stage::ReportVerify ==> absorbed(self.hasher)
            == self.hashed@
        &&& self.buffer.wf()
        &&& self.pending <= self.buffer@.len()
        &&& self.stage == Stage::Write || self.stage == Stage::WriteLast ==> self.buffer@
            == self@.write_data()
    }

    /// A flash of an image of `total` bytes, with an empty buffer.
    pub fn new(flow: Flow, total: u64, expected: Option<[u8; 32]>, buffer: PageAlignedBuffer) -> (m:
        Self)
        requires
            buffer.wf(),
            buffer@.len() > 0,
        ensures
            m.wf(),
            m@.valid(),
            m@ == flash_start(
                flow,
                total,
                hash_view(expected),
                buffer.spec_page_size() as nat,
                buffer@.len(),
                buffer.spec_address(),
            ),
            m@.flow == flow,
            m@.scope == Scope::Flash,
            m@.total == total,
            expected matches Some(h) ==> m@.expected == Some(h@),
            expected is None ==> m@.expected is None,
            m@.page == buffer.spec_page_size(),
            m@.capacity == buffer@.len(),
            m@.address == buffer.spec_address(),
            crate::runs::new_flash(m@),
    {
        proof {
            buffer.lemma_wf();
        }
        let m = FlashMachine {
            flow,
            scope: Scope::Flash,
            total,
            expected,
            buffer,
            pending: 0,
            stage: match flow {
                Flow::Guarded => Stage::AnnounceCheck,
                Flow::Direct => Stage::AnnounceUnmount,
            },
            checked: 0,
            target_size: 0,
            written: 0,
            read_back: 0,
            hasher: sha256_new(),
            hashed: Ghost(Seq::empty()),
            since_report: 0,
            elapsed: 0,
            outcome: Ok(()),
        };
        assert(m@.pending =~= Seq::<u8>::empty());
        m
    }

    /// Where the machine stands.
    pub fn stage(&self) -> (stage: Stage)
        ensures
            stage == self@.stage,
    {
        self.stage
    }

    /// The progress that a report or an announcement tells.
    fn progress(&self) -> (progress: FlashProgress)
        ensures
            progress == self@.progress(),
    {
        let rate = Rate { bytes: self.since_report, nanos: self.elapsed };
        match self.stage {
            Stage::AnnounceCheck => FlashProgress::transition(FlashPhase::CheckingHash),
            Stage::ReportCheck => FlashProgress {
                bytes_written: self.checked,
                total_bytes: self.total,
                bytes_per_sec: rate,
                phase: FlashPhase::CheckingHash,
            },
            Stage::AnnounceUnmount => FlashProgress::transition(FlashPhase::Unmounting),
            Stage::AnnounceWrite => FlashProgress {
                bytes_written: 0,
                total_bytes: self.total,
                bytes_per_sec: Rate { bytes: 0, nanos: 0 },
                phase: FlashPhase::Writing,
            },
            Stage::ReportWrite => FlashProgress {
                bytes_written: self.written,
                total_bytes: self.total,
                bytes_per_sec: rate,
                phase: FlashPhase::Writing,
            },
            Stage::AnnounceFlush => FlashProgress::transition(FlashPhase::Flushing),
            Stage::AnnounceVerify => FlashProgress::transition(FlashPhase::Verifying),
            Stage::ReportVerify => FlashProgress {
                bytes_written: self.read_back,
                total_bytes: self.written,
                bytes_per_sec: rate,
                phase: FlashPhase::Verifying,
            },
            _ => FlashProgress::transition(FlashPhase::Done),
        }
    }

    /// How much may be read back at once.
    fn read_back_max(&self) -> (max: usize)
        requires
            self.wf(),
            self@.stage == Stage::ReadBack,
        ensures
            max == self@.read_back_max(),
    {
        let capacity: usize = self.buffer.size();
        let left: u64 = self.written - self.read_back;
        if self.flow == Flow::Direct && left < capacity as u64 {
            left as usize
        } else {
            capacity
        }
    }

    /// The operation to perform next.
    pub fn action(&self) -> (action: Action)
        requires
            self.wf(),
        ensures
            action == self@.action(),
    {
        match self.stage {
            Stage::AnnounceCheck
            | Stage::ReportCheck
            | Stage::AnnounceUnmount
            | Stage::AnnounceWrite
            | Stage::ReportWrite
            | Stage::AnnounceFlush
            | Stage::AnnounceVerify
            | Stage::ReportVerify
            | Stage::AnnounceDone => Action::Send(self.progress()),
            Stage::Check => Action::ReadImage,
            Stage::RewindChecked | Stage::Rewind => Action::RewindImage,
            Stage::Unmount => Action::Unmount,
            Stage::Open => Action::Open,
            Stage::Wipe => {
                let len: usize = self.buffer.page_size();
                Action::Wipe { offset: self.target_size.saturating_sub(len as u64), len }
            },
            Stage::WipeFlush | Stage::Flush => Action::Flush,
            Stage::WipeSeek | Stage::SeekTarget => Action::SeekTarget,
            Stage::Read => Action::Fill { max: self.buffer.size() - self.pending },
            Stage::Write | Stage::WriteLast => Action::Write { offset: self.written },
            Stage::ReadBack => Action::ReadBack {
                offset: self.read_back,
                max: self.read_back_max(),
            },
            Stage::Eject => Action::Eject,
            Stage::Finished => Action::Finish,
        }
    }

    /// What to wipe a page with: zeros, in a buffer of their own.
    pub fn wipe_data(&self) -> (page: PageAlignedBuffer)
        requires
            self.wf(),
        ensures
            page.wf(),
            page.spec_page_size() == self@.page,
            page.spec_address() as int % self@.page as int == 0,
            page@ == zeros(self@.page),
            page@.len() == self@.page,
            forall|i: int| 0 <= i < page@.len() ==> #[trigger] page@[i] == 0,
    {
        proof {
            self.buffer.lemma_wf();
        }
        PageAlignedBuffer::with_page_size(self.buffer.page_size(), 1).unwrap()
    }

    /// What to write: the buffer, padded with zeros, at the address where it starts.
    pub fn write_data(&self) -> (data: &[u8])
        requires
            self.wf(),
            self@.action() is Write,
        ensures
            data@ == self@.write_data(),
    {
        self.buffer.as_ptr()
    }

    /// Whether `event` can be told: it is an outcome of the operation that
    /// comes next, and nothing is counted beyond what a hash can take in.
    pub fn accepts(&self, event: &Event) -> (yes: bool)
        requires
            self.wf(),
        ensures
            yes == (self@.answers(event@) && self@.countable(event@)),
    {
        let action = self.action();
        match event {
            Event::Sent | Event::Unsent => matches!(action, Action::Send(_)),
            Event::Done => matches!(
                action,
                Action::RewindImage
                | Action::Unmount
                | Action::Wipe { .. }
                | Action::Flush
                | Action::SeekTarget
                | Action::Eject
            ),
            Event::Checked { bytes, .. } => matches!(action, Action::ReadImage) && bytes.len()
                as u64 <= MAX_HASHED - self.checked,
            Event::Opened { .. } => matches!(action, Action::Open),
            Event::Filled { bytes } => match action {
                Action::Fill { max } => bytes.len() <= max,
                _ => false,
            },
            Event::Wrote { .. } => matches!(action, Action::Write { .. }) && self.pending as u64
                <= MAX_HASHED - self.written,
            Event::ReadBack { bytes, .. } => match action {
                Action::ReadBack { max, .. } => bytes.len() <= max && bytes.len() as u64
                    <= MAX_HASHED - self.read_back,
                _ => false,
            },
            Event::Failed(_) => !matches!(action, Action::Send(_)) && !matches!(
                action,
                Action::Finish
            ),
        }
    }

    /// Ends the flash with an error.
    fn fail(&mut self, e: FlashError)
        requires
            old(self).wf(),
        ensures
            final(self).wf(),
            final(self)@ == old(self)@.finish(Err(e@)),
    {
        self.stage = Stage::Finished;
        self.outcome = Err(e);
    }

    /// Starts the computation of a hash.
    fn start_hash(&mut self)
        ensures
            absorbed(final(self).hasher) == Seq::<u8>::empty(),
            final(self)@ == (FlashView { hashed: Seq::empty(), ..old(self)@ }),
            final(self).buffer == old(self).buffer,
            final(self).pending == old(self).pending,
            final(self).expected == old(self).expected,
    {
        self.hasher = sha256_new();
        self.hashed = Ghost(Seq::empty());
    }

    /// Adds `bytes` to the hash.
    fn hash(&mut self, bytes: &[u8])
        requires
            absorbed(old(self).hasher) == old(self).hashed@,
        ensures
            absorbed(final(self).hasher) == final(self).hashed@,
            final(self)@ == (FlashView { hashed: old(self)@.hashed + bytes@, ..old(self)@ }),
            final(self).buffer == old(self).buffer,
            final(self).pending == old(self).pending,
            final(self).expected == old(self).expected,
    {
        let mut hasher = sha256_new();
        std::mem::swap(&mut hasher, &mut self.hasher);
        sha256_update(&mut hasher, bytes);
        self.hasher = hasher;
        self.hashed = Ghost(self.hashed@ + bytes@);
    }

    /// The hash of what was hashed.
    fn digest(&mut self) -> (digest: [u8; 32])
        requires
            absorbed(old(self).hasher) == old(self).hashed@,
            old(self).hashed@.len() <= MAX_HASHED,
        ensures
            digest@ == sha256(old(self)@.hashed),
            final(self)@ == old(self)@,
            final(self).buffer == old(self).buffer,
            final(self).pending == old(self).pending,
            final(self).expected == old(self).expected,
    {
        let mut hasher = sha256_new();
        std::mem::swap(&mut hasher, &mut self.hasher);
        sha256_finalize(hasher)
    }

    /// Compares the hash of what was read back with the expected one.
    fn conclude(&mut self)
        requires
            old(self)@.bounded(),
            old(self).buffer.wf(),
            old(self).pending <= old(self).buffer@.len(),
            absorbed(old(self).hasher) == old(self).hashed@,
        ensures
            final(self).wf(),
            final(self)@ == old(self)@.conclude(),
    {
        let actual = self.digest();
        if let Some(expected) = self.expected {
            if !same_digest(&expected, &actual) {
                let e = match self.flow {
                    Flow::Guarded => FlashError::Sha256HashDoesNotMatch(
                        HashFailedWhen::VerificationCheck,
                    ),
                    Flow::Direct => FlashError::VerificationFailed {
                        failed_hash_hex: hex_encode(&actual),
                        expected_hex: hex_encode(&expected),
                    },
                };
                self.stage = Stage::Finished;
                self.outcome = Err(e);
                return;
            }
        }
        match self.scope {
            Scope::Flash => {
                self.stage = Stage::Eject;
            },
            Scope::Verify => {
                self.stage = Stage::Finished;
                self.outcome = Ok(());
            },
        }
    }

    /// Goes on reading back, or compares the hash if all was read.
    fn go_on_reading_back(&mut self)
        requires
            old(self)@.bounded(),
            old(self).buffer.wf(),
            old(self).pending <= old(self).buffer@.len(),
            absorbed(old(self).hasher) == old(self).hashed@,
            old(self)@.since_report <= old(self)@.read_back,
            old(self)@.hashed.len() == if old(self)@.read_back <= old(self)@.written {
                old(self)@.read_back
            } else {
                old(self)@.written
            },
        ensures
            final(self).wf(),
            final(self)@ == old(self)@.go_on_reading_back(),
    {
        if self.read_back >= self.written {
            self.conclude();
        } else {
            self.stage = Stage::ReadBack;
        }
    }

    /// A progress was sent.
    fn sent(&mut self)
        requires
            old(self).wf(),
            old(self)@.action() is Send,
        ensures
            final(self).wf(),
            final(self)@ == old(self)@.after_send(),
    {
        match self.stage {
            Stage::AnnounceCheck => {
                if self.expected.is_some() {
                    self.start_hash();
                    self.checked = 0;
                    self.since_report = 0;
                    self.stage = Stage::Check;
                } else {
                    self.stage = Stage::RewindChecked;
                }
            },
            Stage::ReportCheck => {
                self.since_report = 0;
                self.stage = Stage::Check;
            },
            Stage::AnnounceUnmount => {
                self.stage = Stage::Unmount;
            },
            Stage::AnnounceWrite => {
                self.pending = 0;
                assert(self@.pending =~= Seq::<u8>::empty());
                self.written = 0;
                self.since_report = 0;
                self.stage = Stage::Read;
            },
            Stage::ReportWrite => {
                self.since_report = 0;
                self.stage = Stage::Read;
            },
            Stage::AnnounceFlush => {
                self.stage = Stage::Flush;
            },
            Stage::AnnounceVerify => {
                self.start_hash();
                self.read_back = 0;
                self.since_report = 0;
                self.go_on_reading_back();
            },
            Stage::ReportVerify => {
                self.since_report = 0;
                self.go_on_reading_back();
            },
            Stage::AnnounceDone => {
                self.stage = Stage::Finished;
                self.outcome = Ok(());
            },
            _ => {},
        }
    }

    /// An operation without a result succeeded.
    fn done(&mut self)
        requires
            old(self).wf(),
            old(self)@.answers(EventView::Done),
        ensures
            final(self).wf(),
            final(self)@ == old(self)@.after_done(),
    {
        self.stage = match self.stage {
            Stage::RewindChecked => Stage::AnnounceUnmount,
            Stage::Unmount => Stage::Open,
            Stage::Wipe => Stage::WipeFlush,
            Stage::WipeFlush => Stage::WipeSeek,
            Stage::WipeSeek => Stage::Rewind,
            Stage::Rewind => Stage::AnnounceWrite,
            Stage::Flush => Stage::SeekTarget,
            Stage::SeekTarget => Stage::AnnounceVerify,
            Stage::Eject => Stage::AnnounceDone,
            other => other,
        };
    }

    /// `bytes` of the image were read for its hash.
    fn image_checked(&mut self, bytes: &[u8], elapsed: u64)
        requires
            old(self).wf(),
            old(self)@.stage == Stage::Check,
            old(self)@.checked + bytes@.len() <= MAX_HASHED,
        ensures
            final(self).wf(),
            final(self)@ == old(self)@.after_check(bytes@, elapsed),
    {
        if bytes.len() == 0 {
            let actual = self.digest();
            if let Some(expected) = self.expected {
                if !same_digest(&actual, &expected) {
                    self.stage = Stage::Finished;
                    self.outcome =
                    Err(FlashError::Sha256HashDoesNotMatch(HashFailedWhen::FirstCheck));
                    return;
                }
            }
            self.stage = Stage::RewindChecked;
        } else {
            self.hash(bytes);
            self.checked = self.checked + bytes.len() as u64;
            self.since_report = self.since_report + bytes.len() as u64;
            self.elapsed = elapsed;
            self.stage =
            if elapsed >= REPORT_INTERVAL {
                Stage::ReportCheck
            } else {
                Stage::Check
            };
        }
    }

    /// The drive is open.
    fn opened(&mut self, size: u64)
        requires
            old(self).wf(),
            old(self)@.stage == Stage::Open,
        ensures
            final(self).wf(),
            final(self)@ == old(self)@.after_open(size),
    {
        match self.flow {
            Flow::Guarded => {
                if self.total > size {
                    let total: u64 = self.total;
                    self.fail(FlashError::TargetToSmall(total, size));
                } else {
                    self.target_size = size;
                    self.stage = Stage::Wipe;
                }
            },
            Flow::Direct => {
                self.target_size = size;
                self.stage = Stage::AnnounceWrite;
            },
        }
    }

    /// `bytes` of the image were read to be written.
    fn filled(&mut self, bytes: &[u8])
        requires
            old(self).wf(),
            old(self)@.answers((EventView::Filled { bytes: bytes@ })),
        ensures
            final(self).wf(),
            final(self)@ == old(self)@.after_fill(bytes@),
    {
        let ghost before = self@;
        let at: usize = self.pending;
        self.buffer.put(at, bytes);
        self.pending = at + bytes.len();
        assert(self@.pending =~= before.pending + bytes@);
        if self.pending == self.buffer.size() {
            self.stage = Stage::Write;
            assert(self@.write_data() =~= self.buffer@);
        } else if bytes.len() > 0 {
            self.stage = Stage::Read;
        } else if self.pending > 0 {
            let end: usize = self.pending;
            self.buffer.zero_from(end);
            self.stage = Stage::WriteLast;
            assert(self@.pending =~= before.pending + bytes@);
            assert(self@.write_data() =~= self.buffer@);
        } else {
            self.stage = Stage::AnnounceFlush;
        }
    }

    /// The buffer was written.
    fn wrote(&mut self, elapsed: u64)
        requires
            old(self).wf(),
            old(self)@.action() is Write,
            old(self)@.written + old(self)@.pending.len() <= MAX_HASHED,
        ensures
            final(self).wf(),
            final(self)@ == old(self)@.after_write(elapsed),
    {
        let n: u64 = self.pending as u64;
        self.pending = 0;
        assert(self@.pending =~= Seq::<u8>::empty());
        self.written = self.written + n;
        self.since_report = self.since_report + n;
        self.elapsed = elapsed;
        self.stage =
        if self.stage == Stage::WriteLast {
            Stage::AnnounceFlush
        } else if elapsed >= REPORT_INTERVAL {
            Stage::ReportWrite
        } else {
            Stage::Read
        };
    }

    /// `bytes` of the drive were read back.
    fn was_read_back(&mut self, bytes: &[u8], elapsed: u64)
        requires
            old(self).wf(),
            old(self)@.answers((EventView::ReadBack { bytes: bytes@, elapsed })),
            old(self)@.read_back + bytes@.len() <= MAX_HASHED,
        ensures
            final(self).wf(),
            final(self)@ == old(self)@.after_read_back(bytes@, elapsed),
    {
        if bytes.len() == 0 {
            self.conclude();
        } else {
            let left: u64 = self.written - self.read_back;
            let valid: usize = if bytes.len() as u64 <= left {
                bytes.len()
            } else {
                left as usize
            };
            self.hash(vstd::slice::slice_subrange(bytes, 0, valid));
            assert(bytes@.subrange(0, valid as int) == bytes@.take(valid as int));
            self.read_back = self.read_back + bytes.len() as u64;
            self.since_report = self.since_report + bytes.len() as u64;
            self.elapsed = elapsed;
            if elapsed >= REPORT_INTERVAL {
                self.stage = Stage::ReportVerify;
            } else {
                self.go_on_reading_back();
            }
        }
    }

    /// Tells how the operation ended that [`FlashMachine::action`] named.
    pub fn step(&mut self, event: Event)
        requires
            old(self).wf(),
            old(self)@.answers(event@),
            old(self)@.countable(event@),
        ensures
            final(self).wf(),
            final(self)@.valid(),
            final(self)@ == old(self)@.next(event@),
    {
        match event {
            Event::Sent => self.sent(),
            Event::Unsent => self.fail(FlashError::SendChannelError),
            Event::Done => self.done(),
            Event::Checked { bytes, elapsed } => self.image_checked(bytes, elapsed),
            Event::Opened { size } => self.opened(size),
            Event::Filled { bytes } => self.filled(bytes),
            Event::Wrote { elapsed } => self.wrote(elapsed),
            Event::ReadBack { bytes, elapsed } => self.was_read_back(bytes, elapsed),
            Event::Failed(e) => self.fail(e),
        }
    }

    /// A check of `written` bytes on the drive, without a flash before it.
    pub fn verify(
        flow: Flow,
        total: u64,
        expected: Option<[u8; 32]>,
        buffer: PageAlignedBuffer,
        written: u64,
    ) -> (m: Self)
        requires
            buffer.wf(),
            buffer@.len() > 0,
            written <= MAX_HASHED,
        ensures
            m.wf(),
            m@.valid(),
            m@ == verify_start(
                flow,
                total,
                hash_view(expected),
                buffer.spec_page_size() as nat,
                buffer@.len(),
                buffer.spec_address(),
                written as nat,
            ),
            m@.flow == flow,
            m@.scope == Scope::Verify,
            m@.total == total,
            expected matches Some(h) ==> m@.expected == Some(h@),
            expected is None ==> m@.expected is None,
            m@.page == buffer.spec_page_size(),
            m@.capacity == buffer@.len(),
            m@.address == buffer.spec_address(),
            m@.written == written,
            crate::runs::new_verification(m@),
    {
        let mut m = Self::new(flow, total, expected, buffer);
        m.scope = Scope::Verify;
        m.written = written;
        m.start_hash();
        m.go_on_reading_back();
        m
    }

    /// How the flash ended.
    pub fn into_outcome(self) -> (outcome: FlashResult<()>)
        requires
            self@.stage == Stage::Finished,
        ensures
            result_view(outcome) == self@.outcome,
    {
        self.outcome
    }
}

/// Flashes images to the drives that `interface` gives access to.
#[derive(Debug)]
pub struct Flasher<T> {
    /// The access to the drives
    pub interface: T,
}

impl<T: Clone> Clone for Flasher<T> {
    fn clone(&self) -> (copy: Self)
        ensures
            cloned(self.interface, copy.interface),
    {
        Flasher { interface: self.interface.clone() }
    }
}

impl<T> Flasher<T> {
    /// A flasher that uses `interface`.
    pub fn new(interface: T) -> (flasher: Self)
        ensures
            flasher.interface == interface,
    {
        Flasher { interface }
    }
}

/// What contracts say of an event is what it holds.
pub proof fn law_event_view<'a>(bytes: &'a [u8], n: u64, e: FlashError)
    ensures
        Event::Sent@ == EventView::Sent,
        Event::Unsent@ == EventView::Unsent,
        Event::Done@ == EventView::Done,
        (Event::Checked { bytes, elapsed: n })@ == (EventView::Checked {
            bytes: bytes@,
            elapsed: n,
        }),
        (Event::Opened { size: n })@ == (EventView::Opened { size: n }),
        (Event::Filled { bytes })@ == (EventView::Filled { bytes: bytes@ }),
        (Event::Wrote { elapsed: n })@ == (EventView::Wrote { elapsed: n }),
        (Event::ReadBack { bytes, elapsed: n })@ == (EventView::ReadBack {
            bytes: bytes@,
            elapsed: n,
        }),
        Event::Failed(e)@ == EventView::Failed(e@),
{
}

} // verus!
