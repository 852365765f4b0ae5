//! What a whole flash amounts to, whatever the outcomes of its operations are.
//!
//! A [`Run`] puts beside the state of a [`crate::flasher::FlashMachine`] the drive
//! that it writes to and what passed so far. The laws hold of every run that
//! starts with a new machine, for a flash or for the check alone, and goes on with
//! outcomes that the machine accepts.
use crate::aligned::{lemma_multiple_of_multiple, rounded_up, zeros};
use crate::data_types::{FlashPhase, HashFailedWhen};
use crate::error::FlashErrorView;
use crate::flasher::{flash_start, verify_start, Action, EventView, FlashView, Flow, Scope, Stage, REPORT_INTERVAL};
use crate::hashing::sha256;
use vstd::prelude::*;

verus! {

/// A flash so far.
pub struct Run {
    /// The state of the machine
    pub state: FlashView,
    /// What the drive holds
    pub drive: Seq<u8>,
    /// What was read of the image for its hash
    pub checked: Seq<u8>,
    /// What was read of the image to be written
    pub image: Seq<u8>,
    /// Whether the image was read to its end: a read gave nothing
    pub image_ended: bool,
    /// What was read back of the drive
    pub read_back: Seq<u8>,
    /// Whether the drive was unmounted
    pub unmounted: bool,
    /// Whether all that was written was flushed
    pub flushed: bool,
    /// Whether the drive was ejected
    pub ejected: bool,
}

/// A drive that held `drive` before `data` was written at `offset`. What would
/// lie behind its end is lost.
pub open spec fn overwritten(drive: Seq<u8>, offset: int, data: Seq<u8>) -> Seq<u8> {
    Seq::new(
        drive.len(),
        |i: int|
            if offset <= i < offset + data.len() {
                data[i - offset]
            } else {
                drive[i]
            },
    )
}

/// What a drive that held `drive` holds once `image` was written to it: the
/// image, zeros up to a full buffer, and zeros in the wiped page.
pub open spec fn flashed(v: FlashView, drive: Seq<u8>, image: Seq<u8>) -> Seq<u8> {
    Seq::new(
        drive.len(),
        |i: int|
            if i < image.len() {
                image[i]
            } else if i < rounded_up(image.len(), v.capacity) {
                0u8
            } else if v.flow == Flow::Guarded && v.wipe_offset() <= i < v.wipe_offset() + v.page {
                0u8
            } else {
                drive[i]
            },
    )
}

impl Run {
    /// A run in which nothing happened yet.
    pub open spec fn start(state: FlashView, drive: Seq<u8>) -> Run {
        Run {
            state,
            drive,
            checked: Seq::empty(),
            image: Seq::empty(),
            image_ended: false,
            read_back: Seq::empty(),
            unmounted: false,
            flushed: false,
            ejected: false,
        }
    }

    /// Whether the run can go on with `event`.
    pub open spec fn can(self, event: EventView) -> bool {
        self.state.answers(event) && self.state.countable(event)
    }

    /// The run went on with `event`.
    pub open spec fn step(self, event: EventView) -> Run {
        let stage = self.state.stage;
        let run = Run { state: self.state.next(event), ..self };
        match event {
            EventView::Done => Run {
                drive: if stage == Stage::Wipe {
                    overwritten(self.drive, self.state.wipe_offset(), zeros(self.state.page))
                } else {
                    self.drive
                },
                unmounted: self.unmounted || stage == Stage::Unmount,
                flushed: if stage == Stage::Wipe {
                    false
                } else {
                    self.flushed || stage == Stage::WipeFlush || stage == Stage::Flush
                },
                ejected: self.ejected || stage == Stage::Eject,
                ..run
            },
            EventView::Checked { bytes, .. } => Run { checked: self.checked + bytes, ..run },
            EventView::Filled { bytes } => Run {
                image: self.image + bytes,
                image_ended: self.image_ended || bytes.len() == 0,
                ..run
            },
            EventView::Wrote { .. } => Run {
                drive: overwritten(self.drive, self.state.written as int, self.state.write_data()),
                flushed: false,
                ..run
            },
            EventView::ReadBack { bytes, .. } => Run {
                read_back: self.read_back + bytes,
                ..run
            },
            _ => run,
        }
    }
}

/// The run from `state` through `events`, on a drive that held `drive`.
pub open spec fn run(state: FlashView, drive: Seq<u8>, events: Seq<EventView>) -> Run
    decreases events.len(),
{
    if events.len() == 0 {
        Run::start(state, drive)
    } else {
        run(state, drive, events.drop_last()).step(events.last())
    }
}

/// Whether the machine accepts `events`, one after the other.
pub open spec fn legal(state: FlashView, drive: Seq<u8>, events: Seq<EventView>) -> bool
    decreases events.len(),
{
    events.len() == 0 || {
        &&& legal(state, drive, events.drop_last())
        &&& run(state, drive, events.drop_last()).can(events.last())
    }
}

/// A new flash.
pub open spec fn new_flash(v: FlashView) -> bool {
    &&& v.valid()
    &&& v == flash_start(v.flow, v.total, v.expected, v.page, v.capacity, v.address)
}

/// Whether the drive was not written to before `stage`.
pub open spec fn before_writing(stage: Stage) -> bool {
    match stage {
        Stage::AnnounceCheck
        | Stage::Check
        | Stage::ReportCheck
        | Stage::RewindChecked
        | Stage::AnnounceUnmount
        | Stage::Unmount
        | Stage::Open
        | Stage::Wipe => true,
        _ => false,
    }
}

/// Whether `stage` belongs to the check of the image.
pub open spec fn checking(stage: Stage) -> bool {
    match stage {
        Stage::AnnounceCheck | Stage::Check | Stage::ReportCheck => true,
        _ => false,
    }
}

/// Whether `stage` comes before the drive is unmounted.
pub open spec fn before_unmount(stage: Stage) -> bool {
    match stage {
        Stage::AnnounceCheck
        | Stage::Check
        | Stage::ReportCheck
        | Stage::RewindChecked
        | Stage::AnnounceUnmount
        | Stage::Unmount => true,
        _ => false,
    }
}

/// Whether `stage` belongs to the writing of the image.
pub open spec fn writing(stage: Stage) -> bool {
    match stage {
        Stage::Read | Stage::Write | Stage::WriteLast | Stage::ReportWrite => true,
        _ => false,
    }
}

/// Whether `stage` comes after the writing of the image.
pub open spec fn after_writing(stage: Stage) -> bool {
    match stage {
        Stage::AnnounceFlush
        | Stage::Flush
        | Stage::SeekTarget
        | Stage::AnnounceVerify
        | Stage::ReadBack
        | Stage::ReportVerify
        | Stage::Eject
        | Stage::AnnounceDone
        | Stage::Finished => true,
        _ => false,
    }
}

/// What holds of every run on a drive that held `drive`, unless it failed.
spec fn kept(run: Run, drive: Seq<u8>) -> bool {
    let v = run.state;
    let failed = v.stage == Stage::Finished && v.outcome is Err;
    &&& v.valid()
    &&& v.scope == Scope::Flash
    &&& run.drive.len() == drive.len()
    &&& v.stage == Stage::Finished || !(v.outcome is Err)
    &&& checking(v.stage) || v.stage == Stage::Wipe ==> v.flow == Flow::Guarded
    &&& before_writing(v.stage) ==> run.drive == drive
    &&& !writing(v.stage) && !after_writing(v.stage) ==> {
        &&& run.image.len() == 0
        &&& v.written == 0
        &&& v.pending.len() == 0
    }
    &&& !failed ==> {
        &&& !before_writing(v.stage) ==> run.drive == flashed(
            v,
            drive,
            run.image.take(v.written as int),
        )
        &&& v.written + v.pending.len() == run.image.len()
        &&& v.pending == run.image.skip(v.written as int)
        &&& after_writing(v.stage) ==> v.pending.len() == 0
        &&& after_writing(v.stage) || v.stage == Stage::WriteLast ==> run.image_ended
        &&& writing(v.stage) ==> v.written as int % v.capacity as int == 0
    }
}

/// What follows a multiple: the next one is a unit further on.
pub(crate) proof fn lemma_next_multiple(written: nat, unit: nat, more: nat)
    requires
        unit > 0,
        written as int % unit as int == 0,
        0 < more <= unit,
    ensures
        rounded_up(written + more, unit) == written + unit,
        rounded_up(written, unit) == written,
        more == unit ==> (written + more) as int % unit as int == 0,
{
    vstd::arithmetic::div_mod::lemma_fundamental_div_mod(written as int, unit as int);
    let q = written as int / unit as int;
    if more == unit {
        vstd::arithmetic::div_mod::lemma_mod_add_multiples_vanish(written as int, unit as int);
        assert((written + unit) as int % unit as int == 0);
    } else {
        assert(written + more == q * unit + more) by (nonlinear_arith)
            requires
                written == unit * q,
        ;
        vstd::arithmetic::div_mod::lemma_fundamental_div_mod_converse_mod(
            (written + more) as int,
            unit as int,
            q,
            more as int,
        );
    }
}

/// A run that wrote its buffer keeps what holds of runs.
proof fn lemma_kept_write(run: Run, drive: Seq<u8>, elapsed: u64)
    requires
        kept(run, drive),
        run.can((EventView::Wrote { elapsed })),
    ensures
        kept(run.step((EventView::Wrote { elapsed })), drive),
{
    let event = EventView::Wrote { elapsed };
    let v = run.state;
    let next = run.step(event);
    let w = v.written;
    lemma_next_multiple(w, v.capacity, v.pending.len());
    assert(run.image.take(w as int) + v.pending =~= run.image);
    assert(run.image.take(next.state.written as int) =~= run.image);
    assert(next.drive =~= flashed(next.state, drive, run.image));
    assert(next.state.pending =~= run.image.skip(next.state.written as int));
}

/// Every event keeps what holds of runs.
proof fn lemma_kept_step(run: Run, drive: Seq<u8>, event: EventView)
    requires
        kept(run, drive),
        run.can(event),
    ensures
        kept(run.step(event), drive),
{
    let v = run.state;
    let next = run.step(event);
    crate::flasher::lemma_next_valid(v, event);
    match event {
        EventView::Wrote { elapsed } => {
            lemma_kept_write(run, drive, elapsed);
        },
        EventView::Filled { bytes } => {
            assert(next.image.take(v.written as int) =~= run.image.take(v.written as int));
            assert(next.state.pending =~= next.image.skip(v.written as int));
        },
        EventView::Done => {
            if v.stage == Stage::Wipe {
                assert(next.drive =~= flashed(next.state, drive, run.image.take(0)));
            }
        },
        EventView::Opened { size } => {
            assert(drive =~= flashed(next.state, drive, run.image.take(0))
                || next.state.stage != Stage::AnnounceWrite);
        },
        EventView::Sent => {
            if v.stage == Stage::AnnounceWrite {
                assert(next.state.pending =~= v.pending);
            }
        },
        _ => {},
    }
}

/// Every legal run keeps what holds of runs.
proof fn lemma_kept(v: FlashView, drive: Seq<u8>, events: Seq<EventView>)
    requires
        new_flash(v),
        legal(v, drive, events),
    ensures
        kept(run(v, drive, events), drive),
        run(v, drive, events).state.same_flash(v),
    decreases events.len(),
{
    if events.len() == 0 {
        assert(v.pending =~= Seq::<u8>::empty());
        assert(Seq::<u8>::empty().skip(0) =~= Seq::<u8>::empty());
    } else {
        lemma_kept(v, drive, events.drop_last());
        lemma_kept_step(run(v, drive, events.drop_last()), drive, events.last());
    }
}

/// The drive may be written to: it was unmounted, and a guarded flash knows that
/// the image fits and has the expected hash.
pub open spec fn cleared(run: Run) -> bool {
    let v = run.state;
    &&& run.unmounted
    &&& v.flow == Flow::Guarded ==> {
        &&& v.total <= v.target_size
        &&& v.expected matches Some(h) ==> sha256(run.checked) == h
    }
}

/// The part of what was read back that was written before.
pub open spec fn verified_part(run: Run) -> Seq<u8> {
    if run.read_back.len() <= run.state.written {
        run.read_back
    } else {
        run.read_back.take(run.state.written as int)
    }
}

/// Whether `stage` comes after the final flush.
pub open spec fn after_flush(stage: Stage) -> bool {
    match stage {
        Stage::SeekTarget
        | Stage::AnnounceVerify
        | Stage::ReadBack
        | Stage::ReportVerify
        | Stage::Eject
        | Stage::AnnounceDone
        | Stage::Finished => true,
        _ => false,
    }
}

/// What holds of every run of the order in which things are done.
spec fn ordered(run: Run, drive: Seq<u8>) -> bool {
    let v = run.state;
    let failed = v.stage == Stage::Finished && v.outcome is Err;
    &&& run.drive == drive || cleared(run)
    &&& v.stage == Stage::Check || v.stage == Stage::ReportCheck ==> v.hashed == run.checked
    &&& checking(v.stage) ==> run.checked.len() == v.checked
    &&& v.stage == Stage::AnnounceCheck ==> run.checked.len() == 0
    &&& v.stage == Stage::ReportCheck || v.stage == Stage::ReportWrite || v.stage
        == Stage::ReportVerify ==> v.elapsed >= REPORT_INTERVAL
    &&& !failed ==> {
        &&& v.flow == Flow::Guarded && !checking(v.stage) ==> (v.expected matches Some(h) ==> sha256(
            run.checked,
        ) == h)
        &&& !before_unmount(v.stage) ==> run.unmounted
        &&& !before_unmount(v.stage) && v.stage != Stage::Open && v.flow == Flow::Guarded
            ==> v.total <= v.target_size
        &&& after_flush(v.stage) ==> run.flushed
        &&& v.stage == Stage::AnnounceDone || v.stage == Stage::Finished ==> run.ejected
        &&& v.stage == Stage::Eject || v.stage == Stage::AnnounceDone || v.stage
            == Stage::Finished ==> (v.expected matches Some(h) ==> sha256(verified_part(run)) == h)
        &&& v.stage == Stage::ReadBack || v.stage == Stage::ReportVerify ==> {
            &&& v.hashed == verified_part(run)
            &&& v.read_back == run.read_back.len()
        }
        &&& v.stage != Stage::ReadBack && v.stage != Stage::ReportVerify && v.stage != Stage::Eject
            && v.stage != Stage::AnnounceDone && v.stage != Stage::Finished
            ==> run.read_back.len() == 0
    }
}

/// Every event keeps the order.
proof fn lemma_ordered_step(run: Run, drive: Seq<u8>, event: EventView)
    requires
        kept(run, drive),
        ordered(run, drive),
        run.can(event),
    ensures
        ordered(run.step(event), drive),
{
    let v = run.state;
    let next = run.step(event);
    lemma_kept_step(run, drive, event);
    match event {
        EventView::Sent => {
            if v.stage == Stage::AnnounceVerify {
                assert(verified_part(next) =~= Seq::<u8>::empty());
            }
            if v.stage == Stage::AnnounceCheck {
                assert(run.checked =~= Seq::<u8>::empty());
            }
        },
        EventView::ReadBack { bytes, elapsed } => {
            if bytes.len() == 0 {
                assert(next.read_back =~= run.read_back);
            } else {
                let left = v.written - v.read_back;
                let valid = if bytes.len() <= left {
                    bytes.len() as int
                } else {
                    left
                };
                assert(verified_part(next) =~= run.read_back + bytes.take(valid));
            }
        },
        EventView::Checked { bytes, elapsed } => {
            if bytes.len() == 0 {
                assert(next.checked =~= run.checked);
            }
        },
        _ => {},
    }
}

/// Every legal run keeps the order.
proof fn lemma_ordered(v: FlashView, drive: Seq<u8>, events: Seq<EventView>)
    requires
        new_flash(v),
        legal(v, drive, events),
    ensures
        ordered(run(v, drive, events), drive),
    decreases events.len(),
{
    if events.len() > 0 {
        lemma_ordered(v, drive, events.drop_last());
        lemma_kept(v, drive, events.drop_last());
        lemma_ordered_step(run(v, drive, events.drop_last()), drive, events.last());
    }
}

/// A flash that succeeded read the image to its end, however short the reads were, and
/// wrote all of it: the drive holds the image, behind it zeros up to a full buffer, in a
/// guarded flash zeros in the wiped page, and elsewhere what it held before.
pub proof fn law_success_writes_image(v: FlashView, drive: Seq<u8>, events: Seq<EventView>)
    requires
        new_flash(v),
        legal(v, drive, events),
        run(v, drive, events).state.stage == Stage::Finished,
        run(v, drive, events).state.outcome is Ok,
    ensures
        run(v, drive, events).image_ended,
        run(v, drive, events).state.written == run(v, drive, events).image.len(),
        run(v, drive, events).drive == flashed(
            run(v, drive, events).state,
            drive,
            run(v, drive, events).image,
        ),
        run(v, drive, events).image.len() <= drive.len() ==> run(
            v,
            drive,
            events,
        ).image.is_prefix_of(run(v, drive, events).drive),
{
    lemma_kept(v, drive, events);
    let r = run(v, drive, events);
    assert(r.image.take(r.state.written as int) =~= r.image);
    if r.image.len() <= drive.len() {
        assert(r.image =~= r.drive.subrange(0, r.image.len() as int));
    }
}

/// A flash that succeeded read back, of what it wrote, bytes with the expected
/// hash, and a guarded one also read such bytes of the image before it wrote. The
/// drive was unmounted before, flushed after the last write, and ejected.
pub proof fn law_success_is_verified(v: FlashView, drive: Seq<u8>, events: Seq<EventView>)
    requires
        new_flash(v),
        legal(v, drive, events),
        run(v, drive, events).state.stage == Stage::Finished,
        run(v, drive, events).state.outcome is Ok,
    ensures
        v.expected matches Some(h) ==> {
            &&& sha256(verified_part(run(v, drive, events))) == h
            &&& v.flow == Flow::Guarded ==> sha256(run(v, drive, events).checked) == h
        },
        run(v, drive, events).unmounted,
        run(v, drive, events).flushed,
        run(v, drive, events).ejected,
{
    lemma_kept(v, drive, events);
    lemma_ordered(v, drive, events);
}

/// The drive is never changed before it is unmounted. In a guarded flash it is
/// never changed before the image was found to fit, and to have the expected hash.
pub proof fn law_no_change_unless_cleared(v: FlashView, drive: Seq<u8>, events: Seq<EventView>)
    requires
        new_flash(v),
        legal(v, drive, events),
    ensures
        run(v, drive, events).drive == drive || cleared(run(v, drive, events)),
        run(v, drive, events).state.action() is Wipe || run(v, drive, events).state.action() is Write
            ==> cleared(run(v, drive, events)),
{
    lemma_kept(v, drive, events);
    lemma_ordered(v, drive, events);
}

/// An image that is refused for its hash or its size leaves the drive as it was.
pub proof fn law_refusal_leaves_drive(v: FlashView, drive: Seq<u8>, events: Seq<EventView>)
    requires
        new_flash(v),
        legal(v, drive, events),
        events.len() > 0,
        events.last() is Checked || events.last() is Opened,
    ensures
        run(v, drive, events).drive == drive,
{
    lemma_kept(v, drive, events.drop_last());
}

/// A flash fails for a reason: an operation failed with that error, nobody
/// receives the progress, the image has another hash than expected or is larger
/// than the drive, or what was read back has another hash.
pub proof fn law_failure_has_cause(v: FlashView, drive: Seq<u8>, events: Seq<EventView>)
    requires
        new_flash(v),
        legal(v, drive, events),
        run(v, drive, events).state.stage == Stage::Finished,
        run(v, drive, events).state.outcome is Err,
    ensures
        events.len() > 0,
        match events.last() {
            EventView::Failed(e) => run(v, drive, events).state.outcome == Err::<(), _>(e),
            EventView::Unsent => run(v, drive, events).state.outcome == Err::<(), _>(
                FlashErrorView::SendChannelError,
            ),
            EventView::Checked { .. } => {
                &&& run(v, drive, events).state.outcome == Err::<(), _>(
                    FlashErrorView::Sha256HashDoesNotMatch(HashFailedWhen::FirstCheck),
                )
                &&& v.expected is Some
                &&& sha256(run(v, drive, events).checked) != v.expected->0
            },
            EventView::Opened { size } => {
                &&& run(v, drive, events).state.outcome == Err::<(), _>(
                    FlashErrorView::TargetToSmall(v.total, size),
                )
                &&& v.total > size
            },
            _ => {
                &&& v.expected is Some
                &&& sha256(verified_part(run(v, drive, events))) != v.expected->0
                &&& v.flow == Flow::Guarded ==> run(v, drive, events).state.outcome == Err::<(), _>(
                    FlashErrorView::Sha256HashDoesNotMatch(HashFailedWhen::VerificationCheck),
                )
                &&& v.flow == Flow::Direct ==> run(
                    v,
                    drive,
                    events,
                ).state.outcome matches Err(FlashErrorView::VerificationFailed { .. })
            },
        },
{
    if events.len() > 0 {
        let before = run(v, drive, events.drop_last());
        let r = run(v, drive, events);
        lemma_kept(v, drive, events.drop_last());
        lemma_ordered(v, drive, events.drop_last());
        lemma_kept(v, drive, events);
        match events.last() {
            EventView::Checked { bytes, elapsed } => {
                assert(r.checked =~= before.checked);
            },
            EventView::ReadBack { bytes, elapsed } => {
                if bytes.len() == 0 {
                    assert(r.read_back =~= before.read_back);
                } else {
                    let left = before.state.written - before.state.read_back;
                    let valid = if bytes.len() <= left {
                        bytes.len() as int
                    } else {
                        left
                    };
                    assert(verified_part(r) =~= before.read_back + bytes.take(valid));
                }
            },
            EventView::Sent => {
                if before.state.stage == Stage::AnnounceVerify {
                    assert(verified_part(r) =~= Seq::<u8>::empty());
                }
            },
            _ => {},
        }
    }
}

/// Every write of the image is a full buffer, at a multiple of the buffer's size.
/// The buffer consists of whole pages and starts on a page boundary.
pub proof fn law_writes_are_aligned(v: FlashView, drive: Seq<u8>, events: Seq<EventView>)
    requires
        new_flash(v),
        legal(v, drive, events),
        run(v, drive, events).state.action() is Write,
    ensures
        run(v, drive, events).state.action()->Write_offset as int % v.capacity as int == 0,
        run(v, drive, events).state.action()->Write_offset as int % v.page as int == 0,
        run(v, drive, events).state.write_data().len() == v.capacity,
        v.capacity > 0,
        v.capacity as int % v.page as int == 0,
        run(v, drive, events).state.address == v.address,
        v.address as int % v.page as int == 0,
{
    lemma_kept(v, drive, events);
    lemma_multiple_of_multiple(
        run(v, drive, events).state.written as int,
        v.capacity as int,
        v.page as int,
    );
}

/// Every write of the image starts at a multiple of the sector size and consists of
/// whole sectors, if the buffer does.
pub proof fn law_writes_fill_sectors(
    v: FlashView,
    drive: Seq<u8>,
    events: Seq<EventView>,
    sector: nat,
)
    requires
        new_flash(v),
        legal(v, drive, events),
        run(v, drive, events).state.action() is Write,
        sector > 0,
        v.capacity as int % sector as int == 0,
    ensures
        run(v, drive, events).state.action()->Write_offset as int % sector as int == 0,
        run(v, drive, events).state.write_data().len() as int % sector as int == 0,
{
    lemma_kept(v, drive, events);
    lemma_multiple_of_multiple(
        run(v, drive, events).state.written as int,
        v.capacity as int,
        sector as int,
    );
}

/// What is wiped is one page, as `wipe_data` gives it: whenever a run asks for it, its
/// size is that of a page of the flash.
pub proof fn law_wipe_is_a_page(v: FlashView, drive: Seq<u8>, events: Seq<EventView>)
    requires
        new_flash(v),
        legal(v, drive, events),
        run(v, drive, events).state.action() is Wipe,
    ensures
        run(v, drive, events).state.page == v.page,
        run(v, drive, events).state.action()->Wipe_len == v.page,
        v.page > 0,
{
    lemma_kept(v, drive, events);
}

/// The wiped page starts at a multiple of the sector size, if the drive and the
/// pages consist of whole sectors.
pub proof fn law_wipe_is_aligned(v: FlashView, sector: nat)
    requires
        sector > 0,
        v.target_size as int % sector as int == 0,
        v.page as int % sector as int == 0,
    ensures
        v.wipe_offset() % sector as int == 0,
{
    if v.target_size >= v.page {
        vstd::arithmetic::div_mod::lemma_sub_mod_noop(
            v.target_size as int,
            v.page as int,
            sector as int,
        );
    }
    vstd::arithmetic::div_mod::lemma_small_mod(0, sector);
}

/// The phases of a flash, counted in the order in which they come.
pub open spec fn phase_number(stage: Stage) -> int {
    match stage {
        Stage::AnnounceCheck | Stage::Check | Stage::ReportCheck | Stage::RewindChecked => 0,
        Stage::AnnounceUnmount
        | Stage::Unmount
        | Stage::Open
        | Stage::Wipe
        | Stage::WipeFlush
        | Stage::WipeSeek
        | Stage::Rewind => 1,
        Stage::AnnounceWrite
        | Stage::Read
        | Stage::Write
        | Stage::WriteLast
        | Stage::ReportWrite => 2,
        Stage::AnnounceFlush | Stage::Flush | Stage::SeekTarget => 3,
        Stage::AnnounceVerify | Stage::ReadBack | Stage::ReportVerify | Stage::Eject => 4,
        Stage::AnnounceDone => 5,
        Stage::Finished => 6,
    }
}

/// Unless the flash ends, it stays in its phase or goes on to the next one, and
/// every phase starts with telling it.
pub proof fn law_phases_come_in_order(v: FlashView, event: EventView)
    requires
        v.valid(),
        v.answers(event),
    ensures
        v.next(event).stage != Stage::Finished ==> {
            ||| phase_number(v.next(event).stage) == phase_number(v.stage)
            ||| phase_number(v.next(event).stage) == phase_number(v.stage) + 1 && v.next(
                event,
            ).action() is Send
        },
{
}

/// A report that tells a rate is at least one interval younger than the report
/// before it. Every progress tells how much was checked, written or read back. That
/// all is done is told only after the drive was flushed and ejected.
pub proof fn law_progress(v: FlashView, drive: Seq<u8>, events: Seq<EventView>)
    requires
        new_flash(v),
        legal(v, drive, events),
        run(v, drive, events).state.action() is Send,
    ensures
        ({
            let r = run(v, drive, events);
            let p = r.state.action()->Send_0;
            &&& p.bytes_per_sec.nanos == 0 || p.bytes_per_sec.nanos >= REPORT_INTERVAL
            &&& p.phase == FlashPhase::CheckingHash ==> p.bytes_written == r.checked.len()
            &&& p.phase == FlashPhase::Writing ==> {
                &&& p.bytes_written == r.image.len()
                &&& p.total_bytes == v.total
            }
            &&& p.phase == FlashPhase::Verifying ==> p.bytes_written == r.read_back.len()
            &&& p.phase == FlashPhase::Done ==> r.flushed && r.ejected
        }),
{
    lemma_kept(v, drive, events);
    lemma_ordered(v, drive, events);
}

/// Whether whatever was read back is what the drive held there, and the drive
/// did not end early.
pub open spec fn faithful(v: FlashView, drive: Seq<u8>, events: Seq<EventView>) -> bool
    decreases events.len(),
{
    events.len() == 0 || {
        let before = run(v, drive, events.drop_last());
        &&& faithful(v, drive, events.drop_last())
        &&& events.last() matches EventView::ReadBack { bytes, .. } ==> {
            &&& bytes.len() > 0
            &&& before.state.read_back + bytes.len() <= before.drive.len()
            &&& bytes == before.drive.subrange(
                before.state.read_back as int,
                (before.state.read_back + bytes.len()) as int,
            )
        }
    }
}

/// What a faithful drive gives back is what it holds.
proof fn lemma_faithful(v: FlashView, drive: Seq<u8>, events: Seq<EventView>)
    requires
        new_flash(v),
        legal(v, drive, events),
        faithful(v, drive, events),
    ensures
        run(v, drive, events).read_back.is_prefix_of(run(v, drive, events).drive),
    decreases events.len(),
{
    let r = run(v, drive, events);
    if events.len() == 0 {
        assert(r.read_back =~= r.drive.subrange(0, 0));
    } else {
        let before = run(v, drive, events.drop_last());
        lemma_faithful(v, drive, events.drop_last());
        lemma_kept(v, drive, events.drop_last());
        lemma_ordered(v, drive, events.drop_last());
        match events.last() {
            EventView::ReadBack { bytes, elapsed } => {
                assert(r.read_back =~= r.drive.subrange(0, r.read_back.len() as int));
            },
            _ => {
                assert(r.read_back =~= r.drive.subrange(0, r.read_back.len() as int));
            },
        }
    }
}

/// A drive that gives back what it holds passes the verification: where the
/// image has the expected hash and fits, no comparison of what was read back
/// ends the flash with an error.
pub proof fn law_faithful_drive_is_verified(v: FlashView, drive: Seq<u8>, events: Seq<EventView>)
    requires
        new_flash(v),
        legal(v, drive, events),
        faithful(v, drive, events),
        events.len() > 0,
        events.last() is ReadBack || events.last() is Sent,
        run(v, drive, events).image.len() <= drive.len(),
        v.expected matches Some(h) ==> sha256(run(v, drive, events).image) == h,
    ensures
        !(run(v, drive, events).state.outcome is Err),
{
    let r = run(v, drive, events);
    let before = run(v, drive, events.drop_last());
    lemma_kept(v, drive, events.drop_last());
    lemma_kept(v, drive, events);
    if r.state.outcome is Err {
        law_failure_has_cause(v, drive, events);
        lemma_faithful(v, drive, events);
        lemma_ordered(v, drive, events.drop_last());
        assert(r.drive == before.drive);
        assert(before.image.take(before.state.written as int) =~= before.image);
        assert(r.read_back.len() >= r.state.written);
        assert(verified_part(r) =~= r.image);
    }
}

/// A check of what was written, without a flash before it.
pub open spec fn new_verification(v: FlashView) -> bool {
    &&& v.valid()
    &&& v == verify_start(
        v.flow,
        v.total,
        v.expected,
        v.page,
        v.capacity,
        v.address,
        v.written,
    )
}

/// Whether no operation failed, and all progress was received.
pub open spec fn undisturbed(events: Seq<EventView>) -> bool {
    forall|i: int|
        0 <= i < events.len() ==> !(#[trigger] events[i] is Failed) && !(events[i] is Unsent)
}

/// What holds of every check.
spec fn only_reads(run: Run, v: FlashView, drive: Seq<u8>) -> bool {
    let s = run.state;
    &&& s.valid()
    &&& s.same_flash(v)
    &&& s.scope == Scope::Verify
    &&& s.written == v.written
    &&& run.drive == drive
    &&& s.stage == Stage::ReadBack || s.stage == Stage::ReportVerify || s.stage == Stage::Finished
    &&& s.read_back == run.read_back.len()
    &&& s.hashed == verified_part(run)
}

proof fn lemma_only_reads(v: FlashView, drive: Seq<u8>, events: Seq<EventView>)
    requires
        new_verification(v),
        legal(v, drive, events),
    ensures
        only_reads(run(v, drive, events), v, drive),
    decreases events.len(),
{
    let r = run(v, drive, events);
    if events.len() == 0 {
        assert(verified_part(r) =~= Seq::<u8>::empty());
    } else {
        let before = run(v, drive, events.drop_last());
        lemma_only_reads(v, drive, events.drop_last());
        crate::flasher::lemma_next_valid(before.state, events.last());
        match events.last() {
            EventView::ReadBack { bytes, elapsed } => {
                if bytes.len() == 0 {
                    assert(r.read_back =~= before.read_back);
                } else {
                    let left = v.written - before.state.read_back;
                    let valid = if bytes.len() <= left {
                        bytes.len() as int
                    } else {
                        left
                    };
                    assert(verified_part(r) =~= before.read_back + bytes.take(valid));
                }
            },
            _ => {},
        }
    }
}

/// A check of what was written never changes the drive, and never asks for it.
pub proof fn law_verification_only_reads(v: FlashView, drive: Seq<u8>, events: Seq<EventView>)
    requires
        new_verification(v),
        legal(v, drive, events),
    ensures
        run(v, drive, events).drive == drive,
        ({
            let action = run(v, drive, events).state.action();
            action is ReadBack || action is Send || action is Finish
        }),
{
    lemma_only_reads(v, drive, events);
}

/// A check on a faithful drive ends with what the bytes that were written decide.
proof fn lemma_verdict(v: FlashView, drive: Seq<u8>, events: Seq<EventView>)
    requires
        new_verification(v),
        legal(v, drive, events),
        faithful(v, drive, events),
        undisturbed(events),
    ensures
        run(v, drive, events).read_back.is_prefix_of(drive),
        run(v, drive, events).state.stage == Stage::Finished ==> {
            let s = run(v, drive, events).state;
            &&& v.written <= drive.len()
            &&& s.hashed == drive.take(v.written as int)
            &&& s.outcome == s.conclude().outcome
        },
    decreases events.len(),
{
    let r = run(v, drive, events);
    lemma_only_reads(v, drive, events);
    if events.len() == 0 {
        assert(r.read_back =~= drive.subrange(0, 0));
    } else {
        let before = run(v, drive, events.drop_last());
        lemma_only_reads(v, drive, events.drop_last());
        assert(!(events.last() is Failed) && !(events.last() is Unsent));
        assert forall|i: int| 0 <= i < events.drop_last().len() implies !(
        #[trigger] events.drop_last()[i] is Failed) && !(events.drop_last()[i] is Unsent) by {
            assert(events.drop_last()[i] == events[i]);
        }
        lemma_verdict(v, drive, events.drop_last());
        assert(r.read_back =~= drive.subrange(0, r.read_back.len() as int));
    }
    if r.state.stage == Stage::Finished {
        assert(r.read_back.len() >= v.written);
        assert(verified_part(r) =~= drive.take(v.written as int));
    }
}

/// A check on a drive that gives back what it holds, which no failure disturbs,
/// succeeds exactly if there is no expected hash or if what was written has it.
pub proof fn law_verification_decides(v: FlashView, drive: Seq<u8>, events: Seq<EventView>)
    requires
        new_verification(v),
        legal(v, drive, events),
        faithful(v, drive, events),
        undisturbed(events),
        run(v, drive, events).state.stage == Stage::Finished,
    ensures
        run(v, drive, events).state.outcome is Ok <==> (v.expected matches Some(h) ==> sha256(
            drive.take(v.written as int),
        ) == h),
{
    lemma_only_reads(v, drive, events);
    lemma_verdict(v, drive, events);
}

/// Only what was written decides: two checks of as many bytes against one hash end
/// alike on drives that begin with the same bytes, whatever the drives hold behind
/// them, however large the buffers are and however the reads are split.
pub proof fn law_verification_ignores_the_rest(
    v: FlashView,
    drive: Seq<u8>,
    events: Seq<EventView>,
    other_v: FlashView,
    other_drive: Seq<u8>,
    other_events: Seq<EventView>,
)
    requires
        new_verification(v),
        legal(v, drive, events),
        faithful(v, drive, events),
        undisturbed(events),
        run(v, drive, events).state.stage == Stage::Finished,
        new_verification(other_v),
        legal(other_v, other_drive, other_events),
        faithful(other_v, other_drive, other_events),
        undisturbed(other_events),
        run(other_v, other_drive, other_events).state.stage == Stage::Finished,
        v.flow == other_v.flow,
        v.expected == other_v.expected,
        v.written == other_v.written,
        drive.take(v.written as int) == other_drive.take(v.written as int),
    ensures
        run(v, drive, events).state.outcome == run(
            other_v,
            other_drive,
            other_events,
        ).state.outcome,
{
    lemma_only_reads(v, drive, events);
    lemma_verdict(v, drive, events);
    lemma_only_reads(other_v, other_drive, other_events);
    lemma_verdict(other_v, other_drive, other_events);
}

} // verus!
