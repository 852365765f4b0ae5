//! What a flash does to an image file and a drive.
//!
//! A [`World`] holds an image file and a drive. It knows nothing of the machine but the
//! operations that it asks for, and how they end. The laws say what becomes of the world
//! in a flash, or in a check alone, and what the outcome is.
use crate::aligned::zeros;
use crate::data_types::{FlashPhase, FlashProgress, HashFailedWhen, Rate};
use crate::error::FlashErrorView;
use crate::flasher::{Action, EventView, FlashView, Flow, Scope, Stage, REPORT_INTERVAL};
use crate::hashing::{hex_text, sha256, MAX_HASHED};
use crate::runs::{flashed, lemma_next_multiple, new_flash, new_verification, overwritten};
use vstd::prelude::*;

verus! {

/// An image file, a drive, and what passed so far.
pub struct World {
    /// What the image file holds
    pub image: Seq<u8>,
    /// Where the image file is read next
    pub position: nat,
    /// What the drive holds
    pub drive: Seq<u8>,
    /// Whether the drive was unmounted
    pub unmounted: bool,
    /// Whether the drive was opened
    pub open: bool,
    /// Whether all that was written was flushed
    pub flushed: bool,
    /// Whether the drive was ejected
    pub ejected: bool,
    /// What was read back of the drive
    pub read_back: Seq<u8>,
    /// The progress that was told
    pub told: Seq<FlashProgress>,
    /// How much was read of the image since the last write
    pub filled: nat,
    /// How much of the image was written
    pub copied: nat,
    /// How much was checked, written or read back since progress was told
    pub passed: nat,
    /// How long the last such operation took from then on
    pub elapsed: u64,
}

impl World {
    /// What became of the world when `action` was asked for and ended in `event`. A
    /// write writes `data`.
    pub open spec fn after(self, action: Action, data: Seq<u8>, event: EventView) -> World {
        match (action, event) {
            (Action::Send(p), EventView::Sent) => World {
                told: self.told.push(p),
                passed: 0,
                elapsed: 0,
                ..self
            },
            (Action::ReadImage, EventView::Checked { bytes, elapsed }) => World {
                position: self.position + bytes.len(),
                passed: self.passed + bytes.len(),
                elapsed,
                ..self
            },
            (Action::RewindImage, EventView::Done) => World { position: 0, ..self },
            (Action::Unmount, EventView::Done) => World { unmounted: true, ..self },
            (Action::Open, EventView::Opened { .. }) => World { open: true, ..self },
            (Action::Wipe { offset, len }, EventView::Done) => World {
                drive: overwritten(self.drive, offset as int, zeros(len as nat)),
                flushed: false,
                ..self
            },
            (Action::Flush, EventView::Done) => World { flushed: true, ..self },
            (Action::Fill { .. }, EventView::Filled { bytes }) => World {
                position: self.position + bytes.len(),
                filled: self.filled + bytes.len(),
                ..self
            },
            (Action::Write { offset }, EventView::Wrote { elapsed }) => World {
                drive: overwritten(self.drive, offset as int, data),
                flushed: false,
                passed: self.passed + self.filled,
                copied: self.copied + self.filled,
                filled: 0,
                elapsed,
                ..self
            },
            (Action::ReadBack { .. }, EventView::ReadBack { bytes, elapsed }) => World {
                read_back: self.read_back + bytes,
                passed: self.passed + bytes.len(),
                elapsed,
                ..self
            },
            (Action::Eject, EventView::Done) => World { ejected: true, ..self },
            _ => self,
        }
    }

    /// Whether `action` can end in `event` where all progress is received, the image file
    /// and the drive give what they hold, and nothing fails. A read gives something unless
    /// it is at the end.
    pub open spec fn works(self, action: Action, event: EventView) -> bool {
        match (action, event) {
            (Action::Send(_), EventView::Sent) => true,
            (Action::ReadImage, EventView::Checked { bytes, .. }) => gives(
                self.image,
                self.position as int,
                bytes,
            ),
            (Action::Fill { max }, EventView::Filled { bytes }) => bytes.len() <= max && gives(
                self.image,
                self.position as int,
                bytes,
            ),
            (Action::ReadBack { offset, max }, EventView::ReadBack { bytes, .. }) => {
                &&& bytes.len() <= max
                &&& gives(self.drive, offset as int, bytes)
            },
            (Action::Open, EventView::Opened { size }) => size == self.drive.len(),
            (Action::Write { .. }, EventView::Wrote { .. }) => true,
            (Action::RewindImage, EventView::Done)
            | (Action::Unmount, EventView::Done)
            | (Action::Wipe { .. }, EventView::Done)
            | (Action::Flush, EventView::Done)
            | (Action::SeekTarget, EventView::Done)
            | (Action::Eject, EventView::Done) => true,
            _ => false,
        }
    }

    /// An image file at its start and a drive that nothing happened to.
    pub open spec fn fresh(self) -> bool {
        &&& self.position == 0
        &&& !self.unmounted
        &&& !self.open
        &&& !self.flushed
        &&& !self.ejected
        &&& self.read_back.len() == 0
        &&& self.told.len() == 0
        &&& self.filled == 0
        &&& self.copied == 0
        &&& self.passed == 0
        &&& self.elapsed == 0
        &&& self.image.len() <= 0x1fff_ffff_ffff_ffff
        &&& self.drive.len() <= 0x1fff_ffff_ffff_ffff
    }
}

/// Whether a read of `data` at `at` gives `bytes`: none only at the end.
pub open spec fn gives(data: Seq<u8>, at: int, bytes: Seq<u8>) -> bool {
    &&& 0 <= at
    &&& at + bytes.len() <= data.len()
    &&& bytes == data.subrange(at, at + bytes.len())
    &&& bytes.len() == 0 ==> at == data.len()
}

/// A machine and the world that it is in.
pub struct Flash {
    /// The state of the machine
    pub state: FlashView,
    /// The world
    pub world: World,
}

impl Flash {
    /// The operation that comes next ended in `event`.
    pub open spec fn step(self, event: EventView) -> Flash {
        Flash {
            state: self.state.next(event),
            world: self.world.after(self.state.action(), self.state.write_data(), event),
        }
    }
}

/// A machine that starts in `v`, in the world `w`, once its operations ended in `events`.
pub open spec fn flash(v: FlashView, w: World, events: Seq<EventView>) -> Flash
    decreases events.len(),
{
    if events.len() == 0 {
        Flash { state: v, world: w }
    } else {
        flash(v, w, events.drop_last()).step(events.last())
    }
}

/// Whether the machine accepts `events`, one after the other.
pub open spec fn accepted(v: FlashView, w: World, events: Seq<EventView>) -> bool
    decreases events.len(),
{
    events.len() == 0 || {
        let before = flash(v, w, events.drop_last());
        &&& accepted(v, w, events.drop_last())
        &&& before.state.answers(events.last())
        &&& before.state.countable(events.last())
    }
}

/// Whether `events` are what the operations of the machine end in where all works.
pub open spec fn working(v: FlashView, w: World, events: Seq<EventView>) -> bool
    decreases events.len(),
{
    events.len() == 0 || {
        let before = flash(v, w, events.drop_last());
        &&& working(v, w, events.drop_last())
        &&& before.world.works(before.state.action(), events.last())
    }
}

/// Whether `image` has the hash that is expected, if one is.
pub open spec fn is_expected(expected: Option<Seq<u8>>, image: Seq<u8>) -> bool {
    expected matches Some(h) ==> sha256(image) == h
}

/// The lesser of two numbers.
spec fn lesser(a: nat, b: nat) -> nat {
    if a <= b {
        a
    } else {
        b
    }
}

/// What holds of every flash in a world that works.
spec fn sound(v0: FlashView, w0: World, f: Flash) -> bool {
    let v = f.state;
    let w = f.world;
    let n = w0.image.len();
    let size = w0.drive.len();
    let good = is_expected(v0.expected, w0.image);
    &&& v.valid()
    &&& v.same_flash(v0)
    &&& v.scope == Scope::Flash
    &&& w.image == w0.image
    &&& w.drive.len() == size
    &&& w.position <= n
    &&& v.stage == Stage::Finished || v.outcome is Ok
    &&& match v.stage {
        Stage::AnnounceCheck => {
            &&& v.flow == Flow::Guarded
            &&& untouched(w0, w) && w.position == 0 && blank(v)
        },
        Stage::Check | Stage::ReportCheck => {
            &&& v.flow == Flow::Guarded
            &&& untouched(w0, w) && blank(v)
            &&& w.position == v.checked
            &&& v.hashed == w.image.take(w.position as int)
        },
        Stage::RewindChecked => {
            &&& v.flow == Flow::Guarded
            &&& untouched(w0, w) && blank(v)
            &&& good
        },
        Stage::AnnounceUnmount | Stage::Unmount => {
            &&& untouched(w0, w) && w.position == 0 && blank(v)
            &&& v.flow == Flow::Guarded ==> good
        },
        Stage::Open => {
            &&& w.drive == w0.drive && w.read_back.len() == 0 && w.position == 0 && blank(v)
            &&& v.flow == Flow::Guarded ==> good
        },
        Stage::Wipe => {
            &&& w.drive == w0.drive && w.read_back.len() == 0 && blank(v)
            &&& v.flow == Flow::Guarded && good && v.total <= size && v.target_size == size
        },
        Stage::WipeFlush | Stage::WipeSeek | Stage::Rewind => {
            &&& w.drive == flashed(v, w0.drive, w0.image.take(0)) && w.read_back.len() == 0
                && blank(v)
            &&& v.flow == Flow::Guarded && good && v.total <= size && v.target_size == size
        },
        Stage::AnnounceWrite => {
            &&& w.drive == flashed(v, w0.drive, w0.image.take(0)) && w.read_back.len() == 0
                && w.position == 0 && blank(v)
            &&& v.flow == Flow::Guarded ==> good && v.total <= size
            &&& v.target_size == size
        },
        Stage::Read | Stage::Write | Stage::WriteLast | Stage::ReportWrite => {
            &&& v.written as int % v.capacity as int == 0
            &&& w.position == v.written + v.pending.len()
            &&& v.pending == w.image.subrange(v.written as int, w.position as int)
            &&& w.drive == flashed(v, w0.drive, w0.image.take(v.written as int))
            &&& v.stage == Stage::WriteLast ==> w.position == n
            &&& w.read_back.len() == 0
            &&& v.flow == Flow::Guarded ==> good && v.total <= size
            &&& v.target_size == size
        },
        Stage::AnnounceFlush | Stage::Flush | Stage::SeekTarget | Stage::AnnounceVerify => {
            &&& written_all(v0, w0, f)
            &&& w.read_back.len() == 0
        },
        Stage::ReadBack | Stage::ReportVerify => {
            &&& written_all(v0, w0, f)
            &&& v.read_back == w.read_back.len() <= size
            &&& w.read_back == w.drive.take(v.read_back as int)
            &&& v.hashed == w.drive.take(lesser(v.read_back, n) as int)
        },
        Stage::Eject | Stage::AnnounceDone => {
            &&& written_all(v0, w0, f)
            &&& n <= size ==> good && read_all(w0, w)
        },
        Stage::Finished => match v.outcome {
            Ok(_) => {
                &&& written_all(v0, w0, f)
                &&& n <= size ==> good && read_all(w0, w)
            },
            Err(e) => {
                ||| {
                    &&& v.flow == Flow::Guarded && !good
                    &&& e == FlashErrorView::Sha256HashDoesNotMatch(HashFailedWhen::FirstCheck)
                    &&& untouched(w0, w)
                }
                ||| {
                    &&& v.flow == Flow::Guarded && good && v.total > size
                    &&& e == FlashErrorView::TargetToSmall(v.total, size as u64)
                    &&& w.drive == w0.drive
                }
                ||| {
                    &&& written_all(v0, w0, f)
                    &&& n <= size ==> {
                        &&& v.flow == Flow::Direct && !good
                        &&& v.expected is Some
                        &&& e == (FlashErrorView::VerificationFailed {
                            failed_hash_hex: hex_text(sha256(w0.image)),
                            expected_hex: hex_text(v.expected->0),
                        })
                    }
                }
            },
        },
    }
}

/// The drive is as it was, still mounted, and nothing was read back.
spec fn untouched(w0: World, w: World) -> bool {
    w.drive == w0.drive && w.read_back.len() == 0 && !w.unmounted
}

/// Nothing of the image is in the buffer or on the drive.
spec fn blank(v: FlashView) -> bool {
    v.pending.len() == 0 && v.written == 0
}

/// All of the image is on the drive.
spec fn written_all(v0: FlashView, w0: World, f: Flash) -> bool {
    let v = f.state;
    &&& v.written == w0.image.len()
    &&& f.world.drive == flashed(v, w0.drive, w0.image)
    &&& v.target_size == w0.drive.len()
    &&& v.flow == Flow::Guarded ==> is_expected(v0.expected, w0.image) && v.total
        <= w0.drive.len()
}

/// All of the image was read back.
spec fn read_all(w0: World, w: World) -> bool {
    let n = w0.image.len();
    n <= w.read_back.len() && w.read_back.take(n as int) == w0.image
}

/// What works is accepted.
proof fn lemma_accepts(v0: FlashView, w0: World, f: Flash, event: EventView)
    requires
        sound(v0, w0, f),
        w0.image.len() <= MAX_HASHED,
        w0.drive.len() <= MAX_HASHED,
        f.world.works(f.state.action(), event),
    ensures
        f.state.answers(event),
        f.state.countable(event),
{
}

/// A write that worked.
proof fn lemma_sound_write(v0: FlashView, w0: World, f: Flash, elapsed: u64)
    requires
        sound(v0, w0, f),
        f.state.action() is Write,
        f.state.answers((EventView::Wrote { elapsed })),
        f.state.countable((EventView::Wrote { elapsed })),
    ensures
        sound(v0, w0, f.step((EventView::Wrote { elapsed }))),
{
    let v = f.state;
    let w = f.world;
    let next = f.step((EventView::Wrote { elapsed }));
    let all = w0.image.take(next.state.written as int);
    crate::flasher::lemma_next_valid(v, (EventView::Wrote { elapsed }));
    lemma_next_multiple(v.written, v.capacity, v.pending.len());
    assert(all =~= w0.image.take(v.written as int) + v.pending);
    assert(next.world.drive =~= flashed(next.state, w0.drive, all));
    assert(next.state.pending =~= w.image.subrange(w.position as int, w.position as int));
    assert(w0.image.take(w0.image.len() as int) =~= w0.image);
}

/// A read back that worked.
proof fn lemma_sound_read_back(v0: FlashView, w0: World, f: Flash, bytes: Seq<u8>, elapsed: u64)
    requires
        sound(v0, w0, f),
        f.world.works(f.state.action(), (EventView::ReadBack { bytes, elapsed })),
        f.state.answers((EventView::ReadBack { bytes, elapsed })),
        f.state.countable((EventView::ReadBack { bytes, elapsed })),
    ensures
        sound(v0, w0, f.step((EventView::ReadBack { bytes, elapsed }))),
{
    let v = f.state;
    let w = f.world;
    let event = EventView::ReadBack { bytes, elapsed };
    let next = f.step(event);
    let n = w0.image.len();
    crate::flasher::lemma_next_valid(v, event);
    let total = next.world.read_back.len();
    assert(next.world.read_back =~= w.drive.take(total as int));
    if n <= w0.drive.len() {
        assert(w.drive.take(n as int) =~= w0.image);
    }
    if bytes.len() > 0 {
        let left = v.written - v.read_back;
        let valid = if bytes.len() <= left {
            bytes.len() as int
        } else {
            left
        };
        assert(v.hashed + bytes.take(valid) =~= w.drive.take(lesser(total, n) as int));
    } else {
        assert(next.world.read_back =~= w.read_back);
    }
    if n <= total {
        assert(next.world.read_back.take(n as int) =~= w.drive.take(n as int));
    }
}

/// What works keeps what holds of flashes.
proof fn lemma_sound_step(v0: FlashView, w0: World, f: Flash, event: EventView)
    requires
        sound(v0, w0, f),
        w0.image.len() <= MAX_HASHED,
        w0.drive.len() <= MAX_HASHED,
        f.world.works(f.state.action(), event),
    ensures
        sound(v0, w0, f.step(event)),
{
    let v = f.state;
    let w = f.world;
    let next = f.step(event);
    lemma_accepts(v0, w0, f, event);
    crate::flasher::lemma_next_valid(v, event);
    match event {
        EventView::Wrote { elapsed } => {
            lemma_sound_write(v0, w0, f, elapsed);
        },
        EventView::ReadBack { bytes, elapsed } => {
            lemma_sound_read_back(v0, w0, f, bytes, elapsed);
        },
        EventView::Checked { bytes, elapsed } => {
            assert(w.image.take(w.position as int) + bytes =~= w.image.take(
                next.world.position as int,
            ));
            if bytes.len() == 0 {
                assert(w.image.take(w.position as int) =~= w.image);
            }
        },
        EventView::Filled { bytes } => {
            assert(next.state.pending =~= w.image.subrange(
                v.written as int,
                next.world.position as int,
            ));
            if next.state.stage == Stage::AnnounceFlush {
                assert(w0.image.take(v.written as int) =~= w0.image);
            }
        },
        EventView::Done => {
            if v.stage == Stage::Wipe {
                assert(next.world.drive =~= flashed(next.state, w0.drive, w0.image.take(0)));
            }
        },
        EventView::Opened { size } => {
            if v.flow == Flow::Direct {
                assert(next.world.drive =~= flashed(next.state, w0.drive, w0.image.take(0)));
            }
        },
        EventView::Sent => {
            if v.stage == Stage::AnnounceCheck {
                assert(w.image.take(0) =~= Seq::<u8>::empty());
            }
            if v.stage == Stage::AnnounceWrite {
                assert(next.state.pending =~= w.image.subrange(0, 0));
                vstd::arithmetic::div_mod::lemma_small_mod(0, v.capacity);
            }
            if v.stage == Stage::AnnounceVerify {
                assert(w.drive.take(0) =~= Seq::<u8>::empty());
                assert(w.read_back =~= w.drive.take(0));
                if w0.image.len() == 0 {
                    assert(w0.image =~= Seq::<u8>::empty());
                    assert(w.read_back.take(0) =~= w0.image);
                }
            }
            if v.stage == Stage::ReportVerify && w0.image.len() <= v.read_back && w0.image.len()
                <= w0.drive.len() {
                assert(w.drive.take(w0.image.len() as int) =~= w0.image);
                assert(w.read_back.take(w0.image.len() as int) =~= w0.image);
            }
        },
        _ => {},
    }
}

/// What holds of flashes in a world that works holds of all of them.
proof fn lemma_sound(v: FlashView, w: World, events: Seq<EventView>)
    requires
        new_flash(v),
        w.fresh(),
        working(v, w, events),
    ensures
        sound(v, w, flash(v, w, events)),
        accepted(v, w, events),
    decreases events.len(),
{
    if events.len() > 0 {
        lemma_sound(v, w, events.drop_last());
        let before = flash(v, w, events.drop_last());
        lemma_accepts(v, w, before, events.last());
        lemma_sound_step(v, w, before, events.last());
    }
}

/// A flash in a world that works succeeds exactly if the image has the expected hash and,
/// if it is guarded, the size it is said to have fits the drive. Otherwise the outcome says
/// what is wrong: a guarded flash has looked at the hash first.
pub proof fn law_flash_decides(v: FlashView, w: World, events: Seq<EventView>)
    requires
        new_flash(v),
        w.fresh(),
        working(v, w, events),
        flash(v, w, events).state.action() is Finish,
        w.image.len() <= w.drive.len(),
    ensures
        flash(v, w, events).state.outcome == (if v.flow == Flow::Guarded {
            if !is_expected(v.expected, w.image) {
                Err(FlashErrorView::Sha256HashDoesNotMatch(HashFailedWhen::FirstCheck))
            } else if v.total > w.drive.len() {
                Err(FlashErrorView::TargetToSmall(v.total, w.drive.len() as u64))
            } else {
                Ok(())
            }
        } else {
            if is_expected(v.expected, w.image) {
                Ok(())
            } else {
                Err(
                    FlashErrorView::VerificationFailed {
                        failed_hash_hex: hex_text(sha256(w.image)),
                        expected_hex: hex_text(v.expected->0),
                    },
                )
            }
        }),
{
    lemma_sound(v, w, events);
}

/// A flash that succeeded in a world that works has put the whole image on the drive. The
/// rest of the last buffer is zeros. A guarded flash has put zeros in the last page of the
/// drive, where the image does not reach. All else is as it was. The drive was unmounted,
/// flushed and ejected, and gave back the image.
pub proof fn law_flash_puts_image_on_drive(v: FlashView, w: World, events: Seq<EventView>)
    requires
        new_flash(v),
        w.fresh(),
        working(v, w, events),
        flash(v, w, events).state.action() is Finish,
        flash(v, w, events).state.outcome is Ok,
        w.image.len() <= w.drive.len(),
    ensures
        ({
            let drive = flash(v, w, events).world.drive;
            let n = w.image.len();
            &&& drive.len() == w.drive.len()
            &&& forall|i: int| 0 <= i < n ==> drive[i] == w.image[i]
            &&& v.flow == Flow::Guarded ==> forall|i: int|
                n <= i < drive.len() && drive.len() - v.page <= i ==> drive[i] == 0
            &&& exists|end: int|
                {
                    &&& n <= end < n + v.capacity
                    &&& #[trigger] (end % v.capacity as int) == 0
                    &&& forall|i: int| n <= i < end && i < drive.len() ==> drive[i] == 0
                    &&& forall|i: int|
                        end <= i < drive.len() && (v.flow == Flow::Guarded ==> i < drive.len()
                            - v.page) ==> drive[i] == w.drive[i]
                }
        }),
        flash(v, w, events).world.read_back.len() >= w.image.len(),
        flash(v, w, events).world.read_back.take(w.image.len() as int) == w.image,
        flash(v, w, events).world.unmounted,
        flash(v, w, events).world.flushed,
        flash(v, w, events).world.ejected,
{
    lemma_sound(v, w, events);
    lemma_orderly(v, w, events);
    let f = flash(v, w, events);
    let n = w.image.len();
    let end = crate::aligned::rounded_up(n, v.capacity);
    crate::aligned::law_rounded_up(n, v.capacity, 0);
    vstd::arithmetic::div_mod::lemma_mod_division_less_than_divisor(n as int, v.capacity as int);
    assert(end % v.capacity as int == 0);
    assert(n <= end < n + v.capacity);
}

/// An image that is refused leaves the drive as it was: a guarded flash in a world that
/// works does not touch the drive if the image has another hash than expected, or is said
/// to be too large.
pub proof fn law_refused_image_leaves_drive(v: FlashView, w: World, events: Seq<EventView>)
    requires
        new_flash(v),
        w.fresh(),
        working(v, w, events),
        v.flow == Flow::Guarded,
        !is_expected(v.expected, w.image) || v.total > w.drive.len(),
    ensures
        flash(v, w, events).world.drive == w.drive,
        !is_expected(v.expected, w.image) ==> !flash(v, w, events).world.unmounted,
        !(flash(v, w, events).state.action() is Write),
        !(flash(v, w, events).state.action() is Wipe),
{
    lemma_sound(v, w, events);
}

/// Before the image is read to be written, it is read to the end for its hash, if one is
/// expected in a guarded flash, and is then gone back to its start: what is read is the
/// image from its start on.
pub proof fn law_image_is_written_from_its_start(v: FlashView, w: World, events: Seq<EventView>)
    requires
        new_flash(v),
        w.fresh(),
        working(v, w, events),
        flash(v, w, events).state.action() is Fill || flash(v, w, events).state.action() is Write,
    ensures
        flash(v, w, events).world.position == flash(v, w, events).state.written + flash(
            v,
            w,
            events,
        ).state.pending.len(),
        flash(v, w, events).state.pending == w.image.subrange(
            flash(v, w, events).state.written as int,
            flash(v, w, events).world.position as int,
        ),
        flash(v, w, events).state.action() matches Action::Write { offset } ==> {
            let data = flash(v, w, events).state.write_data();
            &&& data.len() == v.capacity
            &&& forall|i: int|
                0 <= i < data.len() ==> data[i] == (if offset + i < flash(
                    v,
                    w,
                    events,
                ).world.position {
                    w.image[offset + i]
                } else {
                    0u8
                })
        },
{
    lemma_sound(v, w, events);
}

/// The wiped page is the last one of the drive: it ends where the drive ends, unless the
/// drive is smaller than a page. Only a guarded flash wipes.
pub proof fn law_wiped_page_ends_the_drive(v: FlashView, w: World, events: Seq<EventView>)
    requires
        new_flash(v),
        w.fresh(),
        working(v, w, events),
        flash(v, w, events).state.action() is Wipe,
    ensures
        v.flow == Flow::Guarded,
        flash(v, w, events).state.action()->Wipe_len == v.page,
        v.page <= w.drive.len() ==> flash(v, w, events).state.action()->Wipe_offset + v.page
            == w.drive.len(),
        v.page > w.drive.len() ==> flash(v, w, events).state.action()->Wipe_offset == 0,
{
    lemma_sound(v, w, events);
}

/// Whatever works is accepted: as long as there is no outcome, the machine asks for
/// operations, and takes every outcome of them that comes in a world that works.
pub proof fn law_what_works_is_accepted(
    v: FlashView,
    w: World,
    events: Seq<EventView>,
    event: EventView,
)
    requires
        new_flash(v),
        w.fresh(),
        working(v, w, events),
        flash(v, w, events).world.works(flash(v, w, events).state.action(), event),
    ensures
        accepted(v, w, events),
        flash(v, w, events).state.answers(event),
        flash(v, w, events).state.countable(event),
{
    lemma_sound(v, w, events);
    lemma_accepts(v, w, flash(v, w, events), event);
}

/// What holds of every run of a flash, whether all works or not: the flags of the world,
/// what was told last, and what passed since then.
spec fn orderly(f: Flash) -> bool {
    let v = f.state;
    let w = f.world;
    let told = w.told.last().phase;
    &&& v.valid()
    &&& v.scope == Scope::Flash
    &&& v.stage == Stage::Finished || v.outcome is Ok
    &&& match v.stage {
        Stage::AnnounceCheck | Stage::AnnounceUnmount => w.filled == 0,
        Stage::Check => {
            &&& w.filled == 0 && w.passed == v.since_report
            &&& w.told.len() > 0 && told == FlashPhase::CheckingHash
        },
        Stage::ReportCheck => {
            &&& w.filled == 0 && w.passed == v.since_report
            &&& w.elapsed == v.elapsed >= REPORT_INTERVAL
            &&& w.told.len() > 0 && told == FlashPhase::CheckingHash
        },
        Stage::RewindChecked => {
            &&& w.filled == 0
            &&& w.told.len() > 0 && told == FlashPhase::CheckingHash
        },
        Stage::Unmount => {
            &&& w.filled == 0
            &&& w.told.len() > 0 && told == FlashPhase::Unmounting
        },
        Stage::Open => {
            &&& w.filled == 0 && w.unmounted
            &&& w.told.len() > 0 && told == FlashPhase::Unmounting
        },
        Stage::Wipe | Stage::WipeFlush | Stage::WipeSeek | Stage::Rewind => {
            &&& w.filled == 0 && w.unmounted && w.open
            &&& w.told.len() > 0 && told == FlashPhase::Unmounting
        },
        Stage::AnnounceWrite => w.filled == 0 && w.unmounted && w.open,
        Stage::Read | Stage::Write | Stage::WriteLast | Stage::ReportWrite => {
            &&& w.unmounted && w.open
            &&& w.filled == v.pending.len() && w.passed == v.since_report
            &&& v.stage == Stage::ReportWrite ==> w.elapsed == v.elapsed >= REPORT_INTERVAL
            &&& w.told.len() > 0 && told == FlashPhase::Writing
        },
        Stage::AnnounceFlush => w.unmounted && w.open,
        Stage::Flush => {
            &&& w.unmounted && w.open
            &&& w.told.len() > 0 && told == FlashPhase::Flushing
        },
        Stage::SeekTarget => {
            &&& w.unmounted && w.open && w.flushed
            &&& w.told.len() > 0 && told == FlashPhase::Flushing
        },
        Stage::AnnounceVerify => w.unmounted && w.open && w.flushed,
        Stage::ReadBack | Stage::ReportVerify => {
            &&& w.unmounted && w.open && w.flushed && w.passed == v.since_report
            &&& v.stage == Stage::ReportVerify ==> w.elapsed == v.elapsed >= REPORT_INTERVAL
            &&& w.told.len() > 0 && told == FlashPhase::Verifying
        },
        Stage::Eject => {
            &&& w.unmounted && w.open && w.flushed
            &&& w.told.len() > 0 && told == FlashPhase::Verifying
        },
        Stage::AnnounceDone => w.unmounted && w.open && w.flushed && w.ejected,
        Stage::Finished => v.outcome is Ok ==> {
            &&& w.unmounted && w.open && w.flushed && w.ejected
            &&& w.told.len() > 0 && told == FlashPhase::Done
        },
    }
}

#[verifier::rlimit(60)]
proof fn lemma_orderly_step(f: Flash, event: EventView)
    requires
        orderly(f),
        f.state.answers(event),
        f.state.countable(event),
    ensures
        orderly(f.step(event)),
        f.step(event).state.same_flash(f.state),
{
    let v = f.state;
    let next = f.step(event);
    crate::flasher::lemma_next_valid(v, event);
    match event {
        EventView::Sent => {
            let p = v.action()->Send_0;
            assert(next.world.told.last() == p);
        },
        EventView::Unsent => {},
        EventView::Done => {},
        EventView::Checked { bytes, elapsed } => {},
        EventView::Opened { size } => {},
        EventView::Filled { bytes } => {},
        EventView::Wrote { elapsed } => {},
        EventView::ReadBack { bytes, elapsed } => {},
        EventView::Failed(e) => {},
    }
}

proof fn lemma_orderly_runs(v: FlashView, w: World, events: Seq<EventView>)
    requires
        new_flash(v),
        w.fresh(),
        accepted(v, w, events),
    ensures
        orderly(flash(v, w, events)),
        flash(v, w, events).state.same_flash(v),
    decreases events.len(),
{
    if events.len() > 0 {
        lemma_orderly_runs(v, w, events.drop_last());
        lemma_orderly_step(flash(v, w, events.drop_last()), events.last());
    }
}

proof fn lemma_orderly(v: FlashView, w: World, events: Seq<EventView>)
    requires
        new_flash(v),
        w.fresh(),
        working(v, w, events),
    ensures
        orderly(flash(v, w, events)),
{
    lemma_sound(v, w, events);
    lemma_orderly_runs(v, w, events);
}

/// However operations end, the drive is opened only once it is unmounted, nothing is done
/// to it before it is open, nothing is read back and it is not ejected before all that was
/// written is flushed, and a flash succeeds only with a drive that is ejected.
pub proof fn law_operations_come_in_order(v: FlashView, w: World, events: Seq<EventView>)
    requires
        new_flash(v),
        w.fresh(),
        accepted(v, w, events),
    ensures
        match flash(v, w, events).state.action() {
            Action::Open => flash(v, w, events).world.unmounted,
            Action::Wipe { .. }
            | Action::Write { .. }
            | Action::Fill { .. }
            | Action::Flush
            | Action::SeekTarget => flash(v, w, events).world.unmounted && flash(
                v,
                w,
                events,
            ).world.open,
            Action::ReadBack { .. } | Action::Eject => flash(v, w, events).world.open && flash(
                v,
                w,
                events,
            ).world.flushed,
            Action::Finish => flash(v, w, events).state.outcome is Ok ==> {
                &&& flash(v, w, events).world.unmounted
                &&& flash(v, w, events).world.open
                &&& flash(v, w, events).world.flushed
                &&& flash(v, w, events).world.ejected
            },
            _ => true,
        },
{
    lemma_orderly_runs(v, w, events);
}

/// What was told last is what is being done, however operations end.
pub proof fn law_told_phase_is_true(v: FlashView, w: World, events: Seq<EventView>)
    requires
        new_flash(v),
        w.fresh(),
        accepted(v, w, events),
    ensures
        ({
            let f = flash(v, w, events);
            let told = f.world.told;
            match f.state.action() {
                Action::ReadImage => told.len() > 0 && told.last().phase
                    == FlashPhase::CheckingHash,
                Action::Unmount | Action::Open | Action::Wipe { .. } => told.len() > 0
                    && told.last().phase == FlashPhase::Unmounting,
                Action::Fill { .. } | Action::Write { .. } => told.len() > 0 && told.last().phase
                    == FlashPhase::Writing,
                Action::ReadBack { .. } | Action::Eject => told.len() > 0 && told.last().phase
                    == FlashPhase::Verifying,
                Action::Finish => f.state.outcome is Ok ==> told.len() > 0 && told.last().phase
                    == FlashPhase::Done,
                _ => true,
            }
        }),
{
    lemma_orderly_runs(v, w, events);
}

/// A progress either starts a phase, with nothing passed and nothing measured, or tells
/// how much passed since the last one and in which time, which is an interval at least.
/// The start of the writing tells the size of the image too, and that all is done is told
/// only of a drive that is flushed and ejected.
pub proof fn law_rates_are_true(v: FlashView, w: World, events: Seq<EventView>)
    requires
        new_flash(v),
        w.fresh(),
        accepted(v, w, events),
        flash(v, w, events).state.action() is Send,
    ensures
        ({
            let f = flash(v, w, events);
            let p = f.state.action()->Send_0;
            &&& p.bytes_per_sec == (Rate { bytes: 0, nanos: 0 }) ==> {
                &&& p.bytes_written == 0
                &&& p.total_bytes == (if p.phase == FlashPhase::Writing {
                    v.total
                } else {
                    0
                })
            }
            &&& p.bytes_per_sec != (Rate { bytes: 0, nanos: 0 }) ==> {
                &&& p.bytes_per_sec.bytes == f.world.passed
                &&& p.bytes_per_sec.nanos == f.world.elapsed
                &&& p.bytes_per_sec.nanos >= 1_000_000_000
                &&& f.world.told.len() > 0 && p.phase == f.world.told.last().phase
            }
            &&& p.phase == FlashPhase::Done ==> f.world.flushed && f.world.ejected
        }),
{
    lemma_orderly_runs(v, w, events);
}

/// In a world that works, a progress that tells a rate tells how much of the image was
/// checked or written, or how much was read back, and how much there is.
pub proof fn law_counts_are_true(v: FlashView, w: World, events: Seq<EventView>)
    requires
        new_flash(v),
        w.fresh(),
        working(v, w, events),
        flash(v, w, events).state.action() is Send,
        flash(v, w, events).state.action()->Send_0.bytes_per_sec.nanos > 0,
    ensures
        ({
            let f = flash(v, w, events);
            let p = f.state.action()->Send_0;
            &&& p.phase == FlashPhase::CheckingHash || p.phase == FlashPhase::Writing || p.phase
                == FlashPhase::Verifying
            &&& p.phase == FlashPhase::CheckingHash ==> {
                &&& p.bytes_written == f.world.position
                &&& p.total_bytes == v.total
            }
            &&& p.phase == FlashPhase::Writing ==> {
                &&& p.bytes_written == f.world.position
                &&& f.world.filled == 0
                &&& p.total_bytes == v.total
            }
            &&& p.phase == FlashPhase::Verifying ==> {
                &&& p.bytes_written == f.world.read_back.len()
                &&& p.total_bytes == w.image.len()
            }
        }),
{
    lemma_sound(v, w, events);
    lemma_orderly(v, w, events);
}

/// A report comes when an interval has passed since progress was told, and only then: after
/// bytes of the image were checked, a full buffer was written, or bytes were read back.
pub proof fn law_reports_are_due(v: FlashView, w: World, events: Seq<EventView>, event: EventView)
    requires
        new_flash(v),
        w.fresh(),
        accepted(v, w, events),
        flash(v, w, events).state.answers(event),
        flash(v, w, events).state.countable(event),
    ensures
        ({
            let f = flash(v, w, events);
            let next = f.step(event).state;
            match event {
                EventView::Checked { bytes, elapsed } | EventView::ReadBack { bytes, elapsed } => {
                    &&& bytes.len() > 0 && elapsed >= 1_000_000_000 ==> next.action() is Send
                    &&& bytes.len() > 0 && elapsed < 1_000_000_000 ==> !(next.action() is Send)
                },
                EventView::Wrote { elapsed } => {
                    &&& f.world.filled == v.capacity && elapsed >= 1_000_000_000
                        ==> next.action() is Send
                    &&& f.world.filled == v.capacity && elapsed < 1_000_000_000
                        ==> next.action() is Fill
                },
                _ => true,
            }
        }),
{
    lemma_orderly_runs(v, w, events);
}

/// A failed operation ends a flash with its error, and so does progress that nobody
/// receives.
pub proof fn law_failure_ends_the_flash(v: FlashView, w: World, events: Seq<EventView>)
    requires
        new_flash(v),
        w.fresh(),
        accepted(v, w, events),
        events.len() > 0,
    ensures
        events.last() matches EventView::Failed(e) ==> {
            &&& flash(v, w, events).state.action() is Finish
            &&& flash(v, w, events).state.outcome == Err::<(), FlashErrorView>(e)
        },
        events.last() is Unsent ==> {
            &&& flash(v, w, events).state.action() is Finish
            &&& flash(v, w, events).state.outcome == Err::<(), FlashErrorView>(
                FlashErrorView::SendChannelError,
            )
        },
{
}

/// Every operation but the last may fail, and every progress may find nobody.
pub proof fn law_failures_are_accepted(
    v: FlashView,
    w: World,
    events: Seq<EventView>,
    e: FlashErrorView,
)
    requires
        new_flash(v),
        w.fresh(),
        accepted(v, w, events),
    ensures
        ({
            let s = flash(v, w, events).state;
            if s.action() is Send {
                s.answers(EventView::Unsent) && s.countable(EventView::Unsent)
            } else {
                s.action() is Finish || s.answers(EventView::Failed(e)) && s.countable(
                    EventView::Failed(e),
                )
            }
        }),
{
    lemma_orderly_runs(v, w, events);
}

/// What is read fits the buffer, and there is always room for something.
pub proof fn law_reads_fit_the_buffer(v: FlashView, w: World, events: Seq<EventView>)
    requires
        new_flash(v),
        w.fresh(),
        accepted(v, w, events),
    ensures
        flash(v, w, events).state.action() matches Action::Fill { max } ==> {
            &&& 0 < max
            &&& flash(v, w, events).world.filled + max == v.capacity
        },
        flash(v, w, events).state.action() matches Action::ReadBack { max, .. } ==> 0 < max
            <= v.capacity,
{
    lemma_orderly_runs(v, w, events);
}

/// How many operations are left at most.
spec fn left(f: Flash) -> int {
    let v = f.state;
    let w = f.world;
    let n = w.image.len() as int;
    let unread = n - w.position;
    let unverified = if v.read_back < v.written {
        v.written - v.read_back
    } else {
        0
    };
    match v.stage {
        Stage::AnnounceCheck => 8 * n + 30,
        Stage::Check => 6 * n + 27 + 2 * unread,
        Stage::ReportCheck => 6 * n + 28 + 2 * unread,
        Stage::RewindChecked => 6 * n + 26,
        Stage::AnnounceUnmount => 6 * n + 25,
        Stage::Unmount => 6 * n + 24,
        Stage::Open => 6 * n + 23,
        Stage::Wipe => 6 * n + 22,
        Stage::WipeFlush => 6 * n + 21,
        Stage::WipeSeek => 6 * n + 20,
        Stage::Rewind => 6 * n + 19,
        Stage::AnnounceWrite => 6 * n + 18,
        Stage::Read => 2 * n + 4 * unread + 15,
        Stage::Write => 2 * n + 4 * unread + 17,
        Stage::ReportWrite => 2 * n + 4 * unread + 16,
        Stage::WriteLast => 2 * n + 14,
        Stage::AnnounceFlush => 2 * n + 13,
        Stage::Flush => 2 * n + 12,
        Stage::SeekTarget => 2 * n + 11,
        Stage::AnnounceVerify => 2 * n + 10,
        Stage::ReadBack => 2 * unverified + 5,
        Stage::ReportVerify => 2 * unverified + 6,
        Stage::Eject => 2,
        Stage::AnnounceDone => 1,
        Stage::Finished => 0,
    }
}

#[verifier::rlimit(60)]
proof fn lemma_left_step(v0: FlashView, w0: World, f: Flash, event: EventView)
    requires
        sound(v0, w0, f),
        f.world.works(f.state.action(), event),
    ensures
        left(f.step(event)) < left(f),
{
    match event {
        EventView::Sent => {},
        EventView::Done => {},
        EventView::Checked { bytes, elapsed } => {},
        EventView::Opened { size } => {},
        EventView::Filled { bytes } => {},
        EventView::Wrote { elapsed } => {},
        EventView::ReadBack { bytes, elapsed } => {},
        _ => {},
    }
}

proof fn lemma_left(v: FlashView, w: World, events: Seq<EventView>)
    requires
        new_flash(v),
        w.fresh(),
        working(v, w, events),
    ensures
        left(flash(v, w, events)) + events.len() <= 8 * w.image.len() + 30,
    decreases events.len(),
{
    if events.len() > 0 {
        lemma_left(v, w, events.drop_last());
        lemma_sound(v, w, events.drop_last());
        lemma_left_step(v, w, flash(v, w, events.drop_last()), events.last());
    }
}

/// A flash in a world that works comes to an end: there are no more operations than eight
/// for each byte of the image, and thirty more.
pub proof fn law_flash_ends(v: FlashView, w: World, events: Seq<EventView>)
    requires
        new_flash(v),
        w.fresh(),
        working(v, w, events),
    ensures
        events.len() <= 8 * w.image.len() + 30,
        events.len() == 8 * w.image.len() + 30 ==> flash(v, w, events).state.action() is Finish,
{
    lemma_left(v, w, events);
    lemma_sound(v, w, events);
}

/// What was read back of the part of the drive that the image was written to.
pub open spec fn read_of_image(w: World) -> Seq<u8> {
    if w.read_back.len() <= w.copied {
        w.read_back
    } else {
        w.read_back.take(w.copied as int)
    }
}

/// What holds of every run of what was read back, whether all works or not.
spec fn compared(f: Flash) -> bool {
    let v = f.state;
    let w = f.world;
    &&& orderly(f)
    &&& match v.stage {
        Stage::AnnounceCheck
        | Stage::Check
        | Stage::ReportCheck
        | Stage::RewindChecked
        | Stage::AnnounceUnmount
        | Stage::Unmount
        | Stage::Open
        | Stage::Wipe
        | Stage::WipeFlush
        | Stage::WipeSeek
        | Stage::Rewind
        | Stage::AnnounceWrite => w.copied == 0 && w.read_back.len() == 0,
        Stage::Read
        | Stage::Write
        | Stage::WriteLast
        | Stage::ReportWrite
        | Stage::AnnounceFlush
        | Stage::Flush
        | Stage::SeekTarget
        | Stage::AnnounceVerify => w.copied == v.written && w.read_back.len() == 0,
        Stage::ReadBack | Stage::ReportVerify => {
            &&& w.copied == v.written
            &&& w.read_back.len() == v.read_back
            &&& v.hashed == read_of_image(w)
        },
        Stage::Eject | Stage::AnnounceDone => is_expected(v.expected, read_of_image(w)),
        Stage::Finished => v.outcome is Ok ==> is_expected(v.expected, read_of_image(w)),
    }
}

#[verifier::rlimit(60)]
proof fn lemma_compared_step(f: Flash, event: EventView)
    requires
        compared(f),
        f.state.answers(event),
        f.state.countable(event),
    ensures
        compared(f.step(event)),
{
    let v = f.state;
    let w = f.world;
    let next = f.step(event);
    lemma_orderly_step(f, event);
    match event {
        EventView::Sent => {
            if v.stage == Stage::AnnounceVerify {
                assert(read_of_image(next.world) =~= Seq::<u8>::empty());
            }
        },
        EventView::ReadBack { bytes, elapsed } => {
            if bytes.len() == 0 {
                assert(next.world.read_back =~= w.read_back);
            } else {
                let unread = v.written - v.read_back;
                let valid = if bytes.len() <= unread {
                    bytes.len() as int
                } else {
                    unread
                };
                assert(read_of_image(next.world) =~= w.read_back + bytes.take(valid));
            }
        },
        _ => {},
    }
}

proof fn lemma_compared(v: FlashView, w: World, events: Seq<EventView>)
    requires
        new_flash(v),
        w.fresh(),
        accepted(v, w, events),
    ensures
        compared(flash(v, w, events)),
        flash(v, w, events).state.same_flash(v),
    decreases events.len(),
{
    if events.len() > 0 {
        lemma_compared(v, w, events.drop_last());
        lemma_compared_step(flash(v, w, events.drop_last()), events.last());
        lemma_orderly_step(flash(v, w, events.drop_last()), events.last());
    }
}

/// However the drive behaves: a flash succeeds, and a drive is ejected, only if what was
/// read back where the image was written has the expected hash.
pub proof fn law_damaged_drive_is_noticed(v: FlashView, w: World, events: Seq<EventView>)
    requires
        new_flash(v),
        w.fresh(),
        accepted(v, w, events),
        v.expected is Some,
        sha256(read_of_image(flash(v, w, events).world)) != v.expected->0,
    ensures
        !(flash(v, w, events).state.action() is Eject),
        !(flash(v, w, events).state.action() is Finish && flash(
            v,
            w,
            events,
        ).state.outcome is Ok),
{
    lemma_compared(v, w, events);
}

/// What holds of every check in a world that works.
spec fn sound_check(v0: FlashView, w0: World, f: Flash) -> bool {
    let v = f.state;
    let w = f.world;
    let n = v0.written;
    let good = is_expected(v0.expected, w0.drive.take(n as int));
    &&& v.valid()
    &&& v.same_flash(v0)
    &&& v.scope == Scope::Verify
    &&& v.written == n
    &&& w.drive == w0.drive
    &&& w.read_back.len() <= w0.drive.len()
    &&& w.read_back == w0.drive.take(w.read_back.len() as int)
    &&& match v.stage {
        Stage::ReadBack | Stage::ReportVerify => {
            &&& v.read_back == w.read_back.len()
            &&& v.hashed == w0.drive.take(lesser(v.read_back, n) as int)
        },
        Stage::Finished => {
            &&& w.read_back.len() >= n
            &&& v.outcome == (if good {
                Ok::<(), FlashErrorView>(())
            } else {
                Err(
                    match v.flow {
                        Flow::Guarded => FlashErrorView::Sha256HashDoesNotMatch(
                            HashFailedWhen::VerificationCheck,
                        ),
                        Flow::Direct => FlashErrorView::VerificationFailed {
                            failed_hash_hex: hex_text(sha256(w0.drive.take(n as int))),
                            expected_hex: hex_text(v0.expected->0),
                        },
                    },
                )
            })
        },
        _ => false,
    }
}

proof fn lemma_sound_check(v: FlashView, w: World, events: Seq<EventView>)
    requires
        new_verification(v),
        w.fresh(),
        v.written <= w.drive.len(),
        working(v, w, events),
    ensures
        sound_check(v, w, flash(v, w, events)),
        accepted(v, w, events),
    decreases events.len(),
{
    let f = flash(v, w, events);
    let n = v.written;
    if events.len() == 0 {
        assert(w.drive.take(0) =~= Seq::<u8>::empty());
        assert(w.read_back =~= w.drive.take(0));
    } else {
        lemma_sound_check(v, w, events.drop_last());
        let before = flash(v, w, events.drop_last());
        crate::flasher::lemma_next_valid(before.state, events.last());
        match events.last() {
            EventView::ReadBack { bytes, elapsed } => {
                let total = f.world.read_back.len();
                assert(f.world.read_back =~= w.drive.take(total as int));
                let unread = n - before.state.read_back;
                let valid = if bytes.len() <= unread {
                    bytes.len() as int
                } else {
                    unread
                };
                assert(before.state.hashed + bytes.take(valid) =~= w.drive.take(
                    lesser(total, n) as int,
                ));
            },
            _ => {},
        }
    }
}

/// A check in a world that works decides by what the drive holds where it was written to:
/// it succeeds exactly if that has the expected hash. It changes nothing, has read all of
/// that part when it ends, and takes no more than two operations for each byte.
pub proof fn law_check_decides(v: FlashView, w: World, events: Seq<EventView>)
    requires
        new_verification(v),
        w.fresh(),
        v.written <= w.drive.len(),
        working(v, w, events),
    ensures
        accepted(v, w, events),
        flash(v, w, events).world.drive == w.drive,
        events.len() <= 2 * v.written,
        ({
            let action = flash(v, w, events).state.action();
            action is ReadBack || action is Send || action is Finish
        }),
        flash(v, w, events).state.action() is Finish ==> {
            &&& flash(v, w, events).world.read_back.len() >= v.written
            &&& flash(v, w, events).state.outcome is Ok <==> is_expected(
                v.expected,
                w.drive.take(v.written as int),
            )
            &&& !is_expected(v.expected, w.drive.take(v.written as int)) ==> flash(
                v,
                w,
                events,
            ).state.outcome == Err::<(), FlashErrorView>(
                match v.flow {
                    Flow::Guarded => FlashErrorView::Sha256HashDoesNotMatch(
                        HashFailedWhen::VerificationCheck,
                    ),
                    Flow::Direct => FlashErrorView::VerificationFailed {
                        failed_hash_hex: hex_text(sha256(w.drive.take(v.written as int))),
                        expected_hex: hex_text(v.expected->0),
                    },
                },
            )
        },
{
    lemma_sound_check(v, w, events);
    lemma_left_check(v, w, events);
}

/// How many operations of a check are left at most.
spec fn left_of_check(v: FlashView) -> int {
    let unverified = if v.read_back < v.written {
        v.written - v.read_back
    } else {
        0
    };
    match v.stage {
        Stage::ReadBack => 2 * unverified,
        Stage::ReportVerify => 2 * unverified + 1,
        _ => 0,
    }
}

proof fn lemma_left_check(v: FlashView, w: World, events: Seq<EventView>)
    requires
        new_verification(v),
        w.fresh(),
        v.written <= w.drive.len(),
        working(v, w, events),
    ensures
        left_of_check(flash(v, w, events).state) + events.len() <= 2 * v.written,
    decreases events.len(),
{
    if events.len() > 0 {
        lemma_left_check(v, w, events.drop_last());
        lemma_sound_check(v, w, events.drop_last());
    }
}

} // verus!
