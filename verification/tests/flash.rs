//! Whole flashes, on an image and a drive in memory.
use flashkit::aligned::{direct_buffer, direct_buffer_for, guarded_buffer, transfer_size, PageAlignedBuffer};
use flashkit::data_types::{AsyncImageSourceFile, FlashPhase, FlashProgress, HashFailedWhen, Rate};
use flashkit::error::{FlashError, FlashResult, IoError, IoErrorKind};
use flashkit::flasher::{Action, Event, FlashMachine, Flasher, Flow, Stage, REPORT_INTERVAL};
use sha2::{Digest, Sha256};

const PAGE: usize = 512;

/// What a run is made of.
struct Setup {
    flow: Flow,
    image: Vec<u8>,
    total: u64,
    expected: Option<[u8; 32]>,
    drive: Vec<u8>,
    told_size: u64,
    /// Reads of the image give at most this many bytes
    read_limit: usize,
    /// Every operation takes this long
    elapsed: u64,
    /// Flip the first bit of what is read back
    corrupt: bool,
    /// Fail when this stage is reached
    fail_at: Option<Stage>,
    /// Nobody receives the progress from this one on
    deaf_after: usize,
}

fn setup(flow: Flow, image: &[u8]) -> Setup {
    Setup {
        flow,
        image: image.to_vec(),
        total: image.len() as u64,
        expected: Some(Sha256::digest(image).into()),
        drive: vec![0xee; 8192],
        told_size: 8192,
        read_limit: 300,
        elapsed: 0,
        corrupt: false,
        fail_at: None,
        deaf_after: usize::MAX,
    }
}

struct Outcome {
    result: FlashResult<()>,
    drive: Vec<u8>,
    progress: Vec<FlashProgress>,
    writes: Vec<(u64, usize)>,
    calls: Vec<&'static str>,
}

fn io_error(text: &str) -> FlashError {
    FlashError::Io(IoError { kind: IoErrorKind::Other(text.to_string()), message: text.to_string() })
}

fn drive_machine(mut machine: FlashMachine, s: &mut Setup) -> Outcome {
    let mut progress = Vec::new();
    let mut writes = Vec::new();
    let mut calls = Vec::new();
    let mut at = 0usize;
    loop {
        let action = machine.action();
        let stage = machine.stage();
        let failing = s.fail_at == Some(stage);
        let mut bytes: Vec<u8> = Vec::new();
        let event = if failing && !matches!(action, Action::Send(_) | Action::Finish) {
            Event::Failed(io_error("broken"))
        } else {
            match action {
                Action::Send(p) => {
                    if progress.len() >= s.deaf_after {
                        Event::Unsent
                    } else {
                        progress.push(p);
                        Event::Sent
                    }
                }
                Action::ReadImage => {
                    let end = s.image.len().min(at + s.read_limit);
                    bytes.extend_from_slice(&s.image[at..end]);
                    at = end;
                    Event::Checked { bytes: &bytes, elapsed: s.elapsed }
                }
                Action::RewindImage => {
                    calls.push("rewind");
                    at = 0;
                    Event::Done
                }
                Action::Unmount => {
                    calls.push("unmount");
                    Event::Done
                }
                Action::Open => {
                    calls.push("open");
                    Event::Opened { size: s.told_size }
                }
                Action::Wipe { offset, len } => {
                    calls.push("wipe");
                    let page = machine.wipe_data();
                    assert_eq!(page.size(), len);
                    assert_eq!(page.as_ptr().as_ptr() as usize % len, 0);
                    for (i, b) in page.as_ptr().iter().enumerate() {
                        if offset as usize + i < s.drive.len() {
                            s.drive[offset as usize + i] = *b;
                        }
                    }
                    Event::Done
                }
                Action::Flush => {
                    calls.push("flush");
                    Event::Done
                }
                Action::SeekTarget => {
                    calls.push("seek");
                    Event::Done
                }
                Action::Fill { max } => {
                    let end = s.image.len().min(at + s.read_limit.min(max));
                    bytes.extend_from_slice(&s.image[at..end]);
                    at = end;
                    Event::Filled { bytes: &bytes }
                }
                Action::Write { offset } => {
                    let data = machine.write_data();
                    assert_eq!(data.as_ptr() as usize % PAGE, 0);
                    writes.push((offset, data.len()));
                    for (i, b) in data.iter().enumerate() {
                        if offset as usize + i < s.drive.len() {
                            s.drive[offset as usize + i] = *b;
                        }
                    }
                    Event::Wrote { elapsed: s.elapsed }
                }
                Action::ReadBack { offset, max } => {
                    let start = s.drive.len().min(offset as usize);
                    let end = s.drive.len().min(start + max);
                    bytes.extend_from_slice(&s.drive[start..end]);
                    if s.corrupt && !bytes.is_empty() {
                        bytes[0] ^= 1;
                    }
                    Event::ReadBack { bytes: &bytes, elapsed: s.elapsed }
                }
                Action::Eject => {
                    calls.push("eject");
                    Event::Done
                }
                Action::Finish => break,
            }
        };
        assert!(machine.accepts(&event));
        machine.step(event);
    }
    Outcome { result: machine.into_outcome(), drive: s.drive.clone(), progress, writes, calls }
}

fn run(mut s: Setup) -> Outcome {
    let buffer = PageAlignedBuffer::with_page_size(PAGE, 2).unwrap();
    let machine = FlashMachine::new(s.flow, s.total, s.expected, buffer);
    drive_machine(machine, &mut s)
}

fn phases(o: &Outcome) -> Vec<FlashPhase> {
    o.progress.iter().map(|p| p.phase()).collect()
}

#[test]
fn test_block_flash() {
    let message = "sd fjsdjklfsdjfkjsdfshdjkdfsjhjsdlfkjsdfhhsldfhlhsjdfkhjLJHKSDJHKF jh sklhDFjjsFl hsJDF sld DL fkdS DF hjSDHJFsLKJDFhsuifuejsFhlsdKFhshJDFj sd s fs [s dsdf sdf sJHFhsHfsDFHJjhwueirysueir23498703273498dsahjfhgds i ysd]";
    let hash: [u8; 32] = Sha256::digest(message.as_bytes()).into();
    let size = message.len();
    let image = AsyncImageSourceFile::new(message.as_bytes().to_vec(), size as u64, Some(hash));
    let mut s = setup(Flow::Guarded, &image.file);
    s.total = image.uncompressed_size();
    s.expected = image.expected_hash();
    s.told_size = u64::MAX;
    s.drive = Vec::new();
    s.drive.resize(4096, 0);
    let buffer = PageAlignedBuffer::with_page_size(4096, 1).unwrap();
    let machine = FlashMachine::new(s.flow, s.total, s.expected, buffer);
    let o = drive_machine(machine, &mut s);
    o.result.unwrap();
    assert_eq!(&o.drive[..size], message.as_bytes());
    assert!(o.drive[size..].iter().all(|b| *b == 0));
}

#[test]
fn guarded_flash_writes_and_verifies() {
    let image: Vec<u8> = (0..3000u32).map(|i| (i % 251) as u8).collect();
    let o = run(setup(Flow::Guarded, &image));
    assert_eq!(o.result, Ok(()));
    assert_eq!(&o.drive[..3000], &image[..]);
    assert!(o.drive[3000..3072].iter().all(|b| *b == 0));
    assert!(o.drive[3072..8192 - PAGE].iter().all(|b| *b == 0xee));
    assert!(o.drive[8192 - PAGE..].iter().all(|b| *b == 0));
    assert_eq!(o.writes, vec![(0, 1024), (1024, 1024), (2048, 1024)]);
    assert_eq!(
        o.calls,
        vec!["rewind", "unmount", "open", "wipe", "flush", "seek", "rewind", "flush", "seek", "eject"]
    );
    assert_eq!(
        phases(&o),
        vec![
            FlashPhase::CheckingHash,
            FlashPhase::Unmounting,
            FlashPhase::Writing,
            FlashPhase::Flushing,
            FlashPhase::Verifying,
            FlashPhase::Done
        ]
    );
    assert_eq!(o.progress[2].total_bytes(), 3000);
    assert_eq!(o.progress[2].bytes_written(), 0);
}

#[test]
fn image_of_whole_buffers_needs_no_padding() {
    let image = vec![7u8; 2048];
    let o = run(setup(Flow::Guarded, &image));
    assert_eq!(o.result, Ok(()));
    assert_eq!(o.writes, vec![(0, 1024), (1024, 1024)]);
    assert!(o.drive[2048..8192 - PAGE].iter().all(|b| *b == 0xee));
}

#[test]
fn empty_image_is_not_written() {
    let o = run(setup(Flow::Guarded, &[]));
    assert_eq!(o.result, Ok(()));
    assert!(o.writes.is_empty());
    assert!(o.drive[..8192 - PAGE].iter().all(|b| *b == 0xee));
}

#[test]
fn wrong_hash_is_refused_before_the_drive_is_touched() {
    let mut s = setup(Flow::Guarded, b"an image");
    s.expected = Some([0; 32]);
    let o = run(s);
    assert_eq!(o.result, Err(FlashError::Sha256HashDoesNotMatch(HashFailedWhen::FirstCheck)));
    assert!(o.drive.iter().all(|b| *b == 0xee));
    assert!(o.calls.is_empty());
}

#[test]
fn small_target_is_refused_before_it_is_written() {
    let mut s = setup(Flow::Guarded, &[1; 600]);
    s.told_size = 599;
    let o = run(s);
    assert_eq!(o.result, Err(FlashError::TargetToSmall(600, 599)));
    assert!(o.drive.iter().all(|b| *b == 0xee));
    assert_eq!(o.calls, vec!["rewind", "unmount", "open"]);
}

#[test]
fn target_of_exactly_the_right_size_is_accepted() {
    let mut s = setup(Flow::Guarded, &[1; 600]);
    s.told_size = 600;
    assert_eq!(run(s).result, Ok(()));
}

#[test]
fn drive_smaller_than_a_page_is_wiped_from_its_start() {
    let mut s = setup(Flow::Guarded, &[1; 100]);
    s.told_size = 100;
    s.drive = vec![0xee; 100];
    let buffer = PageAlignedBuffer::with_page_size(PAGE, 2).unwrap();
    let mut m = FlashMachine::new(s.flow, s.total, None, buffer);
    m.step(Event::Sent);
    m.step(Event::Done);
    m.step(Event::Sent);
    m.step(Event::Done);
    m.step(Event::Opened { size: 100 });
    assert_eq!(m.action(), Action::Wipe { offset: 0, len: PAGE });
}

#[test]
fn without_a_hash_nothing_is_checked() {
    let mut s = setup(Flow::Guarded, b"an image");
    s.expected = None;
    s.corrupt = true;
    let o = run(s);
    assert_eq!(o.result, Ok(()));
}

#[test]
fn guarded_flash_notices_a_faulty_drive() {
    let mut s = setup(Flow::Guarded, b"an image");
    s.corrupt = true;
    let o = run(s);
    assert_eq!(
        o.result,
        Err(FlashError::Sha256HashDoesNotMatch(HashFailedWhen::VerificationCheck))
    );
    assert!(!o.calls.contains(&"eject"));
}

#[test]
fn direct_flash_tells_both_hashes_of_a_faulty_drive() {
    let mut s = setup(Flow::Direct, b"abc");
    s.corrupt = true;
    let o = run(s);
    let failed: [u8; 32] = Sha256::digest(b"`bc").into();
    assert_eq!(
        o.result,
        Err(FlashError::VerificationFailed {
            failed_hash_hex: hex::encode(failed),
            expected_hex: "ba7816bf8f01cfea414140de5dae2223b00361a396177a9cb410ff61f20015ad".to_string(),
        })
    );
}

#[test]
fn direct_flash_reads_on_after_a_short_read() {
    let image = vec![9u8; 1500];
    let mut s = setup(Flow::Direct, &image);
    s.expected = None;
    // Reads give 300 bytes, less than the buffer.
    let o = run(s);
    assert_eq!(o.result, Ok(()));
    assert_eq!(o.writes, vec![(0, 1024), (1024, 1024)]);
    assert!(o.drive[..1500].iter().all(|b| *b == 9));
    assert!(o.drive[1500..2048].iter().all(|b| *b == 0));
    assert!(o.drive[2048..].iter().all(|b| *b == 0xee));
    assert_eq!(o.calls, vec!["unmount", "open", "flush", "seek", "eject"]);
}

#[test]
fn direct_flash_writes_full_reads() {
    let image: Vec<u8> = (0..2500u32).map(|i| (i % 241) as u8).collect();
    let mut s = setup(Flow::Direct, &image);
    s.read_limit = 4096;
    let o = run(s);
    assert_eq!(o.result, Ok(()));
    assert_eq!(&o.drive[..2500], &image[..]);
    assert_eq!(o.writes, vec![(0, 1024), (1024, 1024), (2048, 1024)]);
    assert_eq!(
        phases(&o),
        vec![
            FlashPhase::Unmounting,
            FlashPhase::Writing,
            FlashPhase::Flushing,
            FlashPhase::Verifying,
            FlashPhase::Done
        ]
    );
}

#[test]
fn reports_tell_bytes_and_time() {
    let image = vec![5u8; 2048];
    let mut s = setup(Flow::Guarded, &image);
    s.elapsed = REPORT_INTERVAL;
    s.read_limit = 1024;
    let o = run(s);
    assert_eq!(o.result, Ok(()));
    let rate = Rate { bytes: 1024, nanos: REPORT_INTERVAL };
    let report = |n, phase| FlashProgress {
        bytes_written: n,
        total_bytes: 2048,
        bytes_per_sec: rate,
        phase,
    };
    assert_eq!(
        o.progress,
        vec![
            FlashProgress::transition(FlashPhase::CheckingHash),
            report(1024, FlashPhase::CheckingHash),
            report(2048, FlashPhase::CheckingHash),
            FlashProgress::transition(FlashPhase::Unmounting),
            FlashProgress { total_bytes: 2048, ..FlashProgress::transition(FlashPhase::Writing) },
            report(1024, FlashPhase::Writing),
            report(2048, FlashPhase::Writing),
            FlashProgress::transition(FlashPhase::Flushing),
            FlashProgress::transition(FlashPhase::Verifying),
            report(1024, FlashPhase::Verifying),
            report(2048, FlashPhase::Verifying),
            FlashProgress::transition(FlashPhase::Done),
        ]
    );
}

#[test]
fn no_report_before_the_interval_has_passed() {
    let mut s = setup(Flow::Guarded, &[5; 2048]);
    s.elapsed = REPORT_INTERVAL - 1;
    assert_eq!(run(s).progress.len(), 6);
}

#[test]
fn failed_operations_end_the_flash() {
    let stages = [
        Stage::Check,
        Stage::RewindChecked,
        Stage::Unmount,
        Stage::Open,
        Stage::Wipe,
        Stage::WipeFlush,
        Stage::WipeSeek,
        Stage::Rewind,
        Stage::Read,
        Stage::WriteLast,
        Stage::Flush,
        Stage::SeekTarget,
        Stage::ReadBack,
        Stage::Eject,
    ];
    for stage in stages {
        let mut s = setup(Flow::Guarded, b"an image");
        s.fail_at = Some(stage);
        let o = run(s);
        assert_eq!(o.result, Err(io_error("broken")));
        assert!(!phases(&o).contains(&FlashPhase::Done));
    }
}

#[test]
fn unheard_progress_ends_the_flash() {
    for heard in 0..6 {
        let mut s = setup(Flow::Guarded, b"an image");
        s.deaf_after = heard;
        let o = run(s);
        assert_eq!(o.result, Err(FlashError::SendChannelError));
        assert_eq!(o.progress.len(), heard);
    }
}

#[test]
fn early_end_of_the_drive_is_a_wrong_hash() {
    let image: Vec<u8> = (0..3000u32).map(|i| (i % 251) as u8).collect();
    let mut s = setup(Flow::Guarded, &image);
    s.drive = vec![0; 2000];
    let o = run(s);
    assert_eq!(
        o.result,
        Err(FlashError::Sha256HashDoesNotMatch(HashFailedWhen::VerificationCheck))
    );
}

#[test]
fn verification_alone_compares_what_was_written() {
    let mut s = setup(Flow::Guarded, b"");
    s.drive = b"abcdef".to_vec();
    let hash: [u8; 32] = Sha256::digest(b"abc").into();
    let buffer = PageAlignedBuffer::with_page_size(PAGE, 1).unwrap();
    let machine = FlashMachine::verify(Flow::Guarded, 3, Some(hash), buffer, 3);
    let o = drive_machine(machine, &mut s);
    assert_eq!(o.result, Ok(()));
    assert!(o.calls.is_empty());
    let buffer = PageAlignedBuffer::with_page_size(PAGE, 1).unwrap();
    let machine = FlashMachine::verify(Flow::Guarded, 3, Some(hash), buffer, 4);
    let o = drive_machine(machine, &mut s);
    assert_eq!(
        o.result,
        Err(FlashError::Sha256HashDoesNotMatch(HashFailedWhen::VerificationCheck))
    );
}

#[test]
fn verification_alone_ignores_the_rest_of_the_drive() {
    let image: Vec<u8> = (0..1300u32).map(|i| (i % 251) as u8).collect();
    let hash: [u8; 32] = Sha256::digest(&image).into();
    for rest in [0x00, 0xff] {
        for pages in [1, 2, 8] {
            for expected in [Some(hash), Some([7; 32]), None] {
                let mut s = setup(Flow::Guarded, b"");
                s.drive[..1300].copy_from_slice(&image);
                s.drive[1300..].fill(rest);
                let before = s.drive.clone();
                let buffer = PageAlignedBuffer::with_page_size(PAGE, pages).unwrap();
                let machine = FlashMachine::verify(Flow::Guarded, 1300, expected, buffer, 1300);
                let o = drive_machine(machine, &mut s);
                assert_eq!(o.result.is_ok(), expected != Some([7; 32]));
                assert!(o.writes.is_empty());
                assert_eq!(o.drive, before);
            }
        }
    }
}

#[test]
fn only_outcomes_of_the_next_operation_are_accepted() {
    let buffer = PageAlignedBuffer::with_page_size(PAGE, 1).unwrap();
    let m = FlashMachine::new(Flow::Guarded, 1, None, buffer);
    assert_eq!(m.stage(), Stage::AnnounceCheck);
    assert!(m.accepts(&Event::Sent));
    assert!(m.accepts(&Event::Unsent));
    assert!(!m.accepts(&Event::Done));
    assert!(!m.accepts(&Event::Opened { size: 1 }));
    assert!(!m.accepts(&Event::Failed(FlashError::SyncError)));
}

#[test]
fn more_bytes_than_asked_for_are_not_accepted() {
    let buffer = PageAlignedBuffer::with_page_size(PAGE, 1).unwrap();
    let mut m = FlashMachine::new(Flow::Direct, 1, None, buffer);
    m.step(Event::Sent);
    m.step(Event::Done);
    m.step(Event::Opened { size: 0 });
    m.step(Event::Sent);
    assert_eq!(m.action(), Action::Fill { max: PAGE });
    assert!(m.accepts(&Event::Filled { bytes: &[0; 512] }));
    assert!(!m.accepts(&Event::Filled { bytes: &[0; 513] }));
}

#[test]
fn transfers_are_multiples_of_the_larger_unit() {
    assert_eq!(transfer_size(4096, 512), 4096);
    assert_eq!(transfer_size(4096, 8192), 8192);
    assert_eq!(transfer_size(512, 512), 1024);
    assert_eq!(transfer_size(1, 0), 1024);
    assert_eq!(transfer_size(1000, 0), 2000);
    assert_eq!(transfer_size(16384, 512), 16384);
    assert_eq!(direct_buffer_for(4096, 512).unwrap().size(), 4096);
    assert!(direct_buffer_for(1000, 512).is_err());
    let b = direct_buffer(512).unwrap();
    assert_eq!(b.size() % b.page_size(), 0);
    assert_eq!(b.as_ptr().as_ptr() as usize % b.page_size(), 0);
    assert!(b.size() >= 1024);
    let g = guarded_buffer().unwrap();
    assert_eq!(g.size(), 1024 * g.page_size());
    assert_eq!(g.as_ptr().as_ptr() as usize % g.page_size(), 0);
}

#[test]
fn flasher_holds_its_interface() {
    let f = Flasher::new("interface");
    assert_eq!(f.clone().interface, "interface");
}
