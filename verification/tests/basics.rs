//! Text, numbers, sizes, buffers, and the watcher.
use flashkit::aligned::{
    boundary_behind, guarded_buffer_for, page_aligned_buffer, page_aligned_buffer_for, storage_for,
    LayoutError, PageAlignedBuffer,
};
use flashkit::data_types::{calculate_size_from_bytes, BlockDevice, DeviceEvent, MountedPartition, Size};
use flashkit::decimal::{parse_u64, write_i32, write_u64, ParseIntError};
use flashkit::hashing::same_digest;
use flashkit::paths::{dev_path, is_same_path, path_component, path_components, path_file_name};
use flashkit::text::{
    has_final_digit, has_only_digits, joined, split_lines, split_whitespace, starts_with, strip_prefix, text_after_last,
    trim, trim_end_matches,
};
use flashkit::utf16::{decode, decode_wide_nul_string, split_multi_string, wide_nul};
use flashkit::watch::{announce, is_disk_change, DeviceWatcher};
use std::path::Path;

fn device(path: &str) -> BlockDevice {
    BlockDevice::new(path.to_string(), "test".to_string(), 10_000_000_000, true, 512)
}

#[test]
fn sizes_are_rounded_down() {
    assert_eq!(calculate_size_from_bytes(0), Size::Bytes(0));
    assert_eq!(calculate_size_from_bytes(1023), Size::Bytes(1023));
    assert_eq!(calculate_size_from_bytes(1024), Size::KiloByte(1));
    assert_eq!(calculate_size_from_bytes(2047), Size::KiloByte(1));
    assert_eq!(calculate_size_from_bytes(1024 * 1024), Size::MegaByte(1));
    assert_eq!(calculate_size_from_bytes(10_000_000_000), Size::GigaByte(9));
    assert_eq!(device("/dev/sda").get_sizes(), Size::GigaByte(9));
}

#[test]
fn sizes_are_shown_with_their_unit() {
    assert_eq!(Size::Bytes(7).to_text(), "7 B");
    assert_eq!(Size::KiloByte(12).to_text(), "12 KB");
    assert_eq!(Size::MegaByte(0).to_text(), "0 MB");
    assert_eq!(Size::GigaByte(u64::MAX).to_text(), "18446744073709551615 GB");
}

#[test]
fn device_tells_its_properties() {
    let d = device("/dev/null");
    assert_eq!(d.path, "/dev/null");
    assert_eq!(d.name(), "test");
    assert_eq!(d.size_in_bytes(), 10_000_000_000);
    assert!(d.removable());
    assert_eq!(d.sector_size(), 512);
    assert_eq!(d.clone(), d);
    let m = MountedPartition { device_path: "/dev/sda1".to_string(), mount_point: "/boot".to_string() };
    assert_eq!(m.device_path(), "/dev/sda1");
    assert_eq!(m.mount_point(), "/boot");
    assert_eq!(m.clone().mount_point(), m.mount_point());
}

#[test]
fn devices_are_compared_by_their_properties() {
    let make = |path: &str, name: &str, size, removable, sector| {
        BlockDevice::new(path.to_string(), name.to_string(), size, removable, sector)
    };
    let d = make("/dev/sdb", "b", 2, false, 512);
    assert_eq!(d, make("/dev/sdb", "b", 2, false, 512));
    assert_eq!(d, make("/dev//sdb/", "b", 2, false, 512));
    assert_eq!(d, make("/dev/./sdb", "b", 2, false, 512));
    assert_ne!(d, make("dev/sdb", "b", 2, false, 512));
    let larger = [
        make("/dev/sdb/x", "a", 1, false, 0),
        make("/dev/sdb-1", "a", 1, false, 0),
        make("/dev//sdb", "ba", 1, false, 0),
        make("/dev//sdb", "c", 1, false, 0),
        make("/dev/sdb", "b", 3, false, 0),
        make("/dev/sdb", "b", 2, true, 0),
        make("/dev/sdb", "b", 2, false, 513),
    ];
    for other in &larger {
        assert_ne!(&d, other);
        assert!(&d < other && other > &d);
    }
    // A longer name is larger than a directory of the shorter one, though `-` is less than `/`.
    assert!(larger[0] < larger[1]);
    let order = |p: &str, q: &str| make(p, "", 0, false, 0).partial_cmp(&make(q, "", 0, false, 0));
    let all = ["/", "/..", "/a", "/a/..", "/a/b", "/b", ".", "./a", "..", "../a", "a", "a/b", "aa", ""];
    for p in all {
        for q in all {
            assert_eq!(order(p, q), Some(Path::new(p).cmp(Path::new(q))), "{p} {q}");
        }
    }
}

#[test]
fn buffers_are_aligned_and_zeroed() {
    let (b, n) = page_aligned_buffer(3).unwrap();
    assert_eq!(n, 3 * b.page_size());
    assert_eq!(b.as_ptr().len(), n);
    assert_eq!(b.as_ptr().as_ptr() as usize % b.page_size(), 0);
    assert!(b.as_ptr().iter().all(|x| *x == 0));
    assert!(PageAlignedBuffer::new(usize::MAX).is_err());
    assert!(PageAlignedBuffer::with_page_size(1000, 1).is_err());
    assert_eq!(PageAlignedBuffer::with_page_size(4096, 0).unwrap().size(), 0);
}

#[test]
fn page_size_decides_whether_there_is_a_buffer() {
    let (b, n) = page_aligned_buffer_for(4096, 3).unwrap();
    assert_eq!((b.page_size(), b.size(), n), (4096, 12288, 12288));
    assert!(page_aligned_buffer_for(1000, 3).is_err());
    assert!(page_aligned_buffer_for(0, 3).is_err());
    assert!(page_aligned_buffer_for(4096, usize::MAX / 4096).is_err());
    assert!(page_aligned_buffer(usize::MAX).is_err());
    assert_eq!(guarded_buffer_for(512).unwrap().size(), 524288);
    assert!(guarded_buffer_for(513).is_err());
    assert!(guarded_buffer_for(0).is_err());
}

#[test]
fn buffers_are_placed_where_there_is_room() {
    // The storage, and where its first boundary is.
    let make = |n: usize| {
        let mut storage = storage_for(1, n).unwrap();
        for i in 0..n {
            storage.set(i, i as u8);
        }
        let first = boundary_behind(storage.address(), 8);
        (storage, first)
    };
    let (storage, first) = make(32);
    let b = PageAlignedBuffer::placed(storage, first, 16, 8).unwrap();
    let held: Vec<u8> = (first as u8..first as u8 + 16).collect();
    assert_eq!(b.as_ptr(), held);
    assert_eq!((b.size(), b.page_size()), (16, 8));
    let (storage, first) = make(23);
    assert!(PageAlignedBuffer::placed(storage, first, 16, 8).is_ok());
    let (storage, first) = make(23);
    assert!(PageAlignedBuffer::placed(storage, first + 8, 16, 8).is_err());
    let (storage, first) = make(23);
    assert!(PageAlignedBuffer::placed(storage, first, 24, 8).is_err());
    let (storage, _) = make(23);
    assert!(PageAlignedBuffer::placed(storage, 23, 0, 8).is_ok());
    let (storage, _) = make(23);
    assert!(PageAlignedBuffer::placed(storage, 24, 0, 8).is_err());
    assert_eq!(storage_for(8, 2).unwrap().as_slice(), [0; 23]);
    assert_eq!(storage_for(8, 0).unwrap().len(), 0);
    assert_eq!(storage_for(1, 5).unwrap().as_slice(), [0; 5]);
    assert_eq!(storage_for(6, 2).unwrap_err(), LayoutError);
    assert_eq!(storage_for(8, usize::MAX).unwrap_err(), LayoutError);
    assert_eq!(storage_for(usize::MAX / 2 + 1, 1).unwrap_err(), LayoutError);
    assert_eq!(storage_for(4096, usize::MAX / 8192 + 1).unwrap_err(), LayoutError);
}

#[test]
fn boundaries_are_the_next_multiples() {
    assert_eq!(boundary_behind(0, 4096), 0);
    assert_eq!(boundary_behind(1, 4096), 4095);
    assert_eq!(boundary_behind(4095, 4096), 1);
    assert_eq!(boundary_behind(8192, 4096), 0);
    assert_eq!(boundary_behind(usize::MAX, 4096), 1);
    assert_eq!(boundary_behind(7, 1), 0);
}

#[test]
fn memory_tells_where_it_lies() {
    let mut storage = storage_for(4, 2).unwrap();
    assert_eq!(storage.address(), storage.as_slice().as_ptr() as usize);
    storage.as_mut_slice()[3] = 7;
    storage.set(4, 8);
    assert_eq!(storage.as_slice()[2..6], [0, 7, 8, 0]);
    let moved = Box::new(storage);
    assert_eq!(moved.address(), moved.as_slice().as_ptr() as usize);
}

#[test]
fn buffers_start_on_a_page_boundary() {
    for page in [1, 2, 512, 4096, 65536] {
        for pages in [1, 2, 7] {
            let b = PageAlignedBuffer::with_page_size(page, pages).unwrap();
            assert_eq!(b.size(), page * pages);
            let moved = Box::new(b);
            assert_eq!(moved.as_ptr().as_ptr() as usize % page, 0);
        }
    }
    let mut b = guarded_buffer_for(4096).unwrap();
    b.put(4000, &[1; 200]);
    b.zero_from(4100);
    assert_eq!(b.as_mut_ptr().as_ptr() as usize % 4096, 0);
}

#[test]
fn buffers_hold_what_is_put_into_them() {
    let mut b = PageAlignedBuffer::with_page_size(8, 1).unwrap();
    b.put(2, &[1, 2, 3]);
    assert_eq!(b.as_ptr(), &[0, 0, 1, 2, 3, 0, 0, 0]);
    b.as_mut_ptr()[7] = 9;
    b.zero_from(4);
    assert_eq!(b.as_ptr(), &[0, 0, 1, 2, 0, 0, 0, 0]);
}

#[test]
fn digests_are_compared_byte_by_byte() {
    let mut other = [3u8; 32];
    assert!(same_digest(&[3; 32], &other));
    other[31] = 4;
    assert!(!same_digest(&[3; 32], &other));
}

#[test]
fn numbers_are_written_and_read() {
    assert_eq!(write_u64(0), "0");
    assert_eq!(write_u64(u64::MAX), "18446744073709551615");
    assert_eq!(write_i32(-1), "-1");
    assert_eq!(write_i32(i32::MIN), "-2147483648");
    assert_eq!(parse_u64("0042", 100), Ok(42));
    assert_eq!(parse_u64("+7", 100), Ok(7));
    assert_eq!(parse_u64("", 100), Err(ParseIntError::Empty));
    assert_eq!(parse_u64("+", 100), Err(ParseIntError::InvalidDigit));
    assert_eq!(parse_u64("-1", 100), Err(ParseIntError::InvalidDigit));
    assert_eq!(parse_u64("101", 100), Err(ParseIntError::PosOverflow));
    for n in [0u64, 9, 10, 4_294_967_295, u64::MAX] {
        assert_eq!(parse_u64(&write_u64(n), u64::MAX), Ok(n));
    }
}

#[test]
fn texts_are_taken_apart() {
    assert_eq!(joined("a", "b"), "ab");
    assert!(starts_with("/dev/sda1", "/dev/sda"));
    assert!(!starts_with("/dev", "/dev/sda"));
    assert_eq!(strip_prefix("loop3", "loop"), Some("3".to_string()));
    assert_eq!(strip_prefix("loop3", "ram"), None);
    assert!(has_only_digits("042"));
    assert!(!has_only_digits("4a"));
    assert!(!has_only_digits(""));
    assert!(has_final_digit("sda1"));
    assert!(!has_final_digit("sda"));
    assert!(!has_final_digit(""));
    assert_eq!(trim_end_matches("/dev/sda\0\0", '\0'), "/dev/sda");
    assert_eq!(trim(" \t512\n"), "512");
    assert_eq!(text_after_last("a/b/c", '/'), "c");
    assert_eq!(text_after_last("abc", '/'), "abc");
    assert_eq!(text_after_last("abc/", '/'), "");
    assert_eq!(split_whitespace("  a\tb \n c"), vec!["a", "b", "c"]);
    assert_eq!(split_lines("a\r\nb\n\nc"), vec!["a", "b", "", "c"]);
    assert_eq!(split_lines("a\n"), vec!["a"]);
    assert_eq!(split_lines("a\r"), vec!["a\r"]);
}

#[test]
fn paths_are_taken_apart() {
    assert_eq!(path_components("/sys/block/sda"), vec!["/", "sys", "block", "sda"]);
    assert_eq!(path_components("./a//b/./c/"), vec![".", "a", "b", "c"]);
    assert_eq!(path_component("/sys/block/sda", 3), Some("sda".to_string()));
    assert_eq!(path_component("/sys/block", 3), None);
    assert_eq!(path_file_name("/dev/sda"), Some("sda".to_string()));
    assert_eq!(path_file_name("/dev/sda/"), Some("sda".to_string()));
    assert_eq!(path_file_name("/"), None);
    assert_eq!(path_file_name("a/.."), None);
    assert_eq!(path_file_name(""), None);
    assert!(is_same_path("/dev//sda", "/dev/sda/"));
    assert!(!is_same_path("/dev/sda", "dev/sda"));
    assert!(is_same_path("\\\\.\\PhysicalDrive1", "\\\\.\\PhysicalDrive1"));
    assert!(!is_same_path("\\\\.\\PhysicalDrive1", "\\\\.\\PhysicalDrive2"));
    assert_eq!(dev_path("sda"), "/dev/sda");
}

#[test]
fn wide_text_is_encoded_and_decoded() {
    assert_eq!(wide_nul("C:\\"), vec![67, 58, 92, 0]);
    assert_eq!(wide_nul("\u{1f4be}"), vec![0xd83d, 0xdcbe, 0]);
    for s in ["", "Samsung USB", "\u{e9}\u{1f4be}x"] {
        assert_eq!(decode_wide_nul_string(&wide_nul(s)), s);
    }
    assert_eq!(decode_wide_nul_string(&[65, 0, 66]), "A");
    assert_eq!(decode_wide_nul_string(&[65, 66]), "AB");
    assert_eq!(decode(&[0xd83d, 65, 0xdcbe, 0xd83d]), "\u{fffd}A\u{fffd}\u{fffd}");
    for units in [vec![0xdc00u16, 0xd800, 0xd800, 0xdc00], vec![0xffff, 0xe000, 0xd7ff]] {
        assert_eq!(decode(&units), String::from_utf16_lossy(&units));
    }
}

#[test]
fn lists_of_wide_texts_are_taken_apart() {
    let mut buf = wide_nul("C:\\");
    buf.extend(wide_nul("D:\\Data\\"));
    buf.push(0);
    let entries = split_multi_string(&buf);
    assert_eq!(entries.len(), 2);
    assert_eq!(decode(&entries[0]), "C:\\");
    assert_eq!(decode(&entries[1]), "D:\\Data\\");
    assert!(split_multi_string(&[0, 65, 0]).is_empty());
    assert!(split_multi_string(&[65, 66]).is_empty());
    assert!(split_multi_string(&[]).is_empty());
}

fn paths(events: &[DeviceEvent]) -> Vec<String> {
    events
        .iter()
        .map(|e| match e {
            DeviceEvent::Added(d) => format!("+{}", d.path),
            DeviceEvent::Removed(p) => format!("-{}", p),
        })
        .collect()
}

#[test]
fn polling_tells_what_came_and_went() {
    let mut w = DeviceWatcher::new(&[device("/dev/sda"), device("/dev/sdb")]);
    assert!(w.knows("/dev//sdb"));
    let events = w.poll(&[device("/dev/sdc"), device("/dev/sdb"), device("/dev/sdc")]);
    assert_eq!(paths(&events), vec!["+/dev/sdc", "-/dev/sda"]);
    assert!(!w.knows("/dev/sda"));
    assert!(w.knows("/dev/sdc"));
    assert!(w.poll(&[device("/dev/sdc"), device("/dev/sdb")]).is_empty());
    assert_eq!(paths(&w.poll(&[])), vec!["-/dev/sdb", "-/dev/sdc"]);
}

#[test]
fn gone_drives_keep_the_text_of_their_path() {
    let mut w = DeviceWatcher::new(&[device("/dev//sda"), device("/dev/sdb")]);
    assert!(w.poll(&[device("/dev/sda"), device("/dev/sdb/")]).is_empty());
    assert_eq!(paths(&w.poll(&[device("/dev/sdb/")])), vec!["-/dev//sda"]);
    assert_eq!(paths(&w.poll(&[])), vec!["-/dev/sdb"]);
}

#[test]
fn every_drive_comes_and_goes_in_turn() {
    let first = [device("/dev/sda"), device("/dev/sdb")];
    let mut events = announce(&first);
    let mut w = DeviceWatcher::new(&first);
    for found in [&["/dev/sdb"][..], &["/dev/sda"], &["/dev/sda", "/dev/sdb"], &[]] {
        let current: Vec<BlockDevice> = found.iter().map(|p| device(p)).collect();
        events.extend(w.poll(&current));
    }
    assert_eq!(
        paths(&events),
        vec![
            "+/dev/sda", "+/dev/sdb", "-/dev/sda", "+/dev/sda", "-/dev/sdb", "+/dev/sdb", "-/dev/sda",
            "-/dev/sdb",
        ]
    );
    let block = vec!["org.freedesktop.UDisks2.Block".to_string()];
    let object = "/org/freedesktop/UDisks2/block_devices/sdb";
    let mut w = DeviceWatcher::new(&first);
    let mut events = Vec::new();
    for _ in 0..2 {
        events.extend(w.interfaces_removed(object, &block));
        events.extend(w.interfaces_removed(object, &block));
        events.extend(w.interfaces_added(object, &block, Some(device("/dev/sdb"))));
        events.extend(w.interfaces_added(object, &block, Some(device("/dev/sdb"))));
    }
    assert_eq!(paths(&events), vec!["-/dev/sdb", "+/dev/sdb", "-/dev/sdb", "+/dev/sdb"]);
}

#[test]
fn signals_tell_each_drive_once() {
    let block = vec!["org.freedesktop.UDisks2.Block".to_string()];
    let object = "/org/freedesktop/UDisks2/block_devices/sdb";
    assert!(is_disk_change(object, &block));
    assert!(!is_disk_change("/org/freedesktop/UDisks2/block_devices/sdb1", &block));
    assert!(!is_disk_change(object, &["org.freedesktop.UDisks2.Filesystem".to_string()]));
    let mut w = DeviceWatcher::new(&[]);
    assert_eq!(paths(&w.device_added(device("/dev/sdb")).into_iter().collect::<Vec<_>>()), vec!["+/dev/sdb"]);
    assert!(w.device_added(device("/dev/sdb")).is_none());
    assert!(w.interfaces_added(object, &block, Some(device("/dev/sdb"))).is_none());
    assert!(w.interfaces_added(object, &[], Some(device("/dev/sdd"))).is_none());
    assert!(w.interfaces_added(object, &block, None).is_none());
    assert!(w.interfaces_added(object, &block, Some(device("/dev/sdd"))).is_some());
    assert!(w.knows("/dev/sdd"));
    assert!(w.interfaces_removed(object, &[]).is_none());
    assert!(w.interfaces_removed("/org/freedesktop/UDisks2/block_devices/sdc", &block).is_none());
    let gone = w.interfaces_removed(object, &block);
    assert_eq!(paths(&gone.into_iter().collect::<Vec<_>>()), vec!["-/dev/sdb"]);
    assert!(w.interfaces_removed(object, &block).is_none());
}
