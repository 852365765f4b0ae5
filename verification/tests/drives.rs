//! Drives on Linux, macOS and Windows.
use flashkit::data_types::{BlockDevice, MountedPartition};
use flashkit::decimal::ParseIntError;
use flashkit::documents::can_be_read;
use flashkit::error::{FlashError, IoError, IoErrorKind};
use flashkit::linux::{
    mounted_status, mounts_of, LinuxDeviceEjector, LinuxDeviceEnumerator, LinuxDeviceUnmounter,
    LinuxDeviceWriter, LinuxImageSource, LinuxRawWriteHandle, OpenAnswer, SysEntry,
};
use flashkit::macos::{
    authopen_arguments, disk_from_entries, fetch_disk_info, recv_fd_from_authopen, to_raw_device_path,
    whole_disks, whole_disks_from_entries, AuthopenAnswer, DarwinInterface, PlistValue,
};
use flashkit::paths::path_component;
use flashkit::udisks::{
    block_obj_to_device, device_at, device_node, eject, is_block_device_path, list_devices,
    object_to_open, object_to_release, BlockObject, BlockReplies, DriveReplies, UnmountEvent,
    UnmountMachine, UnmountStage,
};
use flashkit::utf16::wide_nul;
use flashkit::volumes::{Action, Event, OpenMachine, Stage};
use flashkit::windows::{
    describe_disk, disk_number, ejected, friendly_name, get_drive_letters_for_drive,
    get_logical_mountpoints, get_single_volume_letters, has_path_end, interface_path, is_removable,
    join, list_devices as list_windows_devices, logical_device, logical_root, physical_drive_number, remove_mount_points,
    storage_device_number, unsigned, DiskClass, DiskReplies, EjectAnswer, ExtentsReply, LogicalDrive, OpenDisk,
    VolumeReplies, WindowsRawWriteHandle,
};

fn device(path: &str) -> BlockDevice {
    BlockDevice::new(path.to_string(), "test".to_string(), 10_000_000_000, true, 512)
}

fn text(s: &str) -> Result<String, IoError> {
    Ok(s.to_string())
}

fn missing() -> IoError {
    IoError { kind: IoErrorKind::NotFound, message: "no such file".to_string() }
}

fn entry(name: &str) -> SysEntry {
    SysEntry {
        path: format!("/sys/block/{name}"),
        file_name: name.to_string(),
        model: text("  Flash Drive  \n"),
        size: text("7864320\n"),
        removable: text("1\n"),
        block_size: text("512\n"),
        mounts: text("/dev/sda1 / ext4 rw 0 0\n"),
        exists_node: true,
    }
}

#[test]
fn list_devie() {
    let enumerator = LinuxDeviceEnumerator;
    let mut broken = entry("sdc");
    broken.model = Err(missing());
    let mut odd = entry("sdd");
    odd.removable = text("maybe");
    let mut gone = entry("sde");
    gone.exists_node = false;
    let found = vec![entry("loop0"), entry("sdb"), entry("zram0"), entry("ram1"), broken, odd, gone];
    let devices = enumerator.list_devices(&Ok(found));
    assert!(devices.is_ok());
    let devices = devices.unwrap();
    assert_eq!(devices.len(), 1);
    if let Some(checked) = devices.get(0) {
        let name = path_component(&checked.path, 2).unwrap();
        let corrected = entry(&name);
        assert!(LinuxDeviceEnumerator::name(&corrected.model).is_ok());
        assert!(LinuxDeviceEnumerator::path(&corrected.path).is_some());
        assert!(LinuxDeviceEnumerator::get_size_bytes(&corrected.size).is_ok());
        assert!(LinuxDeviceEnumerator::removable_status(&corrected.removable).is_ok());
    }
    assert_eq!(
        devices[0],
        BlockDevice::new("/dev/sdb".to_string(), "Flash Drive".to_string(), 7864320 * 512, true, 512)
    );
    assert_eq!(enumerator.list_devices(&Err(missing())), Err(FlashError::Io(missing())));
}

#[test]
fn kernel_files_are_read() {
    assert_eq!(LinuxDeviceEnumerator::path("/sys/block/nvme0n1"), Some("/dev/nvme0n1".to_string()));
    assert_eq!(LinuxDeviceEnumerator::path("/sys/block"), None);
    assert_eq!(LinuxDeviceEnumerator::sector_size(&text(" 4096\n")), Ok(4096));
    assert_eq!(
        LinuxDeviceEnumerator::sector_size(&text("4294967296")),
        Err(FlashError::ParseInt(ParseIntError::PosOverflow))
    );
    assert_eq!(LinuxDeviceEnumerator::get_size_bytes(&text("36028797018963968")), Ok(u64::MAX));
    assert_eq!(LinuxDeviceEnumerator::get_size_bytes(&text("3")), Ok(1536));
    assert_eq!(LinuxDeviceEnumerator::removable_status(&text("0")), Ok(false));
    assert_eq!(LinuxDeviceEnumerator::removable_status(&text("2")), Ok(false));
    assert_eq!(
        LinuxDeviceEnumerator::removable_status(&text("256")),
        Err(FlashError::ParseInt(ParseIntError::PosOverflow))
    );
    assert_eq!(
        LinuxDeviceEnumerator::removable_status(&text("\n")),
        Err(FlashError::ParseInt(ParseIntError::Empty))
    );
    assert_eq!(LinuxDeviceEnumerator::name(&Err(missing())), Err(FlashError::Io(missing())));
}

fn pairs(found: &[MountedPartition]) -> Vec<(String, String)> {
    found.iter().map(|m| (m.device_path().to_string(), m.mount_point().to_string())).collect()
}

/// What is mounted, as pairs.
fn shown(
    status: Result<Option<Vec<MountedPartition>>, FlashError>,
) -> Result<Option<Vec<(String, String)>>, FlashError> {
    status.map(|found| found.map(|f| pairs(&f)))
}

#[test]
fn mounts_are_found() {
    let mounts = "proc /proc proc rw\n/dev/sdb1 /media/BOOT vfat rw 0 0\n/dev/sdb2\n\n/dev/sda1 / ext4\n/dev/sdb3 /mnt ext4\n";
    let expected = vec![
        ("/dev/sdb1".to_string(), "/media/BOOT".to_string()),
        ("/dev/sdb3".to_string(), "/mnt".to_string()),
    ];
    let gone = Err(FlashError::DeviceNotFound("/dev/sdb".to_string()));
    let unread = Err(FlashError::Io(missing()));
    assert_eq!(pairs(&mounts_of(mounts, "/dev/sdb")), expected);
    let status = |path, mounts, exists| shown(mounted_status(path, &mounts, exists));
    assert_eq!(status("/sys/block/sdb", text(mounts), true), Ok(Some(expected.clone())));
    assert_eq!(status("/sys/block/sdc", text(mounts), true), Ok(None));
    assert!(status("/sys/block/sdb", text(mounts), false) == gone);
    assert!(status("/dev/sdb", text(mounts), true) == gone);
    assert!(status("/sys/block/sdb", Err(missing()), true) == unread);
    let left = |path, mounts, exists| {
        shown(LinuxDeviceUnmounter.is_fully_unmounted(&device(path), &mounts, exists))
    };
    assert_eq!(left("/dev/sdc", text(mounts), true), Ok(None));
    assert_eq!(left("/dev/sdb", text(mounts), true), Ok(Some(expected)));
    assert_eq!(left("/dev/sdb", text("proc /proc proc rw\n"), true), Ok(None));
    assert!(left("/dev/sdb", text(mounts), false) == gone);
    assert!(left("/dev/sdb", Err(missing()), true) == unread);
}

#[test]
fn refusals_of_the_kernel_have_errors_of_their_own() {
    let d = device("/dev/sdb");
    let path = "/dev/sdb".to_string();
    let u = LinuxDeviceUnmounter;
    assert_eq!(u.unmount_all(&d, Ok(())), Ok(()));
    assert_eq!(u.unmount_all(&d, Err(IoErrorKind::NotFound)), Err(FlashError::DeviceNotFound(path.clone())));
    assert_eq!(
        u.unmount_all(&d, Err(IoErrorKind::PermissionDenied)),
        Err(FlashError::InsufficientPrivileges)
    );
    assert_eq!(
        u.unmount_all(&d, Err(IoErrorKind::ResourceBusy)),
        Err(FlashError::DeviceBusy { path: path.clone() })
    );
    assert_eq!(
        u.unmount_all(&d, Err(IoErrorKind::Other("timed out".to_string()))),
        Err(FlashError::UnmountFailed { device: path.clone(), reason: "timed out".to_string() })
    );
    let w = LinuxDeviceWriter;
    let lock = |kind| w.open_for_writing(&d, OpenAnswer::<u8>::NotLocked(kind)).unwrap_err();
    assert_eq!(lock(IoErrorKind::NotFound), FlashError::DeviceNotFound(path.clone()));
    assert_eq!(lock(IoErrorKind::PermissionDenied), FlashError::InsufficientPrivileges);
    assert_eq!(lock(IoErrorKind::ResourceBusy), FlashError::DeviceBusy { path: path.clone() });
    assert_eq!(
        lock(IoErrorKind::Other("interrupted".to_string())),
        FlashError::FileLockFailed { device: path, reason: "interrupted".to_string() }
    );
    assert_eq!(
        w.open_for_writing(&d, OpenAnswer::<u8>::NotOpened).unwrap_err(),
        FlashError::InsufficientPrivileges
    );
    let handle = w.open_for_writing(&d, OpenAnswer::Opened(3u8)).unwrap();
    assert_eq!((handle.file, handle.sector_size()), (3, 512));
    assert_eq!(handle.size_bytes(), Ok(10_000_000_000));
    assert_eq!(LinuxRawWriteHandle::<u8>::write_at(4096, Ok(())), Ok(()));
    assert_eq!(
        LinuxRawWriteHandle::<u8>::write_at(4096, Err(missing())),
        Err(FlashError::WriteFailed { offset: 4096, source: missing() })
    );
    let e = LinuxDeviceEjector;
    assert_eq!(e.eject(Ok(()), true), Ok(()));
    assert_eq!(e.eject(Ok(()), false), Err(FlashError::SyncError));
    assert_eq!(e.eject(Err(missing()), true), Err(FlashError::Io(missing())));
    let image = LinuxImageSource::new("reader", Some(5), None);
    assert_eq!((image.reader, image.uncompressed_size(), image.expected_hash()), ("reader", Some(5), None));
}

fn replies() -> BlockReplies {
    BlockReplies {
        size: Some(1000),
        hw_sector_size: Some(4096),
        drive: Ok(DriveReplies { model: Some("Ultra".to_string()), removable: Some(true) }),
    }
}

#[test]
fn test_get() {
    let object = |node: &str| BlockObject { device: node.as_bytes().to_vec(), replies: replies() };
    let all = [object("/dev/sda\0"), object("/dev/loop0\0"), object("/dev/sda1\0"), object("/dev/sdb\0")];
    let found = list_devices(&all).unwrap();
    let nodes: Vec<&str> = found.iter().map(|d| d.path.as_str()).collect();
    assert_eq!(nodes, vec!["/dev/sda", "/dev/sdb"]);
    let mut broken = object("/dev/sdc");
    broken.replies.drive = Err("no drive".to_string());
    assert_eq!(
        list_devices(&[object("/dev/sda"), broken]),
        Err(FlashError::Zbus("no drive".to_string()))
    );
    let mut skipped = object("/dev/zram1");
    skipped.replies.drive = Err("no drive".to_string());
    assert_eq!(list_devices(&[skipped]), Ok(vec![]));
}

#[test]
fn block_objects_become_devices() {
    assert_eq!(
        device_at("/dev/sda", &replies()),
        Ok(BlockDevice::new("/dev/sda".to_string(), "Ultra".to_string(), 1000, true, 4096))
    );
    let bare = BlockReplies {
        size: None,
        hw_sector_size: None,
        drive: Ok(DriveReplies { model: None, removable: None }),
    };
    assert_eq!(
        device_at("/dev/sda", &bare),
        Ok(BlockDevice::new("/dev/sda".to_string(), "<unknown>".to_string(), 0, false, 512))
    );
    for node in [
        "/dev/loop",
        "/dev/ram",
        "/dev/zramx",
        "/dev/sda1",
        "/dev/nvme0n1p2",
        "/dev/nvme0",
        "/dev/nvmen1",
        "/dev/mmcblk0p1",
        "/dev/mmcblk0boot0",
        "/dev/sr0",
        "mmcblk0",
    ] {
        assert_eq!(device_at(node, &replies()), Err(FlashError::DeviceNotFound(node.to_string())));
    }
    for node in ["/dev/mmcblk0", "/dev/mmcblk12", "/dev/nvme0n1", "/dev/nvme10n21", "/dev/sdaa"] {
        assert_eq!(device_at(node, &replies()).unwrap().path, node);
    }
    assert_eq!(device_node(b"/dev/sda\0\0"), "/dev/sda");
    assert_eq!(device_node(b"/dev/\xffsda"), "/dev/\u{fffd}sda");
    let object = BlockObject { device: Vec::new(), replies: replies() };
    assert_eq!(block_obj_to_device(&object).unwrap().path, "");
}

#[test]
fn objects_are_named_after_devices() {
    assert!(is_block_device_path("/org/freedesktop/UDisks2/block_devices/sdb"));
    assert!(!is_block_device_path("/org/freedesktop/UDisks2/block_devices/sdb1"));
    assert!(is_block_device_path("/org/freedesktop/UDisks2/block_devices/mmcblk0"));
    assert!(!is_block_device_path("/org/freedesktop/UDisks2/block_devices/mmcblk0p1"));
    assert!(is_block_device_path("/org/freedesktop/UDisks2/block_devices/nvme0n1"));
    assert!(!is_block_device_path("/org/freedesktop/UDisks2/block_devices/nvme0n1p2"));
    assert!(!is_block_device_path("/org/freedesktop/UDisks2/block_devices/"));
    assert!(!is_block_device_path("/org/freedesktop/UDisks2/drives/sdb"));
    let object = "/org/freedesktop/UDisks2/block_devices/sdb".to_string();
    assert_eq!(object_to_release(&device("/dev/sdb")), Ok(object.clone()));
    assert_eq!(object_to_open(&device("/dev/sdb")), Ok(object));
    assert_eq!(
        object_to_release(&device("/")),
        Err(FlashError::DeviceBusy { path: "/".to_string() })
    );
    assert_eq!(object_to_open(&device("..")), Err(FlashError::DeviceNotFound("..".to_string())));
    assert_eq!(eject(&device("/dev/sdb"), true), Ok(()));
    assert_eq!(
        eject(&device("/dev/sdb"), false),
        Err(FlashError::DeviceBusy { path: "/dev/sdb".to_string() })
    );
}

#[test]
fn partitions_on_the_same_drive_are_unmounted() {
    let mut m = UnmountMachine::new(&device("/dev/sdb"));
    assert_eq!(m.stage(), UnmountStage::List);
    assert!(!m.accepts(&UnmountEvent::Absent));
    m.step(UnmountEvent::Listed(5));
    m.step(UnmountEvent::Drive("/drives/ultra"));
    let child = |drive, node, mounted| UnmountEvent::Child { drive, node, mounted };
    let mut asked = Vec::new();
    let mut unmounted = Vec::new();
    let answers = [
        Some((Some("/drives/ultra"), "/dev/sdb", true)),
        Some((Some("/drives/other"), "/dev/sda1", true)),
        None,
        Some((Some("/drives/ultra"), "/dev/sdb1", true)),
        Some((Some("/drives/ultra"), "/dev/sdb2", false)),
    ];
    while m.stage() != UnmountStage::Finished {
        if m.stage() == UnmountStage::AskChild {
            asked.push(m.at());
            match answers[m.at()] {
                Some((drive, node, mounted)) => m.step(child(drive, node, mounted)),
                None => m.step(UnmountEvent::Absent),
            }
        } else {
            unmounted.push(m.at());
            m.step(UnmountEvent::Unmounted);
        }
    }
    assert_eq!(m.into_outcome(), Ok(()));
    assert_eq!(asked, vec![0, 1, 2, 3, 4]);
    assert_eq!(unmounted, vec![0, 3]);
}

#[test]
fn unmounting_can_fail() {
    let mut m = UnmountMachine::new(&device("/dev/sdb"));
    m.step(UnmountEvent::Listed(1));
    m.step(UnmountEvent::Drive("d"));
    m.step(UnmountEvent::Child { drive: Some("d"), node: "/dev/sdb1", mounted: true });
    m.step(UnmountEvent::Refused);
    assert_eq!(m.into_outcome(), Err(FlashError::DeviceBusy { path: "/dev/sdb1".to_string() }));
    let m = UnmountMachine::new(&device("/"));
    assert_eq!(m.into_outcome(), Err(FlashError::DeviceBusy { path: "/".to_string() }));
    let mut m = UnmountMachine::new(&device("/dev/sdb"));
    m.step(UnmountEvent::Failed(FlashError::Zbus("down".to_string())));
    assert_eq!(m.into_outcome(), Err(FlashError::Zbus("down".to_string())));
}

fn plist(body: &str) -> Vec<u8> {
    format!(
        "<?xml version=\"1.0\" encoding=\"UTF-8\"?>\n<plist version=\"1.0\">{body}</plist>\n"
    )
    .into_bytes()
}

#[test]
fn disk_info_is_read() {
    let info = plist(
        "<dict><key>DeviceNode</key><string>/dev/disk2</string>\
         <key>TotalSize</key><integer>31914983424</integer>\
         <key>DeviceBlockSize</key><integer>4096</integer>\
         <key>RemovableMedia</key><true/>\
         <key>MediaName</key><string>Ultra</string>\
         <key>DeviceIdentifier</key><string>disk2</string></dict>",
    );
    let expected =
        BlockDevice::new("/dev/disk2".to_string(), "Ultra".to_string(), 31914983424, true, 4096);
    assert_eq!(fetch_disk_info(&info), Ok(("/dev/disk2".to_string(), expected)));
    let bare = BlockDevice::new("".to_string(), "Unknown Drive".to_string(), 0, false, 512);
    assert_eq!(fetch_disk_info(&plist("<dict/>")), Ok(("".to_string(), bare)));
    assert_eq!(
        fetch_disk_info(&plist("<array/>")),
        Err(FlashError::FilesystemError("Invalid plist structure".to_string()))
    );
    assert!(matches!(fetch_disk_info(b"<plist"), Err(FlashError::FilesystemError(_))));
    let devices = DarwinInterface.list_devices(&[plist("<array/>"), info, b"no".to_vec()]);
    assert_eq!(devices.len(), 1);
    assert_eq!(devices[0].1.path, "/dev/disk2");
}

/// The name of the disk that a document tells, or the error.
fn disk_name(document: &[u8]) -> Result<String, FlashError> {
    fetch_disk_info(document).map(|(_, device)| device.name)
}

fn refused() -> FlashError {
    FlashError::FilesystemError("unsupported property list".to_string())
}

fn binary(value: &plist::Value) -> Vec<u8> {
    let mut bytes = Vec::new();
    value.to_writer_binary(&mut bytes).unwrap();
    bytes
}

fn dictionary(entries: &[(&str, plist::Value)]) -> plist::Value {
    let mut d = plist::Dictionary::new();
    for (key, value) in entries {
        d.insert(key.to_string(), value.clone());
    }
    plist::Value::Dictionary(d)
}

#[test]
fn property_lists_of_every_style_are_read() {
    let apple = b"<?xml version=\"1.0\" encoding=\"UTF-8\"?>\n\
        <!DOCTYPE plist PUBLIC \"-//Apple//DTD PLIST 1.0//EN\" \
        \"http://www.apple.com/DTDs/PropertyList-1.0.dtd\">\n\
        <plist version=\"1.0\">\n<dict>\n\t<key>MediaName</key>\n\t<string>Ultra</string>\n\
        </dict>\n</plist>\n";
    let name = "<key>MediaName</key><string>Ultra</string>";
    let documents = [
        String::from_utf8(apple.to_vec()).unwrap(),
        format!("<plist><dict>{name}</dict></plist>"),
        format!("\u{feff}<?xml version='1.0'?><plist><dict>{name}</dict></plist>"),
        format!("<plist><!-- <dict> ' --><dict a='>'>{name}</dict></plist>"),
        format!("<plist><![CDATA[<date>]]><?do <dict> ?><dict b=\"<\">{name}</dict ></plist>"),
        format!("<!DOCTYPE plist [<!ENTITY a '>'><!-- ]> --><?p ]>?><!ELEMENT x>]><dict>{name}</dict>"),
        format!("<dict><key>Made</key><date>2024-05-01T10:00:00+02:00</date>{name}</dict>"),
        format!("<x:dict><key>Made</key><x:date>0000-01-01T00:00:00Z</x:date>{name}</x:dict>"),
        format!("<dict><key>Made</key><date>9999-12-31T23:59:59+01:00</date>{name}</dict>"),
        format!("<dict><key>Made</key><date>0000-01-01T01:00:00+01:00</date>{name}</dict>"),
        format!("<dict><key>Made</key><date>2024-05-01T10:00:00<!-- -->&#90;</date>{name}</dict>"),
        "{ MediaName = \"Ultra\"; Deep = ((a, b), (c)); }".to_string(),
        "/* {((( */ { MediaName = Ultra ; } // (((".to_string(),
    ];
    for document in &documents {
        assert!(can_be_read(document.as_bytes()), "{document}");
        assert_eq!(disk_name(document.as_bytes()), Ok("Ultra".to_string()), "{document}");
    }
    let day = plist::Date::from_xml_format("1981-05-16T11:32:06Z").unwrap();
    let value = dictionary(&[
        ("MediaName", "Ultra".into()),
        ("Made", plist::Value::Date(day)),
        ("Deep", plist::Value::Array(vec![plist::Value::Array(vec![1.into(), true.into()])])),
    ]);
    assert_eq!(disk_name(&binary(&value)), Ok("Ultra".to_string()));
}

#[test]
fn mistakes_in_property_lists_are_told() {
    let documents: [&[u8]; 12] = [
        b"bplist00",
        b"bplist00\xd0\x08",
        b"<plist",
        b"",
        b"<plist><dict></plist>",
        b"<dict><!x></dict>",
        b"<dict><key>a</key><date>0000-01-01</date></dict>",
        b"<dict><key>a</key><date/></dict>",
        b"<plist><!-- no end",
        b"{ a = \"no end; }",
        b"(a, b)  (c)",
        b"<dict><key>a</key><string>\xff</string></dict>",
    ];
    for document in documents {
        let text = plist::from_bytes::<plist::Value>(document).unwrap_err().to_string();
        assert_eq!(fetch_disk_info(document), Err(FlashError::FilesystemError(text.clone())));
        assert_eq!(whole_disks(true, document), Err(FlashError::FilesystemError(text)));
    }
}

#[test]
fn dates_beyond_the_years_are_refused() {
    for date in [
        "<date>0000-01-01T00:00:00+01:00</date>",
        "<date>0000-01-01T12:29:59.5+12:30</date>",
        "<date>9999-12-31T23:59:59-00:01</date>",
        "<date >9999-12-31T23:59:59-01:00</date>",
        "<x:date>9999-12-31T23:59:59-01:00</x:date>",
        "<date>9999-12-31<!-- -->T23:59:59-01:00</date>",
        "<date>9999-12-31T23:59:59&#x2d;01:00</date>",
        "<date>&#57;999-12-31 23:59:59-01:00</date>",
        "<date>9999-12-31&amp;23:59:59-01:00&none;</date>",
    ] {
        let body = format!("<dict><key>Made</key>{date}</dict>");
        assert!(!can_be_read(&plist(&body)), "{date}");
        assert_eq!(fetch_disk_info(&plist(&body)), Err(refused()));
        assert_eq!(whole_disks(true, &plist(&body)), Err(refused()));
        let hidden = format!("<dict><![CDATA[{date}]]><key>a</key><true/></dict>");
        assert!(fetch_disk_info(&plist(&hidden)).is_ok());
    }
    let day = plist::Date::from_xml_format("0000-01-01T00:00:00Z").unwrap();
    let mut bytes = binary(&dictionary(&[("Made", plist::Value::Date(day))]));
    assert!(fetch_disk_info(&bytes).is_ok());
    let first = (-63145526400.0f64).to_bits().to_be_bytes();
    let at = bytes.windows(8).position(|w| w == first).unwrap();
    bytes[at..at + 8].copy_from_slice(&(-63145526401.0f64).to_bits().to_be_bytes());
    assert_eq!(fetch_disk_info(&bytes), Err(refused()));
}

#[test]
fn deep_property_lists_are_refused() {
    let nested = |depth: usize| {
        let body = "<array>".repeat(depth) + &"</array>".repeat(depth);
        plist(&format!("<dict><key>Deep</key>{body}</dict>"))
    };
    assert!(fetch_disk_info(&nested(127)).is_ok());
    assert_eq!(fetch_disk_info(&nested(128)), Err(refused()));
    assert_eq!(fetch_disk_info(&nested(100_000)), Err(refused()));
    let hidden = "<!-- <array> -->".repeat(200) + "<![CDATA[</array>]]>";
    assert!(fetch_disk_info(&plist(&format!("<dict>{hidden}</dict>"))).is_ok());
    let flat = "<array></array><array/>".repeat(100);
    assert!(whole_disks(true, &plist(&format!("<array>{flat}</array>"))).is_ok());
    let text = |depth: usize| format!("{{ a = {}{}; }}", "( ".repeat(depth), ") ".repeat(depth));
    assert!(fetch_disk_info(text(127).as_bytes()).is_ok());
    assert_eq!(fetch_disk_info(text(128).as_bytes()), Err(refused()));
    let quoted = format!("{{ a = \"{}\\\"(\"; b = ('('); }}", "(".repeat(300));
    assert!(fetch_disk_info(quoted.as_bytes()).is_ok());
    let deep = |depth: usize| {
        let mut value = plist::Value::Array(Vec::new());
        for _ in 1..depth {
            value = plist::Value::Array(vec![value]);
        }
        binary(&dictionary(&[("Deep", value)]))
    };
    assert!(fetch_disk_info(&deep(127)).is_ok());
    assert_eq!(fetch_disk_info(&deep(128)), Err(refused()));
    let devices = DarwinInterface.list_devices(&[nested(200), plist("<dict/>")]);
    assert_eq!(devices.len(), 1);
}

/// A binary property list of `n` arrays, each of which holds the next one twice.
fn doubling(n: u8) -> Vec<u8> {
    let mut bytes = b"bplist00".to_vec();
    let mut offsets = Vec::new();
    for i in 0..n {
        offsets.push(bytes.len() as u8);
        bytes.extend_from_slice(&[0xa2, i + 1, i + 1]);
    }
    offsets.push(bytes.len() as u8);
    bytes.push(0x09);
    let table = bytes.len() as u8;
    bytes.extend_from_slice(&offsets);
    bytes.extend_from_slice(&[0, 0, 0, 0, 0, 0, 1, 1]);
    bytes.extend_from_slice(&[0, 0, 0, 0, 0, 0, 0, n + 1]);
    bytes.extend_from_slice(&[0; 8]);
    bytes.extend_from_slice(&[0, 0, 0, 0, 0, 0, 0, table]);
    bytes
}

#[test]
fn property_lists_that_unfold_are_refused() {
    let no_dictionary = FlashError::FilesystemError("Invalid plist structure".to_string());
    assert_eq!(fetch_disk_info(&doubling(3)), Err(no_dictionary));
    assert_eq!(fetch_disk_info(&doubling(60)), Err(refused()));
}

#[test]
fn entries_of_a_wrong_kind_count_as_missing() {
    let d = |key: &str, value| (key.to_string(), value);
    let named = disk_from_entries(&[
        d("MediaName", PlistValue::Flag(true)),
        d("DeviceIdentifier", PlistValue::Text("disk4".to_string())),
        d("TotalSize", PlistValue::Integer(None)),
        d("RemovableMedia", PlistValue::Flag(false)),
        d("DeviceNode", PlistValue::Other),
    ]);
    assert_eq!(named.1.name, "Unknown Drive");
    assert_eq!(named.1.size_bytes, 0);
    let named = disk_from_entries(&[d("DeviceIdentifier", PlistValue::Text("disk4".to_string()))]);
    assert_eq!(named.1.name, "disk4");
}

#[test]
fn whole_disks_are_listed() {
    let list = plist(
        "<dict><key>WholeDisks</key><array><string>disk0</string><integer>1</integer>\
         <string>disk2</string></array></dict>",
    );
    assert_eq!(whole_disks(true, &list), Ok(vec!["disk0".to_string(), "disk2".to_string()]));
    assert_eq!(whole_disks(true, &plist("<dict/>")), Ok(vec![]));
    assert_eq!(whole_disks(true, &plist("<array/>")), Ok(vec![]));
    assert_eq!(
        whole_disks(false, &list),
        Err(FlashError::FilesystemError("Failed executing diskutil list".to_string()))
    );
    assert!(whole_disks(true, b"").is_err());
    let items = vec![Some("disk1".to_string()), None];
    let entries = [("WholeDisks".to_string(), PlistValue::List(items))];
    assert_eq!(whole_disks_from_entries(&entries), vec!["disk1"]);
}

#[test]
fn raw_paths_are_found() {
    assert_eq!(to_raw_device_path("/dev/disk2"), "/dev/rdisk2");
    assert_eq!(to_raw_device_path("/dev/rdisk2"), "/dev/rdisk2");
    assert_eq!(to_raw_device_path("/dev//disk2s1/"), "/dev/rdisk2s1");
    assert_eq!(to_raw_device_path("disk2"), "disk2");
    assert_eq!(to_raw_device_path("/tmp/disk2"), "/tmp/disk2");
    assert_eq!(to_raw_device_path("/tmp/disk.img"), "/tmp/disk.img");
    assert_eq!(to_raw_device_path("/dev/disk"), "/dev/disk");
    assert_eq!(to_raw_device_path("/dev/disk/by-id"), "/dev/disk/by-id");
    assert_eq!(to_raw_device_path("/dev/null"), "/dev/null");
    assert_eq!(to_raw_device_path("/"), "/");
    assert_eq!(to_raw_device_path(&to_raw_device_path("/dev/disk12")), "/dev/rdisk12");
}

#[test]
fn mac_drives_are_opened_and_released() {
    let d = device("/dev/disk2");
    let mac = DarwinInterface;
    assert_eq!(mac.eject(&d, true), Ok(()));
    assert_eq!(mac.eject(&d, false), Err(FlashError::DeviceBusy { path: "/dev/disk2".to_string() }));
    assert_eq!(mac.unmount(&d, true, b"noise"), Ok(()));
    assert_eq!(
        mac.unmount(&d, false, b"in use \xff"),
        Err(FlashError::UnmountFailed {
            device: "/dev/disk2".to_string(),
            reason: "in use \u{fffd}".to_string()
        })
    );
    assert_eq!(authopen_arguments(130, "/dev/rdisk2"), vec!["-stdoutpipe", "-o", "130", "/dev/rdisk2"]);
    let failed = |answer: AuthopenAnswer<u8>| mac.open_for_writing(&d, answer).unwrap_err();
    let text = |s: &str| FlashError::FilesystemError(s.to_string());
    assert_eq!(
        failed(AuthopenAnswer::NoSocket("x".to_string())),
        text("failed to create socketpair: x")
    );
    assert_eq!(failed(AuthopenAnswer::NotSpawned("x".to_string())), text("failed to spawn authopen: x"));
    assert_eq!(
        failed(AuthopenAnswer::Exited("exit status: 1".to_string())),
        text("authopen exited with exit status: 1 while opening /dev/rdisk2")
    );
    assert_eq!(failed(AuthopenAnswer::Failed(FlashError::Io(missing()))), FlashError::Io(missing()));
    assert_eq!(failed(AuthopenAnswer::Unfinished), FlashError::SyncError);
    let handle = mac.open_for_writing(&d, AuthopenAnswer::Opened(8u8)).unwrap();
    assert_eq!((handle.file, handle.sector_size()), (8, 512));
    assert_eq!(handle.size_bytes(), Ok(10_000_000_000));
}

#[test]
fn descriptors_are_received() {
    assert_eq!(recv_fd_from_authopen(1, vec![vec![], vec![4, 5], vec![6]]), Ok(4));
    assert_eq!(
        recv_fd_from_authopen(0, vec![vec![4]]),
        Err(FlashError::FilesystemError(
            "authopen: authorisation denied or device unavailable".to_string()
        ))
    );
    assert_eq!(
        recv_fd_from_authopen(1, vec![Vec::<i32>::new()]),
        Err(FlashError::FilesystemError(
            "authopen: control message absent \u{2014} no file descriptor received".to_string()
        ))
    );
}

#[test]
fn disk_numbers_are_read_from_paths() {
    assert_eq!(physical_drive_number(r"\\.\PhysicalDrive2"), Ok(2));
    assert_eq!(physical_drive_number(r"\\.\pHYSICALdRIVE4294967295"), Ok(u32::MAX));
    let text = |s: &str| Err(FlashError::FilesystemError(s.to_string()));
    assert_eq!(
        physical_drive_number(r"\\.\C:"),
        text(r"path does not look like a physical drive: '\\.\C:'")
    );
    assert_eq!(
        physical_drive_number(r"\\.\PhysicalDrive"),
        text(r"invalid drive number in path: '\\.\PhysicalDrive'")
    );
    assert_eq!(
        physical_drive_number(r"\\.\PhysicalDrive+1"),
        text(r"invalid drive number in path: '\\.\PhysicalDrive+1'")
    );
    assert_eq!(
        physical_drive_number(r"\\.\PhysicalDrive4294967296"),
        text(r"cannot parse drive number from '\\.\PhysicalDrive4294967296'")
    );
}

fn extents(count: u32, disk_number: u32) -> Option<ExtentsReply> {
    Some(ExtentsReply { count, disk_number })
}

#[test]
fn disks_behind_handles_are_numbered() {
    assert_eq!(storage_device_number(Ok(8)), Some(8));
    assert_eq!(storage_device_number(Err("not supported".to_string())), None);
    assert_eq!(disk_number(extents(1, 7), None), Some(7));
    assert_eq!(disk_number(extents(1, 7), Some(9)), Some(9));
    assert_eq!(disk_number(extents(0, 7), Some(9)), Some(9));
    assert_eq!(disk_number(extents(0, 7), None), None);
    assert_eq!(disk_number(extents(2, 7), None), None);
    assert_eq!(disk_number(extents(2, 7), Some(9)), None);
    assert_eq!(disk_number(extents(3, 7), Some(7)), None);
    assert_eq!(disk_number(None, None), None);
    assert_eq!(disk_number(None, Some(u32::MAX)), None);
    assert_eq!(disk_number(None, Some(0x8000_0000)), Some(i32::MIN));
    assert_eq!(unsigned(-2), u32::MAX - 1);
    assert_eq!(unsigned(i32::MAX), 0x7fff_ffff);
}

fn volume(number: Option<u32>, names: &[&str]) -> VolumeReplies {
    let mut buf: Vec<u16> = names.iter().flat_map(|n| wide_nul(n)).collect();
    buf.push(0);
    VolumeReplies { device_number: number, required_chars: buf.len() as u32, names: Some(buf) }
}

#[test]
fn drive_letters_are_collected() {
    let volumes = [
        volume(Some(2), &["E:\\", "C:\\mnt\\"]),
        volume(Some(1), &["C:\\"]),
        volume(None, &["F:\\"]),
        VolumeReplies { device_number: Some(2), required_chars: 0, names: None },
        volume(Some(2), &["G:\\"]),
    ];
    let letters = get_drive_letters_for_drive(device(r"\\.\PhysicalDrive2"), &volumes);
    assert_eq!(letters, vec!["E:\\", "C:\\mnt\\", "G:\\"]);
    assert!(get_drive_letters_for_drive(device("/dev/sda"), &volumes).is_empty());
    assert_eq!(get_single_volume_letters(&volumes[1], 2), None);
    assert_eq!(get_single_volume_letters(&volumes[3], 2), Some(vec![]));
}

#[test]
fn mount_points_to_remove_are_ended_by_nul() {
    let mut buf = wide_nul("E:\\");
    buf.push(0);
    assert_eq!(remove_mount_points(5, Some(&buf)), vec![wide_nul("E:\\")]);
    assert!(remove_mount_points(0, Some(&buf)).is_empty());
    assert!(remove_mount_points(5, None).is_empty());
}

#[test]
fn logical_drives_are_matched() {
    let mut drives = [LogicalDrive { drive_type: 3, device_number: Some(1) }; 26];
    drives[3] = LogicalDrive { drive_type: 2, device_number: Some(1) };
    drives[4] = LogicalDrive { drive_type: 5, device_number: Some(1) };
    drives[5] = LogicalDrive { drive_type: 3, device_number: None };
    drives[25] = LogicalDrive { drive_type: 3, device_number: Some(2) };
    let mask = (1 << 2) | (1 << 3) | (1 << 4) | (1 << 5) | (1 << 25);
    assert_eq!(get_logical_mountpoints(mask, &drives, 1), vec!["C:\\", "D:\\"]);
    assert_eq!(get_logical_mountpoints(mask, &drives, 2), vec!["Z:\\"]);
    assert!(get_logical_mountpoints(0, &drives, 1).is_empty());
    assert_eq!(logical_root(2), "C:\\");
    assert_eq!(logical_device(2), r"\\.\C:");
}

fn detail(path: &str) -> Vec<u8> {
    let mut bytes = vec![8, 0, 0, 0];
    for unit in wide_nul(path) {
        bytes.extend_from_slice(&unit.to_le_bytes());
    }
    bytes
}

fn disk() -> DiskReplies {
    let mut name = wide_nul("Ultra");
    name.resize(260, 0);
    DiskReplies {
        removal_policy: Some(3),
        friendly_name: Some(name),
        has_interface: true,
        detail: Some(detail(r"\\?\usbstor")),
        opened: Some(OpenDisk {
            size: 31914983424,
            bytes_per_sector: 512,
            extents: None,
            device_number: Some(2),
            mountpoints: vec!["D:\\".to_string(), "E:\\".to_string()],
        }),
    }
}

#[test]
fn disks_are_described() {
    let expected = BlockDevice::new(
        r"\\.\PhysicalDrive2".to_string(),
        "Ultra".to_string(),
        31914983424,
        true,
        512,
    );
    assert_eq!(physical_drive_number(&expected.path), Ok(2));
    assert_eq!(describe_disk(&disk(), 8), Some(("D:\\, E:\\".to_string(), expected)));
    let mut d = disk();
    d.friendly_name = None;
    assert_eq!(describe_disk(&d, 8), None);
    let mut d = disk();
    d.friendly_name = Some(vec![0; 260]);
    assert_eq!(describe_disk(&d, 8), None);
    let mut d = disk();
    d.has_interface = false;
    assert_eq!(describe_disk(&d, 8), None);
    let mut d = disk();
    d.detail = None;
    assert_eq!(describe_disk(&d, 8), None);
    assert_eq!(describe_disk(&disk(), 1000), None);
    let mut d = disk();
    d.opened = None;
    assert_eq!(describe_disk(&d, 8), None);
    let mut d = disk();
    d.opened.as_mut().unwrap().device_number = None;
    assert_eq!(describe_disk(&d, 8), None);
    let mut d = disk();
    d.removal_policy = Some(1);
    d.opened.as_mut().unwrap().size = -1;
    d.opened.as_mut().unwrap().mountpoints.clear();
    let (shown, device) = describe_disk(&d, 8).unwrap();
    assert_eq!((shown.as_str(), device.is_removable, device.size_bytes), ("", false, u64::MAX));
    assert_eq!(list_windows_devices(&DiskClass::Found(vec![d, disk()]), 8).unwrap().len(), 2);
    assert_eq!(
        list_windows_devices(&DiskClass::Failed("denied".to_string()), 8),
        Err(FlashError::WindowsError("denied".to_string()))
    );
    assert_eq!(list_windows_devices(&DiskClass::Invalid, 8), Err(FlashError::WindowsGenericError));
}

#[test]
fn parts_of_a_description_are_read() {
    assert!(is_removable(Some(2)));
    assert!(!is_removable(None));
    assert_eq!(friendly_name(Some(&[65, 0])), Some("A".to_string()));
    assert_eq!(friendly_name(Some(&[0])), None);
    assert_eq!(join(&["a".to_string(), "b".to_string(), "c".to_string()], ", "), "a, b, c");
    let bytes = detail("ab");
    assert!(has_path_end(&bytes));
    assert!(!has_path_end(&[8, 0, 0, 0, 65, 0]));
    assert_eq!(interface_path(8, Some(&bytes)), Some(vec![97, 98, 0]));
    assert_eq!(interface_path(100, Some(&bytes)), None);
    assert_eq!(interface_path(8, None), None);
}

#[test]
fn windows_handle_needs_an_open_disk() {
    let empty = WindowsRawWriteHandle::<u8>::empty();
    assert_eq!(empty.open_file(), Err(FlashError::WindowsHandle));
    let target = |path: &str| Ok(path.to_string());
    assert_eq!(empty.eject(&device(r"\\.\PhysicalDrive3")), target(r"\\.\PhysicalDrive3"));
    assert_eq!((empty.sector_size(), empty.size_bytes()), (0, Ok(0)));
    let handle = WindowsRawWriteHandle::open_for_writing(&device(r"\\.\PhysicalDrive1"), 5u8, vec![6]);
    assert_eq!(handle.open_file(), Ok(&5));
    assert_eq!(handle.eject(&device(r"\\.\PhysicalDrive1")), target(r"\\.\PhysicalDrive1"));
    assert_eq!(ejected(EjectAnswer::Ejected), Ok(()));
    assert_eq!(ejected(EjectAnswer::NotOpened(missing())), Err(FlashError::Io(missing())));
    assert_eq!(
        ejected(EjectAnswer::Refused("in use".to_string())),
        Err(FlashError::WindowsError("in use".to_string()))
    );
    assert_eq!((handle.sector_size(), handle.size_bytes()), (512, Ok(10_000_000_000)));
}

/// Opens disk 2 on a system with these volumes, of which the locks are refused as
/// often as `refusals` says, and the disk itself as often as `busy` says.
fn open(volumes: &[(&str, Option<u32>)], refusals: u32, busy: u32) -> (Result<(), FlashError>, Vec<String>) {
    let mut m = OpenMachine::new(r"\\.\PhysicalDrive2");
    let names: Vec<Vec<u16>> = volumes.iter().map(|v| wide_nul(v.0)).collect();
    let mut at = 0;
    let mut refused = 0;
    let mut tried = 0;
    let mut log = Vec::new();
    loop {
        let event = match m.action() {
            Action::FindFirst if names.is_empty() => Event::FindFailed,
            Action::FindFirst => Event::Volume(&names[0]),
            Action::FindNext => {
                at += 1;
                if at < names.len() {
                    Event::Volume(&names[at])
                } else {
                    Event::NoMoreVolumes
                }
            }
            Action::Query(path) => {
                log.push(format!("query {path}"));
                Event::Queried(volumes[at].1)
            }
            Action::OpenVolume(path) => {
                log.push(format!("open {path}"));
                Event::Done
            }
            Action::Lock => {
                refused += 1;
                if refused <= refusals {
                    Event::NotLocked
                } else {
                    log.push("lock".to_string());
                    Event::Done
                }
            }
            Action::Pause(millis) => {
                log.push(format!("pause {millis}"));
                Event::Done
            }
            Action::Dismount => {
                log.push("dismount".to_string());
                Event::Done
            }
            Action::RemoveMountPoints(name) => {
                log.push(format!("clean {name}"));
                Event::Done
            }
            Action::OpenDrive(path) => {
                tried += 1;
                if tried <= busy {
                    Event::NotOpened(missing())
                } else {
                    log.push(format!("drive {path}"));
                    Event::Done
                }
            }
            Action::Finish => break,
        };
        assert!(m.accepts(&event));
        m.step(event);
    }
    (m.into_outcome(), log)
}

#[test]
fn volumes_of_the_disk_are_locked_and_dismounted() {
    let volumes = [(r"\\?\Volume{1}\", Some(1)), (r"\\?\Volume{2}\", Some(2)), (r"\\?\Volume{3}\", None)];
    let (outcome, log) = open(&volumes, 1, 1);
    assert_eq!(outcome, Ok(()));
    assert_eq!(
        log,
        vec![
            r"query \\?\Volume{1}",
            r"query \\?\Volume{2}",
            r"open \\?\Volume{2}",
            "pause 250",
            "lock",
            "dismount",
            r"clean \\?\Volume{2}\",
            r"query \\?\Volume{3}",
            "pause 100",
            r"drive \\.\PhysicalDrive2",
        ]
    );
}

#[test]
fn locks_and_disks_are_tried_ten_times() {
    let volumes = [(r"\\?\Volume{2}\", Some(2))];
    assert_eq!(open(&volumes, 9, 9).0, Ok(()));
    let (outcome, log) = open(&volumes, 10, 0);
    assert_eq!(outcome, Err(FlashError::FilesystemError("Failed to lock volume".to_string())));
    assert_eq!(log.iter().filter(|l| l.as_str() == "pause 250").count(), 10);
    let (outcome, log) = open(&volumes, 0, 10);
    assert_eq!(outcome, Err(FlashError::Io(missing())));
    assert_eq!(log.iter().filter(|l| l.as_str() == "pause 100").count(), 10);
}

#[test]
fn opening_fails_with_the_reason() {
    let text = |s: &str| Err(FlashError::FilesystemError(s.to_string()));
    assert_eq!(open(&[], 0, 0).0, text("FindFirstVolumeW failed"));
    assert_eq!(
        OpenMachine::new("/dev/sda").into_outcome(),
        text("path does not look like a physical drive: '/dev/sda'")
    );
    let mut m = OpenMachine::new(r"\\.\PhysicalDrive2");
    m.step(Event::FindInvalid);
    assert_eq!(m.into_outcome(), Err(FlashError::SyncError));
    let name = wide_nul("v");
    let stages = [
        (0, "Failed to query volume attributes: why"),
        (1, "Access denied opening volume: why"),
        (2, "Failed to dismount volume: why"),
    ];
    for (steps, reason) in stages {
        let mut m = OpenMachine::new(r"\\.\PhysicalDrive2");
        m.step(Event::Volume(&name));
        if steps > 0 {
            m.step(Event::Queried(Some(2)));
        }
        if steps > 1 {
            m.step(Event::Done);
            assert_eq!(m.stage(), Stage::Lock);
            m.step(Event::Done);
        }
        m.step(Event::Failed("why".to_string()));
        assert_eq!(m.into_outcome(), text(reason));
    }
}
