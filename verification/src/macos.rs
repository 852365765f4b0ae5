//! Drives on macOS, as `diskutil` tells them, and the raw device that `authopen`
//! hands out.
use crate::data_types::{BlockDevice, BlockDeviceView};
use crate::decimal::{decimal, write_u64};
use crate::error::{result_view, FlashError, FlashErrorView, FlashResult};
use crate::documents::{can_be_read, is_harmless};
use crate::paths::{dev_node, dev_path, file_name, is_same_path, lemma_dev_node_name, lemma_file_name_plain, path_file_name, same_path};
use crate::text::{chars_of, from_utf8_lossy, is_digit, joined, joined3, same_text, starts_with, texts_of, utf8_lossy};
use vstd::prelude::*;
use vstd::utf8::{decode_utf8, valid_utf8};

verus! {

/// The drives of a Mac.
#[derive(Debug, Clone, Copy)]
pub struct DarwinInterface;

/// A value in a property list.
#[derive(Debug, PartialEq, Eq)]
pub enum PlistValue {
    /// A string
    Text(String),
    /// An integer, if it is not negative
    Integer(Option<u64>),
    /// A boolean
    Flag(bool),
    /// An array: those of its items that are strings
    List(Vec<Option<String>>),
    /// Anything else
    Other,
}

/// A value in a property list, as contracts speak of it.
pub enum PlistView {
    Text(Seq<char>),
    Integer(Option<u64>),
    Flag(bool),
    List(Seq<Option<Seq<char>>>),
    Other,
}

/// A text that may be missing, as contracts speak of it.
pub open spec fn maybe_text(t: Option<String>) -> Option<Seq<char>> {
    match t {
        Some(s) => Some(s@),
        None => None,
    }
}

impl View for PlistValue {
    type V = PlistView;

    open spec fn view(&self) -> PlistView {
        match self {
            PlistValue::Text(s) => PlistView::Text(s@),
            PlistValue::Integer(n) => PlistView::Integer(*n),
            PlistValue::Flag(b) => PlistView::Flag(*b),
            PlistValue::List(items) => PlistView::List(
                items@.map_values(|t: Option<String>| maybe_text(t)),
            ),
            PlistValue::Other => PlistView::Other,
        }
    }
}

/// The entries of a dictionary, as contracts speak of them.
pub open spec fn entries_view(entries: Seq<(String, PlistValue)>) -> Seq<(Seq<char>, PlistView)> {
    entries.map_values(|e: (String, PlistValue)| (e.0@, e.1@))
}

/// What the `plist` crate reads in a document: the entries of the dictionary that
/// the document is, or nothing if it is something else, or why it cannot be read.
pub uninterp spec fn plist_read(document: Seq<u8>) -> Result<
    Option<Seq<(Seq<char>, PlistView)>>,
    Seq<char>,
>;

/// `plist::from_bytes` reads a property list: what it finds, and what it says of a
/// document that it cannot read, depend on the document alone. Only harmless documents
/// are handed to it, since it panics on a date outside of the years 0 to 9999, reads
/// nested collections by recursion, and unfolds those that a binary document shares.
#[verifier::external_body]
pub(crate) fn plist_from_bytes(document: &[u8]) -> (r: Result<
    Option<Vec<(String, PlistValue)>>,
    String,
>)
    requires
        is_harmless(document@),
    ensures
        match r {
            Ok(Some(entries)) => plist_read(document@) == Ok::<
                Option<Seq<(Seq<char>, PlistView)>>,
                Seq<char>,
            >(Some(entries_view(entries@))),
            Ok(None) => plist_read(document@) == Ok::<
                Option<Seq<(Seq<char>, PlistView)>>,
                Seq<char>,
            >(None),
            Err(e) => plist_read(document@) == Err::<
                Option<Seq<(Seq<char>, PlistView)>>,
                Seq<char>,
            >(e@),
        },
{
    let value: plist::Value = plist::from_bytes(document).map_err(|e| e.to_string())?;
    let plain = |v| match v {
        plist::Value::String(s) => PlistValue::Text(s),
        plist::Value::Integer(n) => PlistValue::Integer(n.as_unsigned()),
        plist::Value::Boolean(b) => PlistValue::Flag(b),
        plist::Value::Array(a) => {
            PlistValue::List(a.into_iter().map(plist::Value::into_string).collect())
        }
        _ => PlistValue::Other,
    };
    Ok(value.into_dictionary().map(|d| d.into_iter().map(|(k, v)| (k, plain(v))).collect()))
}

/// What is read in a document: nothing is read in one that is not harmless.
pub open spec fn document_read(document: Seq<u8>) -> Result<
    Option<Seq<(Seq<char>, PlistView)>>,
    Seq<char>,
> {
    if is_harmless(document) {
        plist_read(document)
    } else {
        Err("unsupported property list"@)
    }
}

/// Reads a document, if it is harmless.
fn read_document(document: &[u8]) -> (r: Result<Option<Vec<(String, PlistValue)>>, String>)
    ensures
        match r {
            Ok(Some(entries)) => document_read(document@) == Ok::<
                Option<Seq<(Seq<char>, PlistView)>>,
                Seq<char>,
            >(Some(entries_view(entries@))),
            Ok(None) => document_read(document@) == Ok::<
                Option<Seq<(Seq<char>, PlistView)>>,
                Seq<char>,
            >(None),
            Err(e) => document_read(document@) == Err::<
                Option<Seq<(Seq<char>, PlistView)>>,
                Seq<char>,
            >(e@),
        },
{
    if can_be_read(document) {
        plist_from_bytes(document)
    } else {
        Err("unsupported property list".to_owned())
    }
}

/// The value of `key` among `entries`.
pub open spec fn entry(entries: Seq<(Seq<char>, PlistView)>, key: Seq<char>) -> Option<PlistView>
    decreases entries.len(),
{
    if entries.len() == 0 {
        None
    } else if entries[0].0 == key {
        Some(entries[0].1)
    } else {
        entry(entries.skip(1), key)
    }
}

/// The value of `key` among `entries`.
pub fn get<'a>(entries: &'a [(String, PlistValue)], key: &str) -> (value: Option<&'a PlistValue>)
    ensures
        match value {
            Some(v) => entry(entries_view(entries@), key@) == Some(v@),
            None => entry(entries_view(entries@), key@) is None,
        },
        match value {
            Some(v) => exists|i: int|
                0 <= i < entries@.len() && *v == (#[trigger] entries@[i]).1 && entries@[i].0@
                    == key@ && forall|j: int|
                    0 <= j < i ==> (#[trigger] entries@[j]).0@ != key@,
            None => forall|i: int| 0 <= i < entries@.len() ==> (#[trigger] entries@[i]).0@ != key@,
        },
{
    let ghost all = entries_view(entries@);
    let mut i: usize = 0;
    assert(all.skip(0) =~= all);
    while i < entries.len()
        invariant
            i <= entries.len(),
            all == entries_view(entries@),
            entry(all, key@) == entry(all.skip(i as int), key@),
            forall|j: int| 0 <= j < i ==> (#[trigger] entries@[j]).0@ != key@,
        decreases entries.len() - i,
    {
        assert(all.skip(i as int)[0] == (entries@[i as int].0@, entries@[i as int].1@));
        assert(all.skip(i as int).skip(1) =~= all.skip(i + 1));
        if same_text(entries[i].0.as_str(), key) {
            return Some(&entries[i].1);
        }
        i = i + 1;
    }
    None
}

/// The text behind `key`, or `default` if there is none.
pub open spec fn text_of(value: Option<PlistView>, default: Seq<char>) -> Seq<char> {
    match value {
        Some(PlistView::Text(s)) => s,
        _ => default,
    }
}

/// The number behind `key`, or `default` if there is none.
pub open spec fn number_of(value: Option<PlistView>, default: u64) -> u64 {
    match value {
        Some(PlistView::Integer(Some(n))) => n,
        _ => default,
    }
}

/// The text of a value.
fn text_or(value: Option<&PlistValue>, default: &str) -> (s: String)
    ensures
        s@ == text_of(
            match value {
                Some(v) => Some(v@),
                None => None,
            },
            default@,
        ),
{
    match value {
        Some(PlistValue::Text(s)) => s.clone(),
        _ => default.to_owned(),
    }
}

/// The number of a value.
fn number_or(value: Option<&PlistValue>, default: u64) -> (n: u64)
    ensures
        n == number_of(
            match value {
                Some(v) => Some(v@),
                None => None,
            },
            default,
        ),
{
    match value {
        Some(PlistValue::Integer(Some(n))) => *n,
        _ => default,
    }
}

/// The name of a disk: its media name, or else its identifier.
pub open spec fn name_of(d: Seq<(Seq<char>, PlistView)>) -> Seq<char> {
    let value = match entry(d, "MediaName"@) {
        Some(v) => Some(v),
        None => entry(d, "DeviceIdentifier"@),
    };
    text_of(value, "Unknown Drive"@)
}

/// A disk, from what `diskutil info` tells.
pub open spec fn disk_of(d: Seq<(Seq<char>, PlistView)>) -> BlockDeviceView {
    BlockDeviceView {
        path: text_of(entry(d, "DeviceNode"@), ""@),
        name: name_of(d),
        size_bytes: number_of(entry(d, "TotalSize"@), 0),
        is_removable: entry(d, "RemovableMedia"@) == Some(PlistView::Flag(true)),
        sector_size: number_of(entry(d, "DeviceBlockSize"@), 512) as usize,
    }
}

/// A disk with the path to show for it, from what `diskutil info` tells.
pub fn disk_from_entries(d: &[(String, PlistValue)]) -> (disk: (String, BlockDevice))
    ensures
        disk.1@ == disk_of(entries_view(d@)),
        disk.0@ == disk_of(entries_view(d@)).path,
        entry(entries_view(d@), "DeviceNode"@) matches Some(PlistView::Text(s)) ==> disk.1.path@ == s,
        !(entry(entries_view(d@), "DeviceNode"@) matches Some(PlistView::Text(_))) ==> disk.1.path@ == ""@,
        entry(entries_view(d@), "TotalSize"@) matches Some(PlistView::Integer(Some(n))) ==> disk.1.size_bytes == n,
        !(entry(entries_view(d@), "TotalSize"@) matches Some(PlistView::Integer(Some(_)))) ==> disk.1.size_bytes == 0,
        disk.1.is_removable <==> entry(entries_view(d@), "RemovableMedia"@) == Some(PlistView::Flag(true)),
        entry(entries_view(d@), "DeviceBlockSize"@) matches Some(PlistView::Integer(Some(n))) ==> disk.1.sector_size
            == n as usize,
        !(entry(entries_view(d@), "DeviceBlockSize"@) matches Some(PlistView::Integer(Some(_))))
            ==> disk.1.sector_size == 512,
        entry(entries_view(d@), "MediaName"@) matches Some(PlistView::Text(s)) ==> disk.1.name@ == s,
        entry(entries_view(d@), "MediaName"@) is None ==> (entry(entries_view(d@), "DeviceIdentifier"@)
            matches Some(PlistView::Text(s)) ==> disk.1.name@ == s),
        entry(entries_view(d@), "MediaName"@) is Some && !(entry(entries_view(d@), "MediaName"@)
            matches Some(PlistView::Text(_))) ==> disk.1.name@ == "Unknown Drive"@,
        entry(entries_view(d@), "MediaName"@) is None && !(entry(entries_view(d@), "DeviceIdentifier"@)
            matches Some(PlistView::Text(_))) ==> disk.1.name@ == "Unknown Drive"@,
        disk.0@ == disk.1.path@,
{
    let path = text_or(get(d, "DeviceNode"), "");
    let size_bytes: u64 = number_or(get(d, "TotalSize"), 0);
    let sector_size: u64 = number_or(get(d, "DeviceBlockSize"), 512);
    let is_removable: bool = match get(d, "RemovableMedia") {
        Some(PlistValue::Flag(yes)) => *yes,
        _ => false,
    };
    let name = match get(d, "MediaName") {
        Some(v) => text_or(Some(v), "Unknown Drive"),
        None => text_or(get(d, "DeviceIdentifier"), "Unknown Drive"),
    };
    let shown = path.clone();
    (shown, BlockDevice::new(path, name, size_bytes, is_removable, sector_size as usize))
}

/// A disk, or why there is none, from what was read of `diskutil info`.
pub open spec fn disk_info(read: Result<Option<Seq<(Seq<char>, PlistView)>>, Seq<char>>) -> Result<
    BlockDeviceView,
    FlashErrorView,
> {
    match read {
        Err(e) => Err(FlashErrorView::FilesystemError(e)),
        Ok(None) => Err(FlashErrorView::FilesystemError("Invalid plist structure"@)),
        Ok(Some(d)) => Ok(disk_of(d)),
    }
}

/// A disk with the path to show for it, from the output of `diskutil info`.
pub fn fetch_disk_info(stdout: &[u8]) -> (r: FlashResult<(String, BlockDevice)>)
    ensures
        match r {
            Ok(disk) => disk_info(document_read(stdout@)) == Ok::<BlockDeviceView, FlashErrorView>(
                disk.1@,
            ) && disk.0@ == disk.1.path@,
            Err(e) => disk_info(document_read(stdout@)) == Err::<BlockDeviceView, FlashErrorView>(e@),
        },
{
    match read_document(stdout) {
        Err(e) => Err(FlashError::FilesystemError(e)),
        Ok(None) => Err(FlashError::FilesystemError("Invalid plist structure".to_owned())),
        Ok(Some(d)) => Ok(disk_from_entries(d.as_slice())),
    }
}

/// The strings among `items`.
pub open spec fn strings_in(items: Seq<Option<Seq<char>>>) -> Seq<Seq<char>>
    decreases items.len(),
{
    if items.len() == 0 {
        Seq::empty()
    } else {
        let before = strings_in(items.drop_last());
        match items.last() {
            Some(s) => before.push(s),
            None => before,
        }
    }
}

/// The whole disks, from what `diskutil list` tells.
pub open spec fn whole_disks_in(d: Option<Seq<(Seq<char>, PlistView)>>) -> Seq<Seq<char>> {
    match d {
        Some(entries) => match entry(entries, "WholeDisks"@) {
            Some(PlistView::List(items)) => strings_in(items),
            _ => Seq::empty(),
        },
        None => Seq::empty(),
    }
}

/// The strings among `items`.
fn strings_of(items: &Vec<Option<String>>) -> (found: Vec<String>)
    ensures
        texts_of(found@) == strings_in(items@.map_values(|t: Option<String>| maybe_text(t))),
{
    let ghost all = items@.map_values(|t: Option<String>| maybe_text(t));
    let mut found: Vec<String> = Vec::new();
    let mut i: usize = 0;
    assert(texts_of(found@) =~= Seq::<Seq<char>>::empty());
    while i < items.len()
        invariant
            i <= items.len(),
            all == items@.map_values(|t: Option<String>| maybe_text(t)),
            texts_of(found@) == strings_in(all.take(i as int)),
        decreases items.len() - i,
    {
        let ghost before = texts_of(found@);
        assert(all[i as int] == maybe_text(items@[i as int]));
        assert(all.take(i + 1).drop_last() =~= all.take(i as int));
        if let Some(s) = &items[i] {
            found.push(s.clone());
            assert(texts_of(found@) =~= before.push(s@));
        }
        i = i + 1;
    }
    assert(all.take(i as int) =~= all);
    found
}

/// The whole disks among the entries of `diskutil list`.
pub fn whole_disks_from_entries(d: &[(String, PlistValue)]) -> (disks: Vec<String>)
    ensures
        texts_of(disks@) == whole_disks_in(Some(entries_view(d@))),
{
    match get(d, "WholeDisks") {
        Some(PlistValue::List(items)) => strings_of(items),
        _ => {
            let none: Vec<String> = Vec::new();
            assert(texts_of(none@) =~= Seq::<Seq<char>>::empty());
            none
        },
    }
}

/// The whole disks, from the output of `diskutil list`.
pub fn whole_disks(success: bool, stdout: &[u8]) -> (r: FlashResult<Vec<String>>)
    ensures
        if !success {
            result_view(r) == Err::<Vec<String>, FlashErrorView>(
                FlashErrorView::FilesystemError("Failed executing diskutil list"@),
            )
        } else {
            match document_read(stdout@) {
                Err(e) => result_view(r) == Err::<Vec<String>, FlashErrorView>(
                    FlashErrorView::FilesystemError(e),
                ),
                Ok(d) => r is Ok && texts_of(r->Ok_0@) == whole_disks_in(d),
            }
        },
{
    if !success {
        return Err(FlashError::FilesystemError("Failed executing diskutil list".to_owned()));
    }
    match read_document(stdout) {
        Err(e) => Err(FlashError::FilesystemError(e)),
        Ok(None) => {
            let none: Vec<String> = Vec::new();
            assert(texts_of(none@) =~= Seq::<Seq<char>>::empty());
            Ok(none)
        },
        Ok(Some(d)) => Ok(whole_disks_from_entries(d.as_slice())),
    }
}

/// The disks of which something could be read.
pub open spec fn readable_disks(
    reads: Seq<Result<Option<Seq<(Seq<char>, PlistView)>>, Seq<char>>>,
) -> Seq<BlockDeviceView>
    decreases reads.len(),
{
    if reads.len() == 0 {
        Seq::empty()
    } else {
        let before = readable_disks(reads.drop_last());
        match disk_info(reads.last()) {
            Ok(d) => before.push(d),
            Err(_) => before,
        }
    }
}

impl DarwinInterface {
    /// The disks, each with the path to show for it, from the outputs of
    /// `diskutil info` on the whole disks. A disk whose output says nothing usable is
    /// passed over.
    pub fn list_devices(&self, outputs: &[Vec<u8>]) -> (found: Vec<(String, BlockDevice)>)
        ensures
            found@.map_values(|d: (String, BlockDevice)| d.1@) == readable_disks(
                outputs@.map_values(|o: Vec<u8>| document_read(o@)),
            ),
            forall|i: int|
                0 <= i < found@.len() ==> (#[trigger] found@[i]).0@ == found@[i].1.path@,
    {
        let ghost reads = outputs@.map_values(|o: Vec<u8>| document_read(o@));
        let mut found: Vec<(String, BlockDevice)> = Vec::new();
        let mut i: usize = 0;
        assert(found@.map_values(|d: (String, BlockDevice)| d.1@)
            =~= Seq::<BlockDeviceView>::empty());
        while i < outputs.len()
            invariant
                i <= outputs.len(),
                reads == outputs@.map_values(|o: Vec<u8>| document_read(o@)),
                found@.map_values(|d: (String, BlockDevice)| d.1@) == readable_disks(
                    reads.take(i as int),
                ),
                forall|j: int|
                    0 <= j < found@.len() ==> (#[trigger] found@[j]).0@ == found@[j].1.path@,
            decreases outputs.len() - i,
        {
            let ghost before = found@.map_values(|d: (String, BlockDevice)| d.1@);
            assert(reads[i as int] == document_read(outputs@[i as int]@));
            assert(reads.take(i + 1).drop_last() =~= reads.take(i as int));
            if let Ok(disk) = fetch_disk_info(outputs[i].as_slice()) {
                found.push(disk);
                assert(found@.map_values(|d: (String, BlockDevice)| d.1@) =~= before.push(
                    disk.1@,
                ));
            }
            i = i + 1;
        }
        assert(reads.take(i as int) =~= reads);
        found
    }

    /// Whether a disk was ejected, from how `diskutil eject` ended.
    pub fn eject(&self, device: &BlockDevice, success: bool) -> (r: FlashResult<()>)
        ensures
            success ==> r is Ok,
            !success ==> result_view(r) == Err::<(), FlashErrorView>(
                FlashErrorView::DeviceBusy(device.path@),
            ),
    {
        if success {
            Ok(())
        } else {
            Err(FlashError::DeviceBusy { path: device.path.clone() })
        }
    }

    /// Whether a disk was unmounted, from how `diskutil unmountDisk` ended and what
    /// it said.
    pub fn unmount(&self, device: &BlockDevice, success: bool, stderr: &[u8]) -> (r: FlashResult<()>)
        ensures
            success ==> r is Ok,
            !success ==> {
                &&& result_view(r) == Err::<(), FlashErrorView>(
                    FlashErrorView::UnmountFailed {
                        device: device.path@,
                        reason: utf8_lossy(stderr@),
                    },
                )
                &&& valid_utf8(stderr@) ==> utf8_lossy(stderr@) == decode_utf8(stderr@)
            },
    {
        if success {
            Ok(())
        } else {
            let reason = from_utf8_lossy(stderr);
            Err(FlashError::UnmountFailed { device: device.path.clone(), reason })
        }
    }
}

/// Whether a name is that of a disk: `disk` and a number, with or without more.
pub open spec fn names_disk_number(name: Seq<char>) -> bool {
    "disk"@.is_prefix_of(name) && name.len() > 4 && is_digit(name[4])
}

/// The raw counterpart of a device path: `/dev/disk2` gives `/dev/rdisk2`. Any other
/// path stays as it is.
pub open spec fn raw_path(path: Seq<char>) -> Seq<char> {
    match file_name(path) {
        Some(name) => if names_disk_number(name) && same_path(path, dev_node(name)) {
            "/dev/r"@ + name
        } else {
            path
        },
        None => path,
    }
}

/// The raw counterpart of a device path.
pub fn to_raw_device_path(path: &str) -> (raw: String)
    ensures
        raw@ == raw_path(path@),
{
    match path_file_name(path) {
        Some(name) => {
            let chars = chars_of(name.as_str());
            let numbered: bool = starts_with(name.as_str(), "disk") && chars.len() > 4 && '0'
                <= chars[4] && chars[4] <= '9';
            let node = dev_path(name.as_str());
            if numbered && is_same_path(path, node.as_str()) {
                joined("/dev/r", name.as_str())
            } else {
                path.to_owned()
            }
        },
        None => path.to_owned(),
    }
}

/// The raw counterpart of a raw path is the path itself.
pub proof fn law_raw_path_is_stable(path: Seq<char>)
    ensures
        raw_path(raw_path(path)) == raw_path(path),
{
    if let Some(name) = file_name(path) {
        if names_disk_number(name) && same_path(path, dev_node(name)) {
            reveal_strlit("disk");
            reveal_strlit("/dev/r");
            reveal_strlit("/dev/");
            lemma_file_name_plain(path);
            let raw = seq!['r'] + name;
            assert(raw.len() > 5);
            assert(raw_path(path) =~= dev_node(raw));
            lemma_dev_node_name(raw);
            assert(raw.subrange(0, 4)[0] != "disk"@[0]);
        }
    }
}

/// What `authopen` is told: to hand out the device at `raw_path`, opened with `flags`.
pub fn authopen_arguments(flags: u32, raw_path: &str) -> (arguments: Vec<String>)
    ensures
        texts_of(arguments@) == seq!["-stdoutpipe"@, "-o"@, decimal(flags as nat), raw_path@],
{
    let mut arguments: Vec<String> = Vec::new();
    arguments.push("-stdoutpipe".to_owned());
    arguments.push("-o".to_owned());
    arguments.push(write_u64(flags as u64));
    arguments.push(raw_path.to_owned());
    assert(texts_of(arguments@) =~= seq![
        "-stdoutpipe"@,
        "-o"@,
        decimal(flags as nat),
        raw_path@,
    ]);
    arguments
}

/// The first descriptor in `messages`.
pub open spec fn first_in<F>(messages: Seq<Vec<F>>) -> Option<F>
    decreases messages.len(),
{
    if messages.len() == 0 {
        None
    } else if messages[0]@.len() > 0 {
        Some(messages[0]@[0])
    } else {
        first_in(messages.skip(1))
    }
}

/// The first of `messages` that holds a descriptor.
fn first_filled<F>(messages: &Vec<Vec<F>>) -> (at: Option<usize>)
    ensures
        match at {
            Some(i) => i < messages@.len() && messages@[i as int]@.len() > 0 && first_in(messages@)
                == Some(messages@[i as int]@[0]) && forall|j: int|
                0 <= j < i ==> (#[trigger] messages@[j])@.len() == 0,
            None => first_in(messages@) is None && forall|j: int|
                0 <= j < messages@.len() ==> (#[trigger] messages@[j])@.len() == 0,
        },
{
    let mut i: usize = 0;
    assert(messages@.skip(0) =~= messages@);
    while i < messages.len()
        invariant
            i <= messages.len(),
            first_in(messages@) == first_in(messages@.skip(i as int)),
            forall|j: int| 0 <= j < i ==> (#[trigger] messages@[j])@.len() == 0,
        decreases messages.len() - i,
    {
        assert(messages@.skip(i as int)[0] == messages@[i as int]);
        assert(messages@.skip(i as int).skip(1) =~= messages@.skip(i + 1));
        if messages[i].len() > 0 {
            return Some(i);
        }
        i = i + 1;
    }
    None
}

/// The descriptor that `authopen` sent: the first one in the control messages that
/// came with `bytes` bytes. No bytes mean that nothing was sent.
pub fn recv_fd_from_authopen<F>(bytes: usize, messages: Vec<Vec<F>>) -> (r: FlashResult<F>)
    ensures
        if bytes == 0 {
            result_view(r) == Err::<F, FlashErrorView>(
                FlashErrorView::FilesystemError(
                    "authopen: authorisation denied or device unavailable"@,
                ),
            )
        } else {
            match first_in(messages@) {
                Some(f) => r == Ok::<F, FlashError>(f),
                None => result_view(r) == Err::<F, FlashErrorView>(
                    FlashErrorView::FilesystemError(
                        "authopen: control message absent — no file descriptor received"@,
                    ),
                ),
            }
        },
        match r {
            Ok(f) => bytes > 0 && exists|i: int|
                0 <= i < messages@.len() && (#[trigger] messages@[i])@.len() > 0 && f
                    == messages@[i]@[0] && forall|j: int|
                    0 <= j < i ==> (#[trigger] messages@[j])@.len() == 0,
            Err(_) => bytes == 0 || forall|i: int|
                0 <= i < messages@.len() ==> (#[trigger] messages@[i])@.len() == 0,
        },
{
    if bytes == 0 {
        return Err(
            FlashError::FilesystemError(
                "authopen: authorisation denied or device unavailable".to_owned(),
            ),
        );
    }
    match first_filled(&messages) {
        Some(i) => {
            let ghost all = messages@;
            let mut messages = messages;
            let mut found = messages.remove(i);
            assert(all[i as int]@ == found@);
            Ok(found.remove(0))
        },
        None => Err(
            FlashError::FilesystemError(
                "authopen: control message absent — no file descriptor received".to_owned(),
            ),
        ),
    }
}

/// An open drive, with whatever stands for an open file.
#[derive(Debug)]
pub struct DarwinRawWriteHandle<F> {
    /// The drive
    pub file: F,
    /// The size of its sectors
    pub sector_size: usize,
    /// Its size
    pub size_bytes: u64,
}

impl<F> DarwinRawWriteHandle<F> {
    /// The size of the sectors.
    pub fn sector_size(&self) -> (n: usize)
        ensures
            n == self.sector_size,
    {
        self.sector_size
    }

    /// The size of the drive.
    pub fn size_bytes(&self) -> (n: FlashResult<u64>)
        ensures
            n == Ok::<u64, FlashError>(self.size_bytes),
    {
        Ok(self.size_bytes)
    }
}

/// How the opening of a drive with `authopen` ended.
#[derive(Debug)]
pub enum AuthopenAnswer<F> {
    /// No pair of sockets could be made
    NoSocket(String),
    /// `authopen` could not be started
    NotSpawned(String),
    /// No descriptor came, or it could not be set up
    Failed(FlashError),
    /// `authopen` ended without success
    Exited(String),
    /// The task that waits for it ended early
    Unfinished,
    /// The drive is open
    Opened(F),
}

impl DarwinInterface {
    /// The open drive, or why there is none.
    pub fn open_for_writing<F>(&self, device: &BlockDevice, answer: AuthopenAnswer<F>) -> (r:
        FlashResult<DarwinRawWriteHandle<F>>)
        ensures
            match answer {
                AuthopenAnswer::Opened(file) => r == Ok::<DarwinRawWriteHandle<F>, FlashError>(
                    DarwinRawWriteHandle {
                        file,
                        sector_size: device.sector_size,
                        size_bytes: device.size_bytes,
                    },
                ),
                AuthopenAnswer::NoSocket(e) => result_view(r) == Err::<
                    DarwinRawWriteHandle<F>,
                    FlashErrorView,
                >(FlashErrorView::FilesystemError("failed to create socketpair: "@ + e@)),
                AuthopenAnswer::NotSpawned(e) => result_view(r) == Err::<
                    DarwinRawWriteHandle<F>,
                    FlashErrorView,
                >(FlashErrorView::FilesystemError("failed to spawn authopen: "@ + e@)),
                AuthopenAnswer::Failed(e) => result_view(r) == Err::<
                    DarwinRawWriteHandle<F>,
                    FlashErrorView,
                >(e@),
                AuthopenAnswer::Exited(status) => result_view(r) == Err::<
                    DarwinRawWriteHandle<F>,
                    FlashErrorView,
                >(
                    FlashErrorView::FilesystemError(
                        "authopen exited with "@ + status@ + (" while opening "@ + raw_path(
                            device.path@,
                        )),
                    ),
                ),
                AuthopenAnswer::Unfinished => result_view(r) == Err::<
                    DarwinRawWriteHandle<F>,
                    FlashErrorView,
                >(FlashErrorView::SyncError),
            },
    {
        match answer {
            AuthopenAnswer::Opened(file) => Ok(
                DarwinRawWriteHandle {
                    file,
                    sector_size: device.sector_size,
                    size_bytes: device.size_bytes,
                },
            ),
            AuthopenAnswer::NoSocket(e) => Err(
                FlashError::FilesystemError(joined("failed to create socketpair: ", e.as_str())),
            ),
            AuthopenAnswer::NotSpawned(e) => Err(
                FlashError::FilesystemError(joined("failed to spawn authopen: ", e.as_str())),
            ),
            AuthopenAnswer::Failed(e) => Err(e),
            AuthopenAnswer::Exited(status) => {
                let raw = to_raw_device_path(device.path.as_str());
                let place = joined(" while opening ", raw.as_str());
                Err(
                    FlashError::FilesystemError(
                        joined3("authopen exited with ", status.as_str(), place.as_str()),
                    ),
                )
            },
            AuthopenAnswer::Unfinished => Err(FlashError::SyncError),
        }
    }
}

/// The value of a key is that of the first entry with this key; without such an entry there
/// is none.
pub proof fn law_entry_is_the_first(
    entries: Seq<(Seq<char>, PlistView)>,
    key: Seq<char>,
    i: int,
)
    requires
        0 <= i <= entries.len(),
        i < entries.len() ==> entries[i].0 == key,
        forall|j: int| 0 <= j < i ==> (#[trigger] entries[j]).0 != key,
    ensures
        i < entries.len() ==> entry(entries, key) == Some(entries[i].1),
        i == entries.len() ==> entry(entries, key) is None,
    decreases entries.len(),
{
    if i > 0 {
        let rest = entries.skip(1);
        assert(entries[0].0 != key);
        assert forall|j: int| 0 <= j < i - 1 implies (#[trigger] rest[j]).0 != key by {
            assert(rest[j] == entries[j + 1]);
        }
        law_entry_is_the_first(rest, key, i - 1);
    }
}

/// A disk tells what `diskutil` tells of it. What is no dictionary tells no disk.
pub proof fn law_disk_tells_entries(d: Seq<(Seq<char>, PlistView)>, e: Seq<char>)
    ensures
        disk_info(Ok(Some(d))) is Ok,
        ({
            let disk = disk_info(Ok(Some(d)))->Ok_0;
            &&& entry(d, "DeviceNode"@) matches Some(PlistView::Text(s)) ==> disk.path == s
            &&& entry(d, "TotalSize"@) matches Some(PlistView::Integer(Some(n)))
                ==> disk.size_bytes == n
            &&& entry(d, "TotalSize"@) is None ==> disk.size_bytes == 0
            &&& disk.is_removable <==> entry(d, "RemovableMedia"@) == Some(PlistView::Flag(true))
            &&& entry(d, "DeviceBlockSize"@) matches Some(PlistView::Integer(Some(n)))
                ==> disk.sector_size == n as usize
            &&& entry(d, "DeviceBlockSize"@) is None ==> disk.sector_size == 512
            &&& entry(d, "MediaName"@) matches Some(PlistView::Text(s)) ==> disk.name == s
            &&& entry(d, "MediaName"@) is None ==> (entry(d, "DeviceIdentifier"@)
                matches Some(PlistView::Text(s)) ==> disk.name == s)
        }),
        disk_info(Ok(None)) == Err::<BlockDeviceView, FlashErrorView>(
            FlashErrorView::FilesystemError("Invalid plist structure"@),
        ),
        disk_info(Err(e)) == Err::<BlockDeviceView, FlashErrorView>(
            FlashErrorView::FilesystemError(e),
        ),
{
}

/// What is read in a document is what `plist` reads, if the document is harmless.
pub proof fn law_harmless_documents_are_read(document: Seq<u8>)
    ensures
        is_harmless(document) ==> document_read(document) == plist_read(document),
        !is_harmless(document) ==> document_read(document) is Err,
{
}

/// The disks of outputs, one behind the other, are those of each. One output gives its disk,
/// or nothing if it tells none.
pub proof fn law_outputs_are_joined(
    a: Seq<Result<Option<Seq<(Seq<char>, PlistView)>>, Seq<char>>>,
    b: Seq<Result<Option<Seq<(Seq<char>, PlistView)>>, Seq<char>>>,
    read: Result<Option<Seq<(Seq<char>, PlistView)>>, Seq<char>>,
)
    ensures
        readable_disks(a + b) == readable_disks(a) + readable_disks(b),
        readable_disks(seq![read]) == (match disk_info(read) {
            Ok(d) => seq![d],
            Err(_) => Seq::empty(),
        }),
    decreases b.len(),
{
    assert(seq![read].drop_last() =~= Seq::<
        Result<Option<Seq<(Seq<char>, PlistView)>>, Seq<char>>,
    >::empty());
    reveal_with_fuel(readable_disks, 2);
    assert(readable_disks(seq![read]) =~= (match disk_info(read) {
        Ok(d) => seq![d],
        Err(_) => Seq::empty(),
    }));
    if b.len() == 0 {
        assert(a + b =~= a);
        assert(readable_disks(a) + readable_disks(b) =~= readable_disks(a));
    } else {
        law_outputs_are_joined(a, b.drop_last(), read);
        assert((a + b).drop_last() =~= a + b.drop_last());
        assert(readable_disks(a + b) =~= readable_disks(a) + readable_disks(b));
    }
}

/// The whole disks are the strings in the array of that name, in order. Without such an
/// array there are none.
pub proof fn law_whole_disks(
    d: Seq<(Seq<char>, PlistView)>,
    a: Seq<Option<Seq<char>>>,
    b: Seq<Option<Seq<char>>>,
    s: Seq<char>,
)
    ensures
        entry(d, "WholeDisks"@) matches Some(PlistView::List(items)) ==> whole_disks_in(Some(d))
            == strings_in(items),
        !(entry(d, "WholeDisks"@) matches Some(PlistView::List(_))) ==> whole_disks_in(
            Some(d),
        ).len() == 0,
        whole_disks_in(None).len() == 0,
        strings_in(a + b) == strings_in(a) + strings_in(b),
        strings_in(seq![Some(s)]) == seq![s],
        strings_in(seq![None]).len() == 0,
    decreases b.len(),
{
    assert(seq![Some(s)].drop_last() =~= Seq::<Option<Seq<char>>>::empty());
    assert(seq![None::<Seq<char>>].drop_last() =~= Seq::<Option<Seq<char>>>::empty());
    reveal_with_fuel(strings_in, 2);
    assert(strings_in(seq![Some(s)]) =~= seq![s]);
    if b.len() == 0 {
        assert(a + b =~= a);
        assert(strings_in(a) + strings_in(b) =~= strings_in(a));
    } else {
        law_whole_disks(d, a, b.drop_last(), s);
        assert((a + b).drop_last() =~= a + b.drop_last());
        assert(strings_in(a + b) =~= strings_in(a) + strings_in(b));
    }
}

/// The raw counterpart of `/dev/disk2` is `/dev/rdisk2`, for every disk with a number.
pub proof fn law_raw_path_of_disk(rest: Seq<char>)
    requires
        rest.len() > 0,
        '0' <= rest[0] <= '9',
        forall|i: int| 0 <= i < rest.len() ==> #[trigger] rest[i] != '/',
    ensures
        raw_path("/dev/disk"@ + rest) == "/dev/rdisk"@ + rest,
{
    reveal_strlit("/dev/disk");
    reveal_strlit("/dev/rdisk");
    reveal_strlit("/dev/");
    reveal_strlit("/dev/r");
    reveal_strlit("disk");
    let name = "disk"@ + rest;
    assert(name.subrange(0, 4) =~= "disk"@);
    assert("/dev/disk"@ + rest =~= dev_node(name));
    assert forall|i: int| 0 <= i < name.len() implies name[i] != '/' by {
        if i >= 4 {
            assert(name[i] == rest[i - 4]);
        }
    }
    assert(name[0] == 'd');
    assert(name.len() > 4);
    lemma_dev_node_name(name);
    assert("/dev/r"@ + name =~= "/dev/rdisk"@ + rest);
}

/// Any other path has no raw counterpart: it stays, unless it is that of a disk with a
/// number among the device nodes.
pub proof fn law_other_paths_stay(path: Seq<char>)
    ensures
        raw_path(path) == path || exists|name: Seq<char>|
            {
                &&& #[trigger] same_path(path, "/dev/"@ + name)
                &&& "disk"@.is_prefix_of(name)
                &&& name.len() > 4
                &&& '0' <= name[4] <= '9'
                &&& raw_path(path) == "/dev/r"@ + name
            },
{
    if let Some(name) = file_name(path) {
        if names_disk_number(name) && same_path(path, dev_node(name)) {
            assert(same_path(path, "/dev/"@ + name));
        }
    }
}

/// What contracts say of a value is what it holds.
pub proof fn law_plist_view(text: String, n: Option<u64>, b: bool, items: Vec<Option<String>>)
    ensures
        PlistValue::Text(text)@ == PlistView::Text(text@),
        PlistValue::Integer(n)@ == PlistView::Integer(n),
        PlistValue::Flag(b)@ == PlistView::Flag(b),
        PlistValue::Other@ == PlistView::Other,
        PlistValue::List(items)@ is List,
        (PlistValue::List(items)@->List_0).len() == items@.len(),
        forall|i: int|
            0 <= i < items@.len() ==> match #[trigger] items@[i] {
                Some(s) => (PlistValue::List(items)@->List_0)[i] == Some(s@),
                None => (PlistValue::List(items)@->List_0)[i] is None,
            },
{
}

} // verus!
