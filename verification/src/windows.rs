//! Drives on Windows: which disks there are, which drive letters they have, and
//! how the volumes of a disk are locked before it is written to.
use crate::data_types::{BlockDevice, BlockDeviceView};
use crate::decimal::{decimal, law_decimal_round_trip, lemma_decimal_digits, parse_u64, parsed, signed_decimal, write_i32};
use crate::error::{io_failure, result_view, FlashError, FlashErrorView, FlashResult, IoError};
use crate::text::{all_digits, chars_of, has_only_digits, is_digit, joined, joined3, strip_prefix, texts_of};
use crate::utf16::{decode, decode_wide_nul_string, decoded, find_nul, lemma_nul_at, multi_string, nul_at, nul_ended, split_multi_string};
use vstd::prelude::*;

verus! {

/// `c` as an upper-case letter, if it is one of the letters a to z.
pub open spec fn upper(c: char) -> char {
    if 'a' <= c <= 'z' {
        (c as int - 32) as char
    } else {
        c
    }
}

/// `s` in upper-case letters.
pub fn to_ascii_uppercase(s: &str) -> (t: String)
    ensures
        t@ == s@.map_values(|c: char| upper(c)),
        t@.len() == s@.len(),
        forall|i: int|
            0 <= i < s@.len() ==> (if 'a' <= s@[i] <= 'z' {
                #[trigger] t@[i] as u32 + 32 == s@[i] as u32
            } else {
                t@[i] == s@[i]
            }),
{
    let x = chars_of(s);
    let mut t = String::new();
    let mut i: usize = 0;
    while i < x.len()
        invariant
            i <= x.len(),
            x@ == s@,
            t@ == s@.take(i as int).map_values(|c: char| upper(c)),
        decreases x.len() - i,
    {
        let c: char = x[i];
        if 'a' <= c && c <= 'z' {
            let code: u8 = c as u8;
            t.push((code - 32) as char);
        } else {
            t.push(c);
        }
        i = i + 1;
        assert(t@ =~= s@.take(i as int).map_values(|c: char| upper(c)));
    }
    assert(s@.take(i as int) =~= s@);
    t
}

/// What the path of a disk begins with, in upper-case letters.
pub const DRIVE_PREFIX: &'static str = "\\\\.\\PHYSICALDRIVE";

/// The number in the path of a disk such as `\\.\PhysicalDrive2`, in letters of
/// either case, or what is wrong with the path.
pub open spec fn drive_number(path: Seq<char>) -> Result<nat, FlashErrorView> {
    let up = path.map_values(|c: char| upper(c));
    let digits = up.skip(DRIVE_PREFIX@.len() as int);
    if !DRIVE_PREFIX@.is_prefix_of(up) {
        Err(
            FlashErrorView::FilesystemError(
                "path does not look like a physical drive: '"@ + path + "'"@,
            ),
        )
    } else if !all_digits(digits) {
        Err(FlashErrorView::FilesystemError("invalid drive number in path: '"@ + path + "'"@))
    } else {
        match parsed(digits, u32::MAX as nat) {
            Err(_) => Err(
                FlashErrorView::FilesystemError("cannot parse drive number from '"@ + path + "'"@),
            ),
            Ok(n) => Ok(n),
        }
    }
}

/// The number in the path of a disk.
pub fn physical_drive_number(path: &str) -> (r: FlashResult<u32>)
    ensures
        match r {
            Ok(n) => drive_number(path@) == Ok::<nat, FlashErrorView>(n as nat),
            Err(e) => drive_number(path@) == Err::<nat, FlashErrorView>(e@),
        },
{
    let up = to_ascii_uppercase(path);
    match strip_prefix(up.as_str(), DRIVE_PREFIX) {
        None => Err(
            FlashError::FilesystemError(
                joined3("path does not look like a physical drive: '", path, "'"),
            ),
        ),
        Some(digits) => {
            if !has_only_digits(digits.as_str()) {
                return Err(
                    FlashError::FilesystemError(
                        joined3("invalid drive number in path: '", path, "'"),
                    ),
                );
            }
            match parse_u64(digits.as_str(), 0xffff_ffff) {
                Err(_) => Err(
                    FlashError::FilesystemError(
                        joined3("cannot parse drive number from '", path, "'"),
                    ),
                ),
                Ok(n) => Ok(n as u32),
            }
        },
    }
}

/// The number of a disk fits.
pub proof fn lemma_drive_number_fits(path: Seq<char>)
    ensures
        drive_number(path) matches Ok(n) ==> n <= u32::MAX,
{
    let up = path.map_values(|c: char| upper(c));
    crate::decimal::lemma_parsed_fits(up.skip(DRIVE_PREFIX@.len() as int), u32::MAX as nat);
}

/// The path of the disk with the number `n`.
pub open spec fn drive_path(n: int) -> Seq<char> {
    "\\\\.\\PhysicalDrive"@ + signed_decimal(n)
}

/// The number in the path of a disk is the number that the path was made of.
pub proof fn law_drive_path_round_trip(n: nat)
    requires
        n <= u32::MAX,
    ensures
        drive_number(drive_path(n as int)) == Ok::<nat, FlashErrorView>(n),
{
    reveal_strlit("\\\\.\\PhysicalDrive");
    reveal_strlit("\\\\.\\PHYSICALDRIVE");
    let path = drive_path(n as int);
    let up = path.map_values(|c: char| upper(c));
    lemma_decimal_digits(n);
    law_decimal_round_trip(n, u32::MAX as nat);
    assert(DRIVE_PREFIX@.len() == 17);
    assert(up.subrange(0, 17) =~= DRIVE_PREFIX@);
    assert(up.skip(17) =~= decimal(n)) by {
        assert forall|i: int| 0 <= i < decimal(n).len() implies up.skip(17)[i] == decimal(n)[i] by {
            assert(is_digit(decimal(n)[i]));
        }
    }
}

/// What Windows says of the extents of a volume.
#[derive(Debug, Clone, Copy, PartialEq, Eq, Structural)]
pub struct ExtentsReply {
    /// How many extents the volume has
    pub count: u32,
    /// The disk of the first extent
    pub disk_number: u32,
}

/// The number of the disk behind a handle: the device number, if Windows tells it.
/// The extents of a volume do not count.
pub fn storage_device_number(answer: Result<u32, String>) -> (number: Option<u32>)
    ensures
        number == (match answer {
            Ok(n) => Some(n),
            Err(_) => None,
        }),
{
    match answer {
        Ok(n) => Some(n),
        Err(_) => None,
    }
}

/// What Windows says of the path names of a volume: how much room they need, and
/// the names if they could be had.
pub open spec fn volume_names(required_chars: u32, names: Option<Seq<u16>>) -> Seq<Seq<u16>> {
    match names {
        Some(buf) => if required_chars == 0 {
            Seq::empty()
        } else {
            multi_string(buf)
        },
        None => Seq::empty(),
    }
}

/// A buffer that may be missing, as contracts speak of it.
pub open spec fn maybe(buf: Option<&[u16]>) -> Option<Seq<u16>> {
    match buf {
        Some(b) => Some(b@),
        None => None,
    }
}

/// The path names of a volume.
fn names_of(required_chars: u32, names: Option<&[u16]>) -> (found: Vec<Vec<u16>>)
    ensures
        found@.map_values(|e: Vec<u16>| e@) == volume_names(required_chars, maybe(names)),
{
    match names {
        Some(buf) if required_chars != 0 => split_multi_string(buf),
        _ => {
            let none: Vec<Vec<u16>> = Vec::new();
            assert(none@.map_values(|e: Vec<u16>| e@) =~= Seq::<Seq<u16>>::empty());
            none
        },
    }
}

/// The mount points to remove from a volume, each ended by a NUL.
pub fn remove_mount_points(required_chars: u32, names: Option<&[u16]>) -> (points: Vec<Vec<u16>>)
    ensures
        points@.map_values(|e: Vec<u16>| e@) == volume_names(
            required_chars,
            maybe(names),
        ).map_values(|e: Seq<u16>| e.push(0)),
{
    let found = names_of(required_chars, names);
    let ghost all = volume_names(required_chars, maybe(names));
    let mut points: Vec<Vec<u16>> = Vec::new();
    let mut i: usize = 0;
    while i < found.len()
        invariant
            i <= found.len(),
            found@.map_values(|e: Vec<u16>| e@) == all,
            points@.map_values(|e: Vec<u16>| e@) == all.take(i as int).map_values(
                |e: Seq<u16>| e.push(0),
            ),
        decreases found.len() - i,
    {
        let ghost before = points@.map_values(|e: Vec<u16>| e@);
        let mut point = vstd::slice::slice_to_vec(found[i].as_slice());
        point.push(0);
        assert(all[i as int] == found@[i as int]@);
        points.push(point);
        i = i + 1;
        assert(points@.map_values(|e: Vec<u16>| e@) =~= before.push(all[i - 1].push(0)));
        assert(points@.map_values(|e: Vec<u16>| e@) =~= all.take(i as int).map_values(
            |e: Seq<u16>| e.push(0),
        ));
    }
    assert(all.take(i as int) =~= all);
    points
}

/// What Windows says of a volume.
#[derive(Debug)]
pub struct VolumeReplies {
    /// The number of its disk, if the volume could be opened
    pub device_number: Option<u32>,
    /// How much room its path names need
    pub required_chars: u32,
    /// Its path names
    pub names: Option<Vec<u16>>,
}

impl VolumeReplies {
    /// The path names of the volume.
    pub open spec fn letters(&self) -> Seq<Seq<char>> {
        volume_names(
            self.required_chars,
            match self.names {
                Some(buf) => Some(buf@),
                None => None,
            },
        ).map_values(|e: Seq<u16>| decoded(e))
    }
}

/// The path names of a volume, if it belongs to the disk `target_number`.
pub fn get_single_volume_letters(volume: &VolumeReplies, target_number: u32) -> (letters: Option<
    Vec<String>,
>)
    ensures
        letters is Some <==> volume.device_number == Some(target_number),
        letters matches Some(l) ==> texts_of(l@) == volume.letters(),
{
    if volume.device_number != Some(target_number) {
        return None;
    }
    let names: Option<&[u16]> = match &volume.names {
        Some(buf) => Some(buf.as_slice()),
        None => None,
    };
    let found = names_of(volume.required_chars, names);
    let ghost all = volume_names(volume.required_chars, maybe(names));
    let mut letters: Vec<String> = Vec::new();
    let mut i: usize = 0;
    while i < found.len()
        invariant
            i <= found.len(),
            found@.map_values(|e: Vec<u16>| e@) == all,
            texts_of(letters@) == all.take(i as int).map_values(|e: Seq<u16>| decoded(e)),
        decreases found.len() - i,
    {
        let ghost before = texts_of(letters@);
        assert(all[i as int] == found@[i as int]@);
        letters.push(decode(found[i].as_slice()));
        i = i + 1;
        assert(texts_of(letters@) =~= before.push(decoded(all[i - 1])));
        assert(texts_of(letters@) =~= all.take(i as int).map_values(|e: Seq<u16>| decoded(e)));
    }
    assert(all.take(i as int) =~= all);
    Some(letters)
}

/// The path names of all those of `volumes` that belong to the disk `number`.
pub open spec fn letters_on(volumes: Seq<VolumeReplies>, number: nat) -> Seq<Seq<char>>
    decreases volumes.len(),
{
    if volumes.len() == 0 {
        Seq::empty()
    } else {
        let before = letters_on(volumes.drop_last(), number);
        if volumes.last().device_number matches Some(n) && n == number {
            before + volumes.last().letters()
        } else {
            before
        }
    }
}

/// The mount points, drive letters or paths, of a disk. A device whose path is
/// not that of a disk has none.
pub fn get_drive_letters_for_drive(device: BlockDevice, volumes: &[VolumeReplies]) -> (letters: Vec<
    String,
>)
    ensures
        texts_of(letters@) == (match drive_number(device.path@) {
            Ok(n) => letters_on(volumes@, n),
            Err(_) => Seq::empty(),
        }),
{
    let mut letters: Vec<String> = Vec::new();
    assert(texts_of(letters@) =~= Seq::<Seq<char>>::empty());
    let target_number: u32 = match physical_drive_number(device.path.as_str()) {
        Ok(n) => n,
        Err(_) => {
            return letters;
        },
    };
    let mut i: usize = 0;
    while i < volumes.len()
        invariant
            i <= volumes.len(),
            texts_of(letters@) == letters_on(volumes@.take(i as int), target_number as nat),
        decreases volumes.len() - i,
    {
        let ghost before = texts_of(letters@);
        assert(volumes@.take(i + 1).drop_last() =~= volumes@.take(i as int));
        if let Some(mut found) = get_single_volume_letters(&volumes[i], target_number) {
            let ghost more = texts_of(found@);
            letters.append(&mut found);
            assert(texts_of(letters@) =~= before + more);
        }
        i = i + 1;
    }
    assert(volumes@.take(i as int) =~= volumes@);
    letters
}

/// The number of drive letters.
pub const DRIVE_LETTERS: usize = 26;

/// A drive whose media can be taken out.
pub const DRIVE_REMOVABLE: u32 = 2;

/// A hard disk or a flash drive.
pub const DRIVE_FIXED: u32 = 3;

/// What Windows says of the drive behind a letter.
#[derive(Debug, Clone, Copy, PartialEq, Eq, Structural)]
pub struct LogicalDrive {
    /// The type of the drive
    pub drive_type: u32,
    /// The number of its disk, if the drive could be opened
    pub device_number: Option<u32>,
}

/// Whether there is a drive with the letter number `i`.
pub open spec fn has_letter(mask: u32, i: int) -> bool {
    mask & (1u32 << (i as u32)) != 0
}

/// Whether there is a drive with the letter number `i`.
pub fn is_available(mask: u32, i: usize) -> (yes: bool)
    requires
        i < DRIVE_LETTERS,
    ensures
        yes == has_letter(mask, i as int),
        yes <==> (mask >> (i as u32)) & 1 == 1,
{
    proof {
        let k = i as u32;
        assert(mask & (1u32 << k) != 0 <==> (mask >> k) & 1 == 1) by (bit_vector)
            requires
                k < 32,
        ;
    }
    mask & (1u32 << (i as u32)) != 0
}

/// Whether a drive is fixed or removable. CD-ROM, RAM and network drives are neither.
pub open spec fn local_drive(drive_type: u32) -> bool {
    drive_type == DRIVE_FIXED || drive_type == DRIVE_REMOVABLE
}

/// Whether a drive is fixed or removable.
pub fn is_local(drive_type: u32) -> (yes: bool)
    ensures
        yes == local_drive(drive_type),
        yes <==> drive_type == 2 || drive_type == 3,
{
    drive_type == DRIVE_FIXED || drive_type == DRIVE_REMOVABLE
}

/// The drive letter number `i`.
pub open spec fn drive_letter(i: int) -> char {
    ('A' as int + i) as char
}

/// The root directory of the drive with the letter number `i`: `C:\`.
pub open spec fn root_of(i: int) -> Seq<char> {
    seq![drive_letter(i), ':', '\\']
}

/// The root directory of the drive with the letter number `i`.
pub fn logical_root(i: usize) -> (root: String)
    requires
        i < DRIVE_LETTERS,
    ensures
        root@ == root_of(i as int),
        root@.len() == 3,
        root@[0] as int == 65 + i,
        root@[1] == ':',
        root@[2] == '\\',
{
    let code: u8 = 65 + i as u8;
    let mut root = String::new();
    root.push(code as char);
    root.push(':');
    root.push('\\');
    assert(root@ =~= root_of(i as int));
    root
}

/// The device of the drive with the letter number `i`: `\\.\C:`.
pub fn logical_device(i: usize) -> (device: String)
    requires
        i < DRIVE_LETTERS,
    ensures
        device@ == "\\\\.\\"@ + seq![drive_letter(i as int), ':'],
        device@ == "\\\\.\\"@ + seq![(65 + i) as char, ':'],
{
    let code: u8 = 65 + i as u8;
    let mut device = joined("\\\\.\\", "");
    device.push(code as char);
    device.push(':');
    assert(""@ =~= Seq::<char>::empty()) by {
        reveal_strlit("");
    }
    assert(device@ =~= "\\\\.\\"@ + seq![drive_letter(i as int), ':']);
    device
}

/// The root directories of those of the first `n` drives that lie on the disk `target`.
pub open spec fn roots_on(mask: u32, drives: Seq<LogicalDrive>, target: u32, n: nat) -> Seq<
    Seq<char>,
>
    decreases n,
{
    if n == 0 {
        Seq::empty()
    } else {
        let i = n - 1;
        let before = roots_on(mask, drives, target, i as nat);
        if has_letter(mask, i) && local_drive(drives[i].drive_type) && drives[i].device_number
            == Some(target) {
            before.push(root_of(i))
        } else {
            before
        }
    }
}

/// The root directories, in the order of their letters, of the fixed and removable
/// drives on a disk.
pub fn get_logical_mountpoints(mask: u32, drives: &[LogicalDrive], target_disk_number: u32) -> (roots:
    Vec<String>)
    requires
        drives@.len() == DRIVE_LETTERS,
    ensures
        texts_of(roots@) == roots_on(mask, drives@, target_disk_number, DRIVE_LETTERS as nat),
        texts_of(roots@) == roots_on(mask, drives@, target_disk_number, 26),
{
    let mut roots: Vec<String> = Vec::new();
    let mut i: usize = 0;
    assert(texts_of(roots@) =~= Seq::<Seq<char>>::empty());
    while i < DRIVE_LETTERS
        invariant
            i <= DRIVE_LETTERS,
            drives@.len() == DRIVE_LETTERS,
            texts_of(roots@) == roots_on(mask, drives@, target_disk_number, i as nat),
        decreases DRIVE_LETTERS - i,
    {
        let ghost before = texts_of(roots@);
        if is_available(mask, i) && is_local(drives[i].drive_type) && drives[i].device_number
            == Some(target_disk_number) {
            roots.push(logical_root(i));
            assert(texts_of(roots@) =~= before.push(root_of(i as int)));
        }
        i = i + 1;
    }
    roots
}

/// A device that leaves after it was asked to.
pub const EXPECT_ORDERLY_REMOVAL: u32 = 2;

/// A device that may leave at any time.
pub const EXPECT_SURPRISE_REMOVAL: u32 = 3;

/// Whether a device can be removed, by its removal policy.
pub open spec fn removable_by(policy: Option<u32>) -> bool {
    policy == Some(EXPECT_ORDERLY_REMOVAL) || policy == Some(EXPECT_SURPRISE_REMOVAL)
}

/// Whether a device can be removed, by its removal policy.
pub fn is_removable(policy: Option<u32>) -> (yes: bool)
    ensures
        yes == removable_by(policy),
        yes <==> policy == Some(2u32) || policy == Some(3u32),
{
    match policy {
        Some(p) => p == EXPECT_ORDERLY_REMOVAL || p == EXPECT_SURPRISE_REMOVAL,
        None => false,
    }
}

/// The name of a device, if it has one that is not empty.
pub open spec fn name_in(buffer: Option<Seq<u16>>) -> Option<Seq<char>> {
    match buffer {
        Some(b) => if nul_ended(b).len() == 0 {
            None
        } else {
            Some(nul_ended(b))
        },
        None => None,
    }
}

/// The name of a device, if it has one that is not empty.
pub fn friendly_name(buffer: Option<&[u16]>) -> (name: Option<String>)
    ensures
        match name {
            Some(n) => name_in(maybe(buffer)) == Some(n@),
            None => name_in(maybe(buffer)) is None,
        },
        match (buffer, name) {
            (Some(b), Some(n)) => n@ == nul_ended(b@) && n@.len() > 0,
            (Some(b), None) => nul_ended(b@).len() == 0,
            (None, n) => n is None,
        },
{
    match buffer {
        Some(b) => {
            let name = decode_wide_nul_string(b);
            if chars_of(name.as_str()).len() == 0 {
                None
            } else {
                Some(name)
            }
        },
        None => None,
    }
}

/// The code units that `bytes` hold, the low half of each first.
pub open spec fn le_units(bytes: Seq<u8>) -> Seq<u16> {
    Seq::new(bytes.len() / 2, |i: int| (bytes[2 * i] + 256 * bytes[2 * i + 1]) as u16)
}

/// Where the path starts in the details of an interface.
pub const PATH_OFFSET: usize = 4;

/// The path in the details of an interface, with the NUL that ends it.
pub open spec fn path_in(detail: Seq<u8>) -> Seq<u16> {
    let units = le_units(detail.skip(PATH_OFFSET as int));
    units.take(nul_at(units) as int + 1)
}

/// Whether the path in the details of an interface is ended by a NUL.
pub open spec fn path_ends(detail: Seq<u8>) -> bool {
    let units = le_units(detail.skip(PATH_OFFSET as int));
    nul_at(units) < units.len()
}

/// The code units in `bytes` from `from` on.
fn units_from(bytes: &[u8], from: usize) -> (units: Vec<u16>)
    requires
        from <= bytes@.len(),
    ensures
        units@ == le_units(bytes@.skip(from as int)),
{
    let n: usize = (bytes.len() - from) / 2;
    let mut units: Vec<u16> = Vec::new();
    let mut i: usize = 0;
    let ghost all = le_units(bytes@.skip(from as int));
    while i < n
        invariant
            i <= n,
            n == (bytes@.len() - from) / 2,
            from <= bytes@.len(),
            all == le_units(bytes@.skip(from as int)),
            units@ == all.take(i as int),
        decreases n - i,
    {
        assert(from + 2 * i + 1 < bytes.len());
        let low: u16 = bytes[from + 2 * i] as u16;
        let high: u16 = bytes[from + 2 * i + 1] as u16;
        units.push(low + 256 * high);
        i = i + 1;
        assert(units@ =~= all.take(i as int));
    }
    assert(all.take(i as int) =~= all);
    units
}

/// Whether the path in the details of an interface is ended by a NUL.
pub fn has_path_end(detail: &[u8]) -> (yes: bool)
    requires
        detail@.len() >= PATH_OFFSET,
    ensures
        yes == path_ends(detail@),
        yes <==> exists|i: int|
            0 <= i && 5 + 2 * i < detail@.len() && #[trigger] detail@[4 + 2 * i] == 0 && detail@[5
                + 2 * i] == 0,
{
    let units = units_from(detail, PATH_OFFSET);
    assert(units@.skip(0) =~= units@);
    proof {
        lemma_nul_at(units@);
        let n = nul_at(units@) as int;
        if n < units@.len() {
            assert(units@[n] == detail@[4 + 2 * n] + 256 * detail@[5 + 2 * n]);
        }
        if exists|i: int|
            0 <= i && 5 + 2 * i < detail@.len() && #[trigger] detail@[4 + 2 * i] == 0 && detail@[5
                + 2 * i] == 0 {
            let i = choose|i: int|
                0 <= i && 5 + 2 * i < detail@.len() && #[trigger] detail@[4 + 2 * i] == 0
                    && detail@[5 + 2 * i] == 0;
            assert(units@[i] == detail@[4 + 2 * i] + 256 * detail@[5 + 2 * i]);
        }
    }
    find_nul(units.as_slice(), 0) < units.len()
}

/// The path of an interface, if its details were told and have at least the
/// size `min_size`.
pub fn interface_path(min_size: u32, detail: Option<&[u8]>) -> (path: Option<Vec<u16>>)
    requires
        min_size >= PATH_OFFSET,
        detail matches Some(d) ==> d@.len() >= min_size ==> path_ends(d@),
    ensures
        path is Some <==> (detail matches Some(d) && d@.len() >= min_size),
        path matches Some(p) ==> p@ == path_in(detail->0@),
        path matches Some(p) ==> {
            let d = detail->0@;
            &&& p@.len() > 0 && 4 + 2 * p@.len() <= d.len()
            &&& forall|i: int|
                0 <= i < p@.len() ==> #[trigger] p@[i] == d[4 + 2 * i] + 256 * d[5 + 2 * i]
            &&& forall|i: int| 0 <= i < p@.len() ==> (#[trigger] p@[i] == 0 <==> i == p@.len() - 1)
        },
{
    match detail {
        None => None,
        Some(d) => {
            if (d.len() as u64) < min_size as u64 {
                return None;
            }
            let units = units_from(d, PATH_OFFSET);
            assert(units@.skip(0) =~= units@);
            let end: usize = find_nul(units.as_slice(), 0);
            proof {
                lemma_nul_at(units@);
            }
            let path = vstd::slice::slice_to_vec(
                vstd::slice::slice_subrange(units.as_slice(), 0, end + 1),
            );
            assert(path@ =~= path_in(d@));
            Some(path)
        },
    }
}

/// The signed number with the same bits as `u`.
pub open spec fn as_signed(u: u32) -> int {
    if u < 0x8000_0000 {
        u as int
    } else {
        u - 0x1_0000_0000
    }
}

/// The signed number with the same bits as `u`.
fn signed(u: u32) -> (n: i32)
    ensures
        n == as_signed(u),
{
    if u < 0x8000_0000 {
        u as i32
    } else {
        let below: u32 = 0xffff_ffff - u;
        -(below as i32) - 1
    }
}

/// Whether a disk is part of an array: it has two or more extents.
pub open spec fn is_array(extents: Option<ExtentsReply>) -> bool {
    extents matches Some(r) && r.count >= 2
}

/// The number of a disk: its device number, or else the disk of its one extent.
/// Part of an array has none, nor has a disk whose number is -1.
pub open spec fn disk_number_of(extents: Option<ExtentsReply>, device_number: Option<u32>) -> Option<
    int,
> {
    let n = match device_number {
        Some(d) => as_signed(d),
        None => match extents {
            Some(r) => if r.count == 1 {
                as_signed(r.disk_number)
            } else {
                -1
            },
            None => -1,
        },
    };
    if is_array(extents) || n == -1 {
        None
    } else {
        Some(n)
    }
}

/// The number of a disk, if it has one.
pub fn disk_number(extents: Option<ExtentsReply>, device_number: Option<u32>) -> (number: Option<i32>)
    ensures
        match number {
            Some(n) => disk_number_of(extents, device_number) == Some(n as int),
            None => disk_number_of(extents, device_number) is None,
        },
        extents matches Some(r) ==> r.count >= 2 ==> number is None,
        !(extents matches Some(r) && r.count >= 2) ==> match (device_number, number) {
            (Some(d), Some(n)) => d != 0xffff_ffff && (if n >= 0 {
                d == n
            } else {
                d == n + 0x1_0000_0000
            }),
            (Some(d), None) => d == 0xffff_ffff,
            (None, Some(n)) => extents matches Some(r) && r.count == 1 && r.disk_number
                != 0xffff_ffff && (if n >= 0 {
                r.disk_number == n
            } else {
                r.disk_number == n + 0x1_0000_0000
            }),
            (None, None) => extents matches Some(r) ==> r.count == 1 ==> r.disk_number
                == 0xffff_ffff,
        },
{
    let (count, first): (u32, i32) = match extents {
        Some(r) => (r.count, signed(r.disk_number)),
        None => (0, -1),
    };
    if count >= 2 {
        return None;
    }
    let n: i32 = match device_number {
        Some(d) => signed(d),
        None => if count == 1 {
            first
        } else {
            -1
        },
    };
    if n == -1 {
        None
    } else {
        Some(n)
    }
}

/// The unsigned number with the same bits as `n`.
pub fn unsigned(n: i32) -> (u: u32)
    ensures
        as_signed(u) == n,
        n >= 0 ==> u == n,
        n < 0 ==> u == n + 0x1_0000_0000,
{
    if n >= 0 {
        n as u32
    } else {
        let below: u32 = (-(n + 1)) as u32;
        0xffff_ffff - below
    }
}

/// The unsigned number with the same bits as a size that Windows tells.
pub open spec fn size_bits(size: i64) -> int {
    if size >= 0 {
        size as int
    } else {
        size + 0x1_0000_0000_0000_0000
    }
}

/// The unsigned number with the same bits as a size that Windows tells.
fn unsigned_size(size: i64) -> (n: u64)
    ensures
        n == size_bits(size),
{
    if size >= 0 {
        size as u64
    } else {
        let below: u64 = (-(size + 1)) as u64;
        0xffff_ffff_ffff_ffff - below
    }
}

/// `texts` one behind the other, with `separator` between them.
pub open spec fn separated(texts: Seq<Seq<char>>, separator: Seq<char>) -> Seq<char>
    decreases texts.len(),
{
    if texts.len() == 0 {
        Seq::empty()
    } else if texts.len() == 1 {
        texts[0]
    } else {
        separated(texts.drop_last(), separator) + separator + texts.last()
    }
}

/// `texts` one behind the other, with `separator` between them.
pub fn join(texts: &[String], separator: &str) -> (s: String)
    ensures
        s@ == separated(texts_of(texts@), separator@),
{
    let mut s = String::new();
    let mut i: usize = 0;
    let ghost all = texts_of(texts@);
    while i < texts.len()
        invariant
            i <= texts.len(),
            all == texts_of(texts@),
            s@ == separated(all.take(i as int), separator@),
        decreases texts.len() - i,
    {
        assert(all[i as int] == texts@[i as int]@);
        assert(all.take(i + 1).drop_last() =~= all.take(i as int));
        let ghost before = s@;
        if i > 0 {
            s.append(separator);
        }
        s.append(texts[i].as_str());
        i = i + 1;
        assert(s@ =~= separated(all.take(i as int), separator@));
    }
    assert(all.take(i as int) =~= all);
    s
}

/// What Windows says of an open disk.
#[derive(Debug)]
pub struct OpenDisk {
    /// The size in bytes
    pub size: i64,
    /// The size of a sector
    pub bytes_per_sector: u32,
    /// The extents of the disk
    pub extents: Option<ExtentsReply>,
    /// The device number
    pub device_number: Option<u32>,
    /// The root directories of the drives on the disk
    pub mountpoints: Vec<String>,
}

/// What Windows says of a device of the class of disks. Nothing is asked after
/// something was not told.
#[derive(Debug)]
pub struct DiskReplies {
    /// The removal policy
    pub removal_policy: Option<u32>,
    /// The buffer with the name
    pub friendly_name: Option<Vec<u16>>,
    /// Whether the device has the interface of a disk
    pub has_interface: bool,
    /// The details of that interface
    pub detail: Option<Vec<u8>>,
    /// The disk, if it could be opened
    pub opened: Option<OpenDisk>,
}

impl DiskReplies {
    /// The name of the device.
    pub open spec fn name(&self) -> Option<Seq<char>> {
        name_in(
            match self.friendly_name {
                Some(b) => Some(b@),
                None => None,
            },
        )
    }

    /// The device as a disk that can be flashed, with the path to show for it,
    /// unless something about it is missing.
    pub open spec fn disk(&self, min_size: u32) -> Option<(Seq<char>, BlockDeviceView)> {
        match (self.name(), self.detail, self.opened) {
            (Some(name), Some(detail), Some(open)) => {
                match disk_number_of(open.extents, open.device_number) {
                    Some(n) => if self.has_interface && detail@.len() >= min_size {
                        Some(
                            (
                                separated(texts_of(open.mountpoints@), ", "@),
                                BlockDeviceView {
                                    path: drive_path(n),
                                    name,
                                    size_bytes: size_bits(open.size) as u64,
                                    is_removable: removable_by(self.removal_policy),
                                    sector_size: open.bytes_per_sector as usize,
                                },
                            ),
                        )
                    } else {
                        None
                    },
                    None => None,
                }
            },
            _ => None,
        }
    }
}

/// A device with the path to show for it, as contracts speak of it.
pub open spec fn shown_view(shown: (String, BlockDevice)) -> (Seq<char>, BlockDeviceView) {
    (shown.0@, shown.1@)
}

/// The device as a disk that can be flashed, with the path to show for it.
pub fn describe_disk(replies: &DiskReplies, min_size: u32) -> (disk: Option<(String, BlockDevice)>)
    ensures
        match disk {
            Some(d) => replies.disk(min_size) == Some(shown_view(d)),
            None => replies.disk(min_size) is None,
        },
        disk matches Some(d) ==> {
            &&& replies.friendly_name matches Some(b) && d.1.name@ == nul_ended(b@)
            &&& replies.opened matches Some(open) && {
                &&& disk_number_of(open.extents, open.device_number) matches Some(n) && d.1.path@
                    == "\\\\.\\PhysicalDrive"@ + signed_decimal(n)
                &&& open.size >= 0 ==> d.1.size_bytes == open.size
                &&& open.size < 0 ==> d.1.size_bytes == open.size + 0x1_0000_0000_0000_0000
                &&& d.1.sector_size == open.bytes_per_sector
                &&& d.0@ == separated(texts_of(open.mountpoints@), ", "@)
            }
            &&& d.1.is_removable <==> replies.removal_policy == Some(2u32)
                || replies.removal_policy == Some(3u32)
        },
        disk is Some <==> {
            &&& replies.friendly_name matches Some(b) && nul_ended(b@).len() > 0
            &&& replies.has_interface
            &&& replies.detail matches Some(detail) && detail@.len() >= min_size
            &&& replies.opened matches Some(open) && disk_number_of(
                open.extents,
                open.device_number,
            ) is Some
        },
{
    let buffer: Option<&[u16]> = match &replies.friendly_name {
        Some(b) => Some(b.as_slice()),
        None => None,
    };
    let name = match friendly_name(buffer) {
        Some(n) => n,
        None => {
            return None;
        },
    };
    if !replies.has_interface {
        return None;
    }
    match &replies.detail {
        Some(d) => {
            if (d.len() as u64) < min_size as u64 {
                return None;
            }
        },
        None => {
            return None;
        },
    }
    match &replies.opened {
        None => None,
        Some(open) => match disk_number(open.extents, open.device_number) {
            None => None,
            Some(n) => {
                let digits = write_i32(n);
                let path = joined("\\\\.\\PhysicalDrive", digits.as_str());
                let display_path = join(open.mountpoints.as_slice(), ", ");
                let device = BlockDevice::new(
                    path,
                    name,
                    unsigned_size(open.size),
                    is_removable(replies.removal_policy),
                    open.bytes_per_sector as usize,
                );
                Some((display_path, device))
            },
        },
    }
}

/// Those of the devices that can be flashed.
pub open spec fn disks(devices: Seq<DiskReplies>, min_size: u32) -> Seq<(Seq<char>, BlockDeviceView)>
    decreases devices.len(),
{
    if devices.len() == 0 {
        Seq::empty()
    } else {
        let before = disks(devices.drop_last(), min_size);
        match devices.last().disk(min_size) {
            Some(d) => before.push(d),
            None => before,
        }
    }
}

/// The devices of the class of disks, or why they cannot be listed.
#[derive(Debug)]
pub enum DiskClass {
    /// The list cannot be had, for this reason
    Failed(String),
    /// The handle of the list is invalid
    Invalid,
    /// The devices
    Found(Vec<DiskReplies>),
}

/// The disks that can be flashed, each with the path to show for it.
pub fn list_devices(class: &DiskClass, min_size: u32) -> (r: FlashResult<Vec<(String, BlockDevice)>>)
    ensures
        match class {
            DiskClass::Failed(text) => result_view(r) == Err::<
                Vec<(String, BlockDevice)>,
                FlashErrorView,
            >(FlashErrorView::WindowsError(text@)),
            DiskClass::Invalid => result_view(r) == Err::<
                Vec<(String, BlockDevice)>,
                FlashErrorView,
            >(FlashErrorView::WindowsGenericError),
            DiskClass::Found(devices) => r is Ok && r->Ok_0@.map_values(
                |d: (String, BlockDevice)| shown_view(d),
            ) == disks(devices@, min_size),
        },
{
    match class {
        DiskClass::Failed(text) => Err(FlashError::WindowsError(text.clone())),
        DiskClass::Invalid => Err(FlashError::WindowsGenericError),
        DiskClass::Found(devices) => {
            let mut found: Vec<(String, BlockDevice)> = Vec::new();
            let mut i: usize = 0;
            assert(found@.map_values(|d: (String, BlockDevice)| shown_view(d)) =~= Seq::empty());
            while i < devices.len()
                invariant
                    i <= devices.len(),
                    found@.map_values(|d: (String, BlockDevice)| shown_view(d)) == disks(
                        devices@.take(i as int),
                        min_size,
                    ),
                decreases devices.len() - i,
            {
                let ghost before = found@.map_values(|d: (String, BlockDevice)| shown_view(d));
                assert(devices@.take(i + 1).drop_last() =~= devices@.take(i as int));
                if let Some(disk) = describe_disk(&devices[i], min_size) {
                    found.push(disk);
                    assert(found@.map_values(|d: (String, BlockDevice)| shown_view(d))
                        =~= before.push(shown_view(disk)));
                }
                i = i + 1;
            }
            assert(devices@.take(i as int) =~= devices@);
            Ok(found)
        },
    }
}

/// The path of a listed disk tells its number, if the number is not negative.
pub proof fn law_listed_disk_tells_number(replies: DiskReplies, min_size: u32)
    requires
        replies.disk(min_size) is Some,
        disk_number_of(replies.opened->0.extents, replies.opened->0.device_number)->0 >= 0,
    ensures
        drive_number((replies.disk(min_size)->0).1.path) == Ok::<nat, FlashErrorView>(
            disk_number_of(
                replies.opened->0.extents,
                replies.opened->0.device_number,
            )->0 as nat,
        ),
{
    let n = disk_number_of(replies.opened->0.extents, replies.opened->0.device_number)->0;
    law_drive_path_round_trip(n as nat);
}

/// An open disk, with whatever stands for an open file. It also holds the locked
/// volumes of the disk, which must stay locked until the last write.
#[derive(Debug)]
pub struct WindowsRawWriteHandle<F> {
    /// The disk
    pub file: Option<F>,
    /// The size of its sectors
    pub sector_size: usize,
    /// Its size
    pub size_bytes: u64,
    /// The locked volumes
    pub volume_locks: Vec<F>,
}

impl<F> WindowsRawWriteHandle<F> {
    /// A handle without an open disk.
    pub fn empty() -> (handle: Self)
        ensures
            handle.file is None,
            handle.sector_size == 0,
            handle.size_bytes == 0,
            handle.volume_locks@ == Seq::<F>::empty(),
    {
        WindowsRawWriteHandle {
            file: None,
            sector_size: 0,
            size_bytes: 0,
            volume_locks: Vec::new(),
        }
    }

    /// The handle of a device that was opened.
    pub fn open_for_writing(device: &BlockDevice, file: F, volume_locks: Vec<F>) -> (handle: Self)
        ensures
            handle == (WindowsRawWriteHandle {
                file: Some(file),
                sector_size: device.sector_size,
                size_bytes: device.size_bytes,
                volume_locks,
            }),
    {
        WindowsRawWriteHandle {
            file: Some(file),
            sector_size: device.sector_size,
            size_bytes: device.size_bytes,
            volume_locks,
        }
    }

    /// The size of the sectors.
    pub fn sector_size(&self) -> (n: usize)
        ensures
            n == self.sector_size,
    {
        self.sector_size
    }

    /// The size of the disk.
    pub fn size_bytes(&self) -> (n: FlashResult<u64>)
        ensures
            n == Ok::<u64, FlashError>(self.size_bytes),
    {
        Ok(self.size_bytes)
    }

    /// The open disk, to read, write, seek or flush.
    pub fn open_file(&self) -> (file: FlashResult<&F>)
        ensures
            match self.file {
                Some(f) => file is Ok && *(file->Ok_0) == f,
                None => result_view(file) == Err::<&F, FlashErrorView>(
                    FlashErrorView::WindowsHandle,
                ),
            },
    {
        match &self.file {
            Some(f) => Ok(f),
            None => Err(FlashError::WindowsHandle),
        }
    }

    /// What has to be opened and asked to eject its medium: the device, whatever
    /// the handle itself has open.
    pub fn eject(&self, device: &BlockDevice) -> (target: FlashResult<String>)
        ensures
            target matches Ok(path) && path@ == device.path@,
    {
        Ok(device.path.clone())
    }
}

/// How Windows answers the request to eject the medium of a device.
#[derive(Debug)]
pub enum EjectAnswer {
    /// The device could not be opened
    NotOpened(IoError),
    /// The request was refused
    Refused(String),
    /// The medium was ejected
    Ejected,
}

/// Whether a device was ejected.
pub fn ejected(answer: EjectAnswer) -> (r: FlashResult<()>)
    ensures
        match answer {
            EjectAnswer::NotOpened(e) => result_view(r) == Err::<(), FlashErrorView>(io_failure(e)),
            EjectAnswer::Refused(text) => result_view(r) == Err::<(), FlashErrorView>(
                FlashErrorView::WindowsError(text@),
            ),
            EjectAnswer::Ejected => r is Ok,
        },
{
    match answer {
        EjectAnswer::NotOpened(e) => Err(FlashError::Io(e)),
        EjectAnswer::Refused(text) => Err(FlashError::WindowsError(text)),
        EjectAnswer::Ejected => Ok(()),
    }
}

/// The number in the path of a disk is what the digits behind the prefix stand for, in
/// whatever case its letters are. Other paths have none.
pub proof fn law_drive_number(path: Seq<char>)
    ensures
        ({
            let prefix = "\\\\.\\PHYSICALDRIVE"@;
            let digits = path.skip(17);
            let begins = path.len() >= 17 && forall|i: int|
                0 <= i < 17 ==> (#[trigger] path[i] == prefix[i] || 'A' <= prefix[i] <= 'Z'
                    && path[i] as u32 == prefix[i] as u32 + 32);
            let numbered = digits.len() > 0 && forall|i: int|
                0 <= i < digits.len() ==> '0' <= #[trigger] digits[i] <= '9';
            &&& begins && numbered ==> match parsed(digits, 0xffff_ffff) {
                Ok(n) => drive_number(path) == Ok::<nat, FlashErrorView>(n),
                Err(_) => drive_number(path) == Err::<nat, FlashErrorView>(
                    FlashErrorView::FilesystemError(
                        "cannot parse drive number from '"@ + path + "'"@,
                    ),
                ),
            }
            &&& begins && !numbered ==> drive_number(path) == Err::<nat, FlashErrorView>(
                FlashErrorView::FilesystemError("invalid drive number in path: '"@ + path + "'"@),
            )
            &&& !begins ==> drive_number(path) == Err::<nat, FlashErrorView>(
                FlashErrorView::FilesystemError(
                    "path does not look like a physical drive: '"@ + path + "'"@,
                ),
            )
        }),
{
    reveal_strlit("\\\\.\\PHYSICALDRIVE");
    let prefix = "\\\\.\\PHYSICALDRIVE"@;
    let up = path.map_values(|c: char| upper(c));
    let digits = path.skip(17);
    let begins = path.len() >= 17 && forall|i: int|
        0 <= i < 17 ==> (#[trigger] path[i] == prefix[i] || 'A' <= prefix[i] <= 'Z'
            && path[i] as u32 == prefix[i] as u32 + 32);
    assert(prefix.len() == 17);
    if begins {
        assert forall|i: int| 0 <= i < 17 implies up[i] == prefix[i] by {
            assert(path[i] == prefix[i] || 'A' <= prefix[i] <= 'Z' && path[i] as u32
                == prefix[i] as u32 + 32);
            assert(!('a' <= prefix[i] <= 'z'));
        }
        assert(up.subrange(0, 17) =~= prefix);
        let rest = up.skip(17);
        if all_digits(rest) {
            assert forall|i: int| 0 <= i < digits.len() implies '0' <= #[trigger] digits[i] <= '9' by {
                assert(is_digit(rest[i]));
                assert(rest[i] == upper(digits[i]));
            }
            assert(rest =~= digits);
        }
        if digits.len() > 0 && forall|i: int|
            0 <= i < digits.len() ==> '0' <= #[trigger] digits[i] <= '9' {
            assert forall|i: int| 0 <= i < rest.len() implies is_digit(#[trigger] rest[i]) by {
                assert('0' <= digits[i] <= '9');
            }
            assert(rest =~= digits);
        }
    } else if prefix.is_prefix_of(up) {
        assert forall|i: int| 0 <= i < 17 implies (#[trigger] path[i] == prefix[i] || 'A'
            <= prefix[i] <= 'Z' && path[i] as u32 == prefix[i] as u32 + 32) by {
            assert(up.subrange(0, 17)[i] == prefix[i]);
            assert(up[i] == upper(path[i]));
        }
    }
}

/// The mount points of volumes, one behind the other, are those of each. A volume has those
/// that Windows names, if it lies on the disk.
pub proof fn law_letters_are_joined(
    a: Seq<VolumeReplies>,
    b: Seq<VolumeReplies>,
    volume: VolumeReplies,
    number: nat,
)
    ensures
        letters_on(a + b, number) == letters_on(a, number) + letters_on(b, number),
        ({
            let on_disk = volume.device_number matches Some(n) && n == number;
            let listed = letters_on(seq![volume], number);
            match volume.names {
                Some(buf) => if on_disk && volume.required_chars > 0 {
                    let names = multi_string(buf@);
                    &&& listed.len() == names.len()
                    &&& forall|i: int|
                        0 <= i < names.len() ==> #[trigger] listed[i] == decoded(names[i])
                } else {
                    listed.len() == 0
                },
                None => listed.len() == 0,
            }
        }),
    decreases b.len(),
{
    assert(seq![volume].drop_last() =~= Seq::<VolumeReplies>::empty());
    reveal_with_fuel(letters_on, 2);
    if b.len() == 0 {
        assert(a + b =~= a);
        assert(letters_on(a, number) + letters_on(b, number) =~= letters_on(a, number));
    } else {
        law_letters_are_joined(a, b.drop_last(), volume, number);
        assert((a + b).drop_last() =~= a + b.drop_last());
        assert(letters_on(a + b, number) =~= letters_on(a, number) + letters_on(b, number));
    }
}

/// The mount points to remove are the names that Windows tells, if it tells any.
pub proof fn law_volume_names(required_chars: u32, names: Option<Seq<u16>>)
    ensures
        match names {
            Some(buf) => required_chars > 0 ==> volume_names(required_chars, names) == multi_string(
                buf,
            ),
            None => volume_names(required_chars, names).len() == 0,
        },
        required_chars == 0 ==> volume_names(required_chars, names).len() == 0,
{
}

/// The root of a drive is listed exactly if there is a fixed or removable drive with that
/// letter on the disk. The roots come in the order of their letters.
pub proof fn law_roots_on_disk(mask: u32, drives: Seq<LogicalDrive>, target: u32, n: nat)
    requires
        n <= 26,
    ensures
        forall|i: int|
            0 <= i < n ==> ((mask >> (i as u32)) & 1 == 1 && ((#[trigger] drives[i]).drive_type == 2
                || drives[i].drive_type == 3) && drives[i].device_number == Some(target)
                <==> exists|k: int|
                0 <= k < roots_on(mask, drives, target, n).len() && (#[trigger] roots_on(
                    mask,
                    drives,
                    target,
                    n,
                )[k])[0] as int == 65 + i),
        forall|k: int|
            0 <= k < roots_on(mask, drives, target, n).len() ==> {
                let root = #[trigger] roots_on(mask, drives, target, n)[k];
                &&& root.len() == 3
                &&& 65 <= root[0] as int && (root[0] as int) < 65 + n
                &&& root[1] == ':' && root[2] == '\\'
            },
        forall|j: int, k: int|
            0 <= j < k < roots_on(mask, drives, target, n).len() ==> (#[trigger] roots_on(
                mask,
                drives,
                target,
                n,
            )[j])[0] < (#[trigger] roots_on(mask, drives, target, n)[k])[0],
    decreases n,
{
    if n > 0 {
        let m = (n - 1) as nat;
        let last = n - 1;
        law_roots_on_disk(mask, drives, target, m);
        let before = roots_on(mask, drives, target, m);
        let all = roots_on(mask, drives, target, n);
        let key = last as u32;
        assert(mask & (1u32 << key) != 0 <==> (mask >> key) & 1 == 1) by (bit_vector)
            requires
                key < 32,
        ;
        let here = has_letter(mask, last) && local_drive(drives[last].drive_type)
            && drives[last].device_number == Some(target);
        if here {
            assert(all == before.push(root_of(last)));
            assert(all[before.len() as int][0] as int == 65 + last);
        }
        assert forall|i: int| 0 <= i < n implies ((mask >> (i as u32)) & 1 == 1 && ((
        #[trigger] drives[i]).drive_type == 2 || drives[i].drive_type == 3)
            && drives[i].device_number == Some(target) <==> exists|k: int|
            0 <= k < all.len() && (#[trigger] all[k])[0] as int == 65 + i) by {
            if i < last {
                if exists|k: int| 0 <= k < before.len() && (#[trigger] before[k])[0] as int == 65 + i {
                    let k = choose|k: int|
                        0 <= k < before.len() && (#[trigger] before[k])[0] as int == 65 + i;
                    assert(all[k] == before[k]);
                }
                if exists|k: int| 0 <= k < all.len() && (#[trigger] all[k])[0] as int == 65 + i {
                    let k = choose|k: int| 0 <= k < all.len() && (#[trigger] all[k])[0] as int == 65
                        + i;
                    assert(k < before.len());
                    assert(all[k] == before[k]);
                }
            } else if !here {
                assert(all == before);
            }
        }
    }
}

/// What is listed of devices, one behind the other, is what is listed of each.
pub proof fn law_disks_are_joined(a: Seq<DiskReplies>, b: Seq<DiskReplies>, min_size: u32)
    ensures
        disks(a + b, min_size) == disks(a, min_size) + disks(b, min_size),
    decreases b.len(),
{
    if b.len() == 0 {
        assert(a + b =~= a);
        assert(disks(a, min_size) + disks(b, min_size) =~= disks(a, min_size));
    } else {
        law_disks_are_joined(a, b.drop_last(), min_size);
        assert((a + b).drop_last() =~= a + b.drop_last());
        assert(disks(a + b, min_size) =~= disks(a, min_size) + disks(b, min_size));
    }
}

/// A device is listed exactly if it has a name, the interface of a disk with details of the
/// right size, and can be opened and has a number. It is listed with what Windows tells.
pub proof fn law_disk_is_listed_as_told(replies: DiskReplies, min_size: u32)
    ensures
        ({
            let listed = disks(seq![replies], min_size);
            let told = {
                &&& replies.friendly_name matches Some(b) && nul_ended(b@).len() > 0
                &&& replies.has_interface
                &&& replies.detail matches Some(detail) && detail@.len() >= min_size
                &&& replies.opened matches Some(open) && disk_number_of(
                    open.extents,
                    open.device_number,
                ) is Some
            };
            &&& told ==> {
                let open = replies.opened->0;
                let n = disk_number_of(open.extents, open.device_number)->0;
                let d = listed[0].1;
                &&& listed.len() == 1
                &&& listed[0].0 == separated(texts_of(open.mountpoints@), ", "@)
                &&& d.path == "\\\\.\\PhysicalDrive"@ + signed_decimal(n)
                &&& d.name == nul_ended((replies.friendly_name->0)@)
                &&& open.size >= 0 ==> d.size_bytes == open.size
                &&& d.sector_size == open.bytes_per_sector
                &&& d.is_removable <==> replies.removal_policy == Some(2u32)
                    || replies.removal_policy == Some(3u32)
            }
            &&& !told ==> listed.len() == 0
        }),
{
    assert(seq![replies].drop_last() =~= Seq::<DiskReplies>::empty());
    reveal_with_fuel(disks, 2);
}

/// The number of a disk is its device number, as the bits of a signed number. Only where
/// there is none does the one extent decide. A disk of an array has no number, nor has one
/// whose bits are all set.
pub proof fn law_disk_number(count: u32, disk: u32, device: u32)
    requires
        disk < 0x8000_0000,
        device < 0x8000_0000,
    ensures
        disk_number_of(None, None) is None,
        disk_number_of(None, Some(device)) == Some(device as int),
        disk_number_of(None, Some(0xffff_ffff)) is None,
        count == 1 ==> disk_number_of(
            Some(ExtentsReply { count, disk_number: disk }),
            None,
        ) == Some(disk as int),
        count == 0 ==> disk_number_of(
            Some(ExtentsReply { count, disk_number: disk }),
            None,
        ) is None,
        count < 2 ==> disk_number_of(
            Some(ExtentsReply { count, disk_number: disk }),
            Some(device),
        ) == Some(device as int),
        count >= 2 ==> disk_number_of(
            Some(ExtentsReply { count, disk_number: disk }),
            Some(device),
        ) is None && disk_number_of(Some(ExtentsReply { count, disk_number: disk }), None) is None,
{
}

/// One text stays as it is, and more texts follow behind a separator each.
pub proof fn law_separated(texts: Seq<Seq<char>>, more: Seq<char>, separator: Seq<char>)
    ensures
        separated(Seq::empty(), separator).len() == 0,
        separated(seq![more], separator) == more,
        texts.len() > 0 ==> separated(texts.push(more), separator) == separated(texts, separator)
            + separator + more,
{
    assert(texts.push(more).drop_last() =~= texts);
}

} // verus!
