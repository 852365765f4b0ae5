//! Drives on Linux as the kernel shows them under `/sys/block`, and the mounts
//! that `/proc/mounts` tells.
use crate::data_types::{BlockDevice, BlockDeviceView, MountedPartition, MountedPartitionView};
use crate::decimal::{parse_u64, parsed};
use crate::error::{io_failure, result_view, FlashError, FlashErrorView, FlashResult, IoError, IoErrorKind, IoErrorKindView};
use crate::paths::{components, dev_node, dev_path, is_plain, lemma_sys_block, path_component};
use crate::text::{lines, split_lines, split_whitespace, starts_with, texts_of, trim, trimmed, words};
use vstd::prelude::*;

verus! {

/// Lists the drives of the system.
#[derive(Debug, Clone, Copy)]
pub struct LinuxDeviceEnumerator;

/// Unmounts drives.
#[derive(Debug, Clone, Copy)]
pub struct LinuxDeviceUnmounter;

/// Opens drives for writing.
#[derive(Debug, Clone, Copy)]
pub struct LinuxDeviceWriter;

/// Ejects drives.
#[derive(Debug, Clone, Copy)]
pub struct LinuxDeviceEjector;

/// An image, how large it is and which hash it should have.
#[derive(Debug)]
pub struct LinuxImageSource<R> {
    /// What the image is read from
    pub reader: R,
    /// The size of the image, if it is known
    pub uncompressed_size: Option<u64>,
    /// The hash that the image should have
    pub expected_hash: Option<[u8; 32]>,
}

impl<R> LinuxImageSource<R> {
    /// An image behind `reader`.
    pub fn new(
        reader: R,
        uncompressed_size: Option<u64>,
        expected_hash: Option<[u8; 32]>,
    ) -> (image: Self)
        ensures
            image == (LinuxImageSource { reader, uncompressed_size, expected_hash }),
    {
        LinuxImageSource { reader, uncompressed_size, expected_hash }
    }

    /// The size of the image, if it is known.
    pub fn uncompressed_size(&self) -> (n: Option<u64>)
        ensures
            n == self.uncompressed_size,
    {
        self.uncompressed_size
    }

    /// The hash that the image should have.
    pub fn expected_hash(&self) -> (hash: Option<[u8; 32]>)
        ensures
            hash == self.expected_hash,
    {
        self.expected_hash
    }
}

/// The number in a file of the kernel, at most `max`, or why there is none.
pub open spec fn number_in(file: Result<String, IoError>, max: nat) -> Result<nat, FlashErrorView> {
    match file {
        Err(e) => Err(io_failure(e)),
        Ok(text) => match parsed(trimmed(text@), max) {
            Err(e) => Err(FlashErrorView::ParseInt(e)),
            Ok(n) => Ok(n),
        },
    }
}

/// The number in a file of the kernel.
fn read_number(file: &Result<String, IoError>, max: u64) -> (r: FlashResult<u64>)
    ensures
        match r {
            Ok(n) => number_in(*file, max as nat) == Ok::<nat, FlashErrorView>(n as nat) && n
                <= max,
            Err(e) => number_in(*file, max as nat) == Err::<nat, FlashErrorView>(e@),
        },
{
    match file {
        Err(e) => Err(FlashError::Io(e.clone())),
        Ok(text) => {
            let number = trim(text.as_str());
            match parse_u64(number.as_str(), max) {
                Err(e) => Err(FlashError::ParseInt(e)),
                Ok(n) => Ok(n),
            }
        },
    }
}

/// The size of the unit in which the kernel tells the size of a drive.
pub const KERNEL_SECTOR: u64 = 512;

/// The number of bytes in `sectors` units, or the largest number if that is more.
pub open spec fn bytes_in(sectors: nat) -> nat {
    if sectors * KERNEL_SECTOR <= u64::MAX {
        sectors * KERNEL_SECTOR as nat
    } else {
        u64::MAX as nat
    }
}

impl LinuxDeviceEnumerator {
    /// The name of a drive, from its file `device/model`.
    pub fn name(model: &Result<String, IoError>) -> (r: FlashResult<String>)
        ensures
            match r {
                Ok(name) => model matches Ok(text) && name@ == trimmed(text@),
                Err(e) => model matches Err(io) && e@ == io_failure(*io),
            },
    {
        match model {
            Err(e) => Err(FlashError::Io(e.clone())),
            Ok(text) => Ok(trim(text.as_str())),
        }
    }

    /// The device node of the drive at `path`, which is such as `/sys/block/sda`.
    pub fn path(path: &str) -> (node: Option<String>)
        ensures
            match node {
                Some(n) => components(path@).len() > 3 && n@ == dev_node(components(path@)[3]),
                None => components(path@).len() <= 3,
            },
            node matches Some(n) ==> n@ == "/dev/"@ + components(path@)[3],
    {
        match path_component(path, 3) {
            Some(name) => Some(dev_path(name.as_str())),
            None => None,
        }
    }

    /// The physical sector size of a drive, from the file that tells it.
    pub fn sector_size(file: &Result<String, IoError>) -> (r: FlashResult<u32>)
        ensures
            match r {
                Ok(n) => number_in(*file, u32::MAX as nat) == Ok::<nat, FlashErrorView>(n as nat),
                Err(e) => number_in(*file, u32::MAX as nat) == Err::<nat, FlashErrorView>(e@),
            },
            match (*file, r) {
                (Err(io), Err(e)) => e@ == FlashErrorView::Io(io.kind@, io.message@),
                (Ok(text), Ok(n)) => parsed(trimmed(text@), 0xffff_ffff) matches Ok(k) && n == k,
                (Ok(text), Err(e)) => parsed(trimmed(text@), 0xffff_ffff) matches Err(why) && e@
                    == FlashErrorView::ParseInt(why),
                _ => false,
            },
    {
        match read_number(file, 0xffff_ffff) {
            Err(e) => Err(e),
            Ok(n) => Ok(n as u32),
        }
    }

    /// The size of a drive, from its file `size`.
    pub fn get_size_bytes(file: &Result<String, IoError>) -> (r: FlashResult<u64>)
        ensures
            match r {
                Ok(n) => number_in(*file, u64::MAX as nat) is Ok && n == bytes_in(
                    number_in(*file, u64::MAX as nat)->Ok_0,
                ),
                Err(e) => number_in(*file, u64::MAX as nat) == Err::<nat, FlashErrorView>(e@),
            },
            match (*file, r) {
                (Err(io), Err(e)) => e@ == FlashErrorView::Io(io.kind@, io.message@),
                (Ok(text), Ok(n)) => parsed(trimmed(text@), 0xffff_ffff_ffff_ffff) matches Ok(k) && n == (if k * 512
                    <= 0xffff_ffff_ffff_ffff {
                    k * 512
                } else {
                    0xffff_ffff_ffff_ffff
                }),
                (Ok(text), Err(e)) => parsed(trimmed(text@), 0xffff_ffff_ffff_ffff) matches Err(why) && e@
                    == FlashErrorView::ParseInt(why),
                _ => false,
            },
    {
        match read_number(file, 0xffff_ffff_ffff_ffff) {
            Err(e) => Err(e),
            Ok(n) => match n.checked_mul(KERNEL_SECTOR) {
                Some(bytes) => Ok(bytes),
                None => Ok(0xffff_ffff_ffff_ffff),
            },
        }
    }

    /// Whether a drive can be removed, from its file `removable`: only a 1 says so.
    pub fn removable_status(file: &Result<String, IoError>) -> (r: FlashResult<bool>)
        ensures
            match r {
                Ok(yes) => number_in(*file, u8::MAX as nat) is Ok && yes == (number_in(
                    *file,
                    u8::MAX as nat,
                )->Ok_0 == 1),
                Err(e) => number_in(*file, u8::MAX as nat) == Err::<nat, FlashErrorView>(e@),
            },
            match (*file, r) {
                (Err(io), Err(e)) => e@ == FlashErrorView::Io(io.kind@, io.message@),
                (Ok(text), Ok(n)) => parsed(trimmed(text@), 0xff) matches Ok(k) && n == (k == 1),
                (Ok(text), Err(e)) => parsed(trimmed(text@), 0xff) matches Err(why) && e@
                    == FlashErrorView::ParseInt(why),
                _ => false,
            },
    {
        match read_number(file, 0xff) {
            Err(e) => Err(e),
            Ok(n) => Ok(n == 1),
        }
    }
}

/// The directory `/sys/block/` and a name stands for the device node of that name.
pub proof fn law_sys_entry_stands_for_node(name: Seq<char>)
    requires
        is_plain(name),
    ensures
        components("/sys/block/"@ + name).len() > 3,
        dev_node(components("/sys/block/"@ + name)[3]) == dev_node(name),
{
    lemma_sys_block(name);
}

/// What a line of `/proc/mounts` says of a device whose name begins with `node`.
pub open spec fn mount_in(line: Seq<char>, node: Seq<char>) -> Option<MountedPartitionView> {
    let w = words(line);
    if w.len() < 2 || !node.is_prefix_of(w[0]) {
        None
    } else {
        Some(MountedPartitionView { device_path: w[0], mount_point: w[1] })
    }
}

/// What `lines` say of devices whose names begin with `node`, in order.
pub open spec fn mounts_in(lines: Seq<Seq<char>>, node: Seq<char>) -> Seq<MountedPartitionView>
    decreases lines.len(),
{
    if lines.len() == 0 {
        Seq::empty()
    } else {
        let before = mounts_in(lines.drop_last(), node);
        match mount_in(lines.last(), node) {
            Some(m) => before.push(m),
            None => before,
        }
    }
}

/// What a line says of a device whose name begins with `node`.
fn read_mount(line: &str, node: &str) -> (mount: Option<MountedPartition>)
    ensures
        match mount {
            Some(m) => mount_in(line@, node@) == Some(m@),
            None => mount_in(line@, node@) is None,
        },
{
    let w = split_whitespace(line);
    assert(w@.len() == words(line@).len());
    if w.len() < 2 {
        return None;
    }
    assert(w@[0]@ == texts_of(w@)[0]);
    assert(w@[1]@ == texts_of(w@)[1]);
    if !starts_with(w[0].as_str(), node) {
        return None;
    }
    Some(MountedPartition { device_path: w[0].clone(), mount_point: w[1].clone() })
}

/// The mounts of the drive with this device node and of its partitions, from the
/// text of `/proc/mounts`.
pub fn mounts_of(mounts: &str, node: &str) -> (found: Vec<MountedPartition>)
    ensures
        found@.map_values(|m: MountedPartition| m@) == mounts_in(lines(mounts@), node@),
{
    let all = split_lines(mounts);
    let ghost texts = lines(mounts@);
    let mut found: Vec<MountedPartition> = Vec::new();
    let mut i: usize = 0;
    assert(found@.map_values(|m: MountedPartition| m@) =~= Seq::<MountedPartitionView>::empty());
    while i < all.len()
        invariant
            i <= all.len(),
            texts_of(all@) == texts,
            found@.map_values(|m: MountedPartition| m@) == mounts_in(texts.take(i as int), node@),
        decreases all.len() - i,
    {
        let ghost before = found@.map_values(|m: MountedPartition| m@);
        assert(texts[i as int] == all@[i as int]@);
        assert(texts.take(i + 1).drop_last() =~= texts.take(i as int));
        if let Some(m) = read_mount(all[i].as_str(), node) {
            found.push(m);
            assert(found@.map_values(|m: MountedPartition| m@) =~= before.push(m@));
        }
        i = i + 1;
    }
    assert(texts.take(i as int) =~= texts);
    found
}

/// What lines say, one behind the other, is what each says.
pub proof fn law_mounts_are_joined(a: Seq<Seq<char>>, b: Seq<Seq<char>>, node: Seq<char>)
    ensures
        mounts_in(a + b, node) == mounts_in(a, node) + mounts_in(b, node),
    decreases b.len(),
{
    if b.len() == 0 {
        assert(a + b =~= a);
        assert(mounts_in(a, node) + mounts_in(b, node) =~= mounts_in(a, node));
    } else {
        law_mounts_are_joined(a, b.drop_last(), node);
        assert((a + b).drop_last() =~= a + b.drop_last());
        assert(mounts_in(a + b, node) =~= mounts_in(a, node) + mounts_in(b, node));
    }
}

/// A line tells a mount exactly if its first word begins with the device node and there is
/// a second one: the first is the device, the second the place.
pub proof fn law_mount_is_first_two_words(line: Seq<char>, node: Seq<char>)
    ensures
        words(line).len() >= 2 && node.is_prefix_of(words(line)[0]) ==> {
            &&& mounts_in(seq![line], node).len() == 1
            &&& mounts_in(seq![line], node)[0].device_path == words(line)[0]
            &&& mounts_in(seq![line], node)[0].mount_point == words(line)[1]
        },
        words(line).len() < 2 || !node.is_prefix_of(words(line)[0]) ==> mounts_in(
            seq![line],
            node,
        ).len() == 0,
{
    assert(seq![line].drop_last() =~= Seq::<Seq<char>>::empty());
    reveal_with_fuel(mounts_in, 2);
}

/// A drive has no mounts exactly if no line of the table names it or a partition of it.
/// Without the table, or without the device node, there is no answer but an error.
pub proof fn law_mounted_status(
    node: Seq<char>,
    mounts: Result<String, IoError>,
    exists_node: bool,
)
    ensures
        match (mounts, mounted_at(node, mounts, exists_node)) {
            (Err(io), r) => r == Err::<Option<Seq<MountedPartitionView>>, FlashErrorView>(
                FlashErrorView::Io(io.kind@, io.message@),
            ),
            (Ok(text), Err(e)) => !exists_node && e == FlashErrorView::DeviceNotFound(node),
            (Ok(text), Ok(None)) => exists_node && mounts_in(lines(text@), node).len() == 0,
            (Ok(text), Ok(Some(found))) => exists_node && found.len() > 0 && found == mounts_in(
                lines(text@),
                node,
            ),
        },
{
}

/// What is mounted of the drive with the device node `node`: none if nothing is.
/// `mounts` is what `/proc/mounts` holds, and `exists_node` whether the node exists.
pub open spec fn mounted_at(
    node: Seq<char>,
    mounts: Result<String, IoError>,
    exists_node: bool,
) -> Result<Option<Seq<MountedPartitionView>>, FlashErrorView> {
    match mounts {
        Err(e) => Err(io_failure(e)),
        Ok(text) => {
            let found = mounts_in(lines(text@), node);
            if !exists_node {
                Err(FlashErrorView::DeviceNotFound(node))
            } else if found.len() == 0 {
                Ok(None)
            } else {
                Ok(Some(found))
            }
        },
    }
}

/// What is mounted of the drive at `path`, which is such as `/sys/block/sda`.
pub open spec fn mounted_of(
    path: Seq<char>,
    mounts: Result<String, IoError>,
    exists_node: bool,
) -> Result<Option<Seq<MountedPartitionView>>, FlashErrorView> {
    let c = components(path);
    if c.len() <= 3 {
        Err(FlashErrorView::DeviceNotFound(path))
    } else {
        mounted_at(dev_node(c[3]), mounts, exists_node)
    }
}

/// What is mounted of a drive is asked by its device node, which the fourth component of its
/// directory names. A directory without one is no drive.
pub proof fn law_mounted_of_directory(
    path: Seq<char>,
    mounts: Result<String, IoError>,
    exists_node: bool,
)
    ensures
        components(path).len() > 3 ==> mounted_of(path, mounts, exists_node) == mounted_at(
            "/dev/"@ + components(path)[3],
            mounts,
            exists_node,
        ),
        components(path).len() <= 3 ==> mounted_of(path, mounts, exists_node) == Err::<
            Option<Seq<MountedPartitionView>>,
            FlashErrorView,
        >(FlashErrorView::DeviceNotFound(path)),
{
}

/// What is mounted of the drive with the device node `node`.
fn status_at(node: &str, mounts: &Result<String, IoError>, exists_node: bool) -> (r: FlashResult<
    Option<Vec<MountedPartition>>,
>)
    ensures
        match r {
            Ok(Some(found)) => mounted_at(node@, *mounts, exists_node) == Ok::<
                Option<Seq<MountedPartitionView>>,
                FlashErrorView,
            >(Some(found@.map_values(|m: MountedPartition| m@))),
            Ok(None) => mounted_at(node@, *mounts, exists_node) == Ok::<
                Option<Seq<MountedPartitionView>>,
                FlashErrorView,
            >(None),
            Err(e) => mounted_at(node@, *mounts, exists_node) == Err::<
                Option<Seq<MountedPartitionView>>,
                FlashErrorView,
            >(e@),
        },
{
    match mounts {
        Err(e) => Err(FlashError::Io(e.clone())),
        Ok(text) => {
            if !exists_node {
                return Err(FlashError::DeviceNotFound(node.to_owned()));
            }
            let found = mounts_of(text.as_str(), node);
            assert(found@.len() == found@.map_values(|m: MountedPartition| m@).len());
            if found.len() > 0 {
                Ok(Some(found))
            } else {
                Ok(None)
            }
        },
    }
}

/// What is mounted of the drive at `path`.
pub fn mounted_status(path: &str, mounts: &Result<String, IoError>, exists_node: bool) -> (r:
    FlashResult<Option<Vec<MountedPartition>>>)
    ensures
        match r {
            Ok(Some(found)) => mounted_of(path@, *mounts, exists_node) == Ok::<
                Option<Seq<MountedPartitionView>>,
                FlashErrorView,
            >(Some(found@.map_values(|m: MountedPartition| m@))),
            Ok(None) => mounted_of(path@, *mounts, exists_node) == Ok::<
                Option<Seq<MountedPartitionView>>,
                FlashErrorView,
            >(None),
            Err(e) => mounted_of(path@, *mounts, exists_node) == Err::<
                Option<Seq<MountedPartitionView>>,
                FlashErrorView,
            >(e@),
        },
{
    let name = match path_component(path, 3) {
        Some(name) => name,
        None => {
            return Err(FlashError::DeviceNotFound(path.to_owned()));
        },
    };
    let node = dev_path(name.as_str());
    status_at(node.as_str(), mounts, exists_node)
}

/// What the kernel shows of a drive.
#[derive(Debug)]
pub struct SysEntry {
    /// The directory of the drive
    pub path: String,
    /// The name of that directory
    pub file_name: String,
    /// The file `device/model`
    pub model: Result<String, IoError>,
    /// The file `size`
    pub size: Result<String, IoError>,
    /// The file `removable`
    pub removable: Result<String, IoError>,
    /// The file with the physical sector size
    pub block_size: Result<String, IoError>,
    /// The file `/proc/mounts`
    pub mounts: Result<String, IoError>,
    /// Whether the device node exists
    pub exists_node: bool,
}

/// Whether a name is that of a loop device or a RAM disk.
pub open spec fn is_virtual(name: Seq<char>) -> bool {
    "loop"@.is_prefix_of(name) || "ram"@.is_prefix_of(name) || "zram"@.is_prefix_of(name)
}

impl SysEntry {
    /// The drive, unless it is virtual or something about it cannot be told.
    pub open spec fn device(&self) -> Option<BlockDeviceView> {
        let size = number_in(self.size, u64::MAX as nat);
        let removable = number_in(self.removable, u8::MAX as nat);
        let block_size = number_in(self.block_size, u32::MAX as nat);
        if !is_virtual(self.file_name@) && components(self.path@).len() > 3 && self.model is Ok
            && size is Ok && removable is Ok && mounted_of(
            self.path@,
            self.mounts,
            self.exists_node,
        ) is Ok && block_size is Ok {
            Some(
                BlockDeviceView {
                    path: dev_node(components(self.path@)[3]),
                    name: trimmed(self.model->Ok_0@),
                    size_bytes: bytes_in(size->Ok_0) as u64,
                    is_removable: removable->Ok_0 == 1,
                    sector_size: block_size->Ok_0 as usize,
                },
            )
        } else {
            None
        }
    }

    /// The drive, unless it is virtual or something about it cannot be told.
    pub fn to_device(&self) -> (device: Option<BlockDevice>)
        ensures
            match device {
                Some(d) => self.device() == Some(d@),
                None => self.device() is None,
            },
            device matches Some(d) ==> {
                &&& components(self.path@).len() > 3 && d.path@ == "/dev/"@ + components(
                    self.path@,
                )[3]
                &&& self.model matches Ok(text) && d.name@ == trimmed(text@)
                &&& self.size matches Ok(text) && parsed(trimmed(text@), 0xffff_ffff_ffff_ffff)
                    matches Ok(k) && d.size_bytes == (if k * 512 <= 0xffff_ffff_ffff_ffff {
                    k * 512
                } else {
                    0xffff_ffff_ffff_ffff
                })
                &&& self.removable matches Ok(text) && parsed(trimmed(text@), 0xff) matches Ok(k)
                    && d.is_removable == (k == 1)
                &&& self.block_size matches Ok(text) && parsed(trimmed(text@), 0xffff_ffff)
                    matches Ok(k) && d.sector_size == k
            },
            device is Some <==> {
                &&& !("loop"@.is_prefix_of(self.file_name@))
                &&& !("ram"@.is_prefix_of(self.file_name@))
                &&& !("zram"@.is_prefix_of(self.file_name@))
                &&& components(self.path@).len() > 3
                &&& self.model is Ok
                &&& self.size matches Ok(text) && parsed(
                    trimmed(text@),
                    0xffff_ffff_ffff_ffff,
                ) is Ok
                &&& self.removable matches Ok(text) && parsed(trimmed(text@), 0xff) is Ok
                &&& self.block_size matches Ok(text) && parsed(trimmed(text@), 0xffff_ffff) is Ok
                &&& self.mounts is Ok
                &&& self.exists_node
            },
    {
        if starts_with(self.file_name.as_str(), "loop") || starts_with(
            self.file_name.as_str(),
            "ram",
        ) || starts_with(self.file_name.as_str(), "zram") {
            return None;
        }
        let path = match LinuxDeviceEnumerator::path(self.path.as_str()) {
            Some(p) => p,
            None => {
                return None;
            },
        };
        let name = match LinuxDeviceEnumerator::name(&self.model) {
            Ok(n) => n,
            Err(_) => {
                return None;
            },
        };
        let size_bytes: u64 = match LinuxDeviceEnumerator::get_size_bytes(&self.size) {
            Ok(n) => n,
            Err(_) => {
                return None;
            },
        };
        let is_removable: bool = match LinuxDeviceEnumerator::removable_status(&self.removable) {
            Ok(yes) => yes,
            Err(_) => {
                return None;
            },
        };
        if mounted_status(self.path.as_str(), &self.mounts, self.exists_node).is_err() {
            return None;
        }
        let sector_size: u32 = match LinuxDeviceEnumerator::sector_size(&self.block_size) {
            Ok(n) => n,
            Err(_) => {
                return None;
            },
        };
        Some(
            BlockDevice::new(path, name, size_bytes, is_removable, sector_size as usize),
        )
    }
}

/// The drives among `entries`, in order.
pub open spec fn devices_in(entries: Seq<SysEntry>) -> Seq<BlockDeviceView>
    decreases entries.len(),
{
    if entries.len() == 0 {
        Seq::empty()
    } else {
        let before = devices_in(entries.drop_last());
        match entries.last().device() {
            Some(d) => before.push(d),
            None => before,
        }
    }
}

/// Whatever is listed is the drive of an entry that is not virtual.
pub proof fn law_listed_is_no_virtual_device(entries: Seq<SysEntry>, k: int)
    requires
        0 <= k < devices_in(entries).len(),
    ensures
        exists|i: int|
            0 <= i < entries.len() && #[trigger] entries[i].device() == Some(devices_in(entries)[k])
                && !is_virtual(entries[i].file_name@),
    decreases entries.len(),
{
    let before = devices_in(entries.drop_last());
    if k < before.len() {
        law_listed_is_no_virtual_device(entries.drop_last(), k);
        let i = choose|i: int|
            0 <= i < entries.len() - 1 && #[trigger] entries.drop_last()[i].device() == Some(
                before[k],
            ) && !is_virtual(entries.drop_last()[i].file_name@);
        assert(entries[i].device() == Some(devices_in(entries)[k]));
    } else {
        assert(entries[entries.len() - 1].device() == Some(devices_in(entries)[k]));
    }
}

/// What is listed of entries, one behind the other, is what is listed of each.
pub proof fn law_entries_are_joined(a: Seq<SysEntry>, b: Seq<SysEntry>)
    ensures
        devices_in(a + b) == devices_in(a) + devices_in(b),
    decreases b.len(),
{
    if b.len() == 0 {
        assert(a + b =~= a);
        assert(devices_in(a) + devices_in(b) =~= devices_in(a));
    } else {
        law_entries_are_joined(a, b.drop_last());
        assert((a + b).drop_last() =~= a + b.drop_last());
        assert(devices_in(a + b) =~= devices_in(a) + devices_in(b));
    }
}

/// One entry is listed with what its files tell, exactly if they can all be read and it is
/// neither a loop device nor a RAM disk.
pub proof fn law_entry_is_listed_as_told(entry: SysEntry)
    ensures
        ({
            let listed = devices_in(seq![entry]);
            let told = {
                &&& !("loop"@.is_prefix_of(entry.file_name@))
                &&& !("ram"@.is_prefix_of(entry.file_name@))
                &&& !("zram"@.is_prefix_of(entry.file_name@))
                &&& components(entry.path@).len() > 3
                &&& entry.model is Ok
                &&& entry.size matches Ok(text) && parsed(
                    trimmed(text@),
                    0xffff_ffff_ffff_ffff,
                ) is Ok
                &&& entry.removable matches Ok(text) && parsed(trimmed(text@), 0xff) is Ok
                &&& entry.block_size matches Ok(text) && parsed(trimmed(text@), 0xffff_ffff) is Ok
                &&& entry.mounts is Ok
                &&& entry.exists_node
            };
            &&& told ==> {
                let size = parsed(
                    trimmed((entry.size->Ok_0)@),
                    0xffff_ffff_ffff_ffff,
                )->Ok_0;
                let d = listed[0];
                &&& listed.len() == 1
                &&& d.path == "/dev/"@ + components(entry.path@)[3]
                &&& d.name == trimmed((entry.model->Ok_0)@)
                &&& d.size_bytes == (if size * 512 <= 0xffff_ffff_ffff_ffff {
                    size * 512
                } else {
                    0xffff_ffff_ffff_ffff
                })
                &&& d.is_removable <==> parsed(trimmed((entry.removable->Ok_0)@), 0xff)->Ok_0 == 1
                &&& d.sector_size == parsed(
                    trimmed((entry.block_size->Ok_0)@),
                    0xffff_ffff,
                )->Ok_0
            }
            &&& !told ==> listed.len() == 0
        }),
{
    assert(seq![entry].drop_last() =~= Seq::<SysEntry>::empty());
    reveal_with_fuel(devices_in, 2);
    if entry.block_size is Ok {
        crate::decimal::lemma_parsed_fits(trimmed((entry.block_size->Ok_0)@), 0xffff_ffff);
    }
}

impl LinuxDeviceEnumerator {
    /// The drives of the system, from the directory `/sys/block`.
    pub fn list_devices(&self, entries: &Result<Vec<SysEntry>, IoError>) -> (r: FlashResult<
        Vec<BlockDevice>,
    >)
        ensures
            match entries {
                Err(e) => result_view(r) == Err::<Vec<BlockDevice>, FlashErrorView>(io_failure(*e)),
                Ok(found) => r is Ok && r->Ok_0@.map_values(|d: BlockDevice| d@) == devices_in(
                    found@,
                ),
            },
    {
        match entries {
            Err(e) => Err(FlashError::Io(e.clone())),
            Ok(found) => {
                let mut devices: Vec<BlockDevice> = Vec::new();
                let mut i: usize = 0;
                assert(devices@.map_values(|d: BlockDevice| d@)
                    =~= Seq::<BlockDeviceView>::empty());
                while i < found.len()
                    invariant
                        i <= found.len(),
                        devices@.map_values(|d: BlockDevice| d@) == devices_in(
                            found@.take(i as int),
                        ),
                    decreases found.len() - i,
                {
                    let ghost before = devices@.map_values(|d: BlockDevice| d@);
                    assert(found@.take(i + 1).drop_last() =~= found@.take(i as int));
                    if let Some(device) = found[i].to_device() {
                        devices.push(device);
                        assert(devices@.map_values(|d: BlockDevice| d@) =~= before.push(device@));
                    }
                    i = i + 1;
                }
                assert(found@.take(i as int) =~= found@);
                Ok(devices)
            },
        }
    }
}

/// The error of a refused operation on a device, where the kind of the refusal
/// decides; `other` gives the error for any kind that has none of its own.
pub open spec fn refusal(
    kind: IoErrorKindView,
    device: Seq<char>,
    other: spec_fn(Seq<char>) -> FlashErrorView,
) -> FlashErrorView {
    match kind {
        IoErrorKindView::NotFound => FlashErrorView::DeviceNotFound(device),
        IoErrorKindView::PermissionDenied => FlashErrorView::InsufficientPrivileges,
        IoErrorKindView::ResourceBusy => FlashErrorView::DeviceBusy(device),
        IoErrorKindView::Other(reason) => other(reason),
    }
}

impl LinuxDeviceUnmounter {
    /// Whether a drive was unmounted, from the answer of the kernel.
    pub fn unmount_all(&self, device: &BlockDevice, answer: Result<(), IoErrorKind>) -> (r:
        FlashResult<()>)
        ensures
            match answer {
                Ok(_) => r is Ok,
                Err(kind) => result_view(r) == Err::<(), FlashErrorView>(
                    refusal(
                        kind@,
                        device.path@,
                        |reason: Seq<char>|
                            FlashErrorView::UnmountFailed { device: device.path@, reason },
                    ),
                ),
            },
            match answer {
                Ok(_) => r is Ok,
                Err(kind) => result_view(r) == Err::<(), FlashErrorView>(
                    match kind@ {
                        IoErrorKindView::NotFound => FlashErrorView::DeviceNotFound(device.path@),
                        IoErrorKindView::PermissionDenied => FlashErrorView::InsufficientPrivileges,
                        IoErrorKindView::ResourceBusy => FlashErrorView::DeviceBusy(device.path@),
                        IoErrorKindView::Other(reason) => FlashErrorView::UnmountFailed {
                            device: device.path@,
                            reason,
                        },
                    },
                ),
            },
    {
        match answer {
            Ok(_) => Ok(()),
            Err(IoErrorKind::NotFound) => Err(FlashError::DeviceNotFound(device.path.clone())),
            Err(IoErrorKind::PermissionDenied) => Err(FlashError::InsufficientPrivileges),
            Err(IoErrorKind::ResourceBusy) => Err(
                FlashError::DeviceBusy { path: device.path.clone() },
            ),
            Err(IoErrorKind::Other(reason)) => Err(
                FlashError::UnmountFailed { device: device.path.clone(), reason },
            ),
        }
    }

    /// What is still mounted of a drive, whose path is its device node.
    pub fn is_fully_unmounted(
        &self,
        device: &BlockDevice,
        mounts: &Result<String, IoError>,
        exists_node: bool,
    ) -> (r: FlashResult<Option<Vec<MountedPartition>>>)
        ensures
            match r {
                Ok(Some(found)) => mounted_at(device.path@, *mounts, exists_node) == Ok::<
                    Option<Seq<MountedPartitionView>>,
                    FlashErrorView,
                >(Some(found@.map_values(|m: MountedPartition| m@))),
                Ok(None) => mounted_at(device.path@, *mounts, exists_node) == Ok::<
                    Option<Seq<MountedPartitionView>>,
                    FlashErrorView,
                >(None),
                Err(e) => mounted_at(device.path@, *mounts, exists_node) == Err::<
                    Option<Seq<MountedPartitionView>>,
                    FlashErrorView,
                >(e@),
            },
    {
        status_at(device.path.as_str(), mounts, exists_node)
    }
}

/// An open drive, with whatever stands for an open file.
#[derive(Debug)]
pub struct LinuxRawWriteHandle<F> {
    /// The drive
    pub file: F,
    /// The size of its sectors
    pub sector_size: usize,
    /// Its size
    pub size_bytes: u64,
}

impl<F> LinuxRawWriteHandle<F> {
    /// The handle of a device that was opened.
    pub fn new(device: &BlockDevice, file: F) -> (handle: Self)
        ensures
            handle == (LinuxRawWriteHandle {
                file,
                sector_size: device.sector_size,
                size_bytes: device.size_bytes,
            }),
    {
        LinuxRawWriteHandle {
            file,
            sector_size: device.sector_size,
            size_bytes: device.size_bytes,
        }
    }

    /// The size of the sectors.
    pub fn sector_size(&self) -> (n: usize)
        ensures
            n == self.sector_size,
    {
        self.sector_size
    }

    /// The size of the drive.
    pub fn size_bytes(&self) -> (n: FlashResult<u64>)
        ensures
            n == Ok::<u64, FlashError>(self.size_bytes),
    {
        Ok(self.size_bytes)
    }

    /// Whether a write at `offset` succeeded, from the answer of the kernel.
    pub fn write_at(offset: u64, answer: Result<(), IoError>) -> (r: FlashResult<()>)
        ensures
            match answer {
                Ok(_) => r is Ok,
                Err(e) => result_view(r) == Err::<(), FlashErrorView>(
                    FlashErrorView::WriteFailed { offset, kind: e.kind@, message: e.message@ },
                ),
            },
    {
        match answer {
            Ok(_) => Ok(()),
            Err(source) => Err(FlashError::WriteFailed { offset, source }),
        }
    }
}

/// How the opening of a drive ended.
#[derive(Debug)]
pub enum OpenAnswer<F> {
    /// The drive could not be opened
    NotOpened,
    /// The drive could not be locked for exclusive use
    NotLocked(IoErrorKind),
    /// The drive is open and locked
    Opened(F),
}

impl LinuxDeviceWriter {
    /// The open drive, or why there is none.
    pub fn open_for_writing<F>(&self, device: &BlockDevice, answer: OpenAnswer<F>) -> (r: FlashResult<
        LinuxRawWriteHandle<F>,
    >)
        ensures
            match answer {
                OpenAnswer::Opened(file) => r == Ok::<LinuxRawWriteHandle<F>, FlashError>(
                    LinuxRawWriteHandle {
                        file,
                        sector_size: device.sector_size,
                        size_bytes: device.size_bytes,
                    },
                ),
                OpenAnswer::NotOpened => result_view(r) == Err::<
                    LinuxRawWriteHandle<F>,
                    FlashErrorView,
                >(FlashErrorView::InsufficientPrivileges),
                OpenAnswer::NotLocked(kind) => result_view(r) == Err::<
                    LinuxRawWriteHandle<F>,
                    FlashErrorView,
                >(
                    refusal(
                        kind@,
                        device.path@,
                        |reason: Seq<char>|
                            FlashErrorView::FileLockFailed { device: device.path@, reason },
                    ),
                ),
            },
            match answer {
                OpenAnswer::Opened(_) => r is Ok,
                OpenAnswer::NotOpened => r is Err,
                OpenAnswer::NotLocked(kind) => result_view(r) == Err::<
                    LinuxRawWriteHandle<F>,
                    FlashErrorView,
                >(
                    match kind@ {
                        IoErrorKindView::NotFound => FlashErrorView::DeviceNotFound(device.path@),
                        IoErrorKindView::PermissionDenied => FlashErrorView::InsufficientPrivileges,
                        IoErrorKindView::ResourceBusy => FlashErrorView::DeviceBusy(device.path@),
                        IoErrorKindView::Other(reason) => FlashErrorView::FileLockFailed {
                            device: device.path@,
                            reason,
                        },
                    },
                ),
            },
    {
        match answer {
            OpenAnswer::Opened(file) => Ok(LinuxRawWriteHandle::new(device, file)),
            OpenAnswer::NotOpened => Err(FlashError::InsufficientPrivileges),
            OpenAnswer::NotLocked(IoErrorKind::NotFound) => Err(
                FlashError::DeviceNotFound(device.path.clone()),
            ),
            OpenAnswer::NotLocked(IoErrorKind::PermissionDenied) => Err(
                FlashError::InsufficientPrivileges,
            ),
            OpenAnswer::NotLocked(IoErrorKind::ResourceBusy) => Err(
                FlashError::DeviceBusy { path: device.path.clone() },
            ),
            OpenAnswer::NotLocked(IoErrorKind::Other(reason)) => Err(
                FlashError::FileLockFailed { device: device.path.clone(), reason },
            ),
        }
    }
}

impl LinuxDeviceEjector {
    /// Whether a drive can be taken out: it could be opened, and all that was
    /// written to it has reached it.
    pub fn eject(&self, opened: Result<(), IoError>, synced: bool) -> (r: FlashResult<()>)
        ensures
            match opened {
                Err(e) => result_view(r) == Err::<(), FlashErrorView>(io_failure(e)),
                Ok(_) => if synced {
                    r is Ok
                } else {
                    result_view(r) == Err::<(), FlashErrorView>(FlashErrorView::SyncError)
                },
            },
    {
        match opened {
            Err(e) => Err(FlashError::Io(e)),
            Ok(_) => if synced {
                Ok(())
            } else {
                Err(FlashError::SyncError)
            },
        }
    }
}

} // verus!
