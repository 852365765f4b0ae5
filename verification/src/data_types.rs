//! Drives, images, and the progress of writing one to the other.
use crate::decimal::{decimal, write_u64};
use crate::order::{compare_flags, compare_numbers, compare_paths, compare_sizes, compare_texts, flag_order, law_path_order, law_text_order, number_order, path_order, refine, refined, size_order, text_order};
use crate::paths::{is_same_path, same_path};
use crate::text::{joined, same_text};
use core::cmp::Ordering;
use vstd::prelude::*;
use vstd::std_specs::cmp::{PartialEqSpec, PartialOrdSpec};

verus! {

/// A storage device. Equality and order are those of the fields, and of paths by their
/// components: `/dev/sdb` and `/dev//sdb` are equal.
#[derive(Debug)]
pub struct BlockDevice {
    /// Platform-native path: `/dev/sdb`, `/dev/rdisk2`, `\\.\PhysicalDrive1`
    pub path: String,
    /// Human readable name: "Samsung USB Drive"
    pub name: String,
    /// The size in bytes; see `get_sizes`
    pub size_bytes: u64,
    /// Whether the device is removable
    pub is_removable: bool,
    /// Sector size
    pub sector_size: usize,
}

impl Clone for BlockDevice {
    fn clone(&self) -> (copy: Self)
        ensures
            copy == *self,
    {
        BlockDevice {
            path: self.path.clone(),
            name: self.name.clone(),
            size_bytes: self.size_bytes,
            is_removable: self.is_removable,
            sector_size: self.sector_size,
        }
    }
}

/// A storage device, as contracts speak of it.
pub struct BlockDeviceView {
    pub path: Seq<char>,
    pub name: Seq<char>,
    pub size_bytes: u64,
    pub is_removable: bool,
    pub sector_size: usize,
}

impl View for BlockDevice {
    type V = BlockDeviceView;

    open spec fn view(&self) -> BlockDeviceView {
        BlockDeviceView {
            path: self.path@,
            name: self.name@,
            size_bytes: self.size_bytes,
            is_removable: self.is_removable,
            sector_size: self.sector_size,
        }
    }
}

impl PartialEq for BlockDevice {
    fn eq(&self, other: &Self) -> (same: bool) {
        is_same_path(self.path.as_str(), other.path.as_str()) && same_text(
            self.name.as_str(),
            other.name.as_str(),
        ) && self.size_bytes == other.size_bytes && self.is_removable == other.is_removable
            && self.sector_size == other.sector_size
    }
}

impl vstd::std_specs::cmp::PartialEqSpecImpl for BlockDevice {
    open spec fn obeys_eq_spec() -> bool {
        true
    }

    open spec fn eq_spec(&self, other: &Self) -> bool {
        &&& same_path(self.path@, other.path@)
        &&& self.name@ == other.name@
        &&& self.size_bytes == other.size_bytes
        &&& self.is_removable == other.is_removable
        &&& self.sector_size == other.sector_size
    }
}

impl Eq for BlockDevice {

}

/// Which of two devices comes first: by path, then by name, size, whether they are
/// removable, and sector size.
pub open spec fn device_order(a: BlockDeviceView, b: BlockDeviceView) -> Ordering {
    refined(
        path_order(a.path, b.path),
        refined(
            text_order(a.name, b.name),
            refined(
                number_order(a.size_bytes, b.size_bytes),
                refined(
                    flag_order(a.is_removable, b.is_removable),
                    size_order(a.sector_size, b.sector_size),
                ),
            ),
        ),
    )
}

impl PartialOrd for BlockDevice {
    fn partial_cmp(&self, other: &Self) -> (order: Option<Ordering>) {
        Some(
            refine(
                compare_paths(self.path.as_str(), other.path.as_str()),
                refine(
                    compare_texts(self.name.as_str(), other.name.as_str()),
                    refine(
                        compare_numbers(self.size_bytes, other.size_bytes),
                        refine(
                            compare_flags(self.is_removable, other.is_removable),
                            compare_sizes(self.sector_size, other.sector_size),
                        ),
                    ),
                ),
            ),
        )
    }
}

impl vstd::std_specs::cmp::PartialOrdSpecImpl for BlockDevice {
    open spec fn obeys_partial_cmp_spec() -> bool {
        true
    }

    open spec fn partial_cmp_spec(&self, other: &Self) -> Option<Ordering> {
        Some(device_order(self@, other@))
    }
}

/// Two devices are equal exactly if they were made from equal arguments, where paths are
/// equal if they are the same path: one argument that differs makes them differ.
pub proof fn law_device_equality(a: BlockDevice, b: BlockDevice)
    ensures
        a.eq_spec(&b) <==> {
            &&& same_path(a.path@, b.path@)
            &&& a.name@ == b.name@
            &&& a.size_bytes == b.size_bytes
            &&& a.is_removable == b.is_removable
            &&& a.sector_size == b.sector_size
        },
        a@ == b@ ==> a.eq_spec(&b),
        a.eq_spec(&b) == b.eq_spec(&a),
{
}

/// The order of devices is total: two devices are equal where neither comes first, one of
/// them comes first seen from either side, and what comes before a device comes before
/// all that is behind it.
pub proof fn law_device_order(a: BlockDevice, b: BlockDevice, c: BlockDevice)
    ensures
        a.partial_cmp_spec(&b) is Some,
        a.partial_cmp_spec(&b) == Some(Ordering::Equal) <==> a.eq_spec(&b),
        a.partial_cmp_spec(&b) == Some(Ordering::Less) <==> b.partial_cmp_spec(&a) == Some(
            Ordering::Greater,
        ),
        a.partial_cmp_spec(&b) == Some(Ordering::Less) && b.partial_cmp_spec(&c) == Some(
            Ordering::Less,
        ) ==> a.partial_cmp_spec(&c) == Some(Ordering::Less),
{
    law_path_order(a.path@, b.path@, c.path@);
    law_path_order(b.path@, c.path@, a.path@);
    law_path_order(a.path@, c.path@, b.path@);
    law_text_order(a.name@, b.name@, c.name@);
    law_text_order(b.name@, c.name@, a.name@);
    law_text_order(a.name@, c.name@, b.name@);
}

/// Which of two devices comes first is decided by the paths; where these are the same, by the
/// names, then by the sizes, then by whether they are removable, where a device that is not
/// comes first, and then by the sector sizes.
pub proof fn law_fields_decide_in_order(a: BlockDevice, b: BlockDevice)
    ensures
        ({
            let order = a.partial_cmp_spec(&b);
            let paths = path_order(a.path@, b.path@);
            let names = text_order(a.name@, b.name@);
            &&& paths != Ordering::Equal ==> order == Some(paths)
            &&& same_path(a.path@, b.path@) ==> {
                &&& a.name@ != b.name@ ==> order == Some(names)
                &&& a.name@ == b.name@ ==> {
                    &&& a.size_bytes < b.size_bytes ==> order == Some(Ordering::Less)
                    &&& a.size_bytes > b.size_bytes ==> order == Some(Ordering::Greater)
                    &&& a.size_bytes == b.size_bytes ==> {
                        &&& !a.is_removable && b.is_removable ==> order == Some(Ordering::Less)
                        &&& a.is_removable && !b.is_removable ==> order == Some(Ordering::Greater)
                        &&& a.is_removable == b.is_removable ==> {
                            &&& a.sector_size < b.sector_size ==> order == Some(Ordering::Less)
                            &&& a.sector_size > b.sector_size ==> order == Some(Ordering::Greater)
                            &&& a.sector_size == b.sector_size ==> order == Some(Ordering::Equal)
                        }
                    }
                }
            }
        }),
{
    law_path_order(a.path@, b.path@, a.path@);
    law_text_order(a.name@, b.name@, a.name@);
}

/// What contracts say of a device is said of its fields, of all of them.
pub proof fn law_device_view(d: BlockDevice)
    ensures
        d@.path == d.path@,
        d@.name == d.name@,
        d@.size_bytes == d.size_bytes,
        d@.is_removable == d.is_removable,
        d@.sector_size == d.sector_size,
        DeviceEvent::Added(d)@ == DeviceEventView::Added(d@),
        DeviceEvent::Removed(d.path)@ == DeviceEventView::Removed(d.path@),
{
}

/// An image to write, how large it is and which hash it should have.
#[derive(Debug)]
pub struct AsyncImageSourceFile<F> {
    /// The file that holds the image
    pub file: F,
    /// The size of the image
    pub uncompressed_size: u64,
    /// The hash that the image should have
    pub expected_hash: Option<[u8; 32]>,
}

/// A mounted partition.
#[derive(Debug)]
pub struct MountedPartition {
    /// The partition, such as `/dev/sda1`
    pub device_path: String,
    /// Where it is mounted, such as `/media/user/BOOT`
    pub mount_point: String,
}

impl Clone for MountedPartition {
    fn clone(&self) -> (copy: Self)
        ensures
            copy == *self,
    {
        MountedPartition {
            device_path: self.device_path.clone(),
            mount_point: self.mount_point.clone(),
        }
    }
}

/// A mounted partition, as contracts speak of it.
pub struct MountedPartitionView {
    pub device_path: Seq<char>,
    pub mount_point: Seq<char>,
}

impl View for MountedPartition {
    type V = MountedPartitionView;

    open spec fn view(&self) -> MountedPartitionView {
        MountedPartitionView { device_path: self.device_path@, mount_point: self.mount_point@ }
    }
}

/// A throughput: so many bytes in so many nanoseconds.
#[derive(Debug, Clone, Copy, PartialEq, Eq, Structural)]
pub struct Rate {
    /// How many bytes passed
    pub bytes: u64,
    /// In how many nanoseconds; 0 where nothing was measured
    pub nanos: u64,
}

/// The progress of flashing to the device.
#[derive(Debug, Clone, Copy, PartialEq, Eq, Structural)]
pub struct FlashProgress {
    /// How many bytes have passed in this phase
    pub bytes_written: u64,
    /// How many bytes there are; 0 if that is not known
    pub total_bytes: u64,
    /// The throughput since the last report
    pub bytes_per_sec: Rate,
    /// What is being done
    pub phase: FlashPhase,
}

/// What the flasher is doing.
#[derive(Debug, Clone, Copy, PartialEq, Eq, Structural)]
pub enum FlashPhase {
    Preparing,
    CheckingHash,
    Unmounting,
    Writing,
    Flushing,
    Verifying,
    VerifyingHashDoesNotMatch,
    Done,
}

/// Which of the two hash checks failed.
#[derive(Debug, Clone, Copy, PartialEq, Eq, Structural)]
pub enum HashFailedWhen {
    /// The check of the image before anything is written
    FirstCheck,
    /// The check of what was read back from the device
    VerificationCheck,
}

/// A size in the largest unit that it fills, rounded down.
#[derive(Debug, Clone, Copy, PartialEq, Eq, Structural)]
pub enum Size {
    Bytes(u64),
    KiloByte(u64),
    MegaByte(u64),
    GigaByte(u64),
}

/// A device came or went.
#[derive(Debug)]
pub enum DeviceEvent {
    /// This device was attached
    Added(BlockDevice),
    /// The device at this path was detached
    Removed(String),
}

/// An event, as contracts speak of it.
pub enum DeviceEventView {
    Added(BlockDeviceView),
    Removed(Seq<char>),
}

impl View for DeviceEvent {
    type V = DeviceEventView;

    open spec fn view(&self) -> DeviceEventView {
        match self {
            DeviceEvent::Added(device) => DeviceEventView::Added(device@),
            DeviceEvent::Removed(path) => DeviceEventView::Removed(path@),
        }
    }
}

/// The progress at the start of `phase`: nothing has passed yet.
pub open spec fn phase_start(phase: FlashPhase) -> FlashProgress {
    FlashProgress {
        bytes_written: 0,
        total_bytes: 0,
        bytes_per_sec: Rate { bytes: 0, nanos: 0 },
        phase,
    }
}

impl FlashProgress {
    /// The progress at the start of a phase.
    #[must_use]
    pub fn transition(phase_state: FlashPhase) -> (progress: Self)
        ensures
            progress == phase_start(phase_state),
            progress.phase == phase_state,
            progress.bytes_written == 0,
            progress.total_bytes == 0,
            progress.bytes_per_sec == (Rate { bytes: 0, nanos: 0 }),
    {
        FlashProgress {
            bytes_written: 0,
            total_bytes: 0,
            bytes_per_sec: Rate { bytes: 0, nanos: 0 },
            phase: phase_state,
        }
    }

    /// How many bytes have passed.
    #[must_use]
    pub fn bytes_written(&self) -> (n: u64)
        ensures
            n == self.bytes_written,
    {
        self.bytes_written
    }

    /// How many bytes there are.
    #[must_use]
    pub fn total_bytes(&self) -> (n: u64)
        ensures
            n == self.total_bytes,
    {
        self.total_bytes
    }

    /// The throughput since the last report.
    #[must_use]
    pub fn bytes_per_sec(&self) -> (rate: Rate)
        ensures
            rate == self.bytes_per_sec,
    {
        self.bytes_per_sec
    }

    /// What is being done.
    #[must_use]
    pub fn phase(&self) -> (phase: FlashPhase)
        ensures
            phase == self.phase,
    {
        self.phase
    }
}

impl BlockDevice {
    /// A device with these properties.
    #[must_use]
    pub fn new(
        path: String,
        name: String,
        size_bytes: u64,
        is_removable: bool,
        sector_size: usize,
    ) -> (device: Self)
        ensures
            device == (BlockDevice { path, name, size_bytes, is_removable, sector_size }),
    {
        BlockDevice { path, name, size_bytes, is_removable, sector_size }
    }

    /// The size in its largest unit, rounded down.
    #[must_use]
    pub fn get_sizes(&self) -> (size: Size)
        ensures
            size == size_in_unit(self.size_bytes),
            match size {
                Size::Bytes(n) => n == self.size_bytes < 1024,
                Size::KiloByte(n) => 1024 <= self.size_bytes < 1048576 && n == self.size_bytes
                    / 1024,
                Size::MegaByte(n) => 1048576 <= self.size_bytes < 1073741824 && n
                    == self.size_bytes / 1048576,
                Size::GigaByte(n) => 1073741824 <= self.size_bytes && n == self.size_bytes
                    / 1073741824,
            },
    {
        calculate_size_from_bytes(self.size_bytes)
    }

    /// The name of the device.
    #[must_use]
    pub fn name(&self) -> (name: &str)
        ensures
            name@ == self.name@,
    {
        self.name.as_str()
    }

    /// The size in bytes.
    #[must_use]
    pub fn size_in_bytes(&self) -> (n: u64)
        ensures
            n == self.size_bytes,
    {
        self.size_bytes
    }

    /// Whether the device is removable.
    #[must_use]
    pub fn removable(&self) -> (yes: bool)
        ensures
            yes == self.is_removable,
    {
        self.is_removable
    }

    /// The sector size.
    #[must_use]
    pub fn sector_size(&self) -> (n: usize)
        ensures
            n == self.sector_size,
    {
        self.sector_size
    }
}

impl<F> AsyncImageSourceFile<F> {
    /// An image in `file`, of a size, with the hash that it should have.
    pub fn new(file: F, uncompressed_size: u64, expected_hash: Option<[u8; 32]>) -> (image: Self)
        ensures
            image == (AsyncImageSourceFile { file, uncompressed_size, expected_hash }),
    {
        AsyncImageSourceFile { file, uncompressed_size, expected_hash }
    }

    /// The size of the image.
    pub fn uncompressed_size(&self) -> (n: u64)
        ensures
            n == self.uncompressed_size,
    {
        self.uncompressed_size
    }

    /// The hash that the image should have.
    pub fn expected_hash(&self) -> (hash: Option<[u8; 32]>)
        ensures
            hash == self.expected_hash,
    {
        self.expected_hash
    }
}

impl MountedPartition {
    /// The partition.
    #[must_use]
    pub fn device_path(&self) -> (path: &str)
        ensures
            path@ == self.device_path@,
    {
        self.device_path.as_str()
    }

    /// Where it is mounted.
    #[must_use]
    pub fn mount_point(&self) -> (path: &str)
        ensures
            path@ == self.mount_point@,
    {
        self.mount_point.as_str()
    }
}

/// The number of bytes in a kilobyte.
pub const KB: u64 = 1024;

/// The number of bytes in a megabyte.
pub const MB: u64 = 1048576;

/// The number of bytes in a gigabyte.
pub const GB: u64 = 1073741824;

/// `bytes` in the largest unit that it fills, rounded down.
pub open spec fn size_in_unit(bytes: u64) -> Size {
    if bytes >= GB {
        Size::GigaByte(bytes / GB)
    } else if bytes >= MB {
        Size::MegaByte(bytes / MB)
    } else if bytes >= KB {
        Size::KiloByte(bytes / KB)
    } else {
        Size::Bytes(bytes)
    }
}

/// How many bytes one unit of `size` holds.
pub open spec fn unit_bytes(size: Size) -> u64 {
    match size {
        Size::Bytes(_) => 1,
        Size::KiloByte(_) => KB,
        Size::MegaByte(_) => MB,
        Size::GigaByte(_) => GB,
    }
}

/// How many units `size` counts.
pub open spec fn unit_count(size: Size) -> u64 {
    match size {
        Size::Bytes(n) => n,
        Size::KiloByte(n) => n,
        Size::MegaByte(n) => n,
        Size::GigaByte(n) => n,
    }
}

/// A size shown to the user never exceeds the true size and falls short of it by
/// less than one unit. It counts at least one unit, unless there are no bytes,
/// and it counts 1024 of a unit only where there is no larger one.
pub proof fn law_size_rounds_down(bytes: u64)
    ensures
        ({
            let size = size_in_unit(bytes);
            let shown = unit_count(size) * unit_bytes(size);
            &&& shown <= bytes < shown + unit_bytes(size)
            &&& bytes > 0 ==> unit_count(size) > 0
            &&& unit_count(size) >= 1024 ==> size is GigaByte
        }),
{
    let size = size_in_unit(bytes);
    match size {
        Size::Bytes(n) => {
            assert(n * 1 == n);
        },
        Size::KiloByte(n) => {
            assert(n * KB == n * 1024);
        },
        Size::MegaByte(n) => {
            assert(n * MB == n * 1048576);
        },
        Size::GigaByte(n) => {
            assert(n * GB == n * 1073741824);
        },
    }
}

/// The size of `bytes_size` bytes in the largest unit that it fills, rounded down.
#[must_use]
pub fn calculate_size_from_bytes(bytes_size: u64) -> (size: Size)
    ensures
        size == size_in_unit(bytes_size),
        match size {
            Size::Bytes(n) => n == bytes_size < 1024,
            Size::KiloByte(n) => 1024 <= bytes_size < 1048576 && n == bytes_size / 1024,
            Size::MegaByte(n) => 1048576 <= bytes_size < 1073741824 && n == bytes_size / 1048576,
            Size::GigaByte(n) => 1073741824 <= bytes_size && n == bytes_size / 1073741824,
        },
{
    if bytes_size >= GB {
        Size::GigaByte(bytes_size / GB)
    } else if bytes_size >= MB {
        Size::MegaByte(bytes_size / MB)
    } else if bytes_size >= KB {
        Size::KiloByte(bytes_size / KB)
    } else {
        Size::Bytes(bytes_size)
    }
}

/// The short name of the unit of `size`.
pub open spec fn unit_name(size: Size) -> Seq<char> {
    match size {
        Size::Bytes(_) => " B"@,
        Size::KiloByte(_) => " KB"@,
        Size::MegaByte(_) => " MB"@,
        Size::GigaByte(_) => " GB"@,
    }
}

impl Size {
    /// The size as text: the number and the unit, such as `16 GB`.
    #[must_use]
    pub fn to_text(&self) -> (text: String)
        ensures
            text@ == decimal(unit_count(*self) as nat) + unit_name(*self),
            text@ == (match self {
                Size::Bytes(n) => decimal(*n as nat) + " B"@,
                Size::KiloByte(n) => decimal(*n as nat) + " KB"@,
                Size::MegaByte(n) => decimal(*n as nat) + " MB"@,
                Size::GigaByte(n) => decimal(*n as nat) + " GB"@,
            }),
    {
        match self {
            Size::Bytes(n) => joined(write_u64(*n).as_str(), " B"),
            Size::KiloByte(n) => joined(write_u64(*n).as_str(), " KB"),
            Size::MegaByte(n) => joined(write_u64(*n).as_str(), " MB"),
            Size::GigaByte(n) => joined(write_u64(*n).as_str(), " GB"),
        }
    }
}

} // verus!
