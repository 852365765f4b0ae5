//! Drives on Linux as the UDisks2 service shows them.
use crate::data_types::{BlockDevice, BlockDeviceView};
use crate::error::{result_view, FlashError, FlashErrorView, FlashResult};
use crate::paths::{dev_node, file_name, path_file_name};
use crate::text::{all_digits, chars_of, ends_in_digit, find_from, from_utf8_lossy, has_final_digit, has_only_digits, is_digit, joined, lemma_run_before, run_before, same_text, starts_with, string_of, strip_prefix, trim_end, trim_end_matches, utf8_lossy};
use vstd::prelude::*;
use vstd::utf8::{decode_utf8, valid_utf8};

verus! {

/// What the name of the object of a block device begins with.
pub const BLOCK_DEVICES: &'static str = "/org/freedesktop/UDisks2/block_devices/";

/// Whether `name` is that of a disk that is numbered itself: a memory card such as
/// `mmcblk0`, or an NVMe drive such as `nvme0n1`.
pub open spec fn names_numbered_disk(name: Seq<char>) -> bool {
    let rest = name.skip(4);
    let k = run_before(rest, 'n') as int;
    ||| "mmcblk"@.is_prefix_of(name) && all_digits(name.skip(6))
    ||| "nvme"@.is_prefix_of(name) && k < rest.len() && all_digits(rest.take(k)) && all_digits(
        rest.skip(k + 1),
    )
}

/// Whether `name` is that of a disk that is numbered itself.
fn is_numbered_disk(name: &str) -> (yes: bool)
    ensures
        yes == names_numbered_disk(name@),
{
    proof {
        reveal_strlit("mmcblk");
        reveal_strlit("nvme");
    }
    if let Some(number) = strip_prefix(name, "mmcblk") {
        proof {
            assert("mmcblk"@[0] == name@.subrange(0, 6)[0]);
            if "nvme"@.is_prefix_of(name@) {
                assert("nvme"@[0] == name@.subrange(0, 4)[0]);
            }
        }
        return has_only_digits(number.as_str());
    }
    match strip_prefix(name, "nvme") {
        None => false,
        Some(rest) => {
            let x = chars_of(rest.as_str());
            let k: usize = find_from(x.as_slice(), 0, 'n');
            proof {
                assert(x@.skip(0) =~= x@);
                lemma_run_before(x@, 'n');
            }
            if k >= x.len() {
                return false;
            }
            let controller = string_of(vstd::slice::slice_subrange(x.as_slice(), 0, k));
            let namespace = string_of(vstd::slice::slice_subrange(x.as_slice(), k + 1, x.len()));
            assert(controller@ =~= x@.take(k as int));
            assert(namespace@ =~= x@.skip(k + 1));
            has_only_digits(controller.as_str()) && has_only_digits(namespace.as_str())
        },
    }
}

/// Whether `path` names the object of a whole disk: partitions end in a digit, and
/// so do only the disks that are numbered themselves.
pub open spec fn names_disk(path: Seq<char>) -> bool {
    let suffix = path.skip(BLOCK_DEVICES@.len() as int);
    BLOCK_DEVICES@.is_prefix_of(path) && suffix.len() > 0 && (!ends_in_digit(suffix)
        || names_numbered_disk(suffix))
}

/// Whether `path` names the object of a whole disk.
pub fn is_block_device_path(path: &str) -> (yes: bool)
    ensures
        yes == names_disk(path@),
{
    match strip_prefix(path, BLOCK_DEVICES) {
        None => false,
        Some(suffix) => {
            proof {
                reveal_strlit("");
                if suffix@.len() == 0 {
                    assert(suffix@ =~= ""@);
                }
            }
            !same_text(suffix.as_str(), "") && (!has_final_digit(suffix.as_str())
                || is_numbered_disk(suffix.as_str()))
        },
    }
}

/// The object of the block device `name`.
pub open spec fn object_of(name: Seq<char>) -> Seq<char> {
    BLOCK_DEVICES@ + name
}

/// The object of a device that is to be unmounted or ejected. A path without a
/// file name has none: such a device is busy.
pub fn object_to_release(device: &BlockDevice) -> (r: FlashResult<String>)
    ensures
        match r {
            Ok(o) => file_name(device.path@) matches Some(name) && o@ == object_of(name) && o@
                == "/org/freedesktop/UDisks2/block_devices/"@ + name,
            Err(e) => file_name(device.path@) is None && e@ == FlashErrorView::DeviceBusy(
                device.path@,
            ),
        },
{
    match path_file_name(device.path.as_str()) {
        Some(name) => Ok(joined(BLOCK_DEVICES, name.as_str())),
        None => Err(FlashError::DeviceBusy { path: device.path.clone() }),
    }
}

/// The object of a device that is to be opened. A path without a file name has none.
pub fn object_to_open(device: &BlockDevice) -> (r: FlashResult<String>)
    ensures
        match r {
            Ok(o) => file_name(device.path@) matches Some(name) && o@ == object_of(name) && o@
                == "/org/freedesktop/UDisks2/block_devices/"@ + name,
            Err(e) => file_name(device.path@) is None && e@ == FlashErrorView::DeviceNotFound(
                device.path@,
            ),
        },
{
    match path_file_name(device.path.as_str()) {
        Some(name) => Ok(joined(BLOCK_DEVICES, name.as_str())),
        None => Err(FlashError::DeviceNotFound(device.path.clone())),
    }
}

/// Whether the drive was ejected, from the answer of the service.
pub fn eject(device: &BlockDevice, ejected: bool) -> (r: FlashResult<()>)
    ensures
        ejected ==> r is Ok,
        !ejected ==> result_view(r) == Err::<(), FlashErrorView>(
            FlashErrorView::DeviceBusy(device.path@),
        ),
{
    if ejected {
        Ok(())
    } else {
        Err(FlashError::DeviceBusy { path: device.path.clone() })
    }
}

/// The device node that the service tells: a path, and NULs behind it.
pub fn device_node(bytes: &[u8]) -> (node: String)
    ensures
        node@ == trim_end(utf8_lossy(bytes@), '\0'),
        valid_utf8(bytes@) ==> node@ == trim_end(decode_utf8(bytes@), '\0'),
{
    let text = from_utf8_lossy(bytes);
    trim_end_matches(text.as_str(), '\0')
}

/// Whether a device node is that of a disk that is numbered itself.
pub open spec fn is_numbered_node(node: Seq<char>) -> bool {
    "/dev/"@.is_prefix_of(node) && names_numbered_disk(node.skip(5))
}

/// Whether a device node is that of a whole disk: no loop device, no RAM disk
/// and no partition.
pub open spec fn is_disk(node: Seq<char>) -> bool {
    !("/dev/loop"@.is_prefix_of(node)) && !("/dev/ram"@.is_prefix_of(node)) && !(
    "/dev/zram"@.is_prefix_of(node)) && (!ends_in_digit(node) || is_numbered_node(node))
}

/// Whether a device node is that of a whole disk.
pub fn is_disk_node(node: &str) -> (yes: bool)
    ensures
        yes == is_disk(node@),
{
    let numbered: bool = match strip_prefix(node, "/dev/") {
        Some(name) => is_numbered_disk(name.as_str()),
        None => false,
    };
    proof {
        reveal_strlit("/dev/");
    }
    !starts_with(node, "/dev/loop") && !starts_with(node, "/dev/ram") && !starts_with(
        node,
        "/dev/zram",
    ) && (!has_final_digit(node) || numbered)
}

/// What the service tells of a drive.
#[derive(Debug)]
pub struct DriveReplies {
    /// The model
    pub model: Option<String>,
    /// Whether it can be removed
    pub removable: Option<bool>,
}

/// What the service tells of a block device. What it does not tell is missing.
#[derive(Debug)]
pub struct BlockReplies {
    /// The size
    pub size: Option<u64>,
    /// The sector size
    pub hw_sector_size: Option<u32>,
    /// The drive of the device, or why it cannot be asked
    pub drive: Result<DriveReplies, String>,
}

/// The sector size of a device that does not tell it.
pub const DEFAULT_SECTOR: u32 = 512;

/// The block device with this node, from what the service tells of it.
pub open spec fn device_of(node: Seq<char>, replies: BlockReplies) -> Result<
    BlockDeviceView,
    FlashErrorView,
> {
    if !is_disk(node) {
        Err(FlashErrorView::DeviceNotFound(node))
    } else {
        match replies.drive {
            Err(text) => Err(FlashErrorView::Zbus(text@)),
            Ok(drive) => Ok(
                BlockDeviceView {
                    path: node,
                    name: match drive.model {
                        Some(m) => m@,
                        None => "<unknown>"@,
                    },
                    size_bytes: match replies.size {
                        Some(n) => n,
                        None => 0,
                    },
                    is_removable: match drive.removable {
                        Some(yes) => yes,
                        None => false,
                    },
                    sector_size: match replies.hw_sector_size {
                        Some(n) => n as usize,
                        None => DEFAULT_SECTOR as usize,
                    },
                },
            ),
        }
    }
}

/// The block device with this node, from what the service tells of it.
pub fn device_at(node: &str, replies: &BlockReplies) -> (r: FlashResult<BlockDevice>)
    ensures
        match r {
            Ok(d) => device_of(node@, *replies) == Ok::<BlockDeviceView, FlashErrorView>(d@),
            Err(e) => device_of(node@, *replies) == Err::<BlockDeviceView, FlashErrorView>(e@),
        },
        match r {
            Ok(d) => {
                &&& d.path@ == node@
                &&& replies.drive matches Ok(drive) && {
                    &&& drive.model matches Some(m) ==> d.name@ == m@
                    &&& drive.model is None ==> d.name@ == "<unknown>"@
                    &&& d.is_removable <==> drive.removable == Some(true)
                }
                &&& replies.size matches Some(n) ==> d.size_bytes == n
                &&& replies.size is None ==> d.size_bytes == 0
                &&& replies.hw_sector_size matches Some(n) ==> d.sector_size == n
                &&& replies.hw_sector_size is None ==> d.sector_size == 512
            },
            Err(e) => {
                ||| !is_disk(node@) && e@ == FlashErrorView::DeviceNotFound(node@)
                ||| is_disk(node@) && replies.drive is Err && e@ == FlashErrorView::Zbus(
                    (replies.drive->Err_0)@,
                )
            },
        },
        r is Ok <==> is_disk(node@) && replies.drive is Ok,
{
    if !is_disk_node(node) {
        return Err(FlashError::DeviceNotFound(node.to_owned()));
    }
    match &replies.drive {
        Err(text) => Err(FlashError::Zbus(text.clone())),
        Ok(drive) => {
            let name = match &drive.model {
                Some(m) => m.clone(),
                None => "<unknown>".to_owned(),
            };
            let size_bytes: u64 = match replies.size {
                Some(n) => n,
                None => 0,
            };
            let sector_size: u32 = match replies.hw_sector_size {
                Some(n) => n,
                None => DEFAULT_SECTOR,
            };
            let is_removable: bool = match drive.removable {
                Some(yes) => yes,
                None => false,
            };
            Ok(
                BlockDevice::new(
                    node.to_owned(),
                    name,
                    size_bytes,
                    is_removable,
                    sector_size as usize,
                ),
            )
        },
    }
}

/// A block device of the service: its device property, and what else it tells.
#[derive(Debug)]
pub struct BlockObject {
    /// The device node, as bytes
    pub device: Vec<u8>,
    /// What else the service tells
    pub replies: BlockReplies,
}

impl BlockObject {
    /// The device node.
    pub open spec fn node(&self) -> Seq<char> {
        trim_end(utf8_lossy(self.device@), '\0')
    }
}

/// The block device of an object of the service.
pub fn block_obj_to_device(object: &BlockObject) -> (r: FlashResult<BlockDevice>)
    ensures
        match r {
            Ok(d) => device_of(object.node(), object.replies) == Ok::<
                BlockDeviceView,
                FlashErrorView,
            >(d@),
            Err(e) => device_of(object.node(), object.replies) == Err::<
                BlockDeviceView,
                FlashErrorView,
            >(e@),
        },
        match r {
            Ok(d) => {
                &&& d.path@ == object.node()
                &&& object.replies.drive matches Ok(drive) && {
                    &&& drive.model matches Some(m) ==> d.name@ == m@
                    &&& drive.model is None ==> d.name@ == "<unknown>"@
                    &&& d.is_removable <==> drive.removable == Some(true)
                }
                &&& object.replies.size matches Some(n) ==> d.size_bytes == n
                &&& object.replies.size is None ==> d.size_bytes == 0
                &&& object.replies.hw_sector_size matches Some(n) ==> d.sector_size == n
                &&& object.replies.hw_sector_size is None ==> d.sector_size == 512
            },
            Err(e) => {
                ||| !is_disk(object.node()) && e@ == FlashErrorView::DeviceNotFound(object.node())
                ||| is_disk(object.node()) && object.replies.drive is Err && e@ == FlashErrorView::Zbus(
                    (object.replies.drive->Err_0)@,
                )
            },
        },
        r is Ok <==> is_disk(object.node()) && object.replies.drive is Ok,
{
    let node = device_node(object.device.as_slice());
    device_at(node.as_str(), &object.replies)
}

/// The disks among the block devices with these nodes, or the first error in
/// asking for a drive. Other devices are passed over.
pub open spec fn disks_among(nodes: Seq<Seq<char>>, replies: Seq<BlockReplies>) -> Result<
    Seq<BlockDeviceView>,
    FlashErrorView,
>
    decreases nodes.len(),
{
    if nodes.len() == 0 {
        Ok(Seq::empty())
    } else {
        match disks_among(nodes.drop_last(), replies.drop_last()) {
            Err(e) => Err(e),
            Ok(before) => if !is_disk(nodes.last()) {
                Ok(before)
            } else {
                match device_of(nodes.last(), replies.last()) {
                    Err(e) => Err(e),
                    Ok(d) => Ok(before.push(d)),
                }
            },
        }
    }
}

/// The nodes of the objects.
pub open spec fn nodes_of(objects: Seq<BlockObject>) -> Seq<Seq<char>> {
    objects.map_values(|o: BlockObject| o.node())
}

/// What the service tells of the objects.
pub open spec fn replies_of(objects: Seq<BlockObject>) -> Seq<BlockReplies> {
    objects.map_values(|o: BlockObject| o.replies)
}

/// The error in asking for the drive of one device decides for all behind it.
proof fn lemma_error_stays(nodes: Seq<Seq<char>>, replies: Seq<BlockReplies>, n: int)
    requires
        nodes.len() == replies.len(),
        0 <= n <= nodes.len(),
        disks_among(nodes.take(n), replies.take(n)) is Err,
    ensures
        disks_among(nodes, replies) == disks_among(nodes.take(n), replies.take(n)),
    decreases nodes.len() - n,
{
    if n == nodes.len() {
        assert(nodes.take(n) =~= nodes);
        assert(replies.take(n) =~= replies);
    } else {
        assert(nodes.take(n + 1).drop_last() =~= nodes.take(n));
        assert(replies.take(n + 1).drop_last() =~= replies.take(n));
        lemma_error_stays(nodes, replies, n + 1);
    }
}

/// The disks that the service shows.
pub fn list_devices(objects: &[BlockObject]) -> (r: FlashResult<Vec<BlockDevice>>)
    ensures
        match r {
            Ok(found) => disks_among(nodes_of(objects@), replies_of(objects@)) == Ok::<
                Seq<BlockDeviceView>,
                FlashErrorView,
            >(found@.map_values(|d: BlockDevice| d@)),
            Err(e) => disks_among(nodes_of(objects@), replies_of(objects@)) == Err::<
                Seq<BlockDeviceView>,
                FlashErrorView,
            >(e@),
        },
{
    let ghost nodes = nodes_of(objects@);
    let ghost replies = replies_of(objects@);
    let mut found: Vec<BlockDevice> = Vec::new();
    let mut i: usize = 0;
    assert(found@.map_values(|d: BlockDevice| d@) =~= Seq::<BlockDeviceView>::empty());
    while i < objects.len()
        invariant
            i <= objects.len(),
            nodes == nodes_of(objects@),
            replies == replies_of(objects@),
            disks_among(nodes.take(i as int), replies.take(i as int)) == Ok::<
                Seq<BlockDeviceView>,
                FlashErrorView,
            >(found@.map_values(|d: BlockDevice| d@)),
        decreases objects.len() - i,
    {
        let ghost before = found@.map_values(|d: BlockDevice| d@);
        assert(nodes.take(i + 1).drop_last() =~= nodes.take(i as int));
        assert(replies.take(i + 1).drop_last() =~= replies.take(i as int));
        let node = device_node(objects[i].device.as_slice());
        assert(node@ == nodes[i as int]);
        if is_disk_node(node.as_str()) {
            match device_at(node.as_str(), &objects[i].replies) {
                Err(e) => {
                    proof {
                        lemma_error_stays(nodes, replies, i + 1);
                    }
                    return Err(e);
                },
                Ok(d) => {
                    found.push(d);
                    assert(found@.map_values(|d: BlockDevice| d@) =~= before.push(d@));
                },
            }
        }
        i = i + 1;
    }
    assert(nodes.take(i as int) =~= nodes);
    assert(replies.take(i as int) =~= replies);
    Ok(found)
}

/// Whatever is listed is a whole disk: no loop device, no RAM disk, no partition.
pub proof fn law_listed_is_whole_disk(
    nodes: Seq<Seq<char>>,
    replies: Seq<BlockReplies>,
    k: int,
)
    requires
        nodes.len() == replies.len(),
        disks_among(nodes, replies) is Ok,
        0 <= k < disks_among(nodes, replies)->Ok_0.len(),
    ensures
        is_disk(disks_among(nodes, replies)->Ok_0[k].path),
        nodes.contains(disks_among(nodes, replies)->Ok_0[k].path),
    decreases nodes.len(),
{
    let before = disks_among(nodes.drop_last(), replies.drop_last())->Ok_0;
    let path = disks_among(nodes, replies)->Ok_0[k].path;
    if k < before.len() {
        law_listed_is_whole_disk(nodes.drop_last(), replies.drop_last(), k);
        let j = choose|j: int| 0 <= j < nodes.len() - 1 && nodes.drop_last()[j] == path;
        assert(nodes[j] == path);
    } else {
        assert(nodes[nodes.len() - 1] == path);
    }
}

/// What is listed of the objects of two lists, one behind the other, is what is listed of
/// each, one behind the other. The first error decides.
pub proof fn law_lists_are_joined(
    a: Seq<Seq<char>>,
    x: Seq<BlockReplies>,
    b: Seq<Seq<char>>,
    y: Seq<BlockReplies>,
)
    requires
        a.len() == x.len(),
        b.len() == y.len(),
    ensures
        disks_among(a + b, x + y) == (match (disks_among(a, x), disks_among(b, y)) {
            (Err(e), _) => Err::<Seq<BlockDeviceView>, FlashErrorView>(e),
            (_, Err(e)) => Err(e),
            (Ok(first), Ok(second)) => Ok(first + second),
        }),
    decreases b.len(),
{
    if b.len() == 0 {
        assert(a + b =~= a);
        assert(x + y =~= x);
        if let Ok(first) = disks_among(a, x) {
            assert(first + Seq::<BlockDeviceView>::empty() =~= first);
        }
    } else {
        law_lists_are_joined(a, x, b.drop_last(), y.drop_last());
        assert((a + b).drop_last() =~= a + b.drop_last());
        assert((x + y).drop_last() =~= x + y.drop_last());
        if let (Ok(first), Ok(second)) = (disks_among(a, x), disks_among(b, y)) {
            let before = disks_among(b.drop_last(), y.drop_last())->Ok_0;
            if is_disk(b.last()) {
                assert((first + before).push(second.last()) =~= first + second);
            }
        }
    }
}

/// One object is listed exactly if it is a disk, and tells what the service tells: the
/// node, the model, the size, the sector size, and that it is removable exactly if its
/// drive is. A drive that cannot be asked is an error.
pub proof fn law_disk_is_listed_as_told(node: Seq<char>, replies: BlockReplies)
    ensures
        !is_disk(node) ==> disks_among(seq![node], seq![replies]) == Ok::<
            Seq<BlockDeviceView>,
            FlashErrorView,
        >(Seq::empty()),
        is_disk(node) ==> match replies.drive {
            Err(text) => disks_among(seq![node], seq![replies]) == Err::<
                Seq<BlockDeviceView>,
                FlashErrorView,
            >(FlashErrorView::Zbus(text@)),
            Ok(drive) => {
                &&& disks_among(seq![node], seq![replies]) is Ok
                &&& (disks_among(seq![node], seq![replies])->Ok_0).len() == 1
                &&& {
                    let d = (disks_among(seq![node], seq![replies])->Ok_0)[0];
                    &&& d.path == node
                    &&& drive.model matches Some(m) ==> d.name == m@
                    &&& drive.model is None ==> d.name == "<unknown>"@
                    &&& d.is_removable <==> drive.removable == Some(true)
                    &&& replies.size matches Some(n) ==> d.size_bytes == n
                    &&& replies.size is None ==> d.size_bytes == 0
                    &&& replies.hw_sector_size matches Some(n) ==> d.sector_size == n
                    &&& replies.hw_sector_size is None ==> d.sector_size == 512
                }
            },
        },
{
    let nodes = seq![node];
    let all = seq![replies];
    assert(nodes.drop_last() =~= Seq::<Seq<char>>::empty());
    assert(disks_among(nodes.drop_last(), all.drop_last()) == Ok::<
        Seq<BlockDeviceView>,
        FlashErrorView,
    >(Seq::empty()));
}

/// Each listed disk tells what the service told of one of the objects, and every disk among
/// the objects is listed.
pub proof fn law_listed_disks_are_the_disks(
    nodes: Seq<Seq<char>>,
    replies: Seq<BlockReplies>,
    i: int,
)
    requires
        nodes.len() == replies.len(),
        disks_among(nodes, replies) is Ok,
        0 <= i < nodes.len(),
        is_disk(nodes[i]),
    ensures
        exists|k: int|
            {
                &&& 0 <= k < (disks_among(nodes, replies)->Ok_0).len()
                &&& (#[trigger] (disks_among(nodes, replies)->Ok_0)[k]).path == nodes[i]
                &&& replies[i].drive matches Ok(drive) && (
                (disks_among(nodes, replies)->Ok_0)[k].is_removable <==> drive.removable == Some(true)) && (
                drive.model matches Some(m) ==> (disks_among(nodes, replies)->Ok_0)[k].name == m@)
                &&& replies[i].size matches Some(n) ==> (disks_among(nodes, replies)->Ok_0)[k].size_bytes
                    == n
                &&& replies[i].hw_sector_size matches Some(n) ==> (disks_among(nodes, replies)->Ok_0)[k].sector_size
                    == n
            },
    decreases nodes.len(),
{
    let all = disks_among(nodes, replies)->Ok_0;
    let before = disks_among(nodes.drop_last(), replies.drop_last())->Ok_0;
    if i < nodes.len() - 1 {
        law_listed_disks_are_the_disks(nodes.drop_last(), replies.drop_last(), i);
        let k = choose|k: int|
            {
                &&& 0 <= k < before.len()
                &&& (#[trigger] before[k]).path == nodes.drop_last()[i]
                &&& replies.drop_last()[i].drive matches Ok(drive) && (before[k].is_removable
                    <==> drive.removable == Some(true)) && (drive.model matches Some(m)
                    ==> before[k].name == m@)
                &&& replies.drop_last()[i].size matches Some(n) ==> before[k].size_bytes == n
                &&& replies.drop_last()[i].hw_sector_size matches Some(n)
                    ==> before[k].sector_size == n
            };
        assert(all[k] == before[k]);
    } else {
        assert(all[all.len() - 1].path == nodes[i]);
    }
}

/// A name that does not end in a digit, such as `sdb`, is that of a whole disk, by its
/// object and, unless it is a loop device or a RAM disk, by its device node.
pub proof fn law_disks_without_number(name: Seq<char>)
    requires
        name.len() > 0,
        !('0' <= name.last() <= '9'),
    ensures
        names_disk("/org/freedesktop/UDisks2/block_devices/"@ + name),
        !("loop"@.is_prefix_of(name)) && !("ram"@.is_prefix_of(name)) && !("zram"@.is_prefix_of(
            name,
        )) ==> is_disk("/dev/"@ + name),
{
    lemma_prefixes(name);
    let object = object_of(name);
    let node = dev_node(name);
    assert(object.last() == name.last());
    assert(node.last() == name.last());
}

/// A memory card such as `mmcblk0` is a whole disk, and so is an NVMe drive such as
/// `nvme0n1`, by its object and by its device node.
pub proof fn law_numbered_disks(a: Seq<char>, b: Seq<char>)
    requires
        a.len() > 0,
        b.len() > 0,
        forall|i: int| 0 <= i < a.len() ==> '0' <= #[trigger] a[i] <= '9',
        forall|i: int| 0 <= i < b.len() ==> '0' <= #[trigger] b[i] <= '9',
    ensures
        names_disk("/org/freedesktop/UDisks2/block_devices/"@ + ("mmcblk"@ + a)),
        is_disk("/dev/"@ + ("mmcblk"@ + a)),
        names_disk("/org/freedesktop/UDisks2/block_devices/"@ + ("nvme"@ + a + seq!['n'] + b)),
        is_disk("/dev/"@ + ("nvme"@ + a + seq!['n'] + b)),
{
    reveal_strlit("mmcblk");
    reveal_strlit("nvme");
    let card = "mmcblk"@ + a;
    let drive = "nvme"@ + a + seq!['n'] + b;
    lemma_prefixes(card);
    lemma_prefixes(drive);
    assert(card.skip(6) =~= a);
    assert(card.subrange(0, 6) =~= "mmcblk"@);
    let rest = drive.skip(4);
    assert(rest =~= a + seq!['n'] + b);
    assert(drive.subrange(0, 4) =~= "nvme"@);
    lemma_run_before(rest, 'n');
    let k = run_before(rest, 'n') as int;
    if k < a.len() {
        assert(rest[k] == a[k]);
    }
    assert(rest[a.len() as int] == 'n');
    assert(k == a.len());
    assert(rest.take(k) =~= a);
    assert(rest.skip(k + 1) =~= b);
    assert(names_numbered_disk(card));
    assert(names_numbered_disk(drive));
    assert(card[0] == 'm' && drive[0] == 'n');
    reveal_strlit("loop");
    reveal_strlit("ram");
    reveal_strlit("zram");
    if "loop"@.is_prefix_of(card) || "loop"@.is_prefix_of(drive) {
        assert("loop"@[0] == card.subrange(0, 4)[0] || "loop"@[0] == drive.subrange(0, 4)[0]);
    }
    if "ram"@.is_prefix_of(card) || "ram"@.is_prefix_of(drive) {
        assert("ram"@[0] == card.subrange(0, 3)[0] || "ram"@[0] == drive.subrange(0, 3)[0]);
    }
    if "zram"@.is_prefix_of(card) || "zram"@.is_prefix_of(drive) {
        assert("zram"@[0] == card.subrange(0, 4)[0] || "zram"@[0] == drive.subrange(0, 4)[0]);
    }
}

/// Any other name that ends in a digit is none of a whole disk: neither by its object nor
/// by its device node.
pub proof fn law_other_numbers_are_no_disks(name: Seq<char>)
    requires
        name.len() > 0,
        '0' <= name.last() <= '9',
        forall|a: Seq<char>|
            name == #[trigger] ("mmcblk"@ + a) ==> exists|i: int|
                0 <= i < a.len() && !('0' <= #[trigger] a[i] <= '9'),
        forall|a: Seq<char>, b: Seq<char>|
            name == #[trigger] ("nvme"@ + a + seq!['n'] + b) ==> a.len() == 0 || b.len() == 0
                || (exists|i: int| 0 <= i < a.len() && !('0' <= #[trigger] a[i] <= '9')) || (
            exists|i: int| 0 <= i < b.len() && !('0' <= #[trigger] b[i] <= '9')),
    ensures
        !names_disk("/org/freedesktop/UDisks2/block_devices/"@ + name),
        !is_disk("/dev/"@ + name),
{
    reveal_strlit("mmcblk");
    reveal_strlit("nvme");
    lemma_prefixes(name);
    assert(object_of(name).last() == name.last());
    assert(dev_node(name).last() == name.last());
    if names_numbered_disk(name) {
        if "mmcblk"@.is_prefix_of(name) && all_digits(name.skip(6)) {
            let a = name.skip(6);
            assert(name =~= "mmcblk"@ + a);
        } else {
            let rest = name.skip(4);
            let k = run_before(rest, 'n') as int;
            lemma_run_before(rest, 'n');
            let a = rest.take(k);
            let b = rest.skip(k + 1);
            assert(name.subrange(0, 4) =~= "nvme"@);
            assert(name =~= "nvme"@ + a + seq!['n'] + b);
        }
    }
}

/// Loop devices and RAM disks are no disks by their device nodes, and only what lies among
/// the block devices of the service can be one by its object.
pub proof fn law_virtual_and_foreign_are_no_disks(node: Seq<char>, path: Seq<char>)
    ensures
        "/dev/loop"@.is_prefix_of(node) || "/dev/ram"@.is_prefix_of(node)
            || "/dev/zram"@.is_prefix_of(node) ==> !is_disk(node),
        !("/org/freedesktop/UDisks2/block_devices/"@.is_prefix_of(path)) || path
            == "/org/freedesktop/UDisks2/block_devices/"@ ==> !names_disk(path),
{
}

/// What a name looks like behind the prefixes of objects and device nodes.
proof fn lemma_prefixes(name: Seq<char>)
    ensures
        object_of(name) == "/org/freedesktop/UDisks2/block_devices/"@ + name,
        object_of(name).skip(BLOCK_DEVICES@.len() as int) == name,
        BLOCK_DEVICES@.is_prefix_of(object_of(name)),
        dev_node(name) == "/dev/"@ + name,
        dev_node(name).skip(5) == name,
        "/dev/"@.is_prefix_of(dev_node(name)),
        "/dev/loop"@.is_prefix_of(dev_node(name)) ==> "loop"@.is_prefix_of(name),
        "/dev/ram"@.is_prefix_of(dev_node(name)) ==> "ram"@.is_prefix_of(name),
        "/dev/zram"@.is_prefix_of(dev_node(name)) ==> "zram"@.is_prefix_of(name),
{
    reveal_strlit("/dev/");
    reveal_strlit("/dev/loop");
    reveal_strlit("/dev/ram");
    reveal_strlit("/dev/zram");
    reveal_strlit("loop");
    reveal_strlit("ram");
    reveal_strlit("zram");
    let object = object_of(name);
    let node = dev_node(name);
    assert(object.skip(BLOCK_DEVICES@.len() as int) =~= name);
    assert(object.subrange(0, BLOCK_DEVICES@.len() as int) =~= BLOCK_DEVICES@);
    assert(node.skip(5) =~= name);
    assert(node.subrange(0, 5) =~= "/dev/"@);
    if "/dev/loop"@.is_prefix_of(node) {
        assert(name.subrange(0, 4) =~= "loop"@) by {
            assert forall|i: int| 0 <= i < 4 implies name[i] == "loop"@[i] by {
                assert(node.subrange(0, 9)[i + 5] == "/dev/loop"@[i + 5]);
            }
        }
    }
    if "/dev/ram"@.is_prefix_of(node) {
        assert(name.subrange(0, 3) =~= "ram"@) by {
            assert forall|i: int| 0 <= i < 3 implies name[i] == "ram"@[i] by {
                assert(node.subrange(0, 8)[i + 5] == "/dev/ram"@[i + 5]);
            }
        }
    }
    if "/dev/zram"@.is_prefix_of(node) {
        assert(name.subrange(0, 4) =~= "zram"@) by {
            assert forall|i: int| 0 <= i < 4 implies name[i] == "zram"@[i] by {
                assert(node.subrange(0, 9)[i + 5] == "/dev/zram"@[i + 5]);
            }
        }
    }
}

/// Partitions are told apart by one rule: the object of a block device names a whole
/// disk exactly if its device node is listed as one, loop devices and RAM disks aside.
pub proof fn law_objects_and_nodes_agree(name: Seq<char>)
    requires
        name.len() > 0,
        !("/dev/loop"@.is_prefix_of(dev_node(name))),
        !("/dev/ram"@.is_prefix_of(dev_node(name))),
        !("/dev/zram"@.is_prefix_of(dev_node(name))),
    ensures
        names_disk(object_of(name)) <==> is_disk(dev_node(name)),
{
    reveal_strlit("/dev/");
    reveal_strlit("/org/freedesktop/UDisks2/block_devices/");
    assert(object_of(name).skip(BLOCK_DEVICES@.len() as int) =~= name);
    assert(object_of(name).subrange(0, BLOCK_DEVICES@.len() as int) =~= BLOCK_DEVICES@);
    assert(dev_node(name).skip(5) =~= name);
    assert(dev_node(name).subrange(0, 5) =~= "/dev/"@);
    assert(object_of(name).last() == name.last());
    assert(dev_node(name).last() == name.last());
}

/// A partition of a numbered disk is no numbered disk.
proof fn lemma_numbered_partition(disk: Seq<char>, number: Seq<char>)
    requires
        names_numbered_disk(disk),
    ensures
        !names_numbered_disk(disk + seq!['p'] + number),
{
    reveal_strlit("mmcblk");
    reveal_strlit("nvme");
    let name = disk + seq!['p'] + number;
    let n = disk.len() as int;
    assert(name[n] == 'p');
    assert(!is_digit('p'));
    if "mmcblk"@.is_prefix_of(disk) && all_digits(disk.skip(6)) {
        assert("mmcblk"@[0] == disk.subrange(0, 6)[0]);
        assert(name[0] == 'm');
        assert(name.skip(6)[n - 6] == 'p');
        if "nvme"@.is_prefix_of(name) {
            assert("nvme"@[0] == name.subrange(0, 4)[0]);
        }
    } else {
        let rest = disk.skip(4);
        let k = run_before(rest, 'n') as int;
        assert("nvme"@[0] == disk.subrange(0, 4)[0]);
        assert(name[0] == 'n');
        if "mmcblk"@.is_prefix_of(name) {
            assert("mmcblk"@[0] == name.subrange(0, 6)[0]);
        }
        let longer = name.skip(4);
        let j = run_before(longer, 'n') as int;
        lemma_run_before(rest, 'n');
        lemma_run_before(longer, 'n');
        assert(longer[k] == rest[k]);
        if j < k {
            assert(longer[j] == rest[j]);
        }
        assert(j == k);
        assert(longer.skip(k + 1)[n - 4 - (k + 1)] == 'p');
    }
}

/// A name that ends in a number names a disk only if the disk is numbered itself.
proof fn lemma_numbered(name: Seq<char>, number: Seq<char>)
    requires
        all_digits(number),
        number.is_suffix_of(name),
        !names_numbered_disk(name),
    ensures
        !names_disk(object_of(name)),
        !is_disk(dev_node(name)),
{
    reveal_strlit("/dev/");
    assert(is_digit(number[number.len() - 1]));
    assert(name.last() == number.last());
    assert(object_of(name).skip(BLOCK_DEVICES@.len() as int) =~= name);
    assert(dev_node(name).skip(5) =~= name);
    assert(dev_node(name).last() == name.last());
}

/// The partitions of a numbered disk, such as `nvme0n1p2`, are no disks, neither by
/// their objects nor by their device nodes.
pub proof fn law_numbered_partitions_are_no_disks(disk: Seq<char>, number: Seq<char>)
    requires
        names_numbered_disk(disk),
        all_digits(number),
    ensures
        !names_disk(object_of(disk + seq!['p'] + number)),
        !is_disk(dev_node(disk + seq!['p'] + number)),
{
    let name = disk + seq!['p'] + number;
    assert(name.subrange(name.len() - number.len(), name.len() as int) =~= number);
    lemma_numbered_partition(disk, number);
    lemma_numbered(name, number);
}

/// The partitions of a disk such as `sdb`, such as `sdb1`, are no disks, neither by
/// their objects nor by their device nodes.
pub proof fn law_partitions_are_no_disks(disk: Seq<char>, number: Seq<char>)
    requires
        "sd"@.is_prefix_of(disk),
        all_digits(number),
    ensures
        !names_disk(object_of(disk + number)),
        !is_disk(dev_node(disk + number)),
{
    reveal_strlit("sd");
    reveal_strlit("mmcblk");
    reveal_strlit("nvme");
    let name = disk + number;
    assert(name.subrange(name.len() - number.len(), name.len() as int) =~= number);
    assert("sd"@[0] == disk.subrange(0, 2)[0]);
    assert(name[0] == 's');
    if "mmcblk"@.is_prefix_of(name) {
        assert("mmcblk"@[0] == name.subrange(0, 6)[0]);
    }
    if "nvme"@.is_prefix_of(name) {
        assert("nvme"@[0] == name.subrange(0, 4)[0]);
    }
    lemma_numbered(name, number);
}

/// What comes next in unmounting a disk.
#[derive(Debug, Clone, Copy, PartialEq, Eq, Structural)]
pub enum UnmountStage {
    /// Ask for all block devices
    List,
    /// Ask for the drive of the disk
    AskDrive,
    /// Ask for the block device at hand
    AskChild,
    /// Unmount it
    Unmount,
    /// Nothing: the outcome is known
    Finished,
}

/// How an operation in unmounting a disk ended.
#[derive(Debug)]
pub enum UnmountEvent<'a> {
    /// There are so many block devices
    Listed(usize),
    /// The disk belongs to this drive
    Drive(&'a str),
    /// The block device at hand cannot be asked
    Absent,
    /// The block device at hand belongs to this drive, has this device node, and is
    /// mounted or not
    Child { drive: Option<&'a str>, node: &'a str, mounted: bool },
    /// The block device at hand was unmounted
    Unmounted,
    /// The service refuses to unmount the block device at hand
    Refused,
    /// The operation failed
    Failed(FlashError),
}

/// An event, as contracts speak of it.
pub enum UnmountEventView {
    Listed(usize),
    Drive(Seq<char>),
    Absent,
    Child { drive: Option<Seq<char>>, node: Seq<char>, mounted: bool },
    Unmounted,
    Refused,
    Failed(FlashErrorView),
}

impl<'a> View for UnmountEvent<'a> {
    type V = UnmountEventView;

    open spec fn view(&self) -> UnmountEventView {
        match self {
            UnmountEvent::Listed(n) => UnmountEventView::Listed(*n),
            UnmountEvent::Drive(d) => UnmountEventView::Drive(d@),
            UnmountEvent::Absent => UnmountEventView::Absent,
            UnmountEvent::Child { drive, node, mounted } => UnmountEventView::Child {
                drive: match drive {
                    Some(d) => Some(d@),
                    None => None,
                },
                node: node@,
                mounted: *mounted,
            },
            UnmountEvent::Unmounted => UnmountEventView::Unmounted,
            UnmountEvent::Refused => UnmountEventView::Refused,
            UnmountEvent::Failed(e) => UnmountEventView::Failed(e@),
        }
    }
}

/// The state of unmounting a disk.
pub struct UnmountView {
    /// The path of the disk
    pub path: Seq<char>,
    /// What comes next
    pub stage: UnmountStage,
    /// The drive of the disk
    pub drive: Seq<char>,
    /// How many block devices there are
    pub count: usize,
    /// The block device at hand
    pub at: usize,
    /// Its device node
    pub child: Seq<char>,
    /// How it ended
    pub outcome: Result<(), FlashErrorView>,
}

impl UnmountView {
    /// It ended in `outcome`.
    pub open spec fn finish(self, outcome: Result<(), FlashErrorView>) -> UnmountView {
        UnmountView { stage: UnmountStage::Finished, outcome, ..self }
    }

    /// Going on with the block device number `at`, if there is one.
    pub open spec fn go_on(self, at: int) -> UnmountView {
        if at < self.count {
            UnmountView { at: at as usize, stage: UnmountStage::AskChild, ..self }
        } else {
            UnmountView { at: at as usize, ..self }.finish(Ok(()))
        }
    }

    /// Whether a block device has to be unmounted: it is on the same drive, and
    /// mounted. The disk itself is no exception.
    pub open spec fn must_unmount(self, drive: Option<Seq<char>>, mounted: bool) -> bool {
        drive == Some(self.drive) && mounted
    }

    /// The state after `event`.
    pub open spec fn next(self, event: UnmountEventView) -> UnmountView {
        match event {
            UnmountEventView::Listed(n) => UnmountView {
                count: n,
                stage: UnmountStage::AskDrive,
                ..self
            },
            UnmountEventView::Drive(d) => UnmountView { drive: d, ..self }.go_on(0),
            UnmountEventView::Absent => self.go_on(self.at + 1),
            UnmountEventView::Child { drive, node, mounted } => if self.must_unmount(drive, mounted) {
                UnmountView { child: node, stage: UnmountStage::Unmount, ..self }
            } else {
                self.go_on(self.at + 1)
            },
            UnmountEventView::Unmounted => self.go_on(self.at + 1),
            UnmountEventView::Refused => self.finish(Err(FlashErrorView::DeviceBusy(self.child))),
            UnmountEventView::Failed(e) => self.finish(Err(e)),
        }
    }

    /// Whether `event` can be the outcome of what comes next.
    pub open spec fn answers(self, event: UnmountEventView) -> bool {
        match event {
            UnmountEventView::Listed(_) => self.stage == UnmountStage::List,
            UnmountEventView::Drive(_) => self.stage == UnmountStage::AskDrive,
            UnmountEventView::Absent | UnmountEventView::Child { .. } => self.stage
                == UnmountStage::AskChild,
            UnmountEventView::Unmounted | UnmountEventView::Refused => self.stage
                == UnmountStage::Unmount,
            UnmountEventView::Failed(_) => self.stage != UnmountStage::Finished,
        }
    }

    /// What holds of every state that can be reached.
    pub open spec fn valid(self) -> bool {
        self.stage == UnmountStage::AskChild || self.stage == UnmountStage::Unmount ==> self.at
            < self.count
    }
}

/// The state in which unmounting the disk at `path` starts.
pub open spec fn unmount_start(path: Seq<char>) -> UnmountView {
    let v = UnmountView {
        path,
        stage: UnmountStage::List,
        drive: Seq::empty(),
        count: 0,
        at: 0,
        child: Seq::empty(),
        outcome: Ok(()),
    };
    if file_name(path) is None {
        v.finish(Err(FlashErrorView::DeviceBusy(path)))
    } else {
        v
    }
}

/// The unmounting of a disk.
pub struct UnmountMachine {
    path: String,
    stage: UnmountStage,
    drive: String,
    count: usize,
    at: usize,
    child: String,
    outcome: FlashResult<()>,
}

impl View for UnmountMachine {
    type V = UnmountView;

    closed spec fn view(&self) -> UnmountView {
        UnmountView {
            path: self.path@,
            stage: self.stage,
            drive: self.drive@,
            count: self.count,
            at: self.at,
            child: self.child@,
            outcome: result_view(self.outcome),
        }
    }
}

impl UnmountMachine {
    /// The unmounting of `device`.
    pub fn new(device: &BlockDevice) -> (m: Self)
        ensures
            m@ == unmount_start(device.path@),
            m@.valid(),
    {
        let mut m = UnmountMachine {
            path: device.path.clone(),
            stage: UnmountStage::List,
            drive: String::new(),
            count: 0,
            at: 0,
            child: String::new(),
            outcome: Ok(()),
        };
        assert(m@.drive =~= Seq::<char>::empty());
        assert(m@.child =~= Seq::<char>::empty());
        if let Err(e) = object_to_release(device) {
            m.stage = UnmountStage::Finished;
            m.outcome = Err(e);
        }
        m
    }

    /// What comes next.
    pub fn stage(&self) -> (stage: UnmountStage)
        ensures
            stage == self@.stage,
    {
        self.stage
    }

    /// The number of the block device at hand.
    pub fn at(&self) -> (at: usize)
        ensures
            at == self@.at,
    {
        self.at
    }

    /// Goes on with the block device number `at`.
    fn go_on(&mut self, at: usize)
        ensures
            final(self)@ == old(self)@.go_on(at as int),
    {
        self.at = at;
        if at < self.count {
            self.stage = UnmountStage::AskChild;
        } else {
            self.stage = UnmountStage::Finished;
            self.outcome = Ok(());
        }
    }

    /// Whether `event` can be told: it is an outcome of what comes next.
    pub fn accepts(&self, event: &UnmountEvent) -> (yes: bool)
        ensures
            yes == self@.answers(event@),
    {
        match event {
            UnmountEvent::Listed(_) => self.stage == UnmountStage::List,
            UnmountEvent::Drive(_) => self.stage == UnmountStage::AskDrive,
            UnmountEvent::Absent | UnmountEvent::Child { .. } => self.stage
                == UnmountStage::AskChild,
            UnmountEvent::Unmounted | UnmountEvent::Refused => self.stage == UnmountStage::Unmount,
            UnmountEvent::Failed(_) => self.stage != UnmountStage::Finished,
        }
    }

    /// Tells how the operation ended that came next.
    pub fn step(&mut self, event: UnmountEvent)
        requires
            old(self)@.valid(),
            old(self)@.answers(event@),
        ensures
            final(self)@.valid(),
            final(self)@ == old(self)@.next(event@),
    {
        match event {
            UnmountEvent::Listed(n) => {
                self.count = n;
                self.stage = UnmountStage::AskDrive;
            },
            UnmountEvent::Drive(d) => {
                self.drive = d.to_owned();
                self.go_on(0);
            },
            UnmountEvent::Absent | UnmountEvent::Unmounted => {
                let next: usize = self.at + 1;
                self.go_on(next);
            },
            UnmountEvent::Child { drive, node, mounted } => {
                let same_drive = match drive {
                    Some(d) => same_text(d, self.drive.as_str()),
                    None => false,
                };
                if same_drive && mounted {
                    self.child = node.to_owned();
                    self.stage = UnmountStage::Unmount;
                } else {
                    let next: usize = self.at + 1;
                    self.go_on(next);
                }
            },
            UnmountEvent::Refused => {
                self.stage = UnmountStage::Finished;
                self.outcome = Err(FlashError::DeviceBusy { path: self.child.clone() });
            },
            UnmountEvent::Failed(e) => {
                self.stage = UnmountStage::Finished;
                self.outcome = Err(e);
            },
        }
    }

    /// How it ended.
    pub fn into_outcome(self) -> (outcome: FlashResult<()>)
        requires
            self@.stage == UnmountStage::Finished,
        ensures
            result_view(outcome) == self@.outcome,
    {
        self.outcome
    }
}

/// The unmounting of a disk so far.
pub struct UnmountRun {
    /// The state of the machine
    pub state: UnmountView,
    /// How many block devices were dealt with
    pub passed: nat,
    /// The device nodes that had to be unmounted
    pub due: Seq<Seq<char>>,
    /// The device nodes that were unmounted
    pub unmounted: Seq<Seq<char>>,
}

impl UnmountRun {
    /// It went on with `event`.
    pub open spec fn step(self, event: UnmountEventView) -> UnmountRun {
        let v = self.state;
        let run = UnmountRun { state: v.next(event), ..self };
        match event {
            UnmountEventView::Absent => UnmountRun { passed: self.passed + 1, ..run },
            UnmountEventView::Child { drive, node, mounted } => if v.must_unmount(drive, mounted) {
                UnmountRun { due: self.due.push(node), ..run }
            } else {
                UnmountRun { passed: self.passed + 1, ..run }
            },
            UnmountEventView::Unmounted => UnmountRun {
                passed: self.passed + 1,
                unmounted: self.unmounted.push(v.child),
                ..run
            },
            _ => run,
        }
    }
}

/// The unmounting of the disk at `path` through `events`.
pub open spec fn unmount_run(path: Seq<char>, events: Seq<UnmountEventView>) -> UnmountRun
    decreases events.len(),
{
    if events.len() == 0 {
        UnmountRun {
            state: unmount_start(path),
            passed: 0,
            due: Seq::empty(),
            unmounted: Seq::empty(),
        }
    } else {
        unmount_run(path, events.drop_last()).step(events.last())
    }
}

/// Whether the machine accepts `events`, one after the other.
pub open spec fn unmount_legal(path: Seq<char>, events: Seq<UnmountEventView>) -> bool
    decreases events.len(),
{
    events.len() == 0 || {
        &&& unmount_legal(path, events.drop_last())
        &&& unmount_run(path, events.drop_last()).state.answers(events.last())
    }
}

spec fn complete_so_far(run: UnmountRun, path: Seq<char>) -> bool {
    let v = run.state;
    &&& v.valid()
    &&& v.path == path
    &&& v.stage == UnmountStage::Finished || v.outcome is Ok
    &&& v.stage == UnmountStage::List || v.stage == UnmountStage::AskDrive ==> run.passed == 0
        && v.at == 0
    &&& run.passed <= v.at
    &&& !(v.outcome is Err) ==> {
        &&& run.passed == v.at
        &&& v.stage == UnmountStage::Finished ==> v.at == v.count
        &&& v.stage != UnmountStage::Unmount ==> run.unmounted == run.due
    }
    &&& v.stage == UnmountStage::Unmount ==> run.due == run.unmounted.push(v.child)
    &&& run.unmounted.is_prefix_of(run.due)
}

proof fn lemma_complete_so_far(path: Seq<char>, events: Seq<UnmountEventView>)
    requires
        unmount_legal(path, events),
    ensures
        complete_so_far(unmount_run(path, events), path),
    decreases events.len(),
{
    let run = unmount_run(path, events);
    if events.len() > 0 {
        lemma_complete_so_far(path, events.drop_last());
        let before = unmount_run(path, events.drop_last());
        assert(run.unmounted.is_prefix_of(run.due));
    }
}

/// A disk that was unmounted has no mounted partition: all block devices were
/// asked, and every one that is mounted on the same drive was unmounted.
pub proof fn law_unmounting_is_complete(path: Seq<char>, events: Seq<UnmountEventView>)
    requires
        unmount_legal(path, events),
        unmount_run(path, events).state.stage == UnmountStage::Finished,
        unmount_run(path, events).state.outcome is Ok,
    ensures
        unmount_run(path, events).passed == unmount_run(path, events).state.count,
        unmount_run(path, events).unmounted == unmount_run(path, events).due,
{
    lemma_complete_so_far(path, events);
}

/// Nothing is ever unmounted that did not have to be.
pub proof fn law_only_due_is_unmounted(path: Seq<char>, events: Seq<UnmountEventView>)
    requires
        unmount_legal(path, events),
    ensures
        unmount_run(path, events).unmounted.is_prefix_of(unmount_run(path, events).due),
{
    lemma_complete_so_far(path, events);
}

/// How many of the block devices were asked: each tells of itself or cannot be asked.
pub open spec fn answered(events: Seq<UnmountEventView>) -> nat
    decreases events.len(),
{
    if events.len() == 0 {
        0
    } else {
        answered(events.drop_last()) + if events.last() is Child || events.last() is Absent {
            1nat
        } else {
            0nat
        }
    }
}

/// What holds of every unmounting, as the events tell it.
spec fn in_turn(path: Seq<char>, events: Seq<UnmountEventView>) -> bool {
    let v = unmount_run(path, events).state;
    let n = events.len();
    &&& v.valid()
    &&& v.stage == UnmountStage::Finished || v.outcome is Ok
    &&& v.stage == UnmountStage::List ==> n == 0
    &&& v.stage == UnmountStage::AskDrive ==> n == 1
    &&& n > 0 && !(events[0] is Failed) ==> events[0] == UnmountEventView::Listed(v.count)
    &&& n > 1 && !(events[1] is Failed) ==> events[1] == UnmountEventView::Drive(v.drive)
    &&& v.stage == UnmountStage::AskDrive || v.stage == UnmountStage::AskChild || v.stage
        == UnmountStage::Unmount ==> events[0] is Listed
    &&& v.stage == UnmountStage::AskChild ==> {
        &&& n > 1 && events[1] is Drive
        &&& v.at == answered(events) < v.count
        &&& n <= 2 + 2 * answered(events)
    }
    &&& v.stage == UnmountStage::Unmount ==> {
        &&& n > 2 && events[1] is Drive
        &&& v.at + 1 == answered(events) <= v.count
        &&& n <= 1 + 2 * answered(events)
        &&& events.last() == (UnmountEventView::Child {
            drive: Some(v.drive),
            node: v.child,
            mounted: true,
        })
    }
    &&& v.stage == UnmountStage::List || v.stage == UnmountStage::AskDrive ==> answered(events) == 0
    &&& v.stage == UnmountStage::Finished ==> {
        &&& n > 0 && events[0] is Listed ==> n <= 2 + 2 * v.count
        &&& v.outcome is Ok ==> {
            &&& n > 1 && events[0] is Listed && events[1] is Drive
            &&& answered(events) == v.count
        }
    }
}

proof fn lemma_in_turn(path: Seq<char>, events: Seq<UnmountEventView>)
    requires
        unmount_legal(path, events),
    ensures
        in_turn(path, events),
    decreases events.len(),
{
    if events.len() > 0 {
        let before = events.drop_last();
        lemma_in_turn(path, before);
        if before.len() > 0 {
            assert(events[0] == before[0]);
        }
        if before.len() > 1 {
            assert(events[1] == before[1]);
        }
        reveal_with_fuel(answered, 3);
    }
}

/// What was accepted was accepted from the start on.
proof fn lemma_unmount_legal_take(path: Seq<char>, events: Seq<UnmountEventView>, k: int)
    requires
        unmount_legal(path, events),
        0 <= k <= events.len(),
    ensures
        unmount_legal(path, events.take(k)),
        k < events.len() ==> unmount_run(path, events.take(k)).state.answers(events[k]),
        k < events.len() ==> unmount_run(path, events.take(k + 1)) == unmount_run(
            path,
            events.take(k),
        ).step(events[k]),
    decreases events.len() - k,
{
    if k == events.len() {
        assert(events.take(k) =~= events);
    } else {
        lemma_unmount_legal_take(path, events, k + 1);
        assert(events.take(k + 1).drop_last() =~= events.take(k));
        assert(events.take(k + 1).last() == events[k]);
    }
}

/// Every block device is asked, in turn: there are as many answers as block devices were
/// listed, and what is asked, or unmounted, is the one that comes next, or was asked last.
/// There are at most two operations for each, and two more.
pub proof fn law_block_devices_are_asked_in_turn(path: Seq<char>, events: Seq<UnmountEventView>)
    requires
        unmount_legal(path, events),
    ensures
        ({
            let v = unmount_run(path, events).state;
            &&& v.stage == UnmountStage::AskChild ==> v.at == answered(events)
            &&& v.stage == UnmountStage::Unmount ==> v.at + 1 == answered(events)
            &&& events.len() > 0 ==> (events[0] matches UnmountEventView::Listed(n) ==> {
                &&& events.len() <= 2 + 2 * n
                &&& v.stage == UnmountStage::AskChild ==> answered(events) < n
                &&& v.stage == UnmountStage::Finished && v.outcome is Ok ==> answered(events) == n
            })
            &&& v.stage == UnmountStage::Finished && v.outcome is Ok ==> events.len() > 1
                && events[0] is Listed && events[1] is Drive
        }),
{
    lemma_in_turn(path, events);
}

/// In an unmounting that succeeded, every block device that told to be on the drive of the
/// disk, and to be mounted, was unmounted right after: it was the one at hand.
pub proof fn law_mounted_is_unmounted(path: Seq<char>, events: Seq<UnmountEventView>, j: int)
    requires
        unmount_legal(path, events),
        unmount_run(path, events).state.stage == UnmountStage::Finished,
        unmount_run(path, events).state.outcome is Ok,
        1 < j < events.len(),
        events[1] is Drive,
        events[j] matches UnmountEventView::Child { drive: Some(d), mounted: true, .. } && d
            == events[1]->Drive_0,
    ensures
        j + 1 < events.len(),
        events[j + 1] is Unmounted,
        unmount_run(path, events.take(j + 1)).state.stage == UnmountStage::Unmount,
        unmount_run(path, events.take(j + 1)).state.at == answered(events.take(j)),
{
    lemma_unmount_legal_take(path, events, j);
    lemma_unmount_legal_take(path, events, j + 1);
    lemma_in_turn(path, events.take(j));
    lemma_in_turn(path, events.take(j + 1));
    assert(events.take(j)[1] == events[1]);
    assert(events.take(j + 1).drop_last() =~= events.take(j));
    if j + 1 == events.len() {
        assert(events.take(j + 1) =~= events);
    } else {
        if !(events[j + 1] is Unmounted) {
            lemma_unmount_legal_take(path, events, j + 2);
            if j + 2 == events.len() {
                assert(events.take(j + 2) =~= events);
            }
        }
    }
}

/// Only what told to be on the drive of the disk, and to be mounted, is ever unmounted:
/// it told so right before.
pub proof fn law_only_mounted_is_unmounted(path: Seq<char>, events: Seq<UnmountEventView>)
    requires
        unmount_legal(path, events),
        unmount_run(path, events).state.stage == UnmountStage::Unmount,
    ensures
        events.len() > 2,
        events[1] matches UnmountEventView::Drive(d) && events.last()
            matches UnmountEventView::Child { drive: Some(of), mounted: true, .. } && of == d,
{
    lemma_in_turn(path, events);
}

/// An unmounting fails for a reason, with the error of the operation that failed. A
/// block device that is not let go is busy, by its own node. A disk whose path has no file
/// name is busy from the start.
pub proof fn law_unmounting_fails_with_cause(path: Seq<char>, events: Seq<UnmountEventView>)
    requires
        unmount_legal(path, events),
    ensures
        ({
            let v = unmount_run(path, events).state;
            let failed = v.stage == UnmountStage::Finished && v.outcome is Err;
            &&& events.len() == 0 ==> (failed <==> file_name(path) is None)
            &&& events.len() == 0 && failed ==> v.outcome == Err::<(), FlashErrorView>(
                FlashErrorView::DeviceBusy(path),
            )
            &&& events.len() > 0 ==> match events.last() {
                UnmountEventView::Failed(e) => failed && v.outcome == Err::<(), FlashErrorView>(e),
                UnmountEventView::Refused => failed && events.len() > 1
                    && events[events.len() - 2] is Child && v.outcome == Err::<
                    (),
                    FlashErrorView,
                >(FlashErrorView::DeviceBusy(events[events.len() - 2]->Child_node)),
                _ => !failed,
            }
        }),
{
    if events.len() > 0 {
        lemma_in_turn(path, events.drop_last());
        lemma_in_turn(path, events);
    }
}

/// As long as there is no outcome, every outcome of what comes next is accepted.
pub proof fn law_unmounting_goes_on(
    path: Seq<char>,
    events: Seq<UnmountEventView>,
    n: usize,
    drive: Seq<char>,
    child: UnmountEventView,
    e: FlashErrorView,
)
    requires
        unmount_legal(path, events),
        child is Child || child is Absent,
    ensures
        ({
            let v = unmount_run(path, events).state;
            &&& v.stage == UnmountStage::Finished <==> !v.answers(UnmountEventView::Failed(e))
            &&& v.stage == UnmountStage::List <==> v.answers(UnmountEventView::Listed(n))
            &&& v.stage == UnmountStage::AskDrive <==> v.answers(UnmountEventView::Drive(drive))
            &&& v.stage == UnmountStage::AskChild <==> v.answers(child)
            &&& v.stage == UnmountStage::Unmount <==> v.answers(UnmountEventView::Unmounted)
            &&& v.stage == UnmountStage::Unmount <==> v.answers(UnmountEventView::Refused)
        }),
{
}

/// What contracts say of an event is what it holds.
pub proof fn law_unmount_event_view<'a>(
    n: usize,
    drive: &'a str,
    node: &'a str,
    mounted: bool,
    e: FlashError,
)
    ensures
        UnmountEvent::Listed(n)@ == UnmountEventView::Listed(n),
        UnmountEvent::Drive(drive)@ == UnmountEventView::Drive(drive@),
        UnmountEvent::Absent@ == UnmountEventView::Absent,
        (UnmountEvent::Child { drive: Some(drive), node, mounted })@ == (UnmountEventView::Child {
            drive: Some(drive@),
            node: node@,
            mounted,
        }),
        (UnmountEvent::Child { drive: None, node, mounted })@ == (UnmountEventView::Child {
            drive: None,
            node: node@,
            mounted,
        }),
        UnmountEvent::Unmounted@ == UnmountEventView::Unmounted,
        UnmountEvent::Refused@ == UnmountEventView::Refused,
        UnmountEvent::Failed(e)@ == UnmountEventView::Failed(e@),
{
}

} // verus!
