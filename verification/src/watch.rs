//! Watching drives come and go: which changes are worth telling.
use crate::data_types::{BlockDevice, BlockDeviceView, DeviceEvent, DeviceEventView};
use crate::paths::{components, dev_node, dev_path, file_name, is_plain, is_same_path, lemma_dev_node_name};
use crate::text::{after_last, same_text, text_after_last, texts_of};
use crate::udisks::{is_block_device_path, names_disk, object_of, BLOCK_DEVICES};
use vstd::prelude::*;

verus! {

/// What tells two drives apart: the components of the path.
pub open spec fn key(path: Seq<char>) -> Seq<Seq<char>> {
    components(path)
}

/// The keys of `paths`.
pub open spec fn keys(paths: Seq<String>) -> Seq<Seq<Seq<char>>> {
    paths.map_values(|p: String| key(p@))
}

/// The keys of `devices`.
pub open spec fn device_keys(devices: Seq<BlockDevice>) -> Seq<Seq<Seq<char>>> {
    devices.map_values(|d: BlockDevice| key(d.path@))
}

/// The drives that have been told.
#[derive(Debug)]
pub struct DeviceWatcher {
    known: Vec<String>,
}

impl View for DeviceWatcher {
    type V = Set<Seq<Seq<char>>>;

    closed spec fn view(&self) -> Set<Seq<Seq<char>>> {
        keys(self.known@).to_set()
    }
}

/// The text under which each of `paths` is found by its key.
spec fn names_in(paths: Seq<String>) -> Map<Seq<Seq<char>>, Seq<char>> {
    Map::new(
        |k: Seq<Seq<char>>| keys(paths).contains(k),
        |k: Seq<Seq<char>>| paths[keys(paths).index_of(k)]@,
    )
}

/// The texts under which drives are known, by their keys, once `devices` came to
/// those of `names`: a drive that is known keeps its text.
pub open spec fn named(
    names: Map<Seq<Seq<char>>, Seq<char>>,
    devices: Seq<BlockDevice>,
) -> Map<Seq<Seq<char>>, Seq<char>>
    decreases devices.len(),
{
    if devices.len() == 0 {
        names
    } else {
        named_one(named(names, devices.drop_last()), devices.last().path@)
    }
}

/// The texts under which drives are known once the drive at `path` came.
pub open spec fn named_one(names: Map<Seq<Seq<char>>, Seq<char>>, path: Seq<char>) -> Map<
    Seq<Seq<char>>,
    Seq<char>,
> {
    if names.contains_key(key(path)) {
        names
    } else {
        names.insert(key(path), path)
    }
}

/// The interface of a block device.
pub const BLOCK_INTERFACE: &'static str = "org.freedesktop.UDisks2.Block";

/// Whether a change of `interfaces` concerns the block device of a whole disk.
pub open spec fn concerns_disk(object_path: Seq<char>, interfaces: Seq<String>) -> bool {
    names_disk(object_path) && texts_of(interfaces).contains(BLOCK_INTERFACE@)
}

/// Whether a change of `interfaces` concerns the block device of a whole disk.
pub fn is_disk_change(object_path: &str, interfaces: &[String]) -> (yes: bool)
    ensures
        yes == concerns_disk(object_path@, interfaces@),
        yes <==> names_disk(object_path@) && exists|i: int|
            0 <= i < interfaces@.len() && (#[trigger] interfaces@[i])@
                == "org.freedesktop.UDisks2.Block"@,
{
    if !is_block_device_path(object_path) {
        return false;
    }
    let mut i: usize = 0;
    while i < interfaces.len()
        invariant
            i <= interfaces.len(),
            names_disk(object_path@),
            forall|j: int| 0 <= j < i ==> texts_of(interfaces@)[j] != BLOCK_INTERFACE@,
        decreases interfaces.len() - i,
    {
        assert(texts_of(interfaces@)[i as int] == interfaces@[i as int]@);
        if same_text(interfaces[i].as_str(), BLOCK_INTERFACE) {
            assert(texts_of(interfaces@).contains(BLOCK_INTERFACE@));
            return true;
        }
        i = i + 1;
    }
    assert forall|j: int| 0 <= j < interfaces@.len() implies (#[trigger] interfaces@[j])@
        != "org.freedesktop.UDisks2.Block"@ by {
        assert(texts_of(interfaces@)[j] == interfaces@[j]@);
    }
    false
}

/// The device node of the disk behind an object of the service.
pub open spec fn node_behind(object_path: Seq<char>) -> Seq<char> {
    dev_node(after_last(object_path, '/'))
}

/// Where a path with the key of `path` is among `paths`.
fn position(paths: &Vec<String>, path: &str) -> (at: Option<usize>)
    ensures
        match at {
            Some(i) => i < paths@.len() && keys(paths@)[i as int] == key(path@),
            None => !keys(paths@).contains(key(path@)),
        },
{
    let mut i: usize = 0;
    while i < paths.len()
        invariant
            i <= paths.len(),
            forall|j: int| 0 <= j < i ==> keys(paths@)[j] != key(path@),
        decreases paths.len() - i,
    {
        assert(keys(paths@)[i as int] == key(paths@[i as int]@));
        if is_same_path(paths[i].as_str(), path) {
            return Some(i);
        }
        i = i + 1;
    }
    None
}

/// The drives among `current` that are not known, each at its first place.
pub open spec fn newcomers(known: Set<Seq<Seq<char>>>, current: Seq<BlockDevice>) -> Seq<
    BlockDeviceView,
>
    decreases current.len(),
{
    if current.len() == 0 {
        Seq::empty()
    } else {
        let before = newcomers(known, current.drop_last());
        let k = key(current.last().path@);
        if known.contains(k) || device_keys(current.drop_last()).contains(k) {
            before
        } else {
            before.push(current.last()@)
        }
    }
}

/// The keys of the drives that `events` tell to be gone, from position `from` on.
pub open spec fn gone(events: Seq<DeviceEvent>, from: int) -> Seq<Seq<Seq<char>>> {
    events.skip(from).map_values(
        |e: DeviceEvent|
            match e@ {
                DeviceEventView::Removed(path) => key(path),
                DeviceEventView::Added(d) => key(d.path),
            },
    )
}

/// Whether `events` tell first the newcomers, in order, and then each known drive
/// that is not among `current`, once.
pub open spec fn tells(
    known: Set<Seq<Seq<char>>>,
    current: Seq<BlockDevice>,
    events: Seq<DeviceEvent>,
) -> bool {
    let fresh = newcomers(known, current);
    &&& events.len() >= fresh.len()
    &&& forall|i: int|
        0 <= i < fresh.len() ==> (#[trigger] events[i])@ == DeviceEventView::Added(fresh[i])
    &&& forall|i: int| fresh.len() <= i < events.len() ==> (#[trigger] events[i])@ is Removed
    &&& gone(events, fresh.len() as int).no_duplicates()
    &&& gone(events, fresh.len() as int).to_set() == known.difference(
        device_keys(current).to_set(),
    )
}

/// Whether a drive that an event tells to be gone has the text under which it was
/// known.
pub open spec fn known_as(names: Map<Seq<Seq<char>>, Seq<char>>, event: DeviceEventView) -> bool {
    event matches DeviceEventView::Removed(path) ==> names.contains_key(key(path)) && names[key(
        path,
    )] == path
}

/// What a receiver of `events` knows who knew `known`.
pub open spec fn applied(known: Set<Seq<Seq<char>>>, events: Seq<DeviceEventView>) -> Set<
    Seq<Seq<char>>,
>
    decreases events.len(),
{
    if events.len() == 0 {
        known
    } else {
        followed(applied(known, events.drop_last()), events.last())
    }
}

/// What a receiver of `event` knows who knew `known`.
pub open spec fn followed(known: Set<Seq<Seq<char>>>, event: DeviceEventView) -> Set<
    Seq<Seq<char>>,
> {
    match event {
        DeviceEventView::Added(d) => known.insert(key(d.path)),
        DeviceEventView::Removed(path) => known.remove(key(path)),
    }
}

/// The key of the drive that came or went.
pub open spec fn event_key(event: DeviceEventView) -> Seq<Seq<char>> {
    match event {
        DeviceEventView::Added(d) => key(d.path),
        DeviceEventView::Removed(path) => key(path),
    }
}

/// Whether none of `events` from `from` to `to` is about the drive with the key `k`.
pub open spec fn silent(events: Seq<DeviceEventView>, from: int, to: int, k: Seq<Seq<char>>) -> bool {
    forall|m: int| from <= m < to ==> event_key(#[trigger] events[m]) != k
}

/// Whether the events about each drive alternate between coming and going, and
/// start with going exactly for the drives that are known at first.
pub open spec fn alternate(known: Set<Seq<Seq<char>>>, events: Seq<DeviceEventView>) -> bool {
    &&& forall|i: int|
        0 <= i < events.len() && silent(events, 0, i, event_key(events[i])) ==> (
        #[trigger] events[i] is Removed <==> known.contains(event_key(events[i])))
    &&& forall|i: int, j: int|
        0 <= i < j < events.len() && event_key(events[i]) == event_key(events[j]) && silent(
            events,
            i + 1,
            j,
            event_key(events[i]),
        ) ==> (#[trigger] events[i] is Removed) != (#[trigger] events[j] is Removed)
}

/// What the service tells of an object: that it got or lost interfaces. With the
/// former comes the drive behind the object, if it can be read.
pub enum Signal {
    /// The object got interfaces
    Added { object_path: Seq<char>, interfaces: Seq<String>, device: Option<BlockDeviceView> },
    /// The object lost interfaces
    Removed { object_path: Seq<char>, interfaces: Seq<String> },
}

/// What is told on a signal where `known` is known: a drive of a whole disk that is
/// not known has come, and one that is known has gone.
pub open spec fn told(known: Set<Seq<Seq<char>>>, signal: Signal) -> Option<DeviceEventView> {
    match signal {
        Signal::Added { object_path, interfaces, device: Some(d) } => if concerns_disk(
            object_path,
            interfaces,
        ) && !known.contains(key(d.path)) {
            Some(DeviceEventView::Added(d))
        } else {
            None
        },
        Signal::Added { object_path, interfaces, device: None } => None,
        Signal::Removed { object_path, interfaces } => if concerns_disk(object_path, interfaces)
            && known.contains(key(node_behind(object_path))) {
            Some(DeviceEventView::Removed(node_behind(object_path)))
        } else {
            None
        },
    }
}

/// What is known after a signal: what a receiver of the event knows.
pub open spec fn known_after(known: Set<Seq<Seq<char>>>, signal: Signal) -> Set<Seq<Seq<char>>> {
    match told(known, signal) {
        Some(event) => followed(known, event),
        None => known,
    }
}

/// What is known after `signals`.
pub open spec fn known_through(known: Set<Seq<Seq<char>>>, signals: Seq<Signal>) -> Set<
    Seq<Seq<char>>,
>
    decreases signals.len(),
{
    if signals.len() == 0 {
        known
    } else {
        known_after(known_through(known, signals.drop_last()), signals.last())
    }
}

/// All that is told on `signals`.
pub open spec fn stream(known: Set<Seq<Seq<char>>>, signals: Seq<Signal>) -> Seq<DeviceEventView>
    decreases signals.len(),
{
    if signals.len() == 0 {
        Seq::empty()
    } else {
        let before = stream(known, signals.drop_last());
        match told(known_through(known, signals.drop_last()), signals.last()) {
            Some(event) => before.push(event),
            None => before,
        }
    }
}

/// The event, if there is one.
pub open spec fn event_view(event: Option<DeviceEvent>) -> Option<DeviceEventView> {
    match event {
        Some(e) => Some(e@),
        None => None,
    }
}

/// The drive, if there is one.
pub open spec fn device_view(device: Option<BlockDevice>) -> Option<BlockDeviceView> {
    match device {
        Some(d) => Some(d@),
        None => None,
    }
}

/// The events that tell `devices` to a new receiver.
pub open spec fn announcements(devices: Seq<BlockDevice>) -> Seq<DeviceEventView> {
    devices.map_values(|d: BlockDevice| DeviceEventView::Added(d@))
}

/// Tells `devices` to a new receiver.
pub fn announce(devices: &[BlockDevice]) -> (events: Vec<DeviceEvent>)
    ensures
        events@.map_values(|e: DeviceEvent| e@) == announcements(devices@),
        events@.len() == devices@.len(),
        forall|i: int|
            0 <= i < devices@.len() ==> (#[trigger] events@[i])@ == DeviceEventView::Added(
                devices@[i]@,
            ),
{
    let mut events: Vec<DeviceEvent> = Vec::new();
    let mut i: usize = 0;
    while i < devices.len()
        invariant
            i <= devices.len(),
            events@.len() == i,
            forall|j: int|
                0 <= j < i ==> (#[trigger] events@[j])@ == DeviceEventView::Added(devices@[j]@),
        decreases devices.len() - i,
    {
        events.push(DeviceEvent::Added(devices[i].clone()));
        i = i + 1;
    }
    assert(events@.map_values(|e: DeviceEvent| e@) =~= announcements(devices@));
    events
}

impl DeviceWatcher {
    /// No drive is known twice.
    pub closed spec fn wf(&self) -> bool {
        keys(self.known@).no_duplicates()
    }

    /// The text under which each drive is known, by its key.
    pub closed spec fn names(&self) -> Map<Seq<Seq<char>>, Seq<char>> {
        names_in(self.known@)
    }

    /// Each known drive has one text, and the text has the key of the drive.
    pub proof fn lemma_names(&self)
        requires
            self.wf(),
        ensures
            self.names().dom() == self@,
            forall|k: Seq<Seq<char>>|
                self@.contains(k) ==> key(#[trigger] self.names()[k]) == k,
    {
        assert(self.names().dom() =~= self@);
        assert forall|k: Seq<Seq<char>>| self@.contains(k) implies key(
            #[trigger] self.names()[k],
        ) == k by {
            let i = keys(self.known@).index_of(k);
            assert(keys(self.known@)[i] == key(self.known@[i]@));
        }
    }

    /// A watcher that knows nothing.
    fn empty() -> (w: Self)
        ensures
            w.wf(),
            w@ == Set::<Seq<Seq<char>>>::empty(),
            w.names() == Map::<Seq<Seq<char>>, Seq<char>>::empty(),
    {
        let w = DeviceWatcher { known: Vec::new() };
        assert(w@ =~= Set::<Seq<Seq<char>>>::empty());
        assert(w.names() =~= Map::<Seq<Seq<char>>, Seq<char>>::empty());
        w
    }

    /// Whether the drive at `path` is known.
    pub fn knows(&self, path: &str) -> (yes: bool)
        ensures
            yes == self@.contains(key(path@)),
            yes == self@.contains(components(path@)),
    {
        position(&self.known, path).is_some()
    }

    /// Adds a drive. Says whether it was not known.
    fn insert(&mut self, path: &str) -> (fresh: bool)
        requires
            old(self).wf(),
        ensures
            final(self).wf(),
            final(self)@ == old(self)@.insert(key(path@)),
            final(self).names() == named_one(old(self).names(), path@),
            fresh == !old(self)@.contains(key(path@)),
    {
        proof {
            self.lemma_names();
        }
        if self.knows(path) {
            assert(self@ =~= self@.insert(key(path@)));
            return false;
        }
        let ghost before = keys(self.known@);
        let text = path.to_owned();
        proof {
            lemma_names_push(self.known@, text);
        }
        self.known.push(text);
        assert(keys(self.known@) =~= before.push(key(path@)));
        assert(self@ =~= before.to_set().insert(key(path@))) by {
            assert forall|k: Seq<Seq<char>>| #[trigger]
                before.push(key(path@)).contains(k) == (before.contains(k) || k == key(path@)) by {
                if before.contains(k) {
                    let j = choose|j: int| 0 <= j < before.len() && before[j] == k;
                    assert(before.push(key(path@))[j] == k);
                }
                if k == key(path@) {
                    assert(before.push(key(path@))[before.len() as int] == k);
                }
            }
        }
        true
    }

    /// A watcher that knows `devices`.
    pub fn new(devices: &[BlockDevice]) -> (w: Self)
        ensures
            w.wf(),
            w@ == device_keys(devices@).to_set(),
            w.names() == named(Map::<Seq<Seq<char>>, Seq<char>>::empty(), devices@),
            forall|c: Seq<Seq<char>>|
                w@.contains(c) <==> exists|i: int|
                    0 <= i < devices@.len() && components((#[trigger] devices@[i]).path@) == c,
    {
        let mut w = Self::empty();
        let mut i: usize = 0;
        assert(device_keys(devices@.take(0)).to_set() =~= Set::<Seq<Seq<char>>>::empty());
        while i < devices.len()
            invariant
                i <= devices.len(),
                w.wf(),
                w@ == device_keys(devices@.take(i as int)).to_set(),
                w.names() == named(
                    Map::<Seq<Seq<char>>, Seq<char>>::empty(),
                    devices@.take(i as int),
                ),
            decreases devices.len() - i,
        {
            let _fresh = w.insert(devices[i].path.as_str());
            proof {
                lemma_next_key(devices@, i as int);
                assert(devices@.take(i + 1).drop_last() =~= devices@.take(i as int));
            }
            i = i + 1;
        }
        assert(devices@.take(i as int) =~= devices@);
        proof {
            lemma_device_keys(devices@);
        }
        w
    }

    /// A drive came. Tells it, unless it is known.
    pub fn device_added(&mut self, device: BlockDevice) -> (event: Option<DeviceEvent>)
        requires
            old(self).wf(),
        ensures
            final(self).wf(),
            final(self)@ == old(self)@.insert(key(device.path@)),
            final(self).names() == named_one(old(self).names(), device.path@),
            match event {
                Some(e) => e@ == DeviceEventView::Added(device@) && !old(self)@.contains(
                    key(device.path@),
                ),
                None => old(self)@.contains(key(device.path@)),
            },
            event is Some <==> !old(self)@.contains(components(device.path@)),
            final(self)@ == old(self)@.insert(components(device.path@)),
    {
        if self.insert(device.path.as_str()) {
            Some(DeviceEvent::Added(device))
        } else {
            None
        }
    }

    /// An object of the service got interfaces. Tells its drive, unless the change
    /// concerns no disk, the drive cannot be read, or it is known.
    pub fn interfaces_added(
        &mut self,
        object_path: &str,
        interfaces: &[String],
        device: Option<BlockDevice>,
    ) -> (event: Option<DeviceEvent>)
        requires
            old(self).wf(),
        ensures
            final(self).wf(),
            ({
                let signal = Signal::Added {
                    object_path: object_path@,
                    interfaces: interfaces@,
                    device: device_view(device),
                };
                &&& event_view(event) == told(old(self)@, signal)
                &&& final(self)@ == known_after(old(self)@, signal)
            }),
            event is Some <==> {
                &&& names_disk(object_path@)
                &&& exists|i: int|
                    0 <= i < interfaces@.len() && (#[trigger] interfaces@[i])@
                        == "org.freedesktop.UDisks2.Block"@
                &&& device is Some
                &&& !old(self)@.contains(components((device->0).path@))
            },
            event matches Some(e) ==> {
                &&& e@ == DeviceEventView::Added((device->0)@)
                &&& final(self)@ == old(self)@.insert(components((device->0).path@))
            },
            event is None ==> final(self)@ == old(self)@,
            match event {
                Some(_) => final(self).names() == old(self).names().insert(
                    key(device->0.path@),
                    device->0.path@,
                ),
                None => final(self).names() == old(self).names(),
            },
    {
        if !is_disk_change(object_path, interfaces) {
            return None;
        }
        match device {
            Some(d) => {
                let ghost before = self@;
                let ghost k = key(d.path@);
                proof {
                    self.lemma_names();
                }
                let event = self.device_added(d);
                assert(before.contains(k) ==> before.insert(k) =~= before);
                event
            },
            None => None,
        }
    }

    /// An object of the service lost interfaces. Tells that its drive is gone, if
    /// the change concerns a disk that is known.
    pub fn interfaces_removed(&mut self, object_path: &str, interfaces: &[String]) -> (event: Option<
        DeviceEvent,
    >)
        requires
            old(self).wf(),
        ensures
            final(self).wf(),
            ({
                let signal = Signal::Removed {
                    object_path: object_path@,
                    interfaces: interfaces@,
                };
                &&& event_view(event) == told(old(self)@, signal)
                &&& final(self)@ == known_after(old(self)@, signal)
            }),
            event is Some <==> {
                &&& names_disk(object_path@)
                &&& exists|i: int|
                    0 <= i < interfaces@.len() && (#[trigger] interfaces@[i])@
                        == "org.freedesktop.UDisks2.Block"@
                &&& old(self)@.contains(components("/dev/"@ + after_last(object_path@, '/')))
            },
            event matches Some(e) ==> {
                let path = "/dev/"@ + after_last(object_path@, '/');
                &&& e@ == DeviceEventView::Removed(path)
                &&& final(self)@ == old(self)@.remove(components(path))
            },
            event is None ==> final(self)@ == old(self)@,
            match event {
                Some(_) => final(self).names() == old(self).names().remove(
                    key(node_behind(object_path@)),
                ),
                None => final(self).names() == old(self).names(),
            },
    {
        if !is_disk_change(object_path, interfaces) {
            return None;
        }
        let name = text_after_last(object_path, '/');
        let path = dev_path(name.as_str());
        let ghost before = keys(self.known@);
        match position(&self.known, path.as_str()) {
            None => None,
            Some(i) => {
                proof {
                    lemma_names_remove(self.known@, i as int);
                }
                let _gone = self.known.remove(i);
                assert(keys(self.known@) =~= before.remove(i as int));
                proof {
                    lemma_remove_key(before, i as int);
                }
                Some(DeviceEvent::Removed(path))
            },
        }
    }
}

impl DeviceWatcher {
    /// Tells those of `current` that are not known, and knows them from now on.
    fn tell_newcomers(&mut self, current: &[BlockDevice]) -> (events: Vec<DeviceEvent>)
        requires
            old(self).wf(),
        ensures
            final(self).wf(),
            final(self)@ == old(self)@.union(device_keys(current@).to_set()),
            final(self).names() == named(old(self).names(), current@),
            events@.map_values(|e: DeviceEvent| e@) == newcomers(
                old(self)@,
                current@,
            ).map_values(|d: BlockDeviceView| DeviceEventView::Added(d)),
    {
        let ghost known = self@;
        let mut events: Vec<DeviceEvent> = Vec::new();
        let mut i: usize = 0;
        assert(self@ =~= known.union(device_keys(current@.take(0)).to_set()));
        assert(events@.map_values(|e: DeviceEvent| e@) =~= newcomers(
            known,
            current@.take(0),
        ).map_values(|d: BlockDeviceView| DeviceEventView::Added(d)));
        while i < current.len()
            invariant
                i <= current.len(),
                self.wf(),
                self@ == known.union(device_keys(current@.take(i as int)).to_set()),
                self.names() == named(old(self).names(), current@.take(i as int)),
                events@.map_values(|e: DeviceEvent| e@) == newcomers(
                    known,
                    current@.take(i as int),
                ).map_values(|d: BlockDeviceView| DeviceEventView::Added(d)),
            decreases current.len() - i,
        {
            let ghost before = events@.map_values(|e: DeviceEvent| e@);
            let ghost all = newcomers(known, current@.take(i as int));
            let ghost k = key(current@[i as int].path@);
            proof {
                lemma_next_key(current@, i as int);
                assert(current@.take(i + 1).drop_last() =~= current@.take(i as int));
            }
            if self.insert(current[i].path.as_str()) {
                events.push(DeviceEvent::Added(current[i].clone()));
                assert(events@.map_values(|e: DeviceEvent| e@) =~= before.push(
                    DeviceEventView::Added(current@[i as int]@),
                ));
                assert(all.push(current@[i as int]@).map_values(
                    |d: BlockDeviceView| DeviceEventView::Added(d),
                ) =~= before.push(DeviceEventView::Added(current@[i as int]@)));
            }
            assert(self@ =~= known.union(device_keys(current@.take(i + 1)).to_set()));
            i = i + 1;
        }
        assert(current@.take(i as int) =~= current@);
        events
    }

    /// Tells those known drives that are not among `current`, and forgets them.
    fn tell_gone(&mut self, current: &[BlockDevice]) -> (events: Vec<DeviceEvent>)
        requires
            old(self).wf(),
        ensures
            final(self).wf(),
            final(self)@ == old(self)@.intersect(device_keys(current@).to_set()),
            final(self).names() == old(self).names().restrict(device_keys(current@).to_set()),
            forall|i: int| 0 <= i < events@.len() ==> (#[trigger] events@[i])@ is Removed,
            forall|i: int|
                0 <= i < events@.len() ==> known_as(old(self).names(), (#[trigger] events@[i])@),
            gone(events@, 0).no_duplicates(),
            gone(events@, 0).to_set() == old(self)@.difference(device_keys(current@).to_set()),
    {
        let ghost known = keys(self.known@);
        let ghost names = names_in(self.known@);
        let ghost here = device_keys(current@).to_set();
        let present = Self::new(current);
        let mut kept: Vec<String> = Vec::new();
        let mut events: Vec<DeviceEvent> = Vec::new();
        let mut i: usize = 0;
        while i < self.known.len()
            invariant
                i <= self.known.len(),
                known == keys(self.known@),
                known.no_duplicates(),
                present.wf(),
                present@ == here,
                keys(kept@).no_duplicates(),
                gone(events@, 0).no_duplicates(),
                forall|j: int| 0 <= j < events@.len() ==> (#[trigger] events@[j])@ is Removed,
                forall|j: int|
                    0 <= j < events@.len() ==> known_as(names, (#[trigger] events@[j])@),
                names == names_in(self.known@),
                forall|j: int|
                    0 <= j < kept@.len() ==> names[keys(kept@)[j]] == (#[trigger] kept@[j])@,
                forall|x: Seq<Seq<char>>|
                    keys(kept@).contains(x) <==> (#[trigger] known.take(i as int).contains(x)
                        && here.contains(x)),
                forall|x: Seq<Seq<char>>|
                    gone(events@, 0).contains(x) <==> (#[trigger] known.take(i as int).contains(x)
                        && !here.contains(x)),
            decreases self.known.len() - i,
        {
            let ghost k = known[i as int];
            assert(k == key(self.known@[i as int]@));
            let ghost kept_before = keys(kept@);
            let ghost gone_before = gone(events@, 0);
            proof {
                lemma_names_at(self.known@, i as int);
                lemma_take_key(known, i as int);
                assert(!known.take(i as int).contains(k)) by {
                    if known.take(i as int).contains(k) {
                        let j = choose|j: int| 0 <= j < i && known.take(i as int)[j] == k;
                        assert(known[j] == known[i as int]);
                    }
                }
                assert(!kept_before.contains(k) && !gone_before.contains(k));
            }
            if present.knows(self.known[i].as_str()) {
                kept.push(self.known[i].clone());
                assert(keys(kept@) =~= kept_before.push(k));
                proof {
                    lemma_push_key(kept_before, k);
                    assert forall|x: Seq<Seq<char>>|
                        keys(kept@).contains(x) <==> (#[trigger] known.take(i + 1).contains(x)
                            && here.contains(x)) by {
                        assert(kept_before.push(k).contains(x) <==> kept_before.contains(x) || x
                            == k);
                        let seen = known.take(i as int).contains(x);
                        assert(known.take(i + 1).contains(x) <==> seen || x == k);
                    }
                }
            } else {
                events.push(DeviceEvent::Removed(self.known[i].clone()));
                assert(gone(events@, 0) =~= gone_before.push(k));
                proof {
                    lemma_push_key(gone_before, k);
                }
            }
            i = i + 1;
        }
        assert(known.take(i as int) =~= known);
        proof {
            let left = names_in(kept@);
            assert forall|x: Seq<Seq<char>>| left.contains_key(x) implies #[trigger] left[x]
                == names[x] by {
                let j = keys(kept@).index_of(x);
                assert(left[x] == kept@[j]@);
            }
            assert(left =~= names.restrict(here));
        }
        self.known = kept;
        assert(self@ =~= known.to_set().intersect(here));
        assert(gone(events@, 0).to_set() =~= known.to_set().difference(here));
        events
    }

    /// The drives are now `current`. Tells the newcomers, in order, and then the
    /// drives that are gone, each by the text under which it was known; knows exactly
    /// `current` from now on.
    pub fn poll(&mut self, current: &[BlockDevice]) -> (events: Vec<DeviceEvent>)
        requires
            old(self).wf(),
        ensures
            final(self).wf(),
            final(self)@ == device_keys(current@).to_set(),
            final(self).names() == named(old(self).names(), current@).restrict(
                device_keys(current@).to_set(),
            ),
            tells(old(self)@, current@, events@),
            forall|i: int|
                0 <= i < events@.len() ==> known_as(old(self).names(), (#[trigger] events@[i])@),
            forall|i: int|
                0 <= i < events@.len() ==> ((#[trigger] events@[i])@ matches DeviceEventView::Removed(
                    path,
                ) ==> old(self).names().contains_key(components(path))
                    && old(self).names()[components(path)] == path),
            forall|c: Seq<Seq<char>>|
                final(self)@.contains(c) <==> exists|i: int|
                    0 <= i < current@.len() && components((#[trigger] current@[i]).path@) == c,
    {
        proof {
            self.lemma_names();
            lemma_device_keys(current@);
        }
        let ghost known = self@;
        let ghost names = self.names();
        let ghost here = device_keys(current@).to_set();
        let ghost fresh = newcomers(known, current@);
        let mut events = self.tell_newcomers(current);
        let ghost added = events@;
        let ghost all = self.names();
        let mut lost = self.tell_gone(current);
        let ghost removed = lost@;
        events.append(&mut lost);
        assert(self@ =~= here);
        assert(added.map_values(|e: DeviceEvent| e@).len() == fresh.len());
        assert(events@ =~= added + removed);
        assert forall|i: int| 0 <= i < fresh.len() implies (#[trigger] events@[i])@
            == DeviceEventView::Added(fresh[i]) by {
            assert(added.map_values(|e: DeviceEvent| e@)[i] == added[i]@);
        }
        assert(events@.skip(fresh.len() as int) =~= removed);
        assert(removed.skip(0) =~= removed);
        assert(gone(events@, fresh.len() as int) =~= gone(removed, 0));
        assert(known.union(here).difference(here) =~= known.difference(here));
        assert forall|i: int| 0 <= i < events@.len() implies known_as(
            names,
            (#[trigger] events@[i])@,
        ) by {
            if i >= fresh.len() {
                let r = removed[i - fresh.len()];
                assert(events@[i] == r);
                let k = key(r@->Removed_0);
                assert(gone(removed, 0)[i - fresh.len()] == k);
                assert(gone(removed, 0).to_set().contains(k));
                lemma_named_keeps(names, current@, k);
            }
        }
        events
    }
}

/// The keys of devices are the components of their paths.
proof fn lemma_device_keys(devices: Seq<BlockDevice>)
    ensures
        forall|c: Seq<Seq<char>>|
            device_keys(devices).to_set().contains(c) <==> exists|i: int|
                0 <= i < devices.len() && components((#[trigger] devices[i]).path@) == c,
{
    assert forall|c: Seq<Seq<char>>|
        device_keys(devices).to_set().contains(c) <==> exists|i: int|
            0 <= i < devices.len() && components((#[trigger] devices[i]).path@) == c by {
        if device_keys(devices).contains(c) {
            let i = choose|i: int| 0 <= i < devices.len() && device_keys(devices)[i] == c;
            assert(components(devices[i].path@) == c);
        }
        if exists|i: int|
            0 <= i < devices.len() && components((#[trigger] devices[i]).path@) == c {
            let i = choose|i: int|
                0 <= i < devices.len() && components((#[trigger] devices[i]).path@) == c;
            assert(device_keys(devices)[i] == c);
        }
    }
}

/// Without duplicates, the text of a path is found by its key.
proof fn lemma_names_at(paths: Seq<String>, i: int)
    requires
        keys(paths).no_duplicates(),
        0 <= i < paths.len(),
    ensures
        names_in(paths).contains_key(key(paths[i]@)),
        names_in(paths)[key(paths[i]@)] == paths[i]@,
{
    let k = key(paths[i]@);
    assert(keys(paths)[i] == k);
    assert(keys(paths)[keys(paths).index_of(k)] == k);
}

/// One more path has its text.
proof fn lemma_names_push(paths: Seq<String>, path: String)
    requires
        keys(paths).no_duplicates(),
        !keys(paths).contains(key(path@)),
    ensures
        names_in(paths.push(path)) == names_in(paths).insert(key(path@), path@),
{
    let more = paths.push(path);
    let k = key(path@);
    assert(keys(more) =~= keys(paths).push(k));
    lemma_push_key(keys(paths), k);
    lemma_names_at(more, paths.len() as int);
    assert forall|x: Seq<Seq<char>>| keys(paths).contains(x) implies #[trigger] names_in(more)[x]
        == names_in(paths)[x] by {
        let i = keys(paths).index_of(x);
        lemma_names_at(paths, i);
        lemma_names_at(more, i);
    }
    assert(names_in(more) =~= names_in(paths).insert(k, path@));
}

/// Without one of its paths a sequence has the texts of the others.
proof fn lemma_names_remove(paths: Seq<String>, i: int)
    requires
        keys(paths).no_duplicates(),
        0 <= i < paths.len(),
    ensures
        names_in(paths.remove(i)) == names_in(paths).remove(key(paths[i]@)),
{
    let less = paths.remove(i);
    assert(keys(less) =~= keys(paths).remove(i));
    lemma_remove_key(keys(paths), i);
    assert forall|x: Seq<Seq<char>>| keys(less).contains(x) == (keys(paths).contains(x) && x
        != keys(paths)[i]) by {
        assert(keys(less).to_set().contains(x) == keys(less).contains(x));
    }
    assert forall|x: Seq<Seq<char>>| keys(less).contains(x) implies #[trigger] names_in(less)[x]
        == names_in(paths)[x] by {
        let j = keys(less).index_of(x);
        lemma_names_at(less, j);
        if j < i {
            lemma_names_at(paths, j);
        } else {
            lemma_names_at(paths, j + 1);
        }
    }
    assert(names_in(less) =~= names_in(paths).remove(key(paths[i]@)));
}

/// A drive that is not among the newcomers is known as before.
proof fn lemma_named_keeps(
    names: Map<Seq<Seq<char>>, Seq<char>>,
    devices: Seq<BlockDevice>,
    k: Seq<Seq<char>>,
)
    requires
        !device_keys(devices).contains(k),
    ensures
        named(names, devices).contains_key(k) == names.contains_key(k),
        named(names, devices)[k] == names[k],
    decreases devices.len(),
{
    if devices.len() > 0 {
        let n = devices.len() - 1;
        let before = devices.drop_last();
        assert(device_keys(devices)[n] == key(devices.last().path@));
        if device_keys(before).contains(k) {
            let j = choose|j: int| 0 <= j < n && device_keys(before)[j] == k;
            assert(device_keys(devices)[j] == k);
        }
        lemma_named_keeps(names, before, k);
    }
}

/// One more key.
proof fn lemma_push_key(s: Seq<Seq<Seq<char>>>, k: Seq<Seq<char>>)
    requires
        s.no_duplicates(),
        !s.contains(k),
    ensures
        s.push(k).no_duplicates(),
        forall|x: Seq<Seq<char>>| #[trigger] s.push(k).contains(x) <==> s.contains(x) || x == k,
{
    let t = s.push(k);
    assert forall|x: Seq<Seq<char>>| #[trigger] t.contains(x) <==> s.contains(x) || x == k by {
        if s.contains(x) {
            let j = choose|j: int| 0 <= j < s.len() && s[j] == x;
            assert(t[j] == x);
        }
        if x == k {
            assert(t[s.len() as int] == x);
        }
    }
}

/// One more key of a sequence.
proof fn lemma_take_key(s: Seq<Seq<Seq<char>>>, i: int)
    requires
        0 <= i < s.len(),
    ensures
        forall|x: Seq<Seq<char>>| #[trigger]
            s.take(i + 1).contains(x) <==> s.take(i).contains(x) || x == s[i],
{
    let a = s.take(i);
    let b = s.take(i + 1);
    assert forall|x: Seq<Seq<char>>| #[trigger] b.contains(x) <==> a.contains(x) || x == s[i] by {
        if b.contains(x) {
            let j = choose|j: int| 0 <= j < b.len() && b[j] == x;
            if j < i {
                assert(a[j] == x);
            }
        }
        if a.contains(x) {
            let j = choose|j: int| 0 <= j < a.len() && a[j] == x;
            assert(b[j] == x);
        }
        if x == s[i] {
            assert(b[i] == x);
        }
    }
}

/// One more device adds its key.
proof fn lemma_next_key(devices: Seq<BlockDevice>, i: int)
    requires
        0 <= i < devices.len(),
    ensures
        device_keys(devices.take(i + 1)).to_set() == device_keys(devices.take(i)).to_set().insert(
            key(devices[i].path@),
        ),
{
    let a = device_keys(devices.take(i));
    let b = device_keys(devices.take(i + 1));
    let k = key(devices[i].path@);
    assert(b =~= a.push(k));
    assert forall|x: Seq<Seq<char>>| #[trigger] b.contains(x) == (a.contains(x) || x == k) by {
        if a.contains(x) {
            let j = choose|j: int| 0 <= j < a.len() && a[j] == x;
            assert(b[j] == x);
        }
        if x == k {
            assert(b[i] == x);
        }
    }
    assert(b.to_set() =~= a.to_set().insert(k));
}

/// Without one of its distinct members a sequence has the others.
proof fn lemma_remove_key(s: Seq<Seq<Seq<char>>>, i: int)
    requires
        s.no_duplicates(),
        0 <= i < s.len(),
    ensures
        s.remove(i).no_duplicates(),
        s.remove(i).to_set() == s.to_set().remove(s[i]),
{
    let t = s.remove(i);
    assert forall|x: Seq<Seq<char>>| #[trigger] t.contains(x) == (s.contains(x) && x != s[i]) by {
        if t.contains(x) {
            let j = choose|j: int| 0 <= j < t.len() && t[j] == x;
            if j < i {
                assert(s[j] == x);
            } else {
                assert(s[j + 1] == x);
            }
        }
        if s.contains(x) && x != s[i] {
            let j = choose|j: int| 0 <= j < s.len() && s[j] == x;
            if j < i {
                assert(t[j] == x);
            } else {
                assert(t[j - 1] == x);
            }
        }
    }
    assert(t.to_set() =~= s.to_set().remove(s[i]));
}

proof fn lemma_applied_more(
    known: Set<Seq<Seq<char>>>,
    first: Seq<DeviceEventView>,
    more: Seq<DeviceEventView>,
)
    ensures
        applied(known, first + more) == applied(applied(known, first), more),
    decreases more.len(),
{
    if more.len() == 0 {
        assert(first + more =~= first);
    } else {
        assert((first + more).drop_last() =~= first + more.drop_last());
        lemma_applied_more(known, first, more.drop_last());
    }
}

proof fn lemma_applied_newcomers(known: Set<Seq<Seq<char>>>, current: Seq<BlockDevice>)
    ensures
        applied(
            known,
            newcomers(known, current).map_values(|d: BlockDeviceView| DeviceEventView::Added(d)),
        ) == known.union(device_keys(current).to_set()),
    decreases current.len(),
{
    let added = |d: BlockDeviceView| DeviceEventView::Added(d);
    let events = newcomers(known, current).map_values(added);
    if current.len() == 0 {
        assert(events =~= Seq::<DeviceEventView>::empty());
        assert(device_keys(current).to_set() =~= Set::<Seq<Seq<char>>>::empty());
        assert(known.union(device_keys(current).to_set()) =~= known);
    } else {
        let before = current.drop_last();
        let n = current.len() - 1;
        let k = key(current.last().path@);
        lemma_applied_newcomers(known, before);
        lemma_next_key(current, n);
        assert(current.take(n) =~= before);
        assert(current.take(n + 1) =~= current);
        let all = known.union(device_keys(current).to_set());
        if known.contains(k) || device_keys(before).contains(k) {
            assert(all =~= known.union(device_keys(before).to_set()));
        } else {
            assert(events.drop_last() =~= newcomers(known, before).map_values(added));
            assert(all =~= known.union(device_keys(before).to_set()).insert(k));
        }
    }
}

proof fn lemma_applied_gone(known: Set<Seq<Seq<char>>>, events: Seq<DeviceEvent>)
    requires
        forall|i: int| 0 <= i < events.len() ==> (#[trigger] events[i])@ is Removed,
    ensures
        applied(known, events.map_values(|e: DeviceEvent| e@)) == known.difference(
            gone(events, 0).to_set(),
        ),
    decreases events.len(),
{
    let views = events.map_values(|e: DeviceEvent| e@);
    if events.len() == 0 {
        assert(gone(events, 0).to_set() =~= Set::<Seq<Seq<char>>>::empty());
        assert(known.difference(gone(events, 0).to_set()) =~= known);
    } else {
        let before = events.drop_last();
        assert(views.drop_last() =~= before.map_values(|e: DeviceEvent| e@));
        lemma_applied_gone(known, before);
        let k = key(events.last()@->Removed_0);
        let a = gone(before, 0);
        let b = gone(events, 0);
        assert(b =~= a.push(k));
        assert forall|x: Seq<Seq<char>>| #[trigger] b.contains(x) <==> a.contains(x) || x == k by {
            if a.contains(x) {
                let j = choose|j: int| 0 <= j < a.len() && a[j] == x;
                assert(b[j] == x);
            }
            if x == k {
                assert(b[a.len() as int] == x);
            }
        }
        assert(known.difference(b.to_set()) =~= known.difference(a.to_set()).remove(k));
    }
}

/// Whether each event is news: a drive comes that a receiver of the earlier events
/// does not know, or one goes that such a receiver knows.
spec fn consistent(known: Set<Seq<Seq<char>>>, events: Seq<DeviceEventView>) -> bool {
    forall|i: int|
        0 <= i < events.len() ==> (#[trigger] events[i] is Removed <==> applied(
            known,
            events.take(i),
        ).contains(event_key(events[i])))
}

/// What is known of a drive does not change while nothing is told of it.
proof fn lemma_silent(
    known: Set<Seq<Seq<char>>>,
    events: Seq<DeviceEventView>,
    i: int,
    j: int,
    k: Seq<Seq<char>>,
)
    requires
        0 <= i <= j <= events.len(),
        silent(events, i, j, k),
    ensures
        applied(known, events.take(j)).contains(k) == applied(known, events.take(i)).contains(k),
    decreases j - i,
{
    if i < j {
        lemma_silent(known, events, i, j - 1, k);
        assert(events.take(j).drop_last() =~= events.take(j - 1));
        assert(event_key(events[j - 1]) != k);
    }
}

/// Where each event is news, the events about each drive alternate.
proof fn lemma_alternate(known: Set<Seq<Seq<char>>>, events: Seq<DeviceEventView>)
    requires
        consistent(known, events),
    ensures
        alternate(known, events),
{
    assert forall|i: int|
        0 <= i < events.len() && silent(events, 0, i, event_key(events[i])) implies (
    #[trigger] events[i] is Removed <==> known.contains(event_key(events[i]))) by {
        lemma_silent(known, events, 0, i, event_key(events[i]));
        assert(events.take(0) =~= Seq::<DeviceEventView>::empty());
    }
    assert forall|i: int, j: int|
        0 <= i < j < events.len() && event_key(events[i]) == event_key(events[j]) && silent(
            events,
            i + 1,
            j,
            event_key(events[i]),
        ) implies (#[trigger] events[i] is Removed) != (#[trigger] events[j] is Removed) by {
        lemma_silent(known, events, i + 1, j, event_key(events[i]));
        assert(events.take(i + 1).drop_last() =~= events.take(i));
    }
}

/// News, and then more news.
proof fn lemma_consistent_more(
    known: Set<Seq<Seq<char>>>,
    first: Seq<DeviceEventView>,
    more: Seq<DeviceEventView>,
)
    requires
        consistent(known, first),
        consistent(applied(known, first), more),
    ensures
        consistent(known, first + more),
{
    let all = first + more;
    let n = first.len() as int;
    assert forall|i: int| 0 <= i < all.len() implies (#[trigger] all[i] is Removed <==> applied(
        known,
        all.take(i),
    ).contains(event_key(all[i]))) by {
        if i < n {
            assert(all.take(i) =~= first.take(i));
            assert(all[i] == first[i]);
        } else {
            assert(all.take(i) =~= first + more.take(i - n));
            assert(all[i] == more[i - n]);
            lemma_applied_more(known, first, more.take(i - n));
        }
    }
}

/// One more piece of news.
proof fn lemma_consistent_push(
    known: Set<Seq<Seq<char>>>,
    first: Seq<DeviceEventView>,
    event: DeviceEventView,
)
    requires
        consistent(known, first),
        event is Removed <==> applied(known, first).contains(event_key(event)),
    ensures
        consistent(known, first.push(event)),
{
    let more = seq![event];
    assert(more.take(0) =~= Seq::<DeviceEventView>::empty());
    assert(first.push(event) =~= first + more);
    lemma_consistent_more(known, first, more);
}

proof fn lemma_stream(known: Set<Seq<Seq<char>>>, signals: Seq<Signal>)
    ensures
        consistent(known, stream(known, signals)),
        applied(known, stream(known, signals)) == known_through(known, signals),
    decreases signals.len(),
{
    if signals.len() > 0 {
        lemma_stream(known, signals.drop_last());
        let before = stream(known, signals.drop_last());
        if let Some(event) = told(known_through(known, signals.drop_last()), signals.last()) {
            lemma_consistent_push(known, before, event);
            assert(before.push(event).drop_last() =~= before);
        }
    }
}

/// However drives come and go on the signals of the service: the events about each
/// drive alternate, and start with going exactly for the drives that are known at
/// first. A receiver of all of them knows what the watcher knows.
pub proof fn law_signals_alternate(known: Set<Seq<Seq<char>>>, signals: Seq<Signal>)
    ensures
        alternate(known, stream(known, signals)),
        applied(known, stream(known, signals)) == known_through(known, signals),
{
    lemma_stream(known, signals);
    lemma_alternate(known, stream(known, signals));
}

/// Distinct drives are news to a new receiver.
proof fn lemma_announcements(devices: Seq<BlockDevice>)
    requires
        device_keys(devices).no_duplicates(),
    ensures
        consistent(Set::empty(), announcements(devices)),
        applied(Set::empty(), announcements(devices)) == device_keys(devices).to_set(),
    decreases devices.len(),
{
    let none = Set::<Seq<Seq<char>>>::empty();
    if devices.len() == 0 {
        assert(device_keys(devices).to_set() =~= none);
    } else {
        let n = devices.len() - 1;
        let before = devices.drop_last();
        let last = DeviceEventView::Added(devices.last()@);
        let k = key(devices.last().path@);
        assert(device_keys(before) =~= device_keys(devices).drop_last());
        lemma_announcements(before);
        assert(devices.take(n) =~= before);
        assert(devices.take(n + 1) =~= devices);
        lemma_next_key(devices, n);
        if device_keys(before).contains(k) {
            let j = choose|j: int| 0 <= j < n && device_keys(before)[j] == k;
            assert(device_keys(devices)[j] == device_keys(devices)[n]);
        }
        lemma_consistent_push(none, announcements(before), last);
        assert(announcements(devices) =~= announcements(before).push(last));
        assert(announcements(devices).drop_last() =~= announcements(before));
    }
}

/// To a receiver who is first told the drives that are there, and then what changes
/// on the signals of the service, every drive first comes, and then goes and comes in
/// turn.
pub proof fn law_announced_signals_alternate(devices: Seq<BlockDevice>, signals: Seq<Signal>)
    requires
        device_keys(devices).no_duplicates(),
    ensures
        alternate(
            Set::empty(),
            announcements(devices) + stream(device_keys(devices).to_set(), signals),
        ),
{
    let here = device_keys(devices).to_set();
    lemma_announcements(devices);
    lemma_stream(here, signals);
    lemma_consistent_more(Set::empty(), announcements(devices), stream(here, signals));
    lemma_alternate(Set::empty(), announcements(devices) + stream(here, signals));
}

proof fn lemma_newcomers_consistent(known: Set<Seq<Seq<char>>>, current: Seq<BlockDevice>)
    ensures
        consistent(
            known,
            newcomers(known, current).map_values(|d: BlockDeviceView| DeviceEventView::Added(d)),
        ),
    decreases current.len(),
{
    let added = |d: BlockDeviceView| DeviceEventView::Added(d);
    let events = newcomers(known, current).map_values(added);
    if current.len() > 0 {
        let before = current.drop_last();
        let k = key(current.last().path@);
        lemma_newcomers_consistent(known, before);
        if !known.contains(k) && !device_keys(before).contains(k) {
            let earlier = newcomers(known, before).map_values(added);
            lemma_applied_newcomers(known, before);
            lemma_consistent_push(known, earlier, DeviceEventView::Added(current.last()@));
            assert(events =~= earlier.push(DeviceEventView::Added(current.last()@)));
        }
    }
}

proof fn lemma_gone_consistent(known: Set<Seq<Seq<char>>>, events: Seq<DeviceEvent>)
    requires
        forall|i: int| 0 <= i < events.len() ==> (#[trigger] events[i])@ is Removed,
        gone(events, 0).no_duplicates(),
        gone(events, 0).to_set().subset_of(known),
    ensures
        consistent(known, events.map_values(|e: DeviceEvent| e@)),
{
    let views = events.map_values(|e: DeviceEvent| e@);
    let all = gone(events, 0);
    assert(events.skip(0) =~= events);
    assert forall|i: int| 0 <= i < views.len() implies (#[trigger] views[i] is Removed <==> applied(
        known,
        views.take(i),
    ).contains(event_key(views[i]))) by {
        let before = events.take(i);
        assert(views[i] == events[i]@);
        assert(views.take(i) =~= before.map_values(|e: DeviceEvent| e@));
        lemma_applied_gone(known, before);
        assert(before.skip(0) =~= before);
        let k = event_key(views[i]);
        assert(all[i] == k);
        assert(all.to_set().contains(k));
        let earlier = gone(before, 0);
        if earlier.contains(k) {
            let j = choose|j: int| 0 <= j < earlier.len() && earlier[j] == k;
            assert(all[j] == earlier[j]);
        }
    }
}

proof fn lemma_tells_consistent(
    known: Set<Seq<Seq<char>>>,
    current: Seq<BlockDevice>,
    events: Seq<DeviceEvent>,
)
    requires
        tells(known, current, events),
    ensures
        consistent(known, events.map_values(|e: DeviceEvent| e@)),
{
    let fresh = newcomers(known, current);
    let n = fresh.len() as int;
    let here = device_keys(current).to_set();
    let added = fresh.map_values(|d: BlockDeviceView| DeviceEventView::Added(d));
    let lost = events.skip(n);
    assert(events.map_values(|e: DeviceEvent| e@) =~= added + lost.map_values(
        |e: DeviceEvent| e@,
    ));
    lemma_newcomers_consistent(known, current);
    lemma_applied_newcomers(known, current);
    assert forall|i: int| 0 <= i < lost.len() implies (#[trigger] lost[i])@ is Removed by {
        assert(lost[i] == events[n + i]);
    }
    assert(lost.skip(0) =~= lost);
    assert(gone(lost, 0) =~= gone(events, n));
    lemma_gone_consistent(known.union(here), lost);
    lemma_consistent_more(known, added, lost.map_values(|e: DeviceEvent| e@));
}

/// What is known before the poll number `i`: at first `known`, later the drives that
/// the last poll found.
pub open spec fn known_before(
    known: Set<Seq<Seq<char>>>,
    found: Seq<Seq<BlockDevice>>,
    i: int,
) -> Set<Seq<Seq<char>>> {
    if i == 0 {
        known
    } else {
        device_keys(found[i - 1]).to_set()
    }
}

/// Whether `answers` are what polls in turn tell that find the drives `found`.
pub open spec fn polls_tell(
    known: Set<Seq<Seq<char>>>,
    found: Seq<Seq<BlockDevice>>,
    answers: Seq<Seq<DeviceEvent>>,
) -> bool {
    &&& answers.len() == found.len()
    &&& forall|i: int|
        0 <= i < found.len() ==> tells(
            known_before(known, found, i),
            #[trigger] found[i],
            answers[i],
        )
}

/// All that is told in `answers`.
pub open spec fn told_in(answers: Seq<Seq<DeviceEvent>>) -> Seq<DeviceEventView>
    decreases answers.len(),
{
    if answers.len() == 0 {
        Seq::empty()
    } else {
        told_in(answers.drop_last()) + answers.last().map_values(|e: DeviceEvent| e@)
    }
}

proof fn lemma_polls(
    known: Set<Seq<Seq<char>>>,
    found: Seq<Seq<BlockDevice>>,
    answers: Seq<Seq<DeviceEvent>>,
)
    requires
        polls_tell(known, found, answers),
    ensures
        consistent(known, told_in(answers)),
        applied(known, told_in(answers)) == known_before(known, found, found.len() as int),
    decreases answers.len(),
{
    if answers.len() > 0 {
        let n = found.len() - 1;
        let views = answers.last().map_values(|e: DeviceEvent| e@);
        let earlier = found.drop_last();
        assert forall|i: int| 0 <= i < earlier.len() implies tells(
            known_before(known, earlier, i),
            #[trigger] earlier[i],
            answers.drop_last()[i],
        ) by {
            assert(earlier[i] == found[i]);
        }
        lemma_polls(known, earlier, answers.drop_last());
        let before = known_before(known, found, n);
        assert(tells(before, found[n], answers[n]));
        lemma_tells_consistent(before, found[n], answers[n]);
        law_receiver_follows(before, found[n], answers[n]);
        lemma_consistent_more(known, told_in(answers.drop_last()), views);
        lemma_applied_more(known, told_in(answers.drop_last()), views);
    }
}

/// However drives come and go between polls: the events about each drive alternate,
/// and start with going exactly for the drives that are known at first.
pub proof fn law_polls_alternate(
    known: Set<Seq<Seq<char>>>,
    found: Seq<Seq<BlockDevice>>,
    answers: Seq<Seq<DeviceEvent>>,
)
    requires
        polls_tell(known, found, answers),
    ensures
        alternate(known, told_in(answers)),
{
    lemma_polls(known, found, answers);
    lemma_alternate(known, told_in(answers));
}

/// To a receiver who is first told the drives that are there, and then what polls
/// tell, every drive first comes, and then goes and comes in turn.
pub proof fn law_announced_polls_alternate(
    devices: Seq<BlockDevice>,
    found: Seq<Seq<BlockDevice>>,
    answers: Seq<Seq<DeviceEvent>>,
)
    requires
        device_keys(devices).no_duplicates(),
        polls_tell(device_keys(devices).to_set(), found, answers),
    ensures
        alternate(Set::empty(), announcements(devices) + told_in(answers)),
{
    let here = device_keys(devices).to_set();
    lemma_announcements(devices);
    lemma_polls(here, found, answers);
    lemma_consistent_more(Set::empty(), announcements(devices), told_in(answers));
    lemma_alternate(Set::empty(), announcements(devices) + told_in(answers));
}

/// Who knew what the watcher knew, and follows the events of a poll, knows the
/// drives that are there now.
pub proof fn law_receiver_follows(
    known: Set<Seq<Seq<char>>>,
    current: Seq<BlockDevice>,
    events: Seq<DeviceEvent>,
)
    requires
        tells(known, current, events),
    ensures
        applied(known, events.map_values(|e: DeviceEvent| e@)) == device_keys(current).to_set(),
{
    let fresh = newcomers(known, current);
    let n = fresh.len() as int;
    let here = device_keys(current).to_set();
    let added = fresh.map_values(|d: BlockDeviceView| DeviceEventView::Added(d));
    let lost = events.skip(n);
    let views = events.map_values(|e: DeviceEvent| e@);
    assert(views =~= added + lost.map_values(|e: DeviceEvent| e@));
    lemma_applied_newcomers(known, current);
    lemma_applied_more(known, added, lost.map_values(|e: DeviceEvent| e@));
    assert forall|i: int| 0 <= i < lost.len() implies (#[trigger] lost[i])@ is Removed by {
        assert(lost[i] == events[n + i]);
    }
    lemma_applied_gone(known.union(here), lost);
    assert(lost.skip(0) =~= lost);
    assert(gone(lost, 0) =~= gone(events, n));
    assert(known.union(here).difference(known.difference(here)) =~= here);
}

/// A second poll that finds the same drives tells nothing.
pub proof fn law_no_change_tells_nothing(current: Seq<BlockDevice>, events: Seq<DeviceEvent>)
    requires
        tells(device_keys(current).to_set(), current, events),
    ensures
        events.len() == 0,
{
    let known = device_keys(current).to_set();
    assert forall|i: int| 0 <= i < current.len() implies known.contains(
        key((#[trigger] current[i]).path@),
    ) by {
        assert(device_keys(current)[i] == key(current[i].path@));
    }
    lemma_no_newcomers(known, current);
    assert(known.difference(known) =~= Set::<Seq<Seq<char>>>::empty());
    if events.len() > 0 {
        let g = gone(events, 0);
        assert(g.to_set().contains(g[0]));
    }
}

proof fn lemma_no_newcomers(known: Set<Seq<Seq<char>>>, current: Seq<BlockDevice>)
    requires
        forall|i: int| 0 <= i < current.len() ==> known.contains(key((#[trigger] current[i]).path@)),
    ensures
        newcomers(known, current).len() == 0,
    decreases current.len(),
{
    if current.len() > 0 {
        lemma_no_newcomers(known, current.drop_last());
    }
}

proof fn lemma_after_last(prefix: Seq<char>, name: Seq<char>, c: char)
    requires
        prefix.len() > 0,
        prefix.last() == c,
        forall|i: int| 0 <= i < name.len() ==> name[i] != c,
    ensures
        after_last(prefix + name, c) == name,
    decreases name.len(),
{
    if name.len() == 0 {
        assert(prefix + name =~= prefix);
        assert(after_last(prefix + name, c) =~= name);
    } else {
        assert((prefix + name).drop_last() =~= prefix + name.drop_last());
        lemma_after_last(prefix, name.drop_last(), c);
        assert(after_last(prefix + name, c) =~= name);
    }
}

/// The object of a device node stands for that device node: what is told to be
/// gone has the path under which it was told to be there.
pub proof fn law_object_stands_for_node(name: Seq<char>)
    requires
        is_plain(name),
        name != seq!['.', '.'],
    ensures
        file_name(dev_node(name)) == Some(name),
        node_behind(object_of(name)) == dev_node(name),
{
    reveal_strlit("/org/freedesktop/UDisks2/block_devices/");
    lemma_dev_node_name(name);
    lemma_after_last(BLOCK_DEVICES@, name, '/');
}

/// What one signal tells: a drive that comes is told as the service shows it, in all its
/// properties, unless it is known or no disk. A drive that goes is told by its device node,
/// if it is known. A receiver of what is told knows as much as the watcher.
pub proof fn law_signal_is_told_as_it_is(
    known: Set<Seq<Seq<char>>>,
    object_path: Seq<char>,
    interfaces: Seq<String>,
    device: BlockDeviceView,
)
    ensures
        ({
            let node = "/dev/"@ + after_last(object_path, '/');
            let concerned = names_disk(object_path) && exists|i: int|
                0 <= i < interfaces.len() && (#[trigger] interfaces[i])@
                    == "org.freedesktop.UDisks2.Block"@;
            let come = seq![Signal::Added { object_path, interfaces, device: Some(device) }];
            let unread = seq![Signal::Added { object_path, interfaces, device: None }];
            let gone = seq![Signal::Removed { object_path, interfaces }];
            &&& stream(known, come) == (if concerned && !known.contains(components(device.path)) {
                seq![DeviceEventView::Added(device)]
            } else {
                Seq::empty()
            })
            &&& stream(known, unread) == Seq::<DeviceEventView>::empty()
            &&& stream(known, gone) == (if concerned && known.contains(components(node)) {
                seq![DeviceEventView::Removed(node)]
            } else {
                Seq::empty()
            })
        }),
{
    let come = seq![Signal::Added { object_path, interfaces, device: Some(device) }];
    let unread = seq![Signal::Added { object_path, interfaces, device: None }];
    let gone = seq![Signal::Removed { object_path, interfaces }];
    assert(come.drop_last() =~= Seq::<Signal>::empty());
    assert(unread.drop_last() =~= Seq::<Signal>::empty());
    assert(gone.drop_last() =~= Seq::<Signal>::empty());
    reveal_with_fuel(stream, 2);
    reveal_with_fuel(known_through, 2);
    if texts_of(interfaces).contains(BLOCK_INTERFACE@) {
        let i = choose|i: int|
            0 <= i < interfaces.len() && texts_of(interfaces)[i] == BLOCK_INTERFACE@;
        assert(interfaces[i]@ == "org.freedesktop.UDisks2.Block"@);
    }
    if exists|i: int|
        0 <= i < interfaces.len() && (#[trigger] interfaces[i])@
            == "org.freedesktop.UDisks2.Block"@ {
        let i = choose|i: int|
            0 <= i < interfaces.len() && (#[trigger] interfaces[i])@
                == "org.freedesktop.UDisks2.Block"@;
        assert(texts_of(interfaces)[i] == BLOCK_INTERFACE@);
    }
}

/// What later signals tell depends on the earlier ones only by what they told: signals one
/// behind the other tell what the first tell, and then what the others tell to one who
/// followed.
pub proof fn law_signals_are_told_in_order(
    known: Set<Seq<Seq<char>>>,
    first: Seq<Signal>,
    more: Seq<Signal>,
)
    ensures
        stream(known, first + more) == stream(known, first) + stream(
            applied(known, stream(known, first)),
            more,
        ),
    decreases more.len(),
{
    lemma_stream(known, first);
    let then = applied(known, stream(known, first));
    if more.len() == 0 {
        assert(first + more =~= first);
        assert(stream(known, first) + stream(then, more) =~= stream(known, first));
    } else {
        assert((first + more).drop_last() =~= first + more.drop_last());
        law_signals_are_told_in_order(known, first, more.drop_last());
        lemma_stream(known, first + more.drop_last());
        lemma_stream(then, more.drop_last());
        lemma_applied_more(known, stream(known, first), stream(then, more.drop_last()));
        assert(stream(known, first + more) =~= stream(known, first) + stream(then, more));
    }
}

/// Whatever comes on signals was shown by one of them, with the very same properties.
pub proof fn law_added_is_what_was_shown(
    known: Set<Seq<Seq<char>>>,
    signals: Seq<Signal>,
    k: int,
)
    requires
        0 <= k < stream(known, signals).len(),
    ensures
        match stream(known, signals)[k] {
            DeviceEventView::Added(d) => exists|i: int|
                0 <= i < signals.len() && (#[trigger] signals[i] matches Signal::Added {
                    device: Some(shown),
                    ..
                } && shown == d),
            DeviceEventView::Removed(path) => exists|i: int|
                0 <= i < signals.len() && (#[trigger] signals[i] matches Signal::Removed {
                    object_path,
                    ..
                } && path == "/dev/"@ + after_last(object_path, '/')),
        },
    decreases signals.len(),
{
    let before = stream(known, signals.drop_last());
    if k < before.len() {
        law_added_is_what_was_shown(known, signals.drop_last(), k);
        match before[k] {
            DeviceEventView::Added(d) => {
                let i = choose|i: int|
                    0 <= i < signals.len() - 1 && (#[trigger] signals.drop_last()[i]
                        matches Signal::Added { device: Some(shown), .. } && shown == d);
                assert(signals[i] == signals.drop_last()[i]);
            },
            DeviceEventView::Removed(path) => {
                let i = choose|i: int|
                    0 <= i < signals.len() - 1 && (#[trigger] signals.drop_last()[i]
                        matches Signal::Removed { object_path, .. } && path == "/dev/"@
                        + after_last(object_path, '/'));
                assert(signals[i] == signals.drop_last()[i]);
            },
        }
    } else {
        assert(signals[signals.len() - 1] == signals.last());
    }
}

/// A drive that is found and not known is a newcomer with all its properties, once: what is
/// found first of it.
proof fn lemma_newcomer(known: Set<Seq<Seq<char>>>, current: Seq<BlockDevice>, j: int)
    requires
        0 <= j < current.len(),
        !known.contains(components(current[j].path@)),
        forall|i: int|
            0 <= i < j ==> components((#[trigger] current[i]).path@) != components(
                current[j].path@,
            ),
    ensures
        exists|k: int|
            0 <= k < newcomers(known, current).len() && #[trigger] newcomers(known, current)[k]
                == current[j]@,
    decreases current.len(),
{
    let n = current.len() - 1;
    let before = current.drop_last();
    let fresh = newcomers(known, before);
    if j < n {
        lemma_newcomer(known, before, j);
        let k = choose|k: int| 0 <= k < fresh.len() && #[trigger] fresh[k] == before[j]@;
        assert(newcomers(known, current)[k] == current[j]@);
    } else {
        if device_keys(before).contains(key(current[j].path@)) {
            let i = choose|i: int| 0 <= i < n && device_keys(before)[i] == key(current[j].path@);
            assert(current[i] == before[i]);
        }
        assert(newcomers(known, current)[fresh.len() as int] == current[j]@);
    }
}

/// Every newcomer is a drive that was found and not known.
proof fn lemma_newcomer_is_found(known: Set<Seq<Seq<char>>>, current: Seq<BlockDevice>, k: int)
    requires
        0 <= k < newcomers(known, current).len(),
    ensures
        exists|j: int|
            0 <= j < current.len() && newcomers(known, current)[k] == (#[trigger] current[j])@
                && !known.contains(components(current[j].path@)),
    decreases current.len(),
{
    let before = current.drop_last();
    let fresh = newcomers(known, before);
    if k < fresh.len() {
        lemma_newcomer_is_found(known, before, k);
        let j = choose|j: int|
            0 <= j < before.len() && fresh[k] == (#[trigger] before[j])@ && !known.contains(
                components(before[j].path@),
            );
        assert(current[j] == before[j]);
    } else {
        assert(newcomers(known, current)[k] == current[current.len() - 1]@);
    }
}

/// What a poll tells: every drive that is found and not known comes, with the properties
/// that were found first, and nothing else comes; every drive that is known and not found
/// goes, and nothing else goes.
pub proof fn law_poll_tells_what_changed(
    known: Set<Seq<Seq<char>>>,
    current: Seq<BlockDevice>,
    events: Seq<DeviceEvent>,
)
    requires
        tells(known, current, events),
    ensures
        forall|j: int|
            0 <= j < current.len() && !known.contains(components(current[j].path@)) && (forall|
                i: int,
            |
                0 <= i < j ==> components(current[i].path@) != components(current[j].path@))
                ==> exists|k: int|
                0 <= k < events.len() && (#[trigger] events[k])@ == DeviceEventView::Added(
                    (#[trigger] current[j])@,
                ),
        forall|k: int|
            0 <= k < events.len() ==> match (#[trigger] events[k])@ {
                DeviceEventView::Added(d) => !known.contains(components(d.path)) && exists|j: int|
                    0 <= j < current.len() && d == (#[trigger] current[j])@,
                DeviceEventView::Removed(path) => known.contains(components(path)) && forall|
                    j: int,
                |
                    0 <= j < current.len() ==> components((#[trigger] current[j]).path@)
                        != components(path),
            },
        forall|c: Seq<Seq<char>>|
            #[trigger] known.contains(c) && (forall|j: int|
                0 <= j < current.len() ==> components((#[trigger] current[j]).path@) != c)
                ==> exists|k: int|
                0 <= k < events.len() && ((#[trigger] events[k])@ matches DeviceEventView::Removed(
                    path,
                ) && components(path) == c),
{
    let fresh = newcomers(known, current);
    let n = fresh.len() as int;
    let away = gone(events, n);
    lemma_device_keys(current);
    assert forall|j: int|
        0 <= j < current.len() && !known.contains(components(current[j].path@)) && (forall|i: int|
            0 <= i < j ==> components(current[i].path@) != components(current[j].path@))
        implies exists|k: int|
        0 <= k < events.len() && (#[trigger] events[k])@ == DeviceEventView::Added(
            (#[trigger] current[j])@,
        ) by {
        lemma_newcomer(known, current, j);
        let k = choose|k: int| 0 <= k < fresh.len() && #[trigger] fresh[k] == current[j]@;
        assert(events[k]@ == DeviceEventView::Added(current[j]@));
    }
    assert forall|k: int| 0 <= k < events.len() implies match (#[trigger] events[k])@ {
        DeviceEventView::Added(d) => !known.contains(components(d.path)) && exists|j: int|
            0 <= j < current.len() && d == (#[trigger] current[j])@,
        DeviceEventView::Removed(path) => known.contains(components(path)) && forall|j: int|
            0 <= j < current.len() ==> components((#[trigger] current[j]).path@) != components(
                path,
            ),
    } by {
        if k < n {
            lemma_newcomer_is_found(known, current, k);
        } else {
            let path = events[k]@->Removed_0;
            assert(events.skip(n)[k - n] == events[k]);
            assert(away[k - n] == key(path));
            assert(away.to_set().contains(key(path)));
            assert forall|j: int| 0 <= j < current.len() implies components(
                (#[trigger] current[j]).path@,
            ) != components(path) by {
                assert(device_keys(current)[j] == key(current[j].path@));
            }
        }
    }
    assert forall|c: Seq<Seq<char>>|
        #[trigger] known.contains(c) && (forall|j: int|
            0 <= j < current.len() ==> components((#[trigger] current[j]).path@) != c)
        implies exists|k: int|
        0 <= k < events.len() && ((#[trigger] events[k])@ matches DeviceEventView::Removed(path)
            && components(path) == c) by {
        assert(away.to_set().contains(c));
        let m = choose|m: int| 0 <= m < away.len() && away[m] == c;
        assert(events.skip(n)[m] == events[n + m]);
        assert(events[n + m]@ is Removed);
    }
}

} // verus!
