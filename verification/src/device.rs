//! The connected synthesizers and the interfaces that are claimed of each.
use crate::model_config::{EndpointConfig, EndpointInfo, InterfaceConfig, ModelConfig};
use vstd::prelude::*;
use vstd::std_specs::cmp::PartialEqSpec;

verus! {

/// The claimed interfaces of one synthesizer, sorted by what they are for.
pub struct InterfaceSet<I> {
    /// The interface that is only claimed.
    pub device_interface: Option<I>,
    /// The interface that carries notes and controllers, and its endpoints.
    pub midi_interface: Option<(I, EndpointInfo)>,
    /// The interface that carries the AutoMap protocol, and its endpoints.
    pub control_interface: Option<(I, EndpointInfo)>,
}

impl<I> InterfaceSet<I> {
    /// The set without any interface.
    pub open spec fn empty() -> Self {
        InterfaceSet { device_interface: None, midi_interface: None, control_interface: None }
    }

    /// This set with `interface`, which `config` describes, in its place.
    pub open spec fn placed(self, config: InterfaceConfig, interface: I) -> Self {
        match config.endpoint {
            Some(EndpointConfig::Midi(info)) => InterfaceSet {
                midi_interface: Some((interface, info)),
                ..self
            },
            Some(EndpointConfig::Control(info)) => InterfaceSet {
                control_interface: Some((interface, info)),
                ..self
            },
            None => InterfaceSet { device_interface: Some(interface), ..self },
        }
    }

    /// This set with every interface of `interfaces` in the place that `configs` gives it.
    pub open spec fn placed_all(
        self,
        configs: Seq<InterfaceConfig>,
        interfaces: Seq<I>,
    ) -> Self
        decreases configs.len(),
    {
        if configs.len() == 0 {
            self
        } else {
            self.placed(configs[0], interfaces[0]).placed_all(configs.skip(1), interfaces.skip(1))
        }
    }

    /// The set without any interface.
    pub fn new() -> (set: Self)
        ensures
            set == Self::empty(),
    {
        InterfaceSet { device_interface: None, midi_interface: None, control_interface: None }
    }

    /// Puts `interface`, which `config` describes, in its place.
    pub fn place(&mut self, config: &InterfaceConfig, interface: I)
        ensures
            *final(self) == old(self).placed(*config, interface),
            final(self).midi_interface == match config.endpoint {
                Some(EndpointConfig::Midi(info)) => Some((interface, info)),
                _ => old(self).midi_interface,
            },
            final(self).control_interface == match config.endpoint {
                Some(EndpointConfig::Control(info)) => Some((interface, info)),
                _ => old(self).control_interface,
            },
            final(self).device_interface == if config.endpoint is None {
                Some(interface)
            } else {
                old(self).device_interface
            },
    {
        match config.endpoint {
            Some(EndpointConfig::Midi(info)) => {
                self.midi_interface = Some((interface, info));
            },
            Some(EndpointConfig::Control(info)) => {
                self.control_interface = Some((interface, info));
            },
            None => {
                self.device_interface = Some(interface);
            },
        }
    }
}

impl<I> InterfaceSet<I> {
    /// Puts the interfaces that were claimed of a synthesizer, in the order of its model's
    /// configuration, in their places.
    pub fn of_model(model: &ModelConfig, claimed: Vec<I>) -> (set: Self)
        requires
            claimed@.len() == model.interface_list().len(),
        ensures
            set == Self::empty().placed_all(model.interface_list(), claimed@),
    {
        let configs = model.interfaces();
        let ghost all = Self::empty().placed_all(model.interface_list(), claimed@);
        let mut set = Self::new();
        let mut left = claimed;
        let mut i: usize = 0;
        assert(configs@.skip(0) =~= configs@);
        while i < configs.len()
            invariant
                i <= configs@.len(),
                left@.len() == configs@.len() - i,
                set.placed_all(configs@.skip(i as int), left@) == all,
            decreases configs@.len() - i,
        {
            assert(configs@.skip(i as int).skip(1) =~= configs@.skip(i + 1));
            assert(left@.remove(0) =~= left@.skip(1));
            let interface = left.remove(0);
            set.place(&configs[i], interface);
            i += 1;
        }
        set
    }
}

/// What is claimed of each model: of an UltraNova a bare interface, one for MIDI and one for
/// control, of a MiniNova only one for MIDI.
pub proof fn lemma_claimed_of_model<I>(model: ModelConfig, interfaces: Seq<I>)
    requires
        interfaces.len() == model.interface_list().len(),
    ensures
        InterfaceSet::<I>::empty().placed_all(model.interface_list(), interfaces) == match model {
            ModelConfig::UltraNova => InterfaceSet {
                device_interface: Some(interfaces[0]),
                midi_interface: Some((interfaces[1], EndpointInfo { input: 3, output: 3 })),
                control_interface: Some((interfaces[2], EndpointInfo { input: 5, output: 5 })),
            },
            ModelConfig::MiniNova => InterfaceSet {
                device_interface: None,
                midi_interface: Some((interfaces[0], EndpointInfo { input: 1, output: 2 })),
                control_interface: None,
            },
        },
{
    reveal_with_fuel(InterfaceSet::placed_all, 4);
}

/// A synthesizer and the identity under which it is connected.
pub struct Registered<K, D> {
    pub id: K,
    pub device: D,
}

/// What happened to a device.
pub enum DeviceEvent<K, D> {
    /// A device was connected; it could be acquired, or is not one of ours.
    Connected(Option<Registered<K, D>>),
    /// The device with this identity was disconnected.
    Disconnected(K),
}

/// Whether `pos` is the place of the first of `devices` with the identity `id`.
pub open spec fn is_first<K: PartialEq, D>(
    devices: Seq<Registered<K, D>>,
    id: K,
    pos: int,
) -> bool {
    &&& 0 <= pos < devices.len()
    &&& devices[pos].id.eq_spec(&id)
    &&& forall|i: int| 0 <= i < pos ==> !devices[i].id.eq_spec(&id)
}

/// Whether `after` is `before` without the first device with the identity `id`, and
/// `removed` is that device; or neither holds one.
pub open spec fn removes<K: PartialEq, D>(
    before: Seq<Registered<K, D>>,
    after: Seq<Registered<K, D>>,
    id: K,
    removed: Option<Registered<K, D>>,
) -> bool {
    match removed {
        Some(device) => exists|pos: int| #[trigger]
            is_first(before, id, pos) && device == before[pos] && after == before.remove(pos),
        None => after == before && forall|i: int|
            0 <= i < before.len() ==> !before[i].id.eq_spec(&id),
    }
}

/// Whether `after` is `before` without one device, and `removed` is that device; or nothing
/// was removed.
pub open spec fn takes_out<K, D>(
    before: Seq<Registered<K, D>>,
    after: Seq<Registered<K, D>>,
    removed: Option<Registered<K, D>>,
) -> bool {
    match removed {
        Some(device) => exists|pos: int|
            0 <= pos < before.len() && device == #[trigger] before[pos] && after
                == before.remove(pos),
        None => after == before,
    }
}

/// The connected synthesizers, in the order in which they were connected.
pub struct DeviceRegistryInner<K, D> {
    devices: Vec<Registered<K, D>>,
}

impl<K, D> View for DeviceRegistryInner<K, D> {
    type V = Seq<Registered<K, D>>;

    closed spec fn view(&self) -> Seq<Registered<K, D>> {
        self.devices@
    }
}

impl<K, D> DeviceRegistryInner<K, D> {
    /// A registry without devices.
    pub fn new() -> (registry: Self)
        ensures
            registry@ == Seq::<Registered<K, D>>::empty(),
    {
        DeviceRegistryInner { devices: Vec::new() }
    }

    /// Adds `device`, behind those that are there.
    pub fn add(&mut self, device: Registered<K, D>)
        ensures
            final(self)@ == old(self)@.push(device),
    {
        self.devices.push(device);
    }

    /// The device to serve: the one that has been connected longest.
    pub fn active(&mut self) -> (device: Option<&mut D>)
        ensures
            match device {
                Some(first) => {
                    &&& old(self)@.len() > 0
                    &&& *first == old(self)@[0].device
                    &&& final(self)@ == old(self)@.update(
                        0,
                        Registered { id: old(self)@[0].id, device: *final(first) },
                    )
                },
                None => old(self)@.len() == 0 && final(self)@ == old(self)@,
            },
    {
        if self.devices.len() == 0 {
            None
        } else {
            Some(&mut self.devices[0].device)
        }
    }
}

impl<K: PartialEq, D> DeviceRegistryInner<K, D> {
    /// Removes the first device with the identity `device_id` and returns it, if there is
    /// one. Whatever the equality of identities is, at most one device is removed.
    pub fn remove(&mut self, device_id: &K) -> (removed: Option<Registered<K, D>>)
        ensures
            takes_out(old(self)@, final(self)@, removed),
            K::obeys_eq_spec() ==> removes(old(self)@, final(self)@, *device_id, removed),
    {
        let mut pos: usize = 0;
        while pos < self.devices.len()
            invariant
                self@ == old(self)@,
                pos <= self.devices@.len(),
                K::obeys_eq_spec() ==> forall|i: int|
                    0 <= i < pos ==> !self.devices@[i].id.eq_spec(device_id),
            decreases self.devices@.len() - pos,
        {
            if self.devices[pos].id == *device_id {
                assert(K::obeys_eq_spec() ==> is_first(self@, *device_id, pos as int));
                return Some(self.devices.remove(pos));
            }
            pos += 1;
        }
        None
    }

    /// Follows an event: a device that was acquired is added, one that was disconnected is
    /// removed and returned.
    pub fn follow(&mut self, event: DeviceEvent<K, D>) -> (removed: Option<Registered<K, D>>)
        ensures
            match event {
                DeviceEvent::Connected(Some(device)) => {
                    &&& removed is None
                    &&& final(self)@ == old(self)@.push(device)
                },
                DeviceEvent::Connected(None) => removed is None && final(self)@ == old(self)@,
                DeviceEvent::Disconnected(id) => {
                    &&& takes_out(old(self)@, final(self)@, removed)
                    &&& K::obeys_eq_spec() ==> removes(old(self)@, final(self)@, id, removed)
                },
            },
    {
        match event {
            DeviceEvent::Connected(Some(device)) => {
                self.add(device);
                None
            },
            DeviceEvent::Connected(None) => None,
            DeviceEvent::Disconnected(id) => self.remove(&id),
        }
    }
}

/// What is removed is the first device with the identity, if there is one; the others stay
/// as they are, in their order.
pub proof fn lemma_removes_first<K: PartialEq, D>(
    before: Seq<Registered<K, D>>,
    after: Seq<Registered<K, D>>,
    id: K,
    removed: Option<Registered<K, D>>,
)
    requires
        removes(before, after, id, removed),
    ensures
        removed is None <==> forall|i: int|
            0 <= i < before.len() ==> !(#[trigger] before[i]).id.eq_spec(&id),
        removed is None ==> after == before,
        removed matches Some(device) ==> device.id.eq_spec(&id) && exists|pos: int|
            0 <= pos < before.len() && #[trigger] before[pos] == device && (forall|i: int|
                0 <= i < pos ==> !(#[trigger] before[i]).id.eq_spec(&id)) && after
                == before.take(pos) + before.skip(pos + 1),
{
    if let Some(device) = removed {
        let pos = choose|pos: int| #[trigger]
            is_first(before, id, pos) && device == before[pos] && after == before.remove(pos);
        assert(before[pos] == device);
        assert(after =~= before.take(pos) + before.skip(pos + 1));
    }
}

/// Removing a device right after it was added gives the registry back, if no other device
/// has its identity.
pub proof fn lemma_add_then_remove<K: PartialEq, D>(
    before: Seq<Registered<K, D>>,
    device: Registered<K, D>,
    id: K,
    after: Seq<Registered<K, D>>,
    removed: Option<Registered<K, D>>,
)
    requires
        device.id.eq_spec(&id),
        forall|i: int| 0 <= i < before.len() ==> !before[i].id.eq_spec(&id),
        removes(before.push(device), after, id, removed),
    ensures
        removed == Some(device),
        after == before,
{
    let longer = before.push(device);
    let last = before.len() as int;
    assert(longer[last] == device);
    assert forall|i: int| 0 <= i < last implies !longer[i].id.eq_spec(&id) by {
        assert(longer[i] == before[i]);
    }
    assert(longer.remove(last) =~= before);
    if removed is Some {
        let pos = choose|pos: int| #[trigger]
            is_first(longer, id, pos) && removed == Some(longer[pos]) && after == longer.remove(
                pos,
            );
        assert(pos == last);
    }
}

} // verus!
