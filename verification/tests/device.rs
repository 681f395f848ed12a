use novation_bridge::device::{DeviceEvent, DeviceRegistryInner, InterfaceSet, Registered};
use novation_bridge::model_config::{EndpointInfo, ModelConfig};

fn registered(id: u32, device: &'static str) -> Registered<u32, &'static str> {
    Registered { id, device }
}

#[test]
fn first_device_is_served() {
    let mut registry = DeviceRegistryInner::new();
    assert!(registry.active().is_none());
    registry.add(registered(1, "one"));
    registry.add(registered(2, "two"));
    assert_eq!(registry.active(), Some(&mut "one"));
    *registry.active().unwrap() = "changed";
    assert_eq!(registry.remove(&1).unwrap().device, "changed");
    assert_eq!(registry.active(), Some(&mut "two"));
}

#[test]
fn first_of_equal_devices_is_removed() {
    let mut registry = DeviceRegistryInner::new();
    registry.add(registered(1, "one"));
    registry.add(registered(2, "two"));
    registry.add(registered(2, "three"));
    assert!(registry.remove(&3).is_none());
    assert_eq!(registry.remove(&2).unwrap().device, "two");
    assert_eq!(registry.remove(&2).unwrap().device, "three");
    assert!(registry.remove(&2).is_none());
    assert_eq!(registry.active(), Some(&mut "one"));
}

#[test]
fn events_are_followed() {
    let mut registry = DeviceRegistryInner::new();
    assert!(registry.follow(DeviceEvent::Connected(None)).is_none());
    assert!(registry.active().is_none());
    assert!(registry.follow(DeviceEvent::Connected(Some(registered(7, "seven")))).is_none());
    assert_eq!(registry.active(), Some(&mut "seven"));
    assert!(registry.follow(DeviceEvent::Disconnected(8)).is_none());
    assert_eq!(registry.follow(DeviceEvent::Disconnected(7)).unwrap().device, "seven");
    assert!(registry.active().is_none());
}

#[test]
fn interfaces_are_sorted() {
    let set = InterfaceSet::of_model(&ModelConfig::UltraNova, vec!["a", "b", "c"]);
    assert_eq!(set.device_interface, Some("a"));
    assert_eq!(set.midi_interface, Some(("b", EndpointInfo { input: 3, output: 3 })));
    assert_eq!(set.control_interface, Some(("c", EndpointInfo { input: 5, output: 5 })));
    let set = InterfaceSet::of_model(&ModelConfig::MiniNova, vec!["a"]);
    assert_eq!(set.device_interface, None);
    assert_eq!(set.midi_interface, Some(("a", EndpointInfo { input: 1, output: 2 })));
    assert_eq!(set.control_interface, None);
}

#[test]
fn later_interface_takes_the_place() {
    let mut set = InterfaceSet::new();
    let bare = ModelConfig::UltraNova.interfaces()[0];
    set.place(&bare, 1);
    set.place(&bare, 2);
    assert_eq!(set.device_interface, Some(2));
    assert_eq!(set.midi_interface, None);
}
