use novation_bridge::model_config::{
    DeviceInfo, EndpointConfig, EndpointInfo, InterfaceConfig, ModelConfig, ALL_MODELS,
};

#[test]
fn models() {
    assert_eq!(ALL_MODELS, [ModelConfig::UltraNova, ModelConfig::MiniNova]);
    assert_eq!(ModelConfig::UltraNova.name(), "ultranova");
    assert_eq!(ModelConfig::MiniNova.name(), "mininova");
    assert_eq!(ModelConfig::UltraNova.vendor_id(), 0x1235);
    assert_eq!(ModelConfig::MiniNova.vendor_id(), 0x1235);
    assert_eq!(ModelConfig::UltraNova.product_id(), 0x11);
    assert_eq!(ModelConfig::MiniNova.product_id(), 0x1e);
}

#[test]
fn devices_are_recognised() {
    let ultra = DeviceInfo { vendor_id: 0x1235, product_id: 0x11 };
    let mini = DeviceInfo { vendor_id: 0x1235, product_id: 0x1e };
    assert!(ModelConfig::UltraNova.matches_device_info(&ultra));
    assert!(!ModelConfig::MiniNova.matches_device_info(&ultra));
    assert_eq!(ModelConfig::find(&ultra), Some(ModelConfig::UltraNova));
    assert_eq!(ModelConfig::find(&mini), Some(ModelConfig::MiniNova));
    let other_vendor = DeviceInfo { vendor_id: 0x1234, product_id: 0x11 };
    assert_eq!(ModelConfig::find(&other_vendor), None);
    let other_product = DeviceInfo { vendor_id: 0x1235, product_id: 0x12 };
    assert_eq!(ModelConfig::find(&other_product), None);
}

#[test]
fn interfaces_of_models() {
    assert_eq!(
        ModelConfig::UltraNova.interfaces(),
        &[
            InterfaceConfig { interface_id: 0, endpoint: None },
            InterfaceConfig {
                interface_id: 1,
                endpoint: Some(EndpointConfig::Midi(EndpointInfo { input: 3, output: 3 })),
            },
            InterfaceConfig {
                interface_id: 3,
                endpoint: Some(EndpointConfig::Control(EndpointInfo { input: 5, output: 5 })),
            },
        ]
    );
    assert_eq!(
        ModelConfig::MiniNova.interfaces(),
        &[InterfaceConfig {
            interface_id: 0,
            endpoint: Some(EndpointConfig::Midi(EndpointInfo { input: 1, output: 2 })),
        }]
    );
}

#[test]
fn endpoint_addresses() {
    let info = EndpointInfo { input: 3, output: 5 };
    assert_eq!(info.input_address(), 0x83);
    assert_eq!(info.output_address(), 0x05);
    let flagged = EndpointInfo { input: 0x83, output: 0x85 };
    assert_eq!(flagged.input_address(), 0x83);
    assert_eq!(flagged.output_address(), 0x05);
}
