//! The synthesizers that the bridge knows, and how they lay out their USB interfaces.
use vstd::prelude::*;

verus! {

/// All synthesizers that the bridge knows.
pub const ALL_MODELS: [ModelConfig; 2] = [ModelConfig::UltraNova, ModelConfig::MiniNova];

/// A model of synthesizer.
#[derive(Debug, Copy, Clone, PartialEq, Eq, Structural)]
pub enum ModelConfig {
    UltraNova,
    MiniNova,
}

/// What identifies the model of a connected USB device.
#[derive(Debug, Copy, Clone, PartialEq, Eq, Structural)]
pub struct DeviceInfo {
    pub vendor_id: u16,
    pub product_id: u16,
}

/// An interface of a synthesizer and what it is for.
#[derive(Debug, Copy, Clone, PartialEq, Eq, Structural)]
pub struct InterfaceConfig {
    /// The number of the interface.
    pub interface_id: u8,
    /// Its endpoints; an interface without any is only claimed.
    pub endpoint: Option<EndpointConfig>,
}

/// What the endpoints of an interface carry.
#[derive(Debug, Copy, Clone, PartialEq, Eq, Structural)]
pub enum EndpointConfig {
    /// Notes and controllers.
    Midi(EndpointInfo),
    /// The AutoMap protocol.
    Control(EndpointInfo),
}

/// The numbers of a pair of endpoints.
#[derive(Debug, Copy, Clone, PartialEq, Eq, Structural)]
pub struct EndpointInfo {
    /// The endpoint to read from.
    pub input: u8,
    /// The endpoint to write to.
    pub output: u8,
}

impl EndpointInfo {
    /// The USB address of the endpoint to read from: its number with the direction bit.
    pub open spec fn input_number(self) -> u8 {
        if self.input < 0x80 {
            (self.input + 0x80) as u8
        } else {
            self.input
        }
    }

    /// The USB address of the endpoint to write to: its number without the direction bit.
    pub open spec fn output_number(self) -> u8 {
        self.output % 0x80
    }

    /// The USB address of the endpoint to read from: its number with the direction bit.
    pub fn input_address(&self) -> (address: u8)
        ensures
            address == self.input_number(),
            address == self.input | 0x80,
    {
        let input = self.input;
        assert(input | 0x80 == if input < 0x80 { input + 0x80 } else { input as int })
            by (bit_vector);
        input | 0x80
    }

    /// The USB address of the endpoint to write to: its number without the direction bit.
    pub fn output_address(&self) -> (address: u8)
        ensures
            address == self.output_number(),
            address == self.output & 0x7f,
    {
        let output = self.output;
        assert(output & 0x7f == output % 0x80) by (bit_vector);
        output & 0x7f
    }
}

/// The vendor number of all Novation devices.
pub open spec fn novation_vendor() -> u16 {
    0x1235
}

impl ModelConfig {
    /// The product number of this model.
    pub open spec fn product(self) -> u16 {
        match self {
            ModelConfig::UltraNova => 0x0011,
            ModelConfig::MiniNova => 0x001e,
        }
    }

    /// Whether `device_info` is that of a device of this model.
    pub open spec fn matches(self, device_info: DeviceInfo) -> bool {
        device_info.vendor_id == novation_vendor() && device_info.product_id == self.product()
    }

    /// The interfaces of this model, in the order in which they are claimed.
    pub open spec fn interface_list(self) -> Seq<InterfaceConfig> {
        match self {
            ModelConfig::UltraNova => seq![
                InterfaceConfig { interface_id: 0, endpoint: None },
                InterfaceConfig {
                    interface_id: 1,
                    endpoint: Some(EndpointConfig::Midi(EndpointInfo { input: 3, output: 3 })),
                },
                InterfaceConfig {
                    interface_id: 3,
                    endpoint: Some(EndpointConfig::Control(EndpointInfo { input: 5, output: 5 })),
                },
            ],
            ModelConfig::MiniNova => seq![
                InterfaceConfig {
                    interface_id: 0,
                    endpoint: Some(EndpointConfig::Midi(EndpointInfo { input: 1, output: 2 })),
                },
            ],
        }
    }

    /// The name of this model.
    pub fn name(&self) -> (name: &'static str)
        ensures
            name@ == match self {
                ModelConfig::UltraNova => "ultranova"@,
                ModelConfig::MiniNova => "mininova"@,
            },
    {
        match self {
            ModelConfig::UltraNova => "ultranova",
            ModelConfig::MiniNova => "mininova",
        }
    }

    /// Whether `device_info` is that of a device of this model.
    pub fn matches_device_info(&self, device_info: &DeviceInfo) -> (matching: bool)
        ensures
            matching == self.matches(*device_info),
            matching == (device_info.vendor_id == 0x1235 && device_info.product_id == match self {
                ModelConfig::UltraNova => 0x0011u16,
                ModelConfig::MiniNova => 0x001eu16,
            }),
    {
        device_info.vendor_id == self.vendor_id() && device_info.product_id == self.product_id()
    }

    /// The vendor number of this model.
    pub fn vendor_id(&self) -> (id: u16)
        ensures
            id == novation_vendor(),
    {
        0x1235
    }

    /// The product number of this model.
    pub fn product_id(&self) -> (id: u16)
        ensures
            id == self.product(),
    {
        match self {
            ModelConfig::UltraNova => 0x0011,
            ModelConfig::MiniNova => 0x001e,
        }
    }

    /// The interfaces of this model, in the order in which they are claimed.
    pub fn interfaces(&self) -> (interfaces: &[InterfaceConfig])
        ensures
            interfaces@ == self.interface_list(),
    {
        match self {
            ModelConfig::UltraNova => &[
                InterfaceConfig { interface_id: 0, endpoint: None },
                InterfaceConfig {
                    interface_id: 1,
                    endpoint: Some(EndpointConfig::Midi(EndpointInfo { input: 3, output: 3 })),
                },
                InterfaceConfig {
                    interface_id: 3,
                    endpoint: Some(EndpointConfig::Control(EndpointInfo { input: 5, output: 5 })),
                },
            ],
            ModelConfig::MiniNova => &[
                InterfaceConfig {
                    interface_id: 0,
                    endpoint: Some(EndpointConfig::Midi(EndpointInfo { input: 1, output: 2 })),
                },
            ],
        }
    }

    /// The model of the device that `device_info` describes, if the bridge knows it.
    pub fn find(device_info: &DeviceInfo) -> (model: Option<ModelConfig>)
        ensures
            model matches Some(found) ==> found.matches(*device_info),
            model is None ==> forall|other: ModelConfig| !other.matches(*device_info),
            model == if device_info.vendor_id != 0x1235 {
                None
            } else if device_info.product_id == 0x0011 {
                Some(ModelConfig::UltraNova)
            } else if device_info.product_id == 0x001e {
                Some(ModelConfig::MiniNova)
            } else {
                None
            },
    {
        for i in 0..ALL_MODELS.len()
            invariant
                forall|j: int| 0 <= j < i ==> !ALL_MODELS@[j].matches(*device_info),
        {
            if ALL_MODELS[i].matches_device_info(device_info) {
                return Some(ALL_MODELS[i]);
            }
        }
        assert forall|other: ModelConfig| !other.matches(*device_info) by {
            assert(!ALL_MODELS@[0].matches(*device_info));
            assert(!ALL_MODELS@[1].matches(*device_info));
        }
        None
    }
}

/// No device is of two models, so which model of a device is found does not depend on the
/// order in which the models are tried.
pub proof fn lemma_one_model(device_info: DeviceInfo, one: ModelConfig, other: ModelConfig)
    requires
        one.matches(device_info),
        other.matches(device_info),
    ensures
        one == other,
{
}

/// The interfaces of a model are told apart by their numbers, and no two of them are for the
/// same thing.
pub proof fn lemma_interfaces_distinct(model: ModelConfig, i: int, j: int)
    requires
        0 <= i < j < model.interface_list().len(),
    ensures
        ({
            let a = model.interface_list()[i];
            let b = model.interface_list()[j];
            &&& a.interface_id != b.interface_id
            &&& !(a.endpoint matches Some(EndpointConfig::Midi(_)) && b.endpoint matches Some(
                EndpointConfig::Midi(_),
            ))
            &&& !(a.endpoint matches Some(EndpointConfig::Control(_)) && b.endpoint matches Some(
                EndpointConfig::Control(_),
            ))
            &&& !(a.endpoint is None && b.endpoint is None)
        }),
{
}

} // verus!
