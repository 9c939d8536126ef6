//! Devices and the registry that knows them by name.
//!
//! The audio backend gives a device no number that stays the same, so a
//! device is known by its name alone.  Two devices are the same device when
//! their names agree after lowercasing, and the lowercased name is the key
//! under which every table of the library files a device.

use vstd::prelude::*;
use vstd::std_specs::cmp::PartialEqSpecImpl;

verus! {

/// The range of buffer sizes a device reports.
#[derive(Clone, Copy, Debug, PartialEq, Eq, Structural)]
pub enum SupportedBufferSize {
    Range { min: u32, max: u32 },
    Unknown,
}

/// The stream format a device reports as its default.
#[derive(Clone, Copy, Debug, PartialEq, Eq, Structural)]
pub struct SupportedStreamConfig {
    pub channels: u16,
    pub sample_rate: u32,
    pub buffer_size: SupportedBufferSize,
}

/// The buffer size a stream is asked for.
#[derive(Clone, Copy, Debug, PartialEq, Eq, Structural)]
pub enum BufferSize {
    Default,
    Fixed(u32),
}

/// The format a stream is built with.
#[derive(Clone, Copy, Debug, PartialEq, Eq, Structural)]
pub struct StreamConfig {
    pub channels: u16,
    pub sample_rate: u32,
    pub buffer_size: BufferSize,
}

impl SupportedStreamConfig {
    /// The format to build a stream with: the reported channels and rate,
    /// and the backend's own choice of buffer size.
    pub open spec fn spec_config(&self) -> StreamConfig {
        StreamConfig {
            channels: self.channels,
            sample_rate: self.sample_rate,
            buffer_size: BufferSize::Default,
        }
    }

    /// The format to build a stream with.
    pub fn config(&self) -> (c: StreamConfig)
        ensures
            c == self.spec_config(),
    {
        StreamConfig {
            channels: self.channels,
            sample_rate: self.sample_rate,
            buffer_size: BufferSize::Default,
        }
    }
}

/// Why a device could not be used.
#[derive(Clone, Copy, Debug, PartialEq, Eq, Structural)]
pub enum DeviceError {
    /// No device of the registry goes by the name.
    NotFound,
    /// The device captures nothing: it reports no input format.
    NoInputConfig,
    /// The device plays nothing: it reports no output format.
    NoOutputConfig,
    /// The format asks for a bridge beyond the largest one that is made.
    BridgeTooLarge,
}

/// The lowercase form of a text, as the standard library computes it.
pub uninterp spec fn lowercase(text: Seq<char>) -> Seq<char>;

/// `str::to_lowercase`: the lowercase form of the text, which depends on
/// the text alone.
#[verifier::external_body]
fn to_lowercase(text: &str) -> (folded: String)
    ensures
        folded@ == lowercase(text@),
{
    text.to_lowercase()
}

/// An audio device: its name, and the formats it reports.
#[derive(Debug)]
pub struct Device {
    name: String,
    key: String,
    input: Option<SupportedStreamConfig>,
    output: Option<SupportedStreamConfig>,
}

impl Device {
    #[verifier::type_invariant]
    spec fn keyed(&self) -> bool {
        self.key@ == lowercase(self.name@)
    }

    /// The name as the backend reports it.
    pub closed spec fn spec_name(&self) -> Seq<char> {
        self.name@
    }

    /// The key of the device: its name in lowercase.
    pub closed spec fn spec_key(&self) -> Seq<char> {
        self.key@
    }

    /// The default capture format, if the device captures.
    pub closed spec fn spec_input(&self) -> Option<SupportedStreamConfig> {
        self.input
    }

    /// The default playback format, if the device plays.
    pub closed spec fn spec_output(&self) -> Option<SupportedStreamConfig> {
        self.output
    }

    /// A device of the given name and formats.
    pub fn new(
        name: &str,
        input: Option<SupportedStreamConfig>,
        output: Option<SupportedStreamConfig>,
    ) -> (d: Device)
        ensures
            d.spec_name() == name@,
            d.spec_key() == lowercase(name@),
            d.spec_input() == input,
            d.spec_output() == output,
    {
        Device { name: name.to_owned(), key: to_lowercase(name), input, output }
    }

    /// The name as the backend reports it.
    pub fn name(&self) -> (name: String)
        ensures
            name@ == self.spec_name(),
    {
        self.name.clone()
    }

    /// The key under which the device is filed.
    pub fn key(&self) -> (key: &str)
        ensures
            key@ == self.spec_key(),
            key@ == lowercase(self.spec_name()),
    {
        proof {
            use_type_invariant(self);
        }
        self.key.as_str()
    }

    /// The default capture format; an error when the device does not capture.
    pub fn default_input_config(&self) -> (r: Result<SupportedStreamConfig, DeviceError>)
        ensures
            r == match self.spec_input() {
                Some(config) => Ok::<SupportedStreamConfig, DeviceError>(config),
                None => Err(DeviceError::NoInputConfig),
            },
    {
        match self.input {
            Some(config) => Ok(config),
            None => Err(DeviceError::NoInputConfig),
        }
    }

    /// The default playback format; an error when the device does not play.
    pub fn default_output_config(&self) -> (r: Result<SupportedStreamConfig, DeviceError>)
        ensures
            r == match self.spec_output() {
                Some(config) => Ok::<SupportedStreamConfig, DeviceError>(config),
                None => Err(DeviceError::NoOutputConfig),
            },
    {
        match self.output {
            Some(config) => Ok(config),
            None => Err(DeviceError::NoOutputConfig),
        }
    }

    /// Whether the device goes by `key`, which is a name in lowercase.
    pub fn has_key(&self, key: &str) -> (b: bool)
        ensures
            b == (self.spec_key() == key@),
    {
        str_eq(self.key.as_str(), key)
    }
}

impl Clone for Device {
    fn clone(&self) -> (d: Device)
        ensures
            d == *self,
    {
        proof {
            use_type_invariant(self);
        }
        Device {
            name: self.name.clone(),
            key: self.key.clone(),
            input: self.input,
            output: self.output,
        }
    }
}

impl PartialEq for Device {
    /// Two devices are the same when their keys are.
    fn eq(&self, other: &Device) -> (b: bool) {
        self.key == other.key
    }
}

impl Eq for Device {}

impl PartialEqSpecImpl for Device {
    open spec fn obeys_eq_spec() -> bool {
        true
    }

    open spec fn eq_spec(&self, other: &Device) -> bool {
        self.spec_key() == other.spec_key()
    }
}

/// Whether two texts are the same, character by character.
pub fn str_eq(a: &str, b: &str) -> (same: bool)
    ensures
        same == (a@ == b@),
{
    let x: String = a.to_owned();
    let y: String = b.to_owned();
    x == y
}

/// The last device of `devices` that goes by `key`, if any does.
pub open spec fn last_keyed(devices: Seq<Device>, key: Seq<char>) -> Option<Device>
    decreases devices.len(),
{
    if devices.len() == 0 {
        None
    } else if devices.last().spec_key() == key {
        Some(devices.last())
    } else {
        last_keyed(devices.drop_last(), key)
    }
}

/// The devices of `devices` that capture, in order.
pub open spec fn capturing(devices: Seq<Device>) -> Seq<Device> {
    devices.filter(|d: Device| d.spec_input() is Some)
}

/// The devices of `devices` that play, in order.
pub open spec fn playing(devices: Seq<Device>) -> Seq<Device> {
    devices.filter(|d: Device| d.spec_output() is Some)
}

/// The registry: the devices of one audio backend, in the order in which
/// the backend lists them.
pub struct Host {
    devices: Vec<Device>,
}

impl Host {
    /// The devices, in the backend's order.
    pub closed spec fn view(&self) -> Seq<Device> {
        self.devices@
    }

    /// A registry of the given devices, in the given order.
    pub fn new(devices: Vec<Device>) -> (host: Host)
        ensures
            host@ == devices@,
    {
        Host { devices }
    }

    /// The devices, in the order of the backend.
    pub fn devices(&self) -> (devices: &Vec<Device>)
        ensures
            devices@ == self@,
    {
        &self.devices
    }

    /// The devices that capture.
    pub fn input_devices(&self) -> (found: Vec<Device>)
        ensures
            found@ == capturing(self@),
    {
        let mut found: Vec<Device> = Vec::new();
        let mut i: usize = 0;
        while i < self.devices.len()
            invariant
                i <= self.devices@.len(),
                found@ == capturing(self.devices@.take(i as int)),
            decreases self.devices@.len() - i,
        {
            proof {
                lemma_filter_step(self.devices@, i as int, |d: Device| d.spec_input() is Some);
            }
            if self.devices[i].default_input_config().is_ok() {
                found.push(self.devices[i].clone());
            }
            i = i + 1;
        }
        assert(self.devices@.take(i as int) =~= self.devices@);
        found
    }

    /// The devices that play.
    pub fn output_devices(&self) -> (found: Vec<Device>)
        ensures
            found@ == playing(self@),
    {
        let mut found: Vec<Device> = Vec::new();
        let mut i: usize = 0;
        while i < self.devices.len()
            invariant
                i <= self.devices@.len(),
                found@ == playing(self.devices@.take(i as int)),
            decreases self.devices@.len() - i,
        {
            proof {
                lemma_filter_step(self.devices@, i as int, |d: Device| d.spec_output() is Some);
            }
            if self.devices[i].default_output_config().is_ok() {
                found.push(self.devices[i].clone());
            }
            i = i + 1;
        }
        assert(self.devices@.take(i as int) =~= self.devices@);
        found
    }

    /// The place of the device that a name stands for: the last one
    /// listed whose name agrees with `serial` after lowercasing.
    pub fn position(&self, serial: &str) -> (r: Option<usize>)
        ensures
            match r {
                Some(i) => {
                    &&& i < self@.len()
                    &&& self@[i as int].spec_key() == lowercase(serial@)
                    &&& forall|j: int| i < j < self@.len() ==> self@[j].spec_key() != lowercase(serial@)
                    &&& last_keyed(self@, lowercase(serial@)) == Some(self@[i as int])
                },
                None => last_keyed(self@, lowercase(serial@)) is None,
            },
    {
        let key: String = to_lowercase(serial);
        let mut i: usize = self.devices.len();
        assert(self.devices@.take(i as int) =~= self.devices@);
        while i > 0
            invariant
                i <= self.devices@.len(),
                key@ == lowercase(serial@),
                last_keyed(self.devices@, key@) == last_keyed(self.devices@.take(i as int), key@),
                forall|j: int| i <= j < self.devices@.len() ==> self.devices@[j].spec_key() != key@,
            decreases i,
        {
            i = i - 1;
            assert(self.devices@.take(i + 1).drop_last() =~= self.devices@.take(i as int));
            if self.devices[i].has_key(key.as_str()) {
                return Some(i);
            }
        }
        None
    }

    /// The device that a name stands for: the last one listed whose name
    /// agrees with `serial` after lowercasing.
    pub fn find(&self, serial: &str) -> (r: Result<Device, DeviceError>)
        ensures
            r == match last_keyed(self@, lowercase(serial@)) {
                Some(device) => Ok::<Device, DeviceError>(device),
                None => Err(DeviceError::NotFound),
            },
    {
        match self.position(serial) {
            Some(i) => Ok(self.devices[i].clone()),
            None => Err(DeviceError::NotFound),
        }
    }
}

impl Clone for Host {
    fn clone(&self) -> (host: Host)
        ensures
            host@ == self@,
    {
        let mut devices: Vec<Device> = Vec::new();
        let mut i: usize = 0;
        while i < self.devices.len()
            invariant
                i <= self.devices@.len(),
                devices@ == self.devices@.take(i as int),
            decreases self.devices@.len() - i,
        {
            devices.push(self.devices[i].clone());
            i = i + 1;
        }
        Host { devices }
    }
}

/// Filtering one element more either appends that element or changes nothing.
pub proof fn lemma_filter_step<T>(s: Seq<T>, i: int, keep: spec_fn(T) -> bool)
    requires
        0 <= i < s.len(),
    ensures
        s.take(i + 1).filter(keep) == if keep(s[i]) {
            s.take(i).filter(keep).push(s[i])
        } else {
            s.take(i).filter(keep)
        },
{
    reveal(Seq::filter);
    assert(s.take(i + 1).drop_last() =~= s.take(i));
}

/// A name to resolve, and the registry to resolve it in.
pub struct DeviceFromStringOpts<'host> {
    pub serial: &'host str,
    pub host: &'host Host,
}

impl Device {
    /// Resolves a name in a registry.  Of several devices that go by the
    /// name, the last one listed is taken.
    pub fn try_from(opts: DeviceFromStringOpts) -> (r: Result<Device, DeviceError>)
        ensures
            r == match last_keyed(opts.host@, lowercase(opts.serial@)) {
                Some(device) => Ok::<Device, DeviceError>(device),
                None => Err(DeviceError::NotFound),
            },
    {
        opts.host.find(opts.serial)
    }
}

/// A device found by a key goes by that key and is one of the devices.
pub proof fn lemma_last_keyed(devices: Seq<Device>, key: Seq<char>)
    ensures
        match last_keyed(devices, key) {
            Some(device) => device.spec_key() == key && devices.contains(device),
            None => forall|i: int| 0 <= i < devices.len() ==> devices[i].spec_key() != key,
        },
    decreases devices.len(),
{
    if devices.len() > 0 {
        lemma_last_keyed(devices.drop_last(), key);
        if devices.last().spec_key() != key && last_keyed(devices.drop_last(), key) is None {
            assert forall|i: int| 0 <= i < devices.len() implies devices[i].spec_key() != key by {
                if i < devices.len() - 1 {
                    assert(devices.drop_last()[i] == devices[i]);
                }
            }
        }
    }
}

} // verus!
