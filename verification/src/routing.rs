//! Capture routing choices that the user makes and the backend follows.
use crate::text::{opt_text_eq, opt_view};
use vstd::prelude::*;

verus! {

/// Stable key for one application's capture policy.
#[derive(Debug, Clone, PartialEq, Eq, Hash, PartialOrd, Ord, Default)]
pub struct StreamIdentity(pub String);

impl StreamIdentity {
    /// An identity with the given text.
    pub fn new(text: &str) -> (r: StreamIdentity)
        ensures
            r.0@ == text@,
    {
        StreamIdentity(text.to_owned())
    }

    /// An identity that takes ownership of `text`.
    pub fn from_string(text: String) -> (r: StreamIdentity)
        ensures
            r.0 == text,
    {
        StreamIdentity(text)
    }

    /// The identity's text.
    pub fn as_str(&self) -> (r: &str)
        ensures
            r@ == self.0@,
    {
        self.0.as_str()
    }

    /// A copy with the same text.
    pub fn duplicate(&self) -> (r: StreamIdentity)
        ensures
            r == *self,
    {
        StreamIdentity(self.0.clone())
    }

    /// Whether both identities hold the same text.
    pub fn same_as(&self, other: &StreamIdentity) -> (r: bool)
        ensures
            r == (self.0@ == other.0@),
    {
        self.0 == other.0
    }
}

/// Whether the backend captures applications or one device.
#[derive(Debug, Clone, Copy, PartialEq, Eq, Structural, Default)]
pub enum CaptureMode {
    #[default]
    Applications,
    Device,
}

impl CaptureMode {
    /// The label shown for this mode.
    pub fn label(self) -> (r: &'static str)
        ensures
            self == CaptureMode::Applications ==> r@ == "Applications"@,
            self == CaptureMode::Device ==> r@ == "Devices"@,
    {
        match self {
            CaptureMode::Applications => "Applications",
            CaptureMode::Device => "Devices",
        }
    }
}

/// What the capture backend should record.
#[derive(Debug, Clone, Default)]
pub struct CaptureConfig {
    pub mode: CaptureMode,
    pub device: Option<String>,
    /// Applications that the user switched off; each identity counts once.
    pub disabled_streams: Vec<StreamIdentity>,
}

/// The texts of a list of identities, in order.
pub open spec fn identity_texts(s: Seq<StreamIdentity>) -> Seq<Seq<char>> {
    s.map_values(|i: StreamIdentity| i.0@)
}

/// What a configuration says, as plain values: the mode, the device's
/// text and the texts of the switched-off identities, in order.
pub open spec fn config_text(c: CaptureConfig) -> (CaptureMode, Option<Seq<char>>, Seq<Seq<char>>) {
    (c.mode, opt_view(c.device), identity_texts(c.disabled_streams@))
}

/// The identity `identity` is among `disabled`.
pub open spec fn identity_listed(disabled: Seq<StreamIdentity>, identity: Seq<char>) -> bool {
    exists|i: int| 0 <= i < disabled.len() && (#[trigger] disabled[i]).0@ == identity
}

impl CaptureConfig {
    /// Whether both configurations say the same: the same mode and device,
    /// and the same switched-off identities in the same order.
    pub fn same_as(&self, other: &CaptureConfig) -> (r: bool)
        ensures
            r == (config_text(*self) == config_text(*other)),
    {
        if self.mode != other.mode || !opt_text_eq(&self.device, &other.device) {
            return false;
        }
        let n = self.disabled_streams.len();
        if n != other.disabled_streams.len() {
            assert(identity_texts(self.disabled_streams@).len() != identity_texts(other.disabled_streams@).len());
            return false;
        }
        let mut i: usize = 0;
        while i < n
            invariant
                n == self.disabled_streams@.len(),
                n == other.disabled_streams@.len(),
                i <= n,
                forall|k: int| 0 <= k < i ==> (#[trigger] self.disabled_streams@[k]).0@
                    == other.disabled_streams@[k].0@,
            decreases n - i,
        {
            if !self.disabled_streams[i].same_as(&other.disabled_streams[i]) {
                assert(identity_texts(self.disabled_streams@)[i as int] != identity_texts(other.disabled_streams@)[i as int]);
                return false;
            }
            i += 1;
        }
        assert(identity_texts(self.disabled_streams@) =~= identity_texts(other.disabled_streams@));
        true
    }

    /// Whether the application with `identity` is switched off.
    pub fn is_disabled(&self, identity: &StreamIdentity) -> (r: bool)
        ensures
            r == identity_listed(self.disabled_streams@, identity.0@),
    {
        let mut i: usize = 0;
        while i < self.disabled_streams.len()
            invariant
                i <= self.disabled_streams@.len(),
                forall|k: int| 0 <= k < i ==> (#[trigger] self.disabled_streams@[k]).0@ != identity.0@,
            decreases self.disabled_streams@.len() - i,
        {
            if self.disabled_streams[i].same_as(identity) {
                return true;
            }
            i += 1;
        }
        false
    }
}

/// The device that device capture follows.
#[derive(Debug, Clone, PartialEq, Eq, Default)]
pub enum DeviceSelection {
    #[default]
    Default,
    Device(String),
}

impl DeviceSelection {
    /// A named device when a token is given, the default device otherwise.
    pub fn from_token(token: Option<String>) -> (r: DeviceSelection)
        ensures
            r == match token {
                Some(t) => DeviceSelection::Device(t),
                None => DeviceSelection::Default,
            },
    {
        match token {
            Some(t) => DeviceSelection::Device(t),
            None => DeviceSelection::Default,
        }
    }

    /// The named device's token, if a device is named.
    pub fn token(&self) -> (r: Option<&str>)
        ensures
            match self {
                DeviceSelection::Device(t) => r is Some && r->0@ == t@,
                DeviceSelection::Default => r is None,
            },
    {
        match self {
            DeviceSelection::Device(t) => Some(t.as_str()),
            DeviceSelection::Default => None,
        }
    }
}

/// A request from the interface to the routing layer.
#[derive(Debug, Clone)]
pub enum RoutingCommand {
    SetApplicationEnabled { node_id: u32, enabled: bool },
    SetCaptureState(CaptureMode, DeviceSelection),
}

/// The routing layer's current choice.
#[derive(Debug, Clone)]
pub struct RoutingConfig {
    pub capture_mode: CaptureMode,
    pub preferred_device: DeviceSelection,
}

} // verus!
