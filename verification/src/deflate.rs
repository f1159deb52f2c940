//! What a compressed WebSocket connection is configured with.
use vstd::prelude::*;

verus! {

/// The two ends of a WebSocket connection.
#[derive(Clone, Copy, Debug, PartialEq, Eq, Structural)]
pub enum Role {
    Server,
    Client,
}

/// The narrowest window, as a power of two, that the compressor works with.
/// RFC 7692 allows 8; the compressor cannot go that narrow.
pub const MIN_WINDOW_BITS: u8 = 9;

/// The widest window, as a power of two, that the format knows.
pub const MAX_WINDOW_BITS: u8 = 15;

/// The size of a compression window, as a power of two.
#[derive(Clone, Copy, Debug, PartialEq, Eq, Structural)]
pub struct WindowBits {
    pub bits: u8,
}

impl WindowBits {
    /// Whether the compressor works with this window.
    pub open spec fn supported(self) -> bool {
        MIN_WINDOW_BITS <= self.bits <= MAX_WINDOW_BITS
    }

    /// The power of two.
    pub fn get(&self) -> (r: u8)
        ensures
            r == self.bits,
    {
        self.bits
    }
}

/// A window that the compressor does not work with.
#[derive(Clone, Copy, Debug, PartialEq, Eq, Structural)]
pub struct UnsupportedWindow {
    pub requested: u8,
}

/// The parameters of `permessage-deflate` for one connection.
#[derive(Clone, Copy, Debug, PartialEq, Eq, Structural)]
pub struct DeflateConfig {
    /// The server starts each message with an empty window.
    pub server_no_context_takeover: bool,
    /// The client starts each message with an empty window.
    pub client_no_context_takeover: bool,
    /// The window that the server compresses with.
    pub server_window: WindowBits,
    /// The window that the client compresses with.
    pub client_window: WindowBits,
}

impl DeflateConfig {
    /// Both windows are ones that the compressor works with.
    pub open spec fn wf(self) -> bool {
        self.server_window.supported() && self.client_window.supported()
    }

    /// The configuration of an offer without parameters.
    pub open spec fn initial() -> DeflateConfig {
        DeflateConfig {
            server_no_context_takeover: false,
            client_no_context_takeover: false,
            server_window: WindowBits { bits: MAX_WINDOW_BITS },
            client_window: WindowBits { bits: MAX_WINDOW_BITS },
        }
    }

    /// This configuration with the takeover flag of `role` at `value`.
    pub open spec fn with_no_context_takeover(self, role: Role, value: bool) -> DeflateConfig {
        match role {
            Role::Server => DeflateConfig { server_no_context_takeover: value, ..self },
            Role::Client => DeflateConfig { client_no_context_takeover: value, ..self },
        }
    }

    /// This configuration with the window of `role` at `bits`.
    pub open spec fn with_window(self, role: Role, bits: u8) -> DeflateConfig {
        match role {
            Role::Server => DeflateConfig { server_window: WindowBits { bits }, ..self },
            Role::Client => DeflateConfig { client_window: WindowBits { bits }, ..self },
        }
    }

    /// Sets whether `role` starts each message with an empty window.
    pub fn set_no_context_takeover(self, role: Role, value: bool) -> (r: DeflateConfig)
        ensures
            r == self.with_no_context_takeover(role, value),
    {
        match role {
            Role::Server => DeflateConfig { server_no_context_takeover: value, ..self },
            Role::Client => DeflateConfig { client_no_context_takeover: value, ..self },
        }
    }

    /// Sets the window of `role`, if the compressor works with it.
    pub fn set_max_window_bits(self, role: Role, bits: u8) -> (r: Result<
        DeflateConfig,
        UnsupportedWindow,
    >)
        ensures
            match r {
                Ok(config) => MIN_WINDOW_BITS <= bits <= MAX_WINDOW_BITS && config
                    == self.with_window(role, bits),
                Err(e) => !(MIN_WINDOW_BITS <= bits <= MAX_WINDOW_BITS) && e.requested == bits,
            },
    {
        if bits < MIN_WINDOW_BITS || bits > MAX_WINDOW_BITS {
            return Err(UnsupportedWindow { requested: bits });
        }
        match role {
            Role::Server => Ok(DeflateConfig { server_window: WindowBits { bits }, ..self }),
            Role::Client => Ok(DeflateConfig { client_window: WindowBits { bits }, ..self }),
        }
    }

    /// The window that the server compresses with.
    pub fn server_max_window_bits(&self) -> (r: WindowBits)
        ensures
            r == self.server_window,
    {
        self.server_window
    }

    /// The window that the client compresses with.
    pub fn client_max_window_bits(&self) -> (r: WindowBits)
        ensures
            r == self.client_window,
    {
        self.client_window
    }
}

impl Default for DeflateConfig {
    fn default() -> (r: DeflateConfig)
        ensures
            r == DeflateConfig::initial(),
            r.wf(),
    {
        DeflateConfig {
            server_no_context_takeover: false,
            client_no_context_takeover: false,
            server_window: WindowBits { bits: MAX_WINDOW_BITS },
            client_window: WindowBits { bits: MAX_WINDOW_BITS },
        }
    }
}

/// The extensions of one connection.
#[derive(Clone, Copy, Debug, PartialEq, Eq, Structural)]
pub struct Extensions {
    pub permessage_deflate: Option<DeflateConfig>,
}

/// The limits and extensions that a socket is built with.
#[derive(Clone, Copy, Debug, PartialEq, Eq)]
pub struct WebSocketConfig {
    /// The largest message that is assembled, in bytes.
    pub max_message_size: Option<usize>,
    /// The largest frame that is read, in bytes.
    pub max_frame_size: Option<usize>,
    pub extensions: Extensions,
}

/// A configuration starts with takeover on both sides and the widest windows.
/// Setting the flag or the window of one side sets that and nothing else.
pub proof fn each_side_is_set_on_its_own(config: DeflateConfig, value: bool, bits: u8)
    ensures
        !DeflateConfig::initial().server_no_context_takeover,
        !DeflateConfig::initial().client_no_context_takeover,
        DeflateConfig::initial().server_window.bits == 15,
        DeflateConfig::initial().client_window.bits == 15,
        config.with_no_context_takeover(Role::Server, value).server_no_context_takeover == value,
        config.with_no_context_takeover(Role::Server, value).client_no_context_takeover
            == config.client_no_context_takeover,
        config.with_no_context_takeover(Role::Server, value).server_window == config.server_window,
        config.with_no_context_takeover(Role::Server, value).client_window == config.client_window,
        config.with_no_context_takeover(Role::Client, value).client_no_context_takeover == value,
        config.with_no_context_takeover(Role::Client, value).server_no_context_takeover
            == config.server_no_context_takeover,
        config.with_no_context_takeover(Role::Client, value).server_window == config.server_window,
        config.with_no_context_takeover(Role::Client, value).client_window == config.client_window,
        config.with_window(Role::Server, bits).server_window.bits == bits,
        config.with_window(Role::Server, bits).client_window == config.client_window,
        config.with_window(Role::Server, bits).server_no_context_takeover
            == config.server_no_context_takeover,
        config.with_window(Role::Server, bits).client_no_context_takeover
            == config.client_no_context_takeover,
        config.with_window(Role::Client, bits).client_window.bits == bits,
        config.with_window(Role::Client, bits).server_window == config.server_window,
        config.with_window(Role::Client, bits).server_no_context_takeover
            == config.server_no_context_takeover,
        config.with_window(Role::Client, bits).client_no_context_takeover
            == config.client_no_context_takeover,
        config.wf() <==> 9 <= config.server_window.bits <= 15 && 9 <= config.client_window.bits
            <= 15,
{
}

} // verus!
