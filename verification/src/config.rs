//! What the relay is configured with, as far as its decisions read it.
use vstd::prelude::*;

verus! {

/// The admin interface.
#[derive(Debug)]
pub struct AdminConfig {
    /// Where its web bundle lies, if it has one.
    pub web_dir: Option<String>,
}

/// The sizes of media.
#[derive(Debug)]
pub struct MediaConfig {
    pub max_image_bytes: u64,
    pub max_video_bytes: u64,
}

/// The relay's configuration.
#[derive(Debug)]
pub struct Config {
    /// Whether actions are audited.
    pub audit_enabled: bool,
    /// Whether `permessage-deflate` may be negotiated.
    pub permessage_deflate_enabled: bool,
    /// The largest frame, and the largest message, of a client.
    pub max_frame_bytes: usize,
    /// Whether the Git pages are served to browsers.
    pub serve_git_web_gui: bool,
    /// Where the public web bundle lies, if there is one.
    pub web_dir: Option<String>,
    /// The admin interface, if there is one.
    pub admin: Option<AdminConfig>,
    /// The origins that may call the relay from a browser.
    pub cors_origins: Vec<String>,
    pub media: MediaConfig,
}

} // verus!
