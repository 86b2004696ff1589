//! Verified core of a desktop control-panel backend for a Linux
//! (Hyprland/Arch) environment.
//!
//! The backend shells out to system tools (`nmcli`, `bluetoothctl`,
//! `pacman`, `gsettings`, `hyprctl`) and presents their results to a UI
//! layer.  Everything that parses, reconciles or formats the text those
//! tools exchange lives here, with contracts; the process spawning and
//! file I/O around it live in the accompanying application crate.
//!
//! The one part with real design content is the network profile
//! reconciler in `wifi`, `profile` and `vpn`: parsing the network
//! manager's colon-delimited output (network names may themselves
//! contain colons), deduplicating scan records per SSID under a
//! tie-break policy, and merging persisted profile fields with live
//! interface state.

pub mod appearance;
pub mod apps;
pub mod bluetooth;
pub mod display;
pub mod profile;
pub mod settings;
pub mod startup;
pub mod system;
pub mod terminal;
pub mod text;
pub mod updates;
pub mod vpn;
pub mod wallpaper;
pub mod wifi;

pub use display::default_enabled;
pub use settings::default_waybar_position;
