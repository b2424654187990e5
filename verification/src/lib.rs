//! Discovery and over-the-air update support for a family of smart-home
//! devices: an aggregator that assembles complete device records from
//! partial service-discovery answers, a scanner that deduplicates repeated
//! sightings, and a minimal HTTP responder that serves a firmware binary
//! with byte-range support.

pub mod args;
pub mod binary;
pub mod device;
pub mod device_attr;
pub mod device_cache;
pub mod error;
pub mod httpd;
pub mod netutils;
pub mod scanner;

pub use args::{Args, Command, SwitchState};
pub use binary::Binary;
pub use device::Device;
pub use device_attr::{DeviceAttributes, Record, RecordKind};
pub use device_cache::DeviceCache;
pub use error::Error;
pub use httpd::{Headers, HttpRequest, HttpResponse, Httpd, RequestOutcome};
pub use netutils::{HostNet, IfaceInfo, IpAddress};
pub use scanner::Scanner;
