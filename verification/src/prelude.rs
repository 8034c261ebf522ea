//! Everything a user of the transport needs, in one import.

pub use crate::connection::{Connection, ConnectionState, ConnectionView, CryptState};
pub use crate::endpoint::{Closed, Datagram, Dispatch, Endpoint, EndpointConfig, Opened, Tick};
pub use crate::error::ErrorKind;
pub use crate::header::{get_u32, Method};
pub use crate::package::{CryptType, EncType, Header, MethodType, Package, PackageAck};
pub use crate::util::{conv_slice_to_u32, conv_u32_to_bytes, generate_random_bytes};
pub use crate::util::{loop_at_sleep, period_sleep};
pub use crate::version::{version, VERSION_MAJOR, VERSION_MINOR, VERSION_PATCH};
