//! What a process needs to make sense of the ZFS control device without the
//! manager's own client library, as far as it is computation:
//!
//! - `wire`: little-endian integers, alignment and C strings;
//! - `nvpair`: the nvlist wire format and its decoder;
//! - `nvlist`: a decoded buffer as a map from names to values;
//! - `ioc`: what goes into the command record and what comes back in it;
//! - `zfs`: pools, devices and datasets, the search of the device tree and
//!   the walk over the datasets;
//! - `nvenums`, `nvtypes`: the kinds and the statistics of devices;
//! - `util`: names as C strings;
//! - `cache`: a map that is filled once for each key.
//!
//! Opening the device and making the calls is left to the caller.

pub mod cache;
pub mod ioc;
pub mod nvenums;
pub mod nvlist;
pub mod nvpair;
pub mod nvtypes;
pub mod util;
pub mod wire;
pub mod zfs;
