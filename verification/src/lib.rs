//! A DNS registry for simulated hosts: hosts register names and IP addresses,
//! lookups go both ways, and the registry renders an `/etc/hosts`-style file.

pub mod addr;
pub mod text;
pub mod names;
pub mod model;
pub mod dns;
pub mod laws;
pub mod probe;
pub mod device;
