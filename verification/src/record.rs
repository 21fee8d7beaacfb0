//! The data a sampled process row carries.

use vstd::prelude::*;

verus! {

/// Transport protocol of a listening socket.
#[derive(Clone, Copy, PartialEq, Eq, Structural, Debug)]
pub enum Protocol {
    Tcp,
    Udp,
}

/// One observed process at a sampling instant.
///
/// CPU load is carried as tenths of a percent of one core, so that a
/// value such as 25.5% is the integer 255; the sampler owns the float
/// and converts before handing rows over. Memory is whole megabytes.
/// `port` and `protocol` are present only in port mode, one row per
/// (pid, port) pair.
pub struct ProcessInfo {
    pub pid: u32,
    pub name: String,
    pub cpu_tenths: u32,
    pub memory: u64,
    pub port: Option<u16>,
    pub protocol: Option<Protocol>,
}

impl Clone for ProcessInfo {
    fn clone(&self) -> (r: Self)
        ensures
            r == *self,
    {
        ProcessInfo {
            pid: self.pid,
            name: self.name.clone(),
            cpu_tenths: self.cpu_tenths,
            memory: self.memory,
            port: self.port,
            protocol: self.protocol,
        }
    }
}

} // verus!
