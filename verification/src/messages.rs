//! The messages that a server and its agents exchange.
//!
//! A floating-point number travels as its IEEE 754 bit pattern, in a field whose
//! name ends in `_bits`.

use vstd::prelude::*;

verus! {

/// What an agent says of itself when it connects.
#[derive(Debug, PartialEq, Eq)]
pub struct ConnectRequest {
    pub token: String,
    pub client_id: String,
    pub hostname: String,
    pub os: String,
    pub version: String,
}

/// A command for an agent to run.
#[derive(Debug, PartialEq, Eq)]
pub struct CommandRequest {
    pub command_id: String,
    pub command: String,
    pub interactive: bool,
}

/// What came of a command.
#[derive(Debug, PartialEq, Eq)]
pub struct CommandReply {
    pub command_id: String,
    pub exit_code: i32,
    pub stdout: String,
    pub stderr: String,
    pub completed: bool,
}

/// The processors of a machine.
#[derive(Debug, PartialEq, Eq)]
pub struct CpuInfo {
    pub model: String,
    pub cores: i32,
    pub usage_bits: u32,
    pub load_avg_1_bits: u64,
    pub load_avg_5_bits: u64,
    pub load_avg_15_bits: u64,
}

/// The memory of a machine, in bytes and as the percentage in use.
#[derive(Debug, PartialEq, Eq)]
pub struct MemoryInfo {
    pub total: u64,
    pub used: u64,
    pub free: u64,
    pub usage_bits: u64,
}

/// The disks of a machine together, in bytes and as the percentage in use.
#[derive(Debug, PartialEq, Eq)]
pub struct DiskInfo {
    pub total: u64,
    pub used: u64,
    pub free: u64,
    pub usage_bits: u64,
}

/// The hardware of a machine.
#[derive(Debug, PartialEq, Eq)]
pub struct HardwareInfo {
    pub cpu: Option<CpuInfo>,
    pub memory: Option<MemoryInfo>,
    pub disk: Option<DiskInfo>,
}

/// The network address of a machine and the bytes that went over its interfaces.
#[derive(Debug, PartialEq, Eq)]
pub struct NetworkInfo {
    pub ip_address: String,
    pub tx_bytes: u64,
    pub rx_bytes: u64,
    pub tx_speed: u64,
    pub rx_speed: u64,
}

/// How an agent's machine is doing. The timestamp is in seconds, the latency in
/// milliseconds.
#[derive(Debug, PartialEq, Eq)]
pub struct StatusReport {
    pub client_id: String,
    pub timestamp_bits: u64,
    pub hardware: Option<HardwareInfo>,
    pub network: Option<NetworkInfo>,
    pub latency_bits: u64,
}

/// The answer to a status report.
#[derive(Debug, PartialEq, Eq)]
pub struct StatusResponse {
    pub success: bool,
    pub message: String,
}

/// Why a call was refused.
#[derive(Debug, Clone, Copy, PartialEq, Eq)]
pub enum Code {
    Unauthenticated,
}

/// A refusal, with words for the caller.
#[derive(Debug, PartialEq, Eq)]
pub struct Status {
    pub code: Code,
    pub message: String,
}

impl Clone for CpuInfo {
    fn clone(&self) -> (res: Self)
        ensures
            res == *self,
    {
        CpuInfo {
            model: self.model.clone(),
            cores: self.cores,
            usage_bits: self.usage_bits,
            load_avg_1_bits: self.load_avg_1_bits,
            load_avg_5_bits: self.load_avg_5_bits,
            load_avg_15_bits: self.load_avg_15_bits,
        }
    }
}

impl Clone for MemoryInfo {
    fn clone(&self) -> (res: Self)
        ensures
            res == *self,
    {
        MemoryInfo {
            total: self.total,
            used: self.used,
            free: self.free,
            usage_bits: self.usage_bits,
        }
    }
}

impl Clone for DiskInfo {
    fn clone(&self) -> (res: Self)
        ensures
            res == *self,
    {
        DiskInfo {
            total: self.total,
            used: self.used,
            free: self.free,
            usage_bits: self.usage_bits,
        }
    }
}

impl Clone for HardwareInfo {
    fn clone(&self) -> (res: Self)
        ensures
            res == *self,
    {
        HardwareInfo { cpu: self.cpu.clone(), memory: self.memory.clone(), disk: self.disk.clone() }
    }
}

impl Clone for NetworkInfo {
    fn clone(&self) -> (res: Self)
        ensures
            res == *self,
    {
        NetworkInfo {
            ip_address: self.ip_address.clone(),
            tx_bytes: self.tx_bytes,
            rx_bytes: self.rx_bytes,
            tx_speed: self.tx_speed,
            rx_speed: self.rx_speed,
        }
    }
}

impl Clone for StatusReport {
    fn clone(&self) -> (res: Self)
        ensures
            res == *self,
    {
        StatusReport {
            client_id: self.client_id.clone(),
            timestamp_bits: self.timestamp_bits,
            hardware: self.hardware.clone(),
            network: self.network.clone(),
            latency_bits: self.latency_bits,
        }
    }
}

} // verus!
