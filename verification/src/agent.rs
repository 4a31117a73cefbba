//! What an agent does on its machine: it says who it is, reports how the machine
//! is doing, and runs commands.

use crate::clock::{is_reading, law_readings_come_from_the_clock, utc_now_millis};
use crate::messages::{
    CommandReply, CommandRequest, CpuInfo, DiskInfo, HardwareInfo, MemoryInfo, NetworkInfo,
    StatusReport,
};
use crate::text::{same_text, texts};
use vstd::prelude::*;
use vstd::utf8::{
    decode_utf8, encode_utf8, encode_utf8_decode_utf8, encode_utf8_valid_utf8, valid_utf8,
};

verus! {

/// The id of the agent on a machine.
pub open spec fn client_id_of(hostname: Seq<char>) -> Seq<char> {
    "client-"@ + hostname
}

/// Makes the agent's id from the name of its machine, or hands on why there is no
/// name.
pub fn get_client_id<E>(hostname: Result<String, E>) -> (res: Result<String, E>)
    ensures
        match hostname {
            Ok(name) => res matches Ok(id) && id@ == client_id_of(name@),
            Err(error) => res == Err::<String, E>(error),
        },
{
    match hostname {
        Ok(name) => {
            let mut id = "client-".to_owned();
            id.append(name.as_str());
            Ok(id)
        },
        Err(error) => Err(error),
    }
}

/// The space on a disk, in bytes.
#[derive(Debug, Clone, Copy, PartialEq, Eq)]
pub struct DiskSpace {
    pub total: u64,
    pub available: u64,
}

/// The space on all disks together.
pub open spec fn total_space(disks: Seq<DiskSpace>) -> nat
    decreases disks.len(),
{
    if disks.len() == 0 {
        0
    } else {
        total_space(disks.drop_last()) + disks.last().total as nat
    }
}

/// The space that is available on all disks together.
pub open spec fn available_space(disks: Seq<DiskSpace>) -> nat
    decreases disks.len(),
{
    if disks.len() == 0 {
        0
    } else {
        available_space(disks.drop_last()) + disks.last().available as nat
    }
}

/// No disk has more space available than it has.
pub open spec fn sound_disks(disks: Seq<DiskSpace>) -> bool {
    forall|i: int|
        0 <= i < disks.len() ==> (#[trigger] disks[i]).available <= disks[i].total
}

/// What was read off a machine's hardware. The bytes of memory are those that
/// the system counts as in use and as free; the processors are given by their
/// models.
#[derive(Debug)]
pub struct HardwareReadings {
    pub cpu_models: Vec<String>,
    pub cpu_usage_bits: u32,
    pub load_avg_1_bits: u64,
    pub load_avg_5_bits: u64,
    pub load_avg_15_bits: u64,
    pub total_memory: u64,
    pub used_memory: u64,
    pub free_memory: u64,
    pub disks: Vec<DiskSpace>,
}

impl HardwareReadings {
    /// There is a processor, and the space on the disks can be added up.
    pub open spec fn complete(&self) -> bool {
        &&& self.cpu_models@.len() > 0
        &&& sound_disks(self.disks@)
        &&& total_space(self.disks@) <= u64::MAX
    }

    /// Whether there is a processor, and the space on the disks can be added up.
    pub fn is_complete(&self) -> (res: bool)
        ensures
            res == self.complete(),
    {
        self.cpu_models.len() > 0 && add_up_disks(&self.disks).is_some()
    }
}

proof fn lemma_total_grows(disks: Seq<DiskSpace>, n: int)
    requires
        0 <= n <= disks.len(),
    ensures
        total_space(disks.take(n)) <= total_space(disks),
    decreases disks.len() - n,
{
    if n < disks.len() {
        lemma_total_grows(disks, n + 1);
        assert(disks.take(n + 1).drop_last() == disks.take(n));
    } else {
        assert(disks.take(n) == disks);
    }
}

/// Adds up the space on all disks: what there is, what is in use, what is
/// available. There is no sum where a disk has more space available than it has,
/// or where the sum is too large.
fn add_up_disks(disks: &Vec<DiskSpace>) -> (res: Option<(u64, u64, u64)>)
    ensures
        match res {
            Some(sums) => {
                &&& sound_disks(disks@)
                &&& sums.0 == total_space(disks@)
                &&& sums.1 == total_space(disks@) - available_space(disks@)
                &&& sums.2 == available_space(disks@)
            },
            None => !sound_disks(disks@) || total_space(disks@) > u64::MAX,
        },
{
    let mut total: u64 = 0;
    let mut used: u64 = 0;
    let mut free: u64 = 0;
    let mut i: usize = 0;
    while i < disks.len()
        invariant
            i <= disks.len(),
            forall|j: int| 0 <= j < i ==> (#[trigger] disks@[j]).available <= disks@[j].total,
            total == total_space(disks@.take(i as int)),
            free == available_space(disks@.take(i as int)),
            used == total - free,
        decreases disks.len() - i,
    {
        let disk = disks[i];
        proof {
            assert(disk == disks@[i as int]);
            assert(disks@.take(i + 1).drop_last() == disks@.take(i as int));
            lemma_total_grows(disks@, i + 1);
        }
        if disk.available > disk.total || total > u64::MAX - disk.total {
            return None;
        }
        total = total + disk.total;
        used = used + (disk.total - disk.available);
        free = free + disk.available;
        i = i + 1;
    }
    assert(disks@.take(i as int) == disks@);
    Some((total, used, free))
}

/// The description is that of the disks: the space on all of them, in use and
/// available, and the percentage in use, which comes from `percent` where there is
/// space at all and is zero where there is none.
pub open spec fn describes_disks<F: Fn(u64, u64) -> u64>(
    disk: DiskInfo,
    disks: Seq<DiskSpace>,
    percent: F,
) -> bool {
    &&& disk.total == total_space(disks)
    &&& disk.used == total_space(disks) - available_space(disks)
    &&& disk.free == available_space(disks)
    &&& disk.used + disk.free == disk.total
    &&& if disk.total > 0 {
        call_ensures(percent, (disk.used, disk.total), disk.usage_bits)
    } else {
        disk.usage_bits == 0
    }
}

/// Describes the hardware of a machine. The percentages come from `percent`, which
/// is given a part and the whole; where there is no space on the disks at all, the
/// percentage of it in use is zero.
pub fn collect_hardware_info<F: Fn(u64, u64) -> u64>(
    readings: &HardwareReadings,
    percent: F,
) -> (res: HardwareInfo)
    requires
        readings.complete(),
        forall|part: u64, whole: u64| #[trigger] call_requires(percent, (part, whole)),
    ensures
        res.cpu matches Some(cpu) && {
            &&& cpu.model == readings.cpu_models@[0]
            &&& cpu.cores == readings.cpu_models.len() as i32
            &&& cpu.usage_bits == readings.cpu_usage_bits
            &&& cpu.load_avg_1_bits == readings.load_avg_1_bits
            &&& cpu.load_avg_5_bits == readings.load_avg_5_bits
            &&& cpu.load_avg_15_bits == readings.load_avg_15_bits
        },
        res.memory matches Some(memory) && {
            &&& memory.total == readings.total_memory
            &&& memory.used == readings.used_memory
            &&& memory.free == readings.free_memory
            &&& call_ensures(percent, (memory.used, memory.total), memory.usage_bits)
        },
        res.disk matches Some(disk) && describes_disks(disk, readings.disks@, percent),
{
    let (disk_total, disk_used, disk_free) = add_up_disks(&readings.disks).unwrap();
    let memory_usage = percent(readings.used_memory, readings.total_memory);
    let disk_usage = if disk_total > 0 {
        percent(disk_used, disk_total)
    } else {
        0
    };
    HardwareInfo {
        cpu: Some(
            CpuInfo {
                model: readings.cpu_models[0].clone(),
                cores: #[verifier::truncate] (readings.cpu_models.len() as i32),
                usage_bits: readings.cpu_usage_bits,
                load_avg_1_bits: readings.load_avg_1_bits,
                load_avg_5_bits: readings.load_avg_5_bits,
                load_avg_15_bits: readings.load_avg_15_bits,
            },
        ),
        memory: Some(
            MemoryInfo {
                total: readings.total_memory,
                used: readings.used_memory,
                free: readings.free_memory,
                usage_bits: memory_usage,
            },
        ),
        disk: Some(
            DiskInfo {
                total: disk_total,
                used: disk_used,
                free: disk_free,
                usage_bits: disk_usage,
            },
        ),
    }
}

/// A network interface, with its addresses.
#[derive(Debug, PartialEq, Eq)]
pub struct Interface {
    pub name: String,
    pub addresses: Vec<String>,
}

impl Interface {
    /// The interface is not the loopback, and has an address.
    pub open spec fn eligible(&self) -> bool {
        self.name@ != "lo"@ && self.addresses@.len() > 0
    }
}

/// The bytes that went over a network interface.
#[derive(Debug, Clone, Copy, PartialEq, Eq)]
pub struct Traffic {
    pub transmitted: u64,
    pub received: u64,
}

/// The bytes that were transmitted over all interfaces.
pub open spec fn total_transmitted(traffic: Seq<Traffic>) -> nat
    decreases traffic.len(),
{
    if traffic.len() == 0 {
        0
    } else {
        total_transmitted(traffic.drop_last()) + traffic.last().transmitted as nat
    }
}

/// The bytes that were received over all interfaces.
pub open spec fn total_received(traffic: Seq<Traffic>) -> nat
    decreases traffic.len(),
{
    if traffic.len() == 0 {
        0
    } else {
        total_received(traffic.drop_last()) + traffic.last().received as nat
    }
}

/// The bytes that went over all interfaces can be added up.
pub open spec fn countable(traffic: Seq<Traffic>) -> bool {
    total_transmitted(traffic) <= u64::MAX && total_received(traffic) <= u64::MAX
}

proof fn lemma_traffic_grows(traffic: Seq<Traffic>, n: int)
    requires
        0 <= n <= traffic.len(),
    ensures
        total_transmitted(traffic.take(n)) <= total_transmitted(traffic),
        total_received(traffic.take(n)) <= total_received(traffic),
    decreases traffic.len() - n,
{
    if n < traffic.len() {
        lemma_traffic_grows(traffic, n + 1);
        assert(traffic.take(n + 1).drop_last() == traffic.take(n));
    } else {
        assert(traffic.take(n) == traffic);
    }
}

/// Adds up the bytes that went over all interfaces, those transmitted and those
/// received, unless there are too many of them.
fn add_up_traffic(traffic: &Vec<Traffic>) -> (res: Option<(u64, u64)>)
    ensures
        match res {
            Some(sums) => sums.0 == total_transmitted(traffic@) && sums.1 == total_received(
                traffic@,
            ),
            None => !countable(traffic@),
        },
{
    let mut transmitted: u64 = 0;
    let mut received: u64 = 0;
    let mut i: usize = 0;
    while i < traffic.len()
        invariant
            i <= traffic.len(),
            transmitted == total_transmitted(traffic@.take(i as int)),
            received == total_received(traffic@.take(i as int)),
        decreases traffic.len() - i,
    {
        let data = traffic[i];
        proof {
            assert(traffic@.take(i + 1).drop_last() == traffic@.take(i as int));
            lemma_traffic_grows(traffic@, i + 1);
        }
        if transmitted > u64::MAX - data.transmitted || received > u64::MAX - data.received {
            return None;
        }
        transmitted = transmitted + data.transmitted;
        received = received + data.received;
        i = i + 1;
    }
    assert(traffic@.take(i as int) == traffic@);
    Some((transmitted, received))
}

/// Whether the bytes that went over all interfaces can be added up.
pub fn is_countable(traffic: &Vec<Traffic>) -> (res: bool)
    ensures
        res == countable(traffic@),
{
    add_up_traffic(traffic).is_some()
}

/// The address by which a machine is known: the first one of its first interface
/// that is not the loopback and has an address.
pub open spec fn machine_address(interfaces: Seq<Interface>) -> Seq<char>
    decreases interfaces.len(),
{
    if interfaces.len() == 0 {
        "Unknown"@
    } else if interfaces[0].eligible() {
        interfaces[0].addresses@[0]@
    } else {
        machine_address(interfaces.drop_first())
    }
}

fn find_address(interfaces: &Vec<Interface>) -> (res: String)
    ensures
        res@ == machine_address(interfaces@),
{
    let mut i: usize = 0;
    assert(interfaces@.skip(0) == interfaces@);
    while i < interfaces.len()
        invariant
            i <= interfaces.len(),
            machine_address(interfaces@) == machine_address(interfaces@.skip(i as int)),
        decreases interfaces.len() - i,
    {
        let iface = &interfaces[i];
        assert(interfaces@.skip(i as int)[0] == *iface);
        if !same_text(iface.name.as_str(), "lo") && iface.addresses.len() > 0 {
            return iface.addresses[0].clone();
        }
        assert(interfaces@.skip(i as int).drop_first() == interfaces@.skip(i + 1));
        i = i + 1;
    }
    "Unknown".to_owned()
}

/// Describes the network of a machine. The speeds are not measured.
pub fn collect_network_info(interfaces: &Vec<Interface>, traffic: &Vec<Traffic>) -> (res:
    NetworkInfo)
    requires
        countable(traffic@),
    ensures
        res.ip_address@ == machine_address(interfaces@),
        res.tx_bytes == total_transmitted(traffic@),
        res.rx_bytes == total_received(traffic@),
        res.tx_speed == 0,
        res.rx_speed == 0,
{
    let (tx_bytes, rx_bytes) = add_up_traffic(traffic).unwrap();
    NetworkInfo {
        ip_address: find_address(interfaces),
        tx_bytes,
        rx_bytes,
        tx_speed: 0,
        rx_speed: 0,
    }
}

/// A report with the given contents, at the given time in milliseconds. The time
/// in seconds comes from `seconds`.
pub fn status_report_at<F: Fn(i64) -> u64>(
    client_id: String,
    hardware: HardwareInfo,
    network: NetworkInfo,
    latency_bits: u64,
    millis: i64,
    seconds: F,
) -> (res: StatusReport)
    requires
        call_requires(seconds, (millis,)),
    ensures
        res.client_id == client_id,
        res.hardware == Some(hardware),
        res.network == Some(network),
        res.latency_bits == latency_bits,
        call_ensures(seconds, (millis,), res.timestamp_bits),
{
    StatusReport {
        client_id,
        timestamp_bits: seconds(millis),
        hardware: Some(hardware),
        network: Some(network),
        latency_bits,
    }
}

/// A report with the given contents, at the time at which this is called.
pub fn report_status<F: Fn(i64) -> u64>(
    client_id: String,
    hardware: HardwareInfo,
    network: NetworkInfo,
    latency_bits: u64,
    seconds: F,
) -> (res: StatusReport)
    requires
        forall|millis: i64| #[trigger] call_requires(seconds, (millis,)),
    ensures
        res.client_id == client_id,
        res.hardware == Some(hardware),
        res.network == Some(network),
        res.latency_bits == latency_bits,
        exists|millis: i64| #[trigger]
            is_reading(millis) && call_ensures(seconds, (millis,), res.timestamp_bits),
{
    let millis = utc_now_millis();
    proof {
        law_readings_come_from_the_clock(millis);
    }
    status_report_at(client_id, hardware, network, latency_bits, millis, seconds)
}

/// A program to start, with its arguments.
#[derive(Debug, PartialEq, Eq)]
pub struct Invocation {
    pub program: String,
    pub args: Vec<String>,
}

/// The shell that runs commands: its name, and the option that a command follows.
pub open spec fn shell(windows: bool) -> (Seq<char>, Seq<char>) {
    if windows {
        ("cmd"@, "/c"@)
    } else {
        ("sh"@, "-c"@)
    }
}

/// The program that runs a command: the system's shell, with the command as it
/// is.
pub fn shell_invocation(windows: bool, command: &str) -> (res: Invocation)
    ensures
        res.program@ == shell(windows).0,
        texts(res.args@) == seq![shell(windows).1, command@],
{
    let mut args: Vec<String> = Vec::new();
    let program = if windows {
        args.push("/c".to_owned());
        "cmd".to_owned()
    } else {
        args.push("-c".to_owned());
        "sh".to_owned()
    };
    args.push(command.to_owned());
    assert(texts(args@) =~= seq![shell(windows).1, command@]);
    Invocation { program, args }
}

/// The text that `String::from_utf8_lossy` makes of bytes.
pub uninterp spec fn utf8_lossy(bytes: Seq<u8>) -> Seq<char>;

/// Reads bytes as text, by `String::from_utf8_lossy`. The text depends on the
/// bytes alone, and bytes that are UTF-8 give the text that they encode. What
/// becomes of other bytes is not stated, beyond that.
#[verifier::external_body]
fn text_lossy(bytes: &[u8]) -> (res: String)
    ensures
        res@ == utf8_lossy(bytes@),
        valid_utf8(bytes@) ==> res@ == decode_utf8(bytes@),
{
    String::from_utf8_lossy(bytes).to_string()
}

/// What a program left behind: its exit code, where it has one, and what it wrote.
#[derive(Debug, PartialEq, Eq)]
pub struct ProgramOutput {
    pub code: Option<i32>,
    pub stdout: Vec<u8>,
    pub stderr: Vec<u8>,
}

/// The reply to a command whose program wrote the given texts. A program without
/// an exit code counts as -1.
pub fn reply_with(
    request: CommandRequest,
    code: Option<i32>,
    stdout: String,
    stderr: String,
) -> (res: CommandReply)
    ensures
        res.command_id == request.command_id,
        res.exit_code == match code {
            Some(code) => code,
            None => -1i32,
        },
        res.stdout == stdout,
        res.stderr == stderr,
        res.completed,
{
    let exit_code: i32 = match code {
        Some(code) => code,
        None => -1,
    };
    CommandReply { command_id: request.command_id, exit_code, stdout, stderr, completed: true }
}

/// The reply to a command whose program has ended. What the program wrote in UTF-8
/// arrives as it wrote it.
pub fn command_reply(request: CommandRequest, output: &ProgramOutput) -> (res: CommandReply)
    ensures
        res.command_id == request.command_id,
        res.exit_code == match output.code {
            Some(code) => code,
            None => -1i32,
        },
        res.stdout@ == utf8_lossy(output.stdout@),
        res.stderr@ == utf8_lossy(output.stderr@),
        forall|text: Seq<char>|
            #![trigger encode_utf8(text)]
            output.stdout@ == encode_utf8(text) ==> res.stdout@ == text,
        forall|text: Seq<char>|
            #![trigger encode_utf8(text)]
            output.stderr@ == encode_utf8(text) ==> res.stderr@ == text,
        res.completed,
{
    proof {
        broadcast use {encode_utf8_valid_utf8, encode_utf8_decode_utf8};

    }
    let stdout = text_lossy(output.stdout.as_slice());
    let stderr = text_lossy(output.stderr.as_slice());
    reply_with(request, output.code, stdout, stderr)
}

} // verus!
