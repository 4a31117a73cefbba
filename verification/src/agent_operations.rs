//! What the calls of an agent give for what they are given.

use crate::agent::{
    available_space, collect_hardware_info, collect_network_info, command_reply, countable,
    get_client_id, is_countable, machine_address, reply_with, report_status, shell_invocation,
    status_report_at, total_received, total_space, total_transmitted, DiskSpace,
    HardwareReadings, Interface, Invocation, ProgramOutput, Traffic,
};
use crate::clock::is_reading;
use crate::messages::{CommandReply, CommandRequest, HardwareInfo, NetworkInfo, StatusReport};
use crate::text::texts;
use vstd::prelude::*;
use vstd::utf8::encode_utf8;

verus! {

/// The id of an agent is `client-` and the name of its machine. Without a name
/// there is no id, and the reason is handed on.
pub proof fn law_client_id<E>(hostname: Result<String, E>, res: Result<String, E>)
    requires
        call_ensures(get_client_id::<E>, (hostname,), res),
    ensures
        hostname matches Ok(name) ==> res matches Ok(id) && id@ == "client-"@ + name@,
        hostname matches Err(error) ==> res == Err::<String, E>(error),
{
}

/// All that there is on the disks.
pub open spec fn sum_of_totals(disks: Seq<DiskSpace>) -> int {
    disks.fold_left(0int, |sum: int, disk: DiskSpace| sum + disk.total)
}

/// All that is available on the disks.
pub open spec fn sum_of_available(disks: Seq<DiskSpace>) -> int {
    disks.fold_left(0int, |sum: int, disk: DiskSpace| sum + disk.available)
}

proof fn lemma_sums_of_disks(disks: Seq<DiskSpace>)
    ensures
        total_space(disks) == sum_of_totals(disks),
        available_space(disks) == sum_of_available(disks),
    decreases disks.len(),
{
    if disks.len() > 0 {
        lemma_sums_of_disks(disks.drop_last());
    }
}

/// Readings are complete exactly where there is a processor, no disk has more
/// available than there is on it, and the sum over the disks is not too large.
pub proof fn law_complete_readings(readings: HardwareReadings, res: bool)
    ensures
        call_ensures(HardwareReadings::is_complete, (&readings,), res) ==> res
            == readings.complete(),
        readings.complete() <==> {
            &&& readings.cpu_models@.len() > 0
            &&& forall|i: int|
                0 <= i < readings.disks@.len() ==> (#[trigger] readings.disks@[i]).available
                    <= readings.disks@[i].total
            &&& sum_of_totals(readings.disks@) <= u64::MAX
        },
{
    lemma_sums_of_disks(readings.disks@);
}

/// The processors are described by the model of the first, their number, and the
/// usage and loads that were read.
pub proof fn law_processors<F: Fn(u64, u64) -> u64>(
    readings: HardwareReadings,
    percent: F,
    res: HardwareInfo,
)
    requires
        call_ensures(collect_hardware_info::<F>, (&readings, percent), res),
    ensures
        res.cpu matches Some(cpu) && {
            &&& cpu.model@ == readings.cpu_models@[0]@
            &&& readings.cpu_models@.len() <= i32::MAX ==> cpu.cores == readings.cpu_models@.len()
            &&& cpu.cores == readings.cpu_models.len() as i32
            &&& cpu.usage_bits == readings.cpu_usage_bits
            &&& cpu.load_avg_1_bits == readings.load_avg_1_bits
            &&& cpu.load_avg_5_bits == readings.load_avg_5_bits
            &&& cpu.load_avg_15_bits == readings.load_avg_15_bits
        },
{
}

/// The memory is described as it was read, with the percentage that the part in
/// use is of all of it.
pub proof fn law_memory<F: Fn(u64, u64) -> u64>(
    readings: HardwareReadings,
    percent: F,
    res: HardwareInfo,
)
    requires
        call_ensures(collect_hardware_info::<F>, (&readings, percent), res),
    ensures
        res.memory matches Some(memory) && {
            &&& memory.total == readings.total_memory
            &&& memory.used == readings.used_memory
            &&& memory.free == readings.free_memory
            &&& call_ensures(
                percent,
                (readings.used_memory, readings.total_memory),
                memory.usage_bits,
            )
        },
{
}

/// The disks are described by sums over all of them: what there is, what is
/// available, and the rest as what is in use, with its percentage. Where there is
/// nothing on the disks the percentage is zero.
pub proof fn law_disks<F: Fn(u64, u64) -> u64>(
    readings: HardwareReadings,
    percent: F,
    res: HardwareInfo,
)
    requires
        call_ensures(collect_hardware_info::<F>, (&readings, percent), res),
    ensures
        res.disk matches Some(disk) && {
            &&& disk.total == sum_of_totals(readings.disks@)
            &&& disk.free == sum_of_available(readings.disks@)
            &&& disk.used == sum_of_totals(readings.disks@) - sum_of_available(readings.disks@)
            &&& disk.total > 0 ==> call_ensures(
                percent,
                (disk.used, disk.total),
                disk.usage_bits,
            )
            &&& disk.total == 0 ==> disk.usage_bits == 0
        },
{
    lemma_sums_of_disks(readings.disks@);
}

/// A disk more adds what there is on it, what is in use on it and what is
/// available on it.
pub proof fn law_disk_more<F: Fn(u64, u64) -> u64>(
    fewer: HardwareReadings,
    more: HardwareReadings,
    disk: DiskSpace,
    percent: F,
    before: HardwareInfo,
    after: HardwareInfo,
)
    requires
        call_ensures(collect_hardware_info::<F>, (&fewer, percent), before),
        call_ensures(collect_hardware_info::<F>, (&more, percent), after),
        more.disks@ == fewer.disks@.push(disk),
    ensures
        before.disk is Some && after.disk is Some,
        after.disk->0.total == before.disk->0.total + disk.total,
        after.disk->0.used == before.disk->0.used + disk.total - disk.available,
        after.disk->0.free == before.disk->0.free + disk.available,
{
    assert(more.disks@.drop_last() =~= fewer.disks@);
    assert(more.disks@.last() == disk);
}

/// The address of a machine is the first address of the first of its interfaces
/// that is not named `lo` and has an address.
pub proof fn law_address(interfaces: Vec<Interface>, traffic: Vec<Traffic>, res: NetworkInfo, i: int)
    requires
        call_ensures(collect_network_info, (&interfaces, &traffic), res),
        0 <= i < interfaces@.len(),
        interfaces@[i].name@ != "lo"@,
        interfaces@[i].addresses@.len() > 0,
        forall|j: int|
            0 <= j < i ==> (#[trigger] interfaces@[j]).name@ == "lo"@
                || interfaces@[j].addresses@.len() == 0,
    ensures
        res.ip_address@ == interfaces@[i].addresses@[0]@,
{
    lemma_address_of_first(interfaces@, i);
}

proof fn lemma_address_of_first(interfaces: Seq<Interface>, i: int)
    requires
        0 <= i < interfaces.len(),
        interfaces[i].name@ != "lo"@,
        interfaces[i].addresses@.len() > 0,
        forall|j: int|
            0 <= j < i ==> (#[trigger] interfaces[j]).name@ == "lo"@
                || interfaces[j].addresses@.len() == 0,
    ensures
        machine_address(interfaces) == interfaces[i].addresses@[0]@,
    decreases interfaces.len(),
{
    if i > 0 {
        let rest = interfaces.drop_first();
        assert(interfaces[0].name@ == "lo"@ || interfaces[0].addresses@.len() == 0);
        assert forall|j: int| 0 <= j < i - 1 implies (#[trigger] rest[j]).name@ == "lo"@
            || rest[j].addresses@.len() == 0 by {
            assert(rest[j] == interfaces[j + 1]);
        }
        lemma_address_of_first(rest, i - 1);
    }
}

/// Where every interface is named `lo` or has no address, the address of the
/// machine is unknown.
pub proof fn law_no_address(interfaces: Vec<Interface>, traffic: Vec<Traffic>, res: NetworkInfo)
    requires
        call_ensures(collect_network_info, (&interfaces, &traffic), res),
        forall|j: int|
            0 <= j < interfaces@.len() ==> (#[trigger] interfaces@[j]).name@ == "lo"@
                || interfaces@[j].addresses@.len() == 0,
    ensures
        res.ip_address@ == "Unknown"@,
{
    lemma_no_address(interfaces@);
}

proof fn lemma_no_address(interfaces: Seq<Interface>)
    requires
        forall|j: int|
            0 <= j < interfaces.len() ==> (#[trigger] interfaces[j]).name@ == "lo"@
                || interfaces[j].addresses@.len() == 0,
    ensures
        machine_address(interfaces) == "Unknown"@,
    decreases interfaces.len(),
{
    if interfaces.len() > 0 {
        let rest = interfaces.drop_first();
        assert(interfaces[0].name@ == "lo"@ || interfaces[0].addresses@.len() == 0);
        assert forall|j: int| 0 <= j < rest.len() implies (#[trigger] rest[j]).name@ == "lo"@
            || rest[j].addresses@.len() == 0 by {
            assert(rest[j] == interfaces[j + 1]);
        }
        lemma_no_address(rest);
    }
}

/// All bytes that were transmitted.
pub open spec fn sum_of_transmitted(traffic: Seq<Traffic>) -> int {
    traffic.fold_left(0int, |sum: int, data: Traffic| sum + data.transmitted)
}

/// All bytes that were received.
pub open spec fn sum_of_received(traffic: Seq<Traffic>) -> int {
    traffic.fold_left(0int, |sum: int, data: Traffic| sum + data.received)
}

proof fn lemma_sums_of_traffic(traffic: Seq<Traffic>)
    ensures
        total_transmitted(traffic) == sum_of_transmitted(traffic),
        total_received(traffic) == sum_of_received(traffic),
    decreases traffic.len(),
{
    if traffic.len() > 0 {
        lemma_sums_of_traffic(traffic.drop_last());
    }
}

/// The bytes sent and received are the sums over all interfaces, each on its own
/// side. The speeds are zero.
pub proof fn law_traffic(interfaces: Vec<Interface>, traffic: Vec<Traffic>, res: NetworkInfo)
    requires
        call_ensures(collect_network_info, (&interfaces, &traffic), res),
    ensures
        res.tx_bytes == sum_of_transmitted(traffic@),
        res.rx_bytes == sum_of_received(traffic@),
        res.tx_speed == 0,
        res.rx_speed == 0,
{
    lemma_sums_of_traffic(traffic@);
}

/// Traffic can be counted exactly where neither sum is too large.
pub proof fn law_countable_traffic(traffic: Vec<Traffic>, res: bool)
    ensures
        call_ensures(is_countable, (&traffic,), res) ==> res == countable(traffic@),
        countable(traffic@) <==> sum_of_transmitted(traffic@) <= u64::MAX && sum_of_received(
            traffic@,
        ) <= u64::MAX,
{
    lemma_sums_of_traffic(traffic@);
}

/// A report at a given time holds what it is given, and that time in seconds.
pub proof fn law_report_at_a_time<F: Fn(i64) -> u64>(
    client_id: String,
    hardware: HardwareInfo,
    network: NetworkInfo,
    latency_bits: u64,
    millis: i64,
    seconds: F,
    res: StatusReport,
)
    requires
        call_ensures(
            status_report_at::<F>,
            (client_id, hardware, network, latency_bits, millis, seconds),
            res,
        ),
    ensures
        res.client_id@ == client_id@,
        res.hardware == Some(hardware),
        res.network == Some(network),
        res.latency_bits == latency_bits,
        call_ensures(seconds, (millis,), res.timestamp_bits),
{
}

/// A report holds what it is given. Its time is that of the clock, in seconds, and
/// nothing else has a part in it: where `seconds` gives one result for each time,
/// the time of the report is what `seconds` gives for a reading of the clock.
pub proof fn law_report<F: Fn(i64) -> u64>(
    client_id: String,
    hardware: HardwareInfo,
    network: NetworkInfo,
    latency_bits: u64,
    seconds: F,
    in_seconds: spec_fn(i64) -> u64,
    res: StatusReport,
)
    requires
        call_ensures(
            report_status::<F>,
            (client_id, hardware, network, latency_bits, seconds),
            res,
        ),
        forall|millis: i64, bits: u64| #[trigger]
            call_ensures(seconds, (millis,), bits) ==> bits == in_seconds(millis),
    ensures
        res.client_id@ == client_id@,
        res.hardware == Some(hardware),
        res.network == Some(network),
        res.latency_bits == latency_bits,
        exists|millis: i64| #[trigger]
            is_reading(millis) && res.timestamp_bits == in_seconds(millis),
{
}

/// A command is run by `sh -c`, and on Windows by `cmd /c`, as it is.
pub proof fn law_shell(windows: bool, command: &str, res: Invocation)
    requires
        call_ensures(shell_invocation, (windows, command), res),
    ensures
        res.program@ == if windows {
            "cmd"@
        } else {
            "sh"@
        },
        res.args@.len() == 2,
        res.args@[0]@ == if windows {
            "/c"@
        } else {
            "-c"@
        },
        res.args@[1]@ == command@,
{
    assert(texts(res.args@).len() == res.args@.len());
    assert(texts(res.args@)[0] == res.args@[0]@);
    assert(texts(res.args@)[1] == res.args@[1]@);
}

/// The reply to a command has the command's id, the texts that its program wrote,
/// each in its place, and the program's exit code, or -1 where it has none.
pub proof fn law_reply_with(
    request: CommandRequest,
    code: Option<i32>,
    stdout: String,
    stderr: String,
    res: CommandReply,
)
    requires
        call_ensures(reply_with, (request, code, stdout, stderr), res),
    ensures
        res.command_id@ == request.command_id@,
        code matches Some(code) ==> res.exit_code == code,
        code is None ==> res.exit_code == -1,
        res.stdout@ == stdout@,
        res.stderr@ == stderr@,
        res.completed,
{
}

/// The reply to a command has the command's id and its program's exit code, or -1
/// where it has none. What the program wrote in UTF-8 is in the reply as it was
/// written.
pub proof fn law_command_reply(
    request: CommandRequest,
    output: ProgramOutput,
    stdout: Seq<char>,
    stderr: Seq<char>,
    res: CommandReply,
)
    requires
        call_ensures(command_reply, (request, &output), res),
    ensures
        res.command_id@ == request.command_id@,
        output.code matches Some(code) ==> res.exit_code == code,
        output.code is None ==> res.exit_code == -1,
        output.stdout@ == encode_utf8(stdout) ==> res.stdout@ == stdout,
        output.stderr@ == encode_utf8(stderr) ==> res.stderr@ == stderr,
        res.completed,
{
}

/// What the two streams of a program become in a reply depends on the bytes
/// alone: the same bytes become the same text, on either stream and for any
/// command.
pub proof fn law_same_bytes_same_text(
    first: CommandRequest,
    second: CommandRequest,
    a: ProgramOutput,
    b: ProgramOutput,
    reply_a: CommandReply,
    reply_b: CommandReply,
)
    requires
        call_ensures(command_reply, (first, &a), reply_a),
        call_ensures(command_reply, (second, &b), reply_b),
    ensures
        a.stdout@ == b.stdout@ ==> reply_a.stdout@ == reply_b.stdout@,
        a.stderr@ == b.stderr@ ==> reply_a.stderr@ == reply_b.stderr@,
        a.stdout@ == b.stderr@ ==> reply_a.stdout@ == reply_b.stderr@,
{
}

} // verus!
