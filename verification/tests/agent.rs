use server_agent::agent::{
    collect_hardware_info, collect_network_info, command_reply, get_client_id, is_countable,
    reply_with, report_status, shell_invocation, status_report_at, DiskSpace, HardwareReadings,
    Interface, ProgramOutput, Traffic,
};
use server_agent::messages::{CommandRequest, HardwareInfo, NetworkInfo};

fn percent(part: u64, whole: u64) -> u64 {
    (part as f64 / whole as f64 * 100.0).to_bits()
}

fn seconds(millis: i64) -> u64 {
    (millis as f64 / 1000.0).to_bits()
}

fn readings(disks: Vec<DiskSpace>) -> HardwareReadings {
    HardwareReadings {
        cpu_models: vec!["model-a".to_string(), "model-b".to_string()],
        cpu_usage_bits: 12.5f32.to_bits(),
        load_avg_1_bits: 0.5f64.to_bits(),
        load_avg_5_bits: 0.25f64.to_bits(),
        load_avg_15_bits: 0.125f64.to_bits(),
        total_memory: 800,
        used_memory: 200,
        free_memory: 500,
        disks,
    }
}

fn disk(total: u64, available: u64) -> DiskSpace {
    DiskSpace { total, available }
}

fn interface(name: &str, addresses: &[&str]) -> Interface {
    Interface {
        name: name.to_string(),
        addresses: addresses.iter().map(|a| a.to_string()).collect(),
    }
}

fn request() -> CommandRequest {
    CommandRequest {
        command_id: "cmd-1".to_string(),
        command: "ls".to_string(),
        interactive: false,
    }
}

fn network() -> NetworkInfo {
    collect_network_info(&vec![interface("eth0", &["10.0.0.7"])], &vec![])
}

#[test]
fn client_id_is_made_from_the_hostname() {
    assert_eq!(get_client_id::<String>(Ok("web1".to_string())), Ok("client-web1".to_string()));
    assert_eq!(get_client_id::<String>(Ok("".to_string())), Ok("client-".to_string()));
    assert_eq!(
        get_client_id::<String>(Err("no name".to_string())),
        Err("no name".to_string())
    );
    assert_ne!(
        get_client_id::<String>(Ok("a".to_string())),
        get_client_id::<String>(Ok("b".to_string()))
    );
}

#[test]
fn hardware_is_described() {
    let readings = readings(vec![disk(100, 40), disk(300, 60)]);
    assert!(readings.is_complete());
    let info = collect_hardware_info(&readings, percent);
    let cpu = info.cpu.unwrap();
    assert_eq!(cpu.model, "model-a");
    assert_eq!(cpu.cores, 2);
    assert_eq!(f32::from_bits(cpu.usage_bits), 12.5);
    assert_eq!(f64::from_bits(cpu.load_avg_1_bits), 0.5);
    assert_eq!(f64::from_bits(cpu.load_avg_5_bits), 0.25);
    assert_eq!(f64::from_bits(cpu.load_avg_15_bits), 0.125);
    let memory = info.memory.unwrap();
    assert_eq!((memory.total, memory.used, memory.free), (800, 200, 500));
    assert_eq!(f64::from_bits(memory.usage_bits), 25.0);
    let disk = info.disk.unwrap();
    assert_eq!((disk.total, disk.used, disk.free), (400, 300, 100));
    assert_eq!(disk.used + disk.free, disk.total);
    assert_eq!(f64::from_bits(disk.usage_bits), 75.0);
}

#[test]
fn usage_without_disks_is_zero() {
    for disks in [vec![], vec![disk(0, 0), disk(0, 0)]] {
        let info = collect_hardware_info(&readings(disks), percent);
        let disk = info.disk.unwrap();
        assert_eq!((disk.total, disk.used, disk.free), (0, 0, 0));
        assert_eq!(f64::from_bits(disk.usage_bits), 0.0);
    }
}

#[test]
fn usage_without_memory_is_no_number() {
    let mut empty = readings(vec![]);
    empty.total_memory = 0;
    empty.used_memory = 0;
    let info = collect_hardware_info(&empty, percent);
    assert!(f64::from_bits(info.memory.unwrap().usage_bits).is_nan());
}

#[test]
fn readings_that_cannot_be_added_up_are_not_complete() {
    assert!(readings(vec![]).is_complete());
    assert!(readings(vec![disk(u64::MAX, 0)]).is_complete());
    assert!(readings(vec![disk(u64::MAX - 1, 0), disk(1, 1)]).is_complete());
    assert!(!readings(vec![disk(u64::MAX, 0), disk(1, 1)]).is_complete());
    assert!(!readings(vec![disk(10, 11)]).is_complete());
    let mut without_cpu = readings(vec![]);
    without_cpu.cpu_models.clear();
    assert!(!without_cpu.is_complete());
}

#[test]
fn address_is_that_of_the_first_fitting_interface() {
    let interfaces = vec![
        interface("lo", &["127.0.0.1"]),
        interface("eth0", &[]),
        interface("eth1", &["10.0.0.7", "fe80::1"]),
        interface("eth2", &["10.0.0.8"]),
    ];
    assert_eq!(collect_network_info(&interfaces, &vec![]).ip_address, "10.0.0.7");
}

#[test]
fn address_is_unknown_without_a_fitting_interface() {
    let interfaces = vec![interface("lo", &["127.0.0.1"]), interface("eth0", &[])];
    assert_eq!(collect_network_info(&interfaces, &vec![]).ip_address, "Unknown");
    assert_eq!(collect_network_info(&vec![], &vec![]).ip_address, "Unknown");
}

#[test]
fn traffic_is_added_up() {
    let traffic = vec![
        Traffic { transmitted: 10, received: 200 },
        Traffic { transmitted: 5, received: 0 },
    ];
    assert!(is_countable(&traffic));
    let info = collect_network_info(&vec![], &traffic);
    assert_eq!((info.tx_bytes, info.rx_bytes), (15, 200));
    assert_eq!((info.tx_speed, info.rx_speed), (0, 0));
    assert!(!is_countable(&vec![
        Traffic { transmitted: u64::MAX, received: 0 },
        Traffic { transmitted: 1, received: 0 },
    ]));
    assert!(!is_countable(&vec![
        Traffic { transmitted: 0, received: 1 },
        Traffic { transmitted: 0, received: u64::MAX },
    ]));
}

#[test]
fn report_holds_what_was_collected() {
    let hardware = collect_hardware_info(&readings(vec![disk(100, 40)]), percent);
    let copy: HardwareInfo = hardware.clone();
    let report = status_report_at(
        "client-a".to_string(),
        hardware,
        network(),
        3.5f64.to_bits(),
        1700000000500,
        seconds,
    );
    assert_eq!(report.client_id, "client-a");
    assert_eq!(f64::from_bits(report.timestamp_bits), 1700000000.5);
    assert_eq!(report.hardware, Some(copy));
    assert_eq!(report.network, Some(network()));
    assert_eq!(f64::from_bits(report.latency_bits), 3.5);
}

#[test]
fn report_has_the_time_of_the_clock() {
    let hardware = collect_hardware_info(&readings(vec![]), percent);
    let before = chrono::Utc::now().timestamp_millis() as f64 / 1000.0;
    let report = report_status("client-a".to_string(), hardware, network(), 0, seconds);
    let after = chrono::Utc::now().timestamp_millis() as f64 / 1000.0;
    let time = f64::from_bits(report.timestamp_bits);
    assert!(before <= time && time <= after);
    assert_eq!(report.client_id, "client-a");
    assert_eq!(report.network, Some(network()));
}

#[test]
fn commands_run_in_the_shell() {
    let unix = shell_invocation(false, "echo 'a b' | wc");
    assert_eq!(unix.program, "sh");
    assert_eq!(unix.args, vec!["-c".to_string(), "echo 'a b' | wc".to_string()]);
    let windows = shell_invocation(true, "dir");
    assert_eq!(windows.program, "cmd");
    assert_eq!(windows.args, vec!["/c".to_string(), "dir".to_string()]);
}

#[test]
fn output_arrives_as_it_was_written() {
    let output = ProgramOutput {
        code: Some(3),
        stdout: "命令 ok\n".as_bytes().to_vec(),
        stderr: b"warning".to_vec(),
    };
    let reply = command_reply(request(), &output);
    assert_eq!(reply.command_id, "cmd-1");
    assert_eq!(reply.exit_code, 3);
    assert_eq!(reply.stdout, "命令 ok\n");
    assert_eq!(reply.stderr, "warning");
    assert!(reply.completed);
}

#[test]
fn output_that_is_no_text_is_replaced() {
    let output = ProgramOutput {
        code: None,
        stdout: vec![b'a', 0xFF, b'b'],
        stderr: vec![],
    };
    let reply = command_reply(request(), &output);
    assert_eq!(reply.stdout, "a\u{FFFD}b");
    assert_eq!(reply.stderr, "");
    assert_eq!(reply.exit_code, -1);
}

#[test]
fn program_without_a_code_counts_as_minus_one() {
    let reply = reply_with(request(), None, "o".to_string(), "e".to_string());
    assert_eq!(reply.exit_code, -1);
    assert_eq!((reply.stdout.as_str(), reply.stderr.as_str()), ("o", "e"));
    assert_eq!(reply_with(request(), Some(0), String::new(), String::new()).exit_code, 0);
}

#[test]
fn order_of_disks_and_traffic_does_not_matter() {
    let one = collect_hardware_info(
        &readings(vec![disk(100, 40), disk(300, 60), disk(7, 7)]),
        percent,
    );
    let two = collect_hardware_info(
        &readings(vec![disk(7, 7), disk(300, 60), disk(100, 40)]),
        percent,
    );
    assert_eq!(one, two);
    assert_eq!(one.disk.unwrap().used, 300);
    let a = Traffic { transmitted: 10, received: 200 };
    let b = Traffic { transmitted: 5, received: 1 };
    assert_eq!(
        collect_network_info(&vec![], &vec![a, b]),
        collect_network_info(&vec![], &vec![b, a])
    );
}
