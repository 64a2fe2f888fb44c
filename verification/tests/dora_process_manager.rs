use mofa_studio::dora_process_manager::{
    dora_processes_running, get_dora_pids, parse_pid, pgrep_pids, running_dataflow_ids, ProcessInfo,
};
use sysinfo::{ProcessesToUpdate, System};

/// The system's process table as the manager reads it.
fn process_table() -> Vec<ProcessInfo> {
    let mut sys = System::new_all();
    sys.refresh_processes(ProcessesToUpdate::All, true);
    sys.processes()
        .iter()
        .map(|(pid, p)| ProcessInfo {
            pid: pid.as_u32(),
            name: p.name().to_str().map(|s| s.to_string()),
            cmd: p.cmd().iter().filter_map(|s| s.to_str()).collect::<Vec<_>>().join(" "),
        })
        .collect()
}

fn proc(pid: u32, name: &str, cmd: &str) -> ProcessInfo {
    ProcessInfo { pid, name: Some(name.to_string()), cmd: cmd.to_string() }
}

#[test]
fn test_get_dora_pids() {
    let pids = get_dora_pids(&process_table());
    println!("Found {} dora processes", pids.len());
    for pid in pids {
        println!("  - PID: {}", pid);
    }
}

#[test]
fn dora_pids_are_the_processes_named_dora() {
    let table = vec![
        proc(10, "dora", "dora daemon --quiet"),
        proc(11, "bash", "bash"),
        ProcessInfo { pid: 12, name: None, cmd: String::new() },
        proc(13, "dora-coordinator", ""),
    ];
    assert_eq!(get_dora_pids(&table), vec![10, 13]);
}

#[test]
fn running_needs_both_daemon_and_coordinator() {
    let table = vec![proc(10, "dora", "dora daemon --quiet"), proc(20, "dora", "dora coordinator --quiet")];
    assert!(dora_processes_running(None, None, &table));
    let daemon_only = vec![proc(10, "dora", "dora daemon --quiet")];
    assert!(!dora_processes_running(None, None, &daemon_only));
    // the managed children count when they are still named dora
    let children = vec![proc(7, "dora", ""), proc(8, "dora", "")];
    assert!(dora_processes_running(Some(7), Some(8), &children));
    assert!(!dora_processes_running(Some(7), Some(9), &children));
    let renamed = vec![proc(7, "python", "daemon"), proc(8, "dora", "coordinator")];
    assert!(!dora_processes_running(Some(7), Some(8), &renamed));
}

#[test]
fn running_dataflows_are_read_from_dora_list() {
    let out = "UUID                                 Name  Status\n\
               0190aa-11  tts  Running\n\
               0190aa-12  asr  Finished\n\
               \t 0190aa-13 llm Running\r\n";
    assert_eq!(running_dataflow_ids(out), vec!["0190aa-11".to_string(), "0190aa-13".to_string()]);
    assert!(running_dataflow_ids("").is_empty());
}

#[test]
fn pgrep_output_gives_the_pids() {
    assert_eq!(pgrep_pids("123\n 456 \nabc\n\n+7\n99999999999\n"), vec![123, 456, 7]);
}

#[test]
fn pids_parse_like_u32() {
    let p = |s: &str| parse_pid(&s.chars().collect());
    assert_eq!(p("0"), Some(0));
    assert_eq!(p("+42"), Some(42));
    assert_eq!(p("4294967295"), Some(u32::MAX));
    assert_eq!(p("4294967296"), None);
    assert_eq!(p("+"), None);
    assert_eq!(p(""), None);
    assert_eq!(p("-1"), None);
    assert_eq!(p("12a"), None);
}
