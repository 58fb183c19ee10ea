use accelerator::config::{
    any_lowered_match, builtin_aion2_profile, builtin_farever_profile, first_matching_profile,
    GameProfile, OptimizationsConfig, RoutingConfig,
};
use accelerator::registry::{
    interface_tuning_values, system_profile_tuning_values, tuning_plan, RegistryOptimizer, RestoreAction,
    INTERFACES_ROOT_PATH, SYSTEM_PROFILE_PATH,
};
use accelerator::settings::AppSettings;
use accelerator::watcher::{
    get_process_ports, matching_pids, ports_owned_by, scan_process_state, tcp_owner_rows, udp_owner_rows,
    ProcessState,
};

#[test]
fn default_settings() {
    let s = AppSettings::default();
    assert_eq!(s.vps_host, "72.61.111.131");
    assert_eq!(s.vps_ch1, 51820);
    assert_eq!(s.vps_ch2, 4433);
    assert_eq!(s.active_profile, "profiles/farever.json");
    assert!(s.enable_registry_tuning);
    assert!(!s.auto_connect);
}

#[test]
fn restore_plan_replays_backups_newest_first() {
    let mut opt = RegistryOptimizer::new();
    assert!(opt.apply_optimizations().is_ok());
    assert_eq!(opt.backup_count(), 0);
    opt.record_backup("K".to_string(), "A".to_string(), Some(5));
    opt.record_backup("K".to_string(), "B".to_string(), None);
    assert_eq!(opt.backup_count(), 2);
    let plan = opt.restore_plan();
    assert_eq!(opt.backup_count(), 0);
    assert_eq!(plan.len(), 2);
    match &plan[0] {
        RestoreAction::DeleteValue { key_path, value_name } => {
            assert_eq!(key_path, "K");
            assert_eq!(value_name, "B");
        }
        _ => panic!("expected delete"),
    }
    match &plan[1] {
        RestoreAction::SetDword { key_path, value_name, value } => {
            assert_eq!(key_path, "K");
            assert_eq!(value_name, "A");
            assert_eq!(*value, 5);
        }
        _ => panic!("expected set"),
    }
    opt.restore();
    assert_eq!(opt.backup_count(), 0);
}

#[test]
fn repeated_tuning_restores_the_first_value() {
    let mut opt = RegistryOptimizer::new();
    // First tuning found 5; the second found the tuned value 1.
    opt.record_backup("K".to_string(), "A".to_string(), Some(5));
    opt.record_backup("K".to_string(), "A".to_string(), Some(1));
    let plan = opt.restore_plan();
    let mut value = 1u32;
    for action in &plan {
        if let RestoreAction::SetDword { value: v, .. } = action {
            value = *v;
        }
    }
    assert_eq!(value, 5);
}

#[test]
fn tuning_values() {
    let i = interface_tuning_values();
    assert_eq!(i, vec![("TcpAckFrequency".to_string(), 1), ("TCPNoDelay".to_string(), 1), ("TcpDelAckTicks".to_string(), 0)]);
    let s = system_profile_tuning_values();
    assert_eq!(s, vec![("NetworkThrottlingIndex".to_string(), 0xFFFF_FFFF), ("SystemResponsiveness".to_string(), 0)]);
}

#[test]
fn stand_in_scan() {
    let profile = GameProfile {
        game_id: "g".to_string(),
        name: "G".to_string(),
        executables: vec![],
        routing: RoutingConfig { protocol: "UDP".to_string(), ports: vec![], target_subnets: vec![] },
        optimizations: OptimizationsConfig {
            enable_fastconnect: false,
            enable_multipath_dup: false,
            packet_duplication_rate: 1,
            dscp_tag: 0,
        },
    };
    let st = scan_process_state(&profile);
    assert!(st.is_running);
    assert_eq!(st.pids, vec![1337]);
    assert_eq!(st.tracked_ports.len(), 2);
    assert!(st.tracked_ports.contains(&3724) && st.tracked_ports.contains(&7777));
    assert_eq!(get_process_ports(1), st.tracked_ports);
    let copy = st.clone();
    assert_eq!(copy.tracked_ports, st.tracked_ports);
    let empty = ProcessState::default();
    assert!(!empty.is_running && empty.pids.is_empty() && empty.tracked_ports.is_empty());
}

#[test]
fn registry_rights_not_needed_without_registry() {
    assert!(RegistryOptimizer::is_admin());
}

#[test]
fn tuning_plan_covers_profile_and_each_interface() {
    let plan = tuning_plan(&vec!["{A}".to_string(), "{B}".to_string()]);
    assert_eq!(plan.len(), 8);
    assert_eq!(plan[0].key_path, SYSTEM_PROFILE_PATH);
    assert_eq!(plan[0].value_name, "NetworkThrottlingIndex");
    assert_eq!(plan[0].value, 0xFFFF_FFFF);
    assert_eq!(plan[1].value_name, "SystemResponsiveness");
    assert_eq!(plan[1].value, 0);
    let a_path = format!("{}\\{{A}}", INTERFACES_ROOT_PATH);
    let b_path = format!("{}\\{{B}}", INTERFACES_ROOT_PATH);
    assert_eq!(plan[2].key_path, a_path);
    assert_eq!(plan[2].value_name, "TcpAckFrequency");
    assert_eq!(plan[2].value, 1);
    assert_eq!(plan[3].value_name, "TCPNoDelay");
    assert_eq!(plan[3].value, 1);
    assert_eq!(plan[4].value_name, "TcpDelAckTicks");
    assert_eq!(plan[4].value, 0);
    assert_eq!(plan[7].key_path, b_path);
    assert_eq!(plan[7].value_name, "TcpDelAckTicks");
    assert_eq!(
        a_path,
        "SYSTEM\\CurrentControlSet\\Services\\Tcpip\\Parameters\\Interfaces\\{A}"
    );
    assert_eq!(tuning_plan(&Vec::new()).len(), 2);
}

#[test]
fn socket_rows_of_a_process() {
    // Port 7777 is 0x1E61; the table holds it as 0x611E in the low bytes.
    let rows = vec![(42u32, 0x0000_611Eu32), (7, 0x0000_5000), (42, 0x0000_0050), (42, 0xABCD_611E)];
    let ports = ports_owned_by(&rows, 42);
    assert_eq!(ports.len(), 2);
    assert!(ports.contains(&7777));
    assert!(ports.contains(&0x5000));
    assert!(ports_owned_by(&rows, 9).is_empty());
}

#[test]
fn lowered_names_match_equal_or_suffix() {
    let targets = vec!["aion2.exe".to_string(), "launcher.exe".to_string()];
    assert!(any_lowered_match(&targets, "aion2.exe"));
    assert!(any_lowered_match(&targets, "c:\\games\\aion2.exe"));
    assert!(any_lowered_match(&targets, "mylauncher.exe"));
    assert!(!any_lowered_match(&targets, "AION2.EXE"));
    assert!(!any_lowered_match(&targets, "aion2.exe.bak"));
    assert!(!any_lowered_match(&Vec::new(), "aion2.exe"));
}

#[test]
fn first_profile_that_matches() {
    let profiles = vec![builtin_farever_profile(), builtin_aion2_profile(), builtin_aion2_profile()];
    assert_eq!(first_matching_profile(&profiles, "Aion2Launcher.exe"), Some(1));
    assert_eq!(first_matching_profile(&profiles, "FAREVER.EXE"), Some(0));
    assert_eq!(first_matching_profile(&profiles, "chrome.exe"), None);
}

#[test]
fn processes_of_the_game() {
    let entries = vec![
        (4u32, "System".to_string()),
        (100, "Aion2.exe".to_string()),
        (200, "chrome.exe".to_string()),
        (300, "AION2-WIN64-SHIPPING.EXE".to_string()),
    ];
    assert_eq!(matching_pids(&entries, &builtin_aion2_profile()), vec![100, 300]);
    assert_eq!(matching_pids(&entries, &builtin_farever_profile()), Vec::<u32>::new());
}

#[test]
fn owner_tables_are_read_row_by_row() {
    let mut tcp = vec![0u8; 4 + 2 * 24];
    tcp[0] = 2;
    // Row 0: local port field at word 2, pid at word 5.
    tcp[4 + 8..4 + 12].copy_from_slice(&0x611Eu32.to_le_bytes());
    tcp[4 + 20..4 + 24].copy_from_slice(&42u32.to_le_bytes());
    tcp[28 + 8..28 + 12].copy_from_slice(&0x5000u32.to_le_bytes());
    tcp[28 + 20..28 + 24].copy_from_slice(&7u32.to_le_bytes());
    let rows = tcp_owner_rows(&tcp);
    assert_eq!(rows, vec![(42, 0x611E), (7, 0x5000)]);
    assert!(ports_owned_by(&rows, 42).contains(&7777));

    let mut udp = vec![0u8; 4 + 12];
    udp[0] = 1;
    udp[4 + 4..4 + 8].copy_from_slice(&0x3500u32.to_le_bytes());
    udp[4 + 8..4 + 12].copy_from_slice(&9u32.to_le_bytes());
    assert_eq!(udp_owner_rows(&udp), vec![(9, 0x3500)]);
    assert!(udp_owner_rows(&[0, 0, 0, 0]).is_empty());
}
