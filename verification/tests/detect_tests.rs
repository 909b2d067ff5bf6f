use guardlib::detect::{
    check_debugger, check_frida_android, check_frida_ios, check_jailbreak_ios, check_jailbreak_paths,
    check_root_android, check_root_paths, check_root_writable, check_sandbox_writable,
    jailbreak_write_probe_needed, next_check, platform_checks, root_write_probe_needed,
    run_all_checks, Check, DetectionResult, Platform,
};

fn reason(r: Option<DetectionResult>) -> Option<String> {
    r.map(|d| {
        assert!(d.detected);
        d.reason
    })
}

#[test]
fn clean_and_found() {
    let c = DetectionResult::clean();
    assert!(!c.detected);
    assert_eq!(c.reason, "");
    let f = DetectionResult::found("Root: x");
    assert!(f.detected);
    assert_eq!(f.reason, "Root: x");
}

#[test]
fn checks_per_platform() {
    assert_eq!(platform_checks(Platform::Android), vec![Check::FridaAndroid, Check::RootAndroid, Check::Debugger]);
    assert_eq!(platform_checks(Platform::Ios), vec![Check::FridaIos, Check::JailbreakIos, Check::Debugger]);
    assert_eq!(platform_checks(Platform::Desktop), vec![Check::Debugger]);
}

#[test]
fn first_finding_wins() {
    let outcomes = vec![None, Some(DetectionResult::found("second")), Some(DetectionResult::found("third"))];
    let r = run_all_checks(&outcomes);
    assert!(r.detected);
    assert_eq!(r.reason, "second");
}

#[test]
fn no_finding_is_clean() {
    let r = run_all_checks(&[None, None]);
    assert!(!r.detected);
    assert_eq!(r.reason, "");
    assert!(!run_all_checks(&[]).detected);
}

#[test]
fn frida_socket_is_detected() {
    let unix = "Num RefCount Protocol\n0000: 00000002 @linjector-42\n";
    assert_eq!(
        reason(check_frida_android(Some(unix), None, None, None)),
        Some("Frida: detected in /proc/net/unix".to_string())
    );
}

#[test]
fn frida_port_is_detected() {
    let tcp = "  sl  local_address rem_address   st\n   0: 0100007F:69A2 00000000:0000 0A";
    assert_eq!(
        reason(check_frida_android(Some("clean"), Some(tcp), None, None)),
        Some("Frida: port 27042 open".to_string())
    );
    assert_eq!(
        reason(check_frida_android(None, Some("clean"), Some(tcp), None)),
        Some("Frida: port 27042 open (tcp6)".to_string())
    );
}

#[test]
fn other_ports_are_not_frida() {
    // 0x699A is port 27034 and 0x9A69 is port 39529; neither is 27042.
    let tcp = "   0: 0100007F:699A 00000000:0000 0A\n   1: 0100007F:1F90 0A0B0C0D:9A69 01";
    assert!(check_frida_android(None, Some(tcp), Some(tcp), None).is_none());
}

#[test]
fn frida_agent_in_maps_is_detected() {
    let maps = "7f00 r-xp /data/local/tmp/re.frida.server/frida-agent-64.so";
    assert_eq!(
        reason(check_frida_android(None, None, None, Some(maps))),
        Some("Frida: 'frida' in /proc/self/maps".to_string())
    );
    let maps = "7f00 r-xp [anon:gum-js-loop]";
    assert_eq!(
        reason(check_frida_android(None, None, None, Some(maps))),
        Some("Frida: 'gum-js-loop' in /proc/self/maps".to_string())
    );
}

#[test]
fn clean_proc_files_find_nothing() {
    assert!(check_frida_android(Some("a"), Some("b"), Some("c"), Some("d")).is_none());
    assert!(check_frida_android(None, None, None, None).is_none());
}

#[test]
fn root_paths() {
    let mut su = [false; 8];
    su[2] = true;
    su[5] = true;
    assert_eq!(reason(check_root_paths(&su, &[true; 6])), Some("Root: su binary at /system/xbin/su".to_string()));
    let mut magisk = [false; 6];
    magisk[3] = true;
    assert_eq!(
        reason(check_root_paths(&[false; 8], &magisk)),
        Some("Root: Magisk indicator at /data/adb/magisk.img".to_string())
    );
    assert!(check_root_paths(&[false; 8], &[false; 6]).is_none());
    assert!(check_root_paths(&[], &[]).is_none());
}

#[test]
fn writable_system_is_root() {
    assert_eq!(reason(check_root_writable(true)), Some("Root: /system is writable".to_string()));
    assert!(check_root_writable(false).is_none());
}

#[test]
fn ios_paths() {
    assert_eq!(reason(check_frida_ios(&[false, true, false])), Some("Frida: found at /usr/lib/frida".to_string()));
    assert!(check_frida_ios(&[false; 3]).is_none());
    let mut jb = [false; 15];
    jb[14] = true;
    assert_eq!(reason(check_jailbreak_paths(&jb)), Some("Jailbreak: found at /usr/bin/cycript".to_string()));
    assert_eq!(reason(check_sandbox_writable(true)), Some("Jailbreak: can write outside sandbox".to_string()));
    assert!(check_sandbox_writable(false).is_none());
}

#[test]
fn tracer_pid_reports_a_debugger() {
    let status = "Name:\tapp\nState:\tS (sleeping)\nTracerPid:\t1234\nUid:\t1000\n";
    assert_eq!(reason(check_debugger(Some(status))), Some("Debugger: TracerPid=1234".to_string()));
}

#[test]
fn zero_or_unreadable_tracer_pid_is_no_debugger() {
    assert!(check_debugger(Some("Name:\tapp\nTracerPid:\t0\n")).is_none());
    assert!(check_debugger(Some("TracerPid:\tabc\n")).is_none());
    assert!(check_debugger(Some("TracerPid:\n")).is_none());
    assert!(check_debugger(Some("TracerPid:\t99999999999\n")).is_none());
    assert!(check_debugger(Some("XTracerPid:\t5\n")).is_none());
    assert!(check_debugger(None).is_none());
}

#[test]
fn tracer_pid_with_sign_and_crlf() {
    assert_eq!(reason(check_debugger(Some("TracerPid: -7\r\n"))), Some("Debugger: TracerPid=-7".to_string()));
    assert_eq!(reason(check_debugger(Some("TracerPid:\t+42"))), Some("Debugger: TracerPid=42".to_string()));
    assert_eq!(
        reason(check_debugger(Some("TracerPid: -2147483648"))),
        Some("Debugger: TracerPid=-2147483648".to_string())
    );
}

#[test]
fn checks_run_in_order_until_a_finding() {
    assert_eq!(next_check(Platform::Android, &[]), Some(Check::FridaAndroid));
    assert_eq!(next_check(Platform::Android, &[None]), Some(Check::RootAndroid));
    assert_eq!(next_check(Platform::Android, &[None, None]), Some(Check::Debugger));
    assert_eq!(next_check(Platform::Android, &[None, None, None]), None);
    assert_eq!(next_check(Platform::Android, &[Some(DetectionResult::found("Frida"))]), None);
    assert_eq!(next_check(Platform::Ios, &[None]), Some(Check::JailbreakIos));
    assert_eq!(next_check(Platform::Desktop, &[]), Some(Check::Debugger));
    assert_eq!(next_check(Platform::Desktop, &[None]), None);
}

#[test]
fn write_probe_runs_only_without_a_path_finding() {
    assert!(root_write_probe_needed(&[false; 8], &[false; 6]));
    assert!(!root_write_probe_needed(&[true; 8], &[false; 6]));
    assert!(jailbreak_write_probe_needed(&[false; 15]));
    assert!(!jailbreak_write_probe_needed(&[true; 15]));
}

#[test]
fn root_and_jailbreak_combined() {
    assert_eq!(
        reason(check_root_android(&[true; 8], &[false; 6], None)),
        Some("Root: su binary at /sbin/su".to_string())
    );
    assert_eq!(
        reason(check_root_android(&[false; 8], &[false; 6], Some(true))),
        Some("Root: /system is writable".to_string())
    );
    assert!(check_root_android(&[false; 8], &[false; 6], Some(false)).is_none());
    assert!(check_root_android(&[false; 8], &[false; 6], None).is_none());
    assert_eq!(
        reason(check_jailbreak_ios(&[false; 15], Some(true))),
        Some("Jailbreak: can write outside sandbox".to_string())
    );
    assert!(check_jailbreak_ios(&[false; 15], None).is_none());
}
