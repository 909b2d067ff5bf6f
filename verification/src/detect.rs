//! Runtime threat detection: the decisions.
//!
//! Reading `/proc` files and probing paths is the caller's work; given what
//! was read or found, these functions decide whether a threat is present and
//! what to report. Nothing here ends the process: a result is returned.

use vstd::prelude::*;
use vstd::string::*;

use crate::text::{
    chars_of,
    contains,
    contains_text,
    find_from,
    first_occurrence,
    decimal,
    i32_decimal,
    i32_to_decimal,
    is_digit,
    leading_whitespace,
    lemma_decimal_spells,
    lemma_i32_decimal_parses_back,
    lemma_leading_token_concat,
    lemma_leading_whitespace_concat,
    unicode_whitespace,
    leading_token_len,
    matches_at,
    parse_i32,
    parse_i32_in,
    skip_token,
    skip_whitespace,
    trim_leading_whitespace,
};

verus! {

/// The outcome of a detection: whether something was found, and what.
#[derive(Debug, Clone)]
pub struct DetectionResult {
    pub detected: bool,
    pub reason: String,
}

impl DetectionResult {
    /// Nothing was found.
    pub fn clean() -> (r: Self)
        ensures
            !r.detected,
            r.reason@ == Seq::<char>::empty(),
    {
        DetectionResult { detected: false, reason: String::new() }
    }

    /// Something was found, for the given reason.
    pub fn found(reason: &str) -> (r: Self)
        ensures
            r.detected,
            r.reason@ == reason@,
    {
        DetectionResult { detected: true, reason: String::from_str(reason) }
    }
}

/// The platform a detection pass runs on.
#[derive(Debug, Clone, Copy, PartialEq, Eq)]
pub enum Platform {
    Android,
    Ios,
    Desktop,
}

/// The individual checks.
#[derive(Debug, Clone, Copy, PartialEq, Eq)]
pub enum Check {
    FridaAndroid,
    RootAndroid,
    FridaIos,
    JailbreakIos,
    Debugger,
}

/// The checks that run on each platform, in the order they run.
pub open spec fn checks_for(platform: Platform) -> Seq<Check> {
    match platform {
        Platform::Android => seq![Check::FridaAndroid, Check::RootAndroid, Check::Debugger],
        Platform::Ios => seq![Check::FridaIos, Check::JailbreakIos, Check::Debugger],
        Platform::Desktop => seq![Check::Debugger],
    }
}

/// The checks to run on `platform`, in order.
pub fn platform_checks(platform: Platform) -> (checks: Vec<Check>)
    ensures
        checks@ == checks_for(platform),
{
    let mut checks: Vec<Check> = Vec::new();
    match platform {
        Platform::Android => {
            checks.push(Check::FridaAndroid);
            checks.push(Check::RootAndroid);
        },
        Platform::Ios => {
            checks.push(Check::FridaIos);
            checks.push(Check::JailbreakIos);
        },
        Platform::Desktop => {},
    }
    checks.push(Check::Debugger);
    assert(checks@ =~= checks_for(platform));
    checks
}

/// The index of the first check that found something, if any did.
pub open spec fn first_detection(outcomes: Seq<Option<DetectionResult>>) -> Option<int>
    decreases outcomes.len(),
{
    if outcomes.len() == 0 {
        None
    } else if outcomes[0] is Some {
        Some(0)
    } else {
        match first_detection(outcomes.drop_first()) {
            Some(i) => Some(i + 1),
            None => None,
        }
    }
}

/// The check to run next, given the outcomes of those run so far on
/// `platform`: none once one of them found something or all have run;
/// otherwise the next in order. A check therefore runs only when every
/// earlier one found nothing.
pub open spec fn spec_next_check(platform: Platform, outcomes: Seq<Option<DetectionResult>>) -> Option<
    Check,
> {
    if first_detection(outcomes) is Some || outcomes.len() >= checks_for(platform).len() {
        None
    } else {
        Some(checks_for(platform)[outcomes.len() as int])
    }
}

/// Decide which check runs next.
pub fn next_check(platform: Platform, outcomes: &[Option<DetectionResult>]) -> (next: Option<Check>)
    ensures
        next == spec_next_check(platform, outcomes@),
{
    let checks = platform_checks(platform);
    let mut i: usize = 0;
    assert(outcomes@.subrange(0, outcomes@.len() as int) =~= outcomes@);
    while i < outcomes.len()
        invariant
            i <= outcomes@.len(),
            first_detection(outcomes@) == match first_detection(
                outcomes@.subrange(i as int, outcomes@.len() as int),
            ) {
                Some(k) => Some(k + i),
                None => None,
            },
        decreases outcomes@.len() - i,
    {
        let ghost rest = outcomes@.subrange(i as int, outcomes@.len() as int);
        assert(rest.drop_first() =~= outcomes@.subrange(i + 1, outcomes@.len() as int));
        if outcomes[i].is_some() {
            return None;
        }
        i += 1;
    }
    assert(first_detection(outcomes@.subrange(i as int, outcomes@.len() as int)) is None);
    if outcomes.len() >= checks.len() {
        None
    } else {
        Some(checks[outcomes.len()])
    }
}

/// Combine the outcomes of the checks, in the order they ran: the first
/// finding is the result; with none, the result is clean.
pub fn run_all_checks(outcomes: &[Option<DetectionResult>]) -> (r: DetectionResult)
    ensures
        match first_detection(outcomes@) {
            Some(i) => r.detected == outcomes@[i].unwrap().detected && r.reason@
                == outcomes@[i].unwrap().reason@,
            None => !r.detected && r.reason@ == Seq::<char>::empty(),
        },
{
    let mut i: usize = 0;
    assert(outcomes@.subrange(0, outcomes@.len() as int) =~= outcomes@);
    while i < outcomes.len()
        invariant
            i <= outcomes@.len(),
            first_detection(outcomes@) == match first_detection(
                outcomes@.subrange(i as int, outcomes@.len() as int),
            ) {
                Some(k) => Some(k + i),
                None => None,
            },
        decreases outcomes@.len() - i,
    {
        let ghost rest = outcomes@.subrange(i as int, outcomes@.len() as int);
        assert(rest.drop_first() =~= outcomes@.subrange(i + 1, outcomes@.len() as int));
        match &outcomes[i] {
            Some(d) => {
                return DetectionResult { detected: d.detected, reason: d.reason.clone() };
            },
            None => {},
        }
        i += 1;
    }
    DetectionResult::clean()
}

/// A finding: the reason to report.
pub open spec fn finding_matches(r: Option<DetectionResult>, finding: Option<Seq<char>>) -> bool {
    match r {
        Some(d) => d.detected && finding == Some(d.reason@),
        None => finding is None,
    }
}

/// What `/proc/self/maps` may show of an injected Frida agent, in the order
/// they are looked for.
pub open spec fn maps_indicators() -> Seq<Seq<char>> {
    seq!["frida"@, "gum-js-loop"@, "linjector"@, "re.frida"@]
}

/// The first indicator that occurs in the maps text, from index `i` on.
pub open spec fn first_maps_indicator(maps: Seq<char>, i: int) -> Option<Seq<char>>
    decreases 4 - i,
{
    if i < 0 || i >= 4 {
        None
    } else if contains_text(maps, maps_indicators()[i]) {
        Some(maps_indicators()[i])
    } else {
        first_maps_indicator(maps, i + 1)
    }
}

/// Frida on Android, judged from the contents of `/proc/net/unix`,
/// `/proc/net/tcp`, `/proc/net/tcp6` and `/proc/self/maps` (`None` for a
/// file that could not be read): a Frida socket name, Frida's port 27042
/// (0x69A2, which those tables list as the port field `:69A2`), or an agent
/// mapped into the process.
pub open spec fn frida_android_finding(
    unix: Option<Seq<char>>,
    tcp: Option<Seq<char>>,
    tcp6: Option<Seq<char>>,
    maps: Option<Seq<char>>,
) -> Option<Seq<char>> {
    if unix matches Some(u) && (contains_text(u, "frida"@) || contains_text(u, "gum-js"@)
        || contains_text(u, "linjector"@)) {
        Some("Frida: detected in /proc/net/unix"@)
    } else if tcp matches Some(t) && contains_text(t, ":69A2"@) {
        Some("Frida: port 27042 open"@)
    } else if tcp6 matches Some(t) && contains_text(t, ":69A2"@) {
        Some("Frida: port 27042 open (tcp6)"@)
    } else if maps matches Some(m) && first_maps_indicator(m, 0) is Some {
        Some("Frida: '"@ + first_maps_indicator(maps.unwrap(), 0).unwrap() + "' in /proc/self/maps"@)
    } else {
        None
    }
}

/// The text of a file that may not have been read.
pub open spec fn opt_text(s: Option<&str>) -> Option<Seq<char>> {
    match s {
        Some(t) => Some(t@),
        None => None,
    }
}

/// Check the `/proc` contents for Frida on Android.
pub fn check_frida_android(
    unix: Option<&str>,
    tcp: Option<&str>,
    tcp6: Option<&str>,
    maps: Option<&str>,
) -> (r: Option<DetectionResult>)
    ensures
        finding_matches(
            r,
            frida_android_finding(opt_text(unix), opt_text(tcp), opt_text(tcp6), opt_text(maps)),
        ),
{
    if let Some(content) = unix {
        if contains(content, "frida") || contains(content, "gum-js") || contains(content, "linjector") {
            return Some(DetectionResult::found("Frida: detected in /proc/net/unix"));
        }
    }
    if let Some(content) = tcp {
        if contains(content, ":69A2") {
            return Some(DetectionResult::found("Frida: port 27042 open"));
        }
    }
    if let Some(content) = tcp6 {
        if contains(content, ":69A2") {
            return Some(DetectionResult::found("Frida: port 27042 open (tcp6)"));
        }
    }
    if let Some(content) = maps {
        let indicators: [&'static str; 4] = ["frida", "gum-js-loop", "linjector", "re.frida"];
        assert(indicators@.map_values(|s: &str| s@) =~= maps_indicators());
        let ghost finding = frida_android_finding(opt_text(unix), opt_text(tcp), opt_text(tcp6), opt_text(maps));
        assert(finding == if first_maps_indicator(content@, 0) is Some {
            Some("Frida: '"@ + first_maps_indicator(content@, 0).unwrap() + "' in /proc/self/maps"@)
        } else {
            None
        });
        let mut i: usize = 0;
        while i < 4
            invariant
                i <= 4,
                finding == if first_maps_indicator(content@, 0) is Some {
                    Some("Frida: '"@ + first_maps_indicator(content@, 0).unwrap() + "' in /proc/self/maps"@)
                } else {
                    None::<Seq<char>>
                },
                finding == frida_android_finding(opt_text(unix), opt_text(tcp), opt_text(tcp6), opt_text(maps)),
                indicators@.map_values(|s: &str| s@) == maps_indicators(),
                first_maps_indicator(content@, 0) == first_maps_indicator(content@, i as int),
            decreases 4 - i,
        {
            let ind = indicators[i];
            assert(ind@ == maps_indicators()[i as int]);
            if contains(content, ind) {
                let mut reason = String::from_str("Frida: '");
                reason.append(ind);
                reason.append("' in /proc/self/maps");
                return Some(DetectionResult { detected: true, reason });
            }
            i += 1;
        }
    }
    None
}

/// The first of `paths`, from index `i` on, that was found present
/// (`present[k]` tells whether `paths[k]` exists; a missing entry counts as
/// absent).
pub open spec fn first_present_path(paths: Seq<Seq<char>>, present: Seq<bool>, i: int) -> Option<
    Seq<char>,
>
    decreases paths.len() - i,
{
    if i < 0 || i >= paths.len() {
        None
    } else if i < present.len() && present[i] {
        Some(paths[i])
    } else {
        first_present_path(paths, present, i + 1)
    }
}

/// The texts of a list of paths.
pub open spec fn path_texts(paths: Seq<&str>) -> Seq<Seq<char>> {
    paths.map_values(|p: &str| p@)
}

/// The finding for a list of paths: `prefix` followed by the first path
/// found present.
pub open spec fn path_finding(prefix: Seq<char>, paths: Seq<Seq<char>>, present: Seq<bool>) -> Option<
    Seq<char>,
> {
    match first_present_path(paths, present, 0) {
        Some(p) => Some(prefix + p),
        None => None,
    }
}

fn find_present_path(prefix: &str, paths: &[&str], present: &[bool]) -> (r: Option<DetectionResult>)
    ensures
        finding_matches(r, path_finding(prefix@, path_texts(paths@), present@)),
{
    let mut i: usize = 0;
    while i < paths.len()
        invariant
            i <= paths@.len(),
            first_present_path(path_texts(paths@), present@, 0) == first_present_path(
                path_texts(paths@),
                present@,
                i as int,
            ),
        decreases paths@.len() - i,
    {
        if i < present.len() && present[i] {
            let mut reason = String::from_str(prefix);
            reason.append(paths[i]);
            return Some(DetectionResult { detected: true, reason });
        }
        i += 1;
    }
    None
}

/// Where a `su` binary may lie on a rooted Android device.
pub const SU_PATHS: [&'static str; 8] = [
    "/sbin/su",
    "/system/bin/su",
    "/system/xbin/su",
    "/data/local/xbin/su",
    "/data/local/bin/su",
    "/system/sd/xbin/su",
    "/system/bin/failsafe/su",
    "/data/local/su",
];

/// What Magisk leaves behind on Android.
pub const MAGISK_PATHS: [&'static str; 6] = [
    "/sbin/.magisk",
    "/dev/.magisk",
    "/data/adb/magisk",
    "/data/adb/magisk.img",
    "/cache/.disable_selinux",
    "/dev/magisk_debug",
];

/// The file written to test whether `/system` is writable.
pub const SYSTEM_WRITE_TEST_PATH: &'static str = "/system/.guardlib_rw_test";

/// Root on Android, judged from which of `SU_PATHS` and `MAGISK_PATHS`
/// exist: the first `su` binary found, else the first Magisk trace found.
pub open spec fn root_paths_finding(su_present: Seq<bool>, magisk_present: Seq<bool>) -> Option<
    Seq<char>,
> {
    match path_finding("Root: su binary at "@, path_texts(SU_PATHS@), su_present) {
        Some(f) => Some(f),
        None => path_finding("Root: Magisk indicator at "@, path_texts(MAGISK_PATHS@), magisk_present),
    }
}

/// Check for root on Android by the paths found present.
pub fn check_root_paths(su_present: &[bool], magisk_present: &[bool]) -> (r: Option<DetectionResult>)
    ensures
        finding_matches(r, root_paths_finding(su_present@, magisk_present@)),
{
    match find_present_path("Root: su binary at ", SU_PATHS.as_slice(), su_present) {
        Some(d) => Some(d),
        None => find_present_path("Root: Magisk indicator at ", MAGISK_PATHS.as_slice(), magisk_present),
    }
}

/// Root on Android when `/system` is writable (it never is on a stock
/// device). Run when no root path was found.
pub fn check_root_writable(system_writable: bool) -> (r: Option<DetectionResult>)
    ensures
        finding_matches(r, if system_writable { Some("Root: /system is writable"@) } else { None }),
{
    if system_writable {
        Some(DetectionResult::found("Root: /system is writable"))
    } else {
        None
    }
}

/// Whether the `/system` write test is to run: only when no root path was
/// found.
pub fn root_write_probe_needed(su_present: &[bool], magisk_present: &[bool]) -> (r: bool)
    ensures
        r == root_paths_finding(su_present@, magisk_present@) is None,
{
    check_root_paths(su_present, magisk_present).is_none()
}

/// Root on Android: the first root path found; else, when the `/system`
/// write test ran (`Some`), a writable `/system`.
pub open spec fn root_android_finding(
    su_present: Seq<bool>,
    magisk_present: Seq<bool>,
    system_writable: Option<bool>,
) -> Option<Seq<char>> {
    match root_paths_finding(su_present, magisk_present) {
        Some(f) => Some(f),
        None => if system_writable == Some(true) {
            Some("Root: /system is writable"@)
        } else {
            None
        },
    }
}

/// Check for root on Android.
pub fn check_root_android(su_present: &[bool], magisk_present: &[bool], system_writable: Option<bool>) -> (r:
    Option<DetectionResult>)
    ensures
        finding_matches(r, root_android_finding(su_present@, magisk_present@, system_writable)),
{
    match check_root_paths(su_present, magisk_present) {
        Some(d) => Some(d),
        None => match system_writable {
            Some(w) => check_root_writable(w),
            None => None,
        },
    }
}

/// Where Frida leaves files on iOS.
pub const FRIDA_IOS_PATHS: [&'static str; 3] = ["/tmp/frida-server", "/usr/lib/frida", "/usr/share/frida"];

/// Frida on iOS, judged from which of `FRIDA_IOS_PATHS` exist.
pub open spec fn frida_ios_finding(present: Seq<bool>) -> Option<Seq<char>> {
    path_finding("Frida: found at "@, path_texts(FRIDA_IOS_PATHS@), present)
}

/// Check for Frida on iOS by the paths found present.
pub fn check_frida_ios(present: &[bool]) -> (r: Option<DetectionResult>)
    ensures
        finding_matches(r, frida_ios_finding(present@)),
{
    find_present_path("Frida: found at ", FRIDA_IOS_PATHS.as_slice(), present)
}

/// What a jailbreak leaves on iOS.
pub const JAILBREAK_PATHS: [&'static str; 15] = [
    "/Applications/Cydia.app",
    "/Applications/Sileo.app",
    "/bin/bash",
    "/usr/sbin/sshd",
    "/etc/apt",
    "/private/var/lib/apt",
    "/private/var/mobile/Library/SBSettings/Themes",
    "/Library/MobileSubstrate/MobileSubstrate.dylib",
    "/bin/sh",
    "/usr/libexec/ssh-keysign",
    "/etc/ssh/sshd_config",
    "/usr/libexec/sftp-server",
    "/usr/bin/sshd",
    "/usr/local/bin/cycript",
    "/usr/bin/cycript",
];

/// The file written to test whether the app can write outside its sandbox.
pub const SANDBOX_WRITE_TEST_PATH: &'static str = "/private/guardlib_jb_test";

/// A jailbreak on iOS, judged from which of `JAILBREAK_PATHS` exist.
pub open spec fn jailbreak_paths_finding(present: Seq<bool>) -> Option<Seq<char>> {
    path_finding("Jailbreak: found at "@, path_texts(JAILBREAK_PATHS@), present)
}

/// Check for a jailbreak on iOS by the paths found present.
pub fn check_jailbreak_paths(present: &[bool]) -> (r: Option<DetectionResult>)
    ensures
        finding_matches(r, jailbreak_paths_finding(present@)),
{
    find_present_path("Jailbreak: found at ", JAILBREAK_PATHS.as_slice(), present)
}

/// A jailbreak on iOS when the app can write outside its sandbox. Run when
/// no jailbreak path was found.
pub fn check_sandbox_writable(writable: bool) -> (r: Option<DetectionResult>)
    ensures
        finding_matches(
            r,
            if writable { Some("Jailbreak: can write outside sandbox"@) } else { None },
        ),
{
    if writable {
        Some(DetectionResult::found("Jailbreak: can write outside sandbox"))
    } else {
        None
    }
}

/// `s` begins with `prefix`.
pub open spec fn starts_with(s: Seq<char>, prefix: Seq<char>) -> bool {
    prefix.len() <= s.len() && s.subrange(0, prefix.len() as int) == prefix
}

/// The second whitespace-separated token of a line, if it has one.
pub open spec fn second_token(line: Seq<char>) -> Option<Seq<char>> {
    let first = trim_leading_whitespace(line);
    let after_first = first.subrange(leading_token_len(first) as int, first.len() as int);
    let second = trim_leading_whitespace(after_first);
    if second.len() == 0 {
        None
    } else {
        Some(second.subrange(0, leading_token_len(second) as int))
    }
}

/// The tracer's process id a `/proc/self/status` line reports: on a line
/// that begins `TracerPid:`, the second token read as an i32.
pub open spec fn tracer_pid(line: Seq<char>) -> Option<i32> {
    if starts_with(line, "TracerPid:"@) {
        match second_token(line) {
            Some(token) => parse_i32(token),
            None => None,
        }
    } else {
        None
    }
}

/// A debugger, judged from the text of `/proc/self/status`: the first line
/// that reports a non-zero tracer.
pub open spec fn debugger_finding(status: Seq<char>) -> Option<Seq<char>>
    decreases status.len(),
{
    let end = match first_occurrence(status, seq!['\n']) {
        Some(e) => e,
        None => status.len() as int,
    };
    let line = status.subrange(0, end);
    if tracer_pid(line) matches Some(pid) && pid != 0 {
        Some("Debugger: TracerPid="@ + i32_decimal(tracer_pid(line).unwrap()))
    } else if 0 <= end < status.len() {
        debugger_finding(status.subrange(end + 1, status.len() as int))
    } else {
        None
    }
}

/// The tracer's process id reported by the line `chars[from..to]`.
fn tracer_pid_in(chars: &Vec<char>, prefix: &Vec<char>, from: usize, to: usize) -> (r: Option<i32>)
    requires
        from <= to <= chars@.len(),
        prefix@ == "TracerPid:"@,
    ensures
        r == tracer_pid(chars@.subrange(from as int, to as int)),
{
    let ghost line = chars@.subrange(from as int, to as int);
    if prefix.len() > to - from {
        return None;
    }
    if !matches_at(chars, from, prefix) {
        assert(line.subrange(0, prefix@.len() as int) =~= chars@.subrange(from as int, from + prefix@.len()));
        return None;
    }
    assert(line.subrange(0, prefix@.len() as int) =~= chars@.subrange(from as int, from + prefix@.len()));
    let p1 = skip_whitespace(chars, from, to);
    let p2 = skip_token(chars, p1, to);
    let ghost first = chars@.subrange(p1 as int, to as int);
    assert(first.subrange(leading_token_len(first) as int, first.len() as int) =~= chars@.subrange(
        p2 as int,
        to as int,
    ));
    let p3 = skip_whitespace(chars, p2, to);
    if p3 == to {
        return None;
    }
    let p4 = skip_token(chars, p3, to);
    assert(chars@.subrange(p3 as int, to as int).subrange(0, (p4 - p3) as int) =~= chars@.subrange(
        p3 as int,
        p4 as int,
    ));
    parse_i32_in(chars, p3, p4)
}

/// The text of a status file that may not have been read.
pub open spec fn opt_debugger_finding(status: Option<Seq<char>>) -> Option<Seq<char>> {
    match status {
        Some(t) => debugger_finding(t),
        None => None,
    }
}

/// Check `/proc/self/status` (when it was read) for an attached debugger.
pub fn check_debugger(status: Option<&str>) -> (r: Option<DetectionResult>)
    ensures
        finding_matches(r, opt_debugger_finding(opt_text(status))),
{
    let text = match status {
        Some(t) => t,
        None => return None,
    };
    let chars = chars_of(text);
    let newline: Vec<char> = vec!['\n'];
    assert(newline@ =~= seq!['\n']);
    let prefix = chars_of("TracerPid:");
    let mut start: usize = 0;
    assert(chars@.subrange(0, chars@.len() as int) =~= chars@);
    loop
        invariant
            start <= chars@.len(),
            chars@ == text@,
            opt_text(status) == Some(text@),
            newline@ == seq!['\n'],
            prefix@ == "TracerPid:"@,
            debugger_finding(text@) == debugger_finding(chars@.subrange(start as int, chars@.len() as int)),
        decreases chars@.len() - start,
    {
        let ghost rest = chars@.subrange(start as int, chars@.len() as int);
        let end = match find_from(&chars, start, &newline) {
            Some(e) => {
                proof {
                    crate::text::lemma_first_occurrence_within(rest, newline@, 0);
                }
                e
            },
            None => chars.len(),
        };
        assert(rest.subrange(0, end - start) =~= chars@.subrange(start as int, end as int));
        if end < chars.len() {
            assert(rest.subrange(end - start + 1, rest.len() as int) =~= chars@.subrange(
                end + 1,
                chars@.len() as int,
            ));
        }
        let ghost line = chars@.subrange(start as int, end as int);
        assert(debugger_finding(rest) == if tracer_pid(line) matches Some(p) && p != 0 {
            Some("Debugger: TracerPid="@ + i32_decimal(tracer_pid(line).unwrap()))
        } else if end < chars@.len() {
            debugger_finding(chars@.subrange(end + 1, chars@.len() as int))
        } else {
            None
        });
        if let Some(pid) = tracer_pid_in(&chars, &prefix, start, end) {
            if pid != 0 {
                let mut reason = String::from_str("Debugger: TracerPid=");
                let digits = i32_to_decimal(pid);
                reason.append(digits.as_str());
                return Some(DetectionResult { detected: true, reason });
            }
        }
        if end >= chars.len() {
            return None;
        }
        start = end + 1;
    }
}

/// Whether the sandbox write test is to run: only when no jailbreak path
/// was found.
pub fn jailbreak_write_probe_needed(present: &[bool]) -> (r: bool)
    ensures
        r == jailbreak_paths_finding(present@) is None,
{
    check_jailbreak_paths(present).is_none()
}

/// A jailbreak on iOS: the first jailbreak path found; else, when the
/// sandbox write test ran (`Some`), writing outside the sandbox.
pub open spec fn jailbreak_ios_finding(present: Seq<bool>, sandbox_writable: Option<bool>) -> Option<
    Seq<char>,
> {
    match jailbreak_paths_finding(present) {
        Some(f) => Some(f),
        None => if sandbox_writable == Some(true) {
            Some("Jailbreak: can write outside sandbox"@)
        } else {
            None
        },
    }
}

/// Check for a jailbreak on iOS.
pub fn check_jailbreak_ios(present: &[bool], sandbox_writable: Option<bool>) -> (r: Option<DetectionResult>)
    ensures
        finding_matches(r, jailbreak_ios_finding(present@, sandbox_writable)),
{
    match check_jailbreak_paths(present) {
        Some(d) => Some(d),
        None => match sandbox_writable {
            Some(w) => check_sandbox_writable(w),
            None => None,
        },
    }
}

/// A Frida socket name in `/proc/net/unix` (`frida`, `gum-js` or
/// `linjector`) is reported, whatever the other files hold.
pub proof fn lemma_frida_socket_reported(
    unix: Seq<char>,
    tcp: Option<Seq<char>>,
    tcp6: Option<Seq<char>>,
    maps: Option<Seq<char>>,
)
    requires
        contains_text(unix, "frida"@) || contains_text(unix, "gum-js"@) || contains_text(
            unix,
            "linjector"@,
        ),
    ensures
        frida_android_finding(Some(unix), tcp, tcp6, maps) == Some("Frida: detected in /proc/net/unix"@),
{
}

/// No Frida socket name in `/proc/net/unix`, then port 27042 (`:69A2`) in
/// `/proc/net/tcp` is reported; failing that, in `/proc/net/tcp6`.
pub proof fn lemma_frida_port_reported(
    unix: Option<Seq<char>>,
    tcp: Option<Seq<char>>,
    tcp6: Option<Seq<char>>,
    maps: Option<Seq<char>>,
)
    requires
        unix matches Some(u) ==> !contains_text(u, "frida"@) && !contains_text(u, "gum-js"@)
            && !contains_text(u, "linjector"@),
    ensures
        tcp matches Some(t) && contains_text(t, ":69A2"@) ==> frida_android_finding(
            unix,
            tcp,
            tcp6,
            maps,
        ) == Some("Frida: port 27042 open"@),
        (tcp matches Some(t) ==> !contains_text(t, ":69A2"@)) && (tcp6 matches Some(t6)
            && contains_text(t6, ":69A2"@)) ==> frida_android_finding(unix, tcp, tcp6, maps)
            == Some("Frida: port 27042 open (tcp6)"@),
{
}

/// With no socket name and no port 27042, an agent in `/proc/self/maps` is
/// reported by the first of `frida`, `gum-js-loop`, `linjector` that it
/// holds; with none of the signs anywhere, nothing is reported.
pub proof fn lemma_frida_maps_reported(
    unix: Option<Seq<char>>,
    tcp: Option<Seq<char>>,
    tcp6: Option<Seq<char>>,
    maps: Seq<char>,
)
    requires
        unix matches Some(u) ==> !contains_text(u, "frida"@) && !contains_text(u, "gum-js"@)
            && !contains_text(u, "linjector"@),
        tcp matches Some(t) ==> !contains_text(t, ":69A2"@),
        tcp6 matches Some(t) ==> !contains_text(t, ":69A2"@),
    ensures
        contains_text(maps, "frida"@) ==> frida_android_finding(unix, tcp, tcp6, Some(maps)) == Some(
            "Frida: '"@ + "frida"@ + "' in /proc/self/maps"@,
        ),
        !contains_text(maps, "frida"@) && contains_text(maps, "gum-js-loop"@)
            ==> frida_android_finding(unix, tcp, tcp6, Some(maps)) == Some(
            "Frida: '"@ + "gum-js-loop"@ + "' in /proc/self/maps"@,
        ),
        !contains_text(maps, "frida"@) && !contains_text(maps, "gum-js-loop"@) && contains_text(
            maps,
            "linjector"@,
        ) ==> frida_android_finding(unix, tcp, tcp6, Some(maps)) == Some(
            "Frida: '"@ + "linjector"@ + "' in /proc/self/maps"@,
        ),
        !contains_text(maps, "frida"@) && !contains_text(maps, "gum-js-loop"@) && !contains_text(
            maps,
            "linjector"@,
        ) && !contains_text(maps, "re.frida"@) ==> frida_android_finding(
            unix,
            tcp,
            tcp6,
            Some(maps),
        ) is None,
{
    reveal_with_fuel(first_maps_indicator, 5);
}

/// A line that does not begin `TracerPid:` changes nothing: the finding for
/// the status text with that line in front is the finding for the rest,
/// however long the line and wherever the tracer line stands.
pub proof fn lemma_debugger_skips_other_lines(line: Seq<char>, rest: Seq<char>)
    requires
        !line.contains('\n'),
        !starts_with(line, "TracerPid:"@),
    ensures
        debugger_finding(line + seq!['\n'] + rest) == debugger_finding(rest),
{
    let status = line + seq!['\n'] + rest;
    assert forall|k: int| 0 <= k < line.len() implies status[k] != '\n' by {
        assert(status[k] == line[k]);
    }
    crate::text::lemma_first_char_occurrence(status, '\n', line.len() as int);
    assert(status.subrange(0, line.len() as int) =~= line);
    assert(status.subrange(line.len() as int + 1, status.len() as int) =~= rest);
}

/// A line that reports a non-zero tracer, followed by a newline, is
/// reported, whatever comes after it.
pub proof fn lemma_debugger_reports_tracer_line(line: Seq<char>, rest: Seq<char>)
    requires
        !line.contains('\n'),
        tracer_pid(line) matches Some(pid) && pid != 0,
    ensures
        debugger_finding(line + seq!['\n'] + rest) == Some(
            "Debugger: TracerPid="@ + i32_decimal(tracer_pid(line).unwrap()),
        ),
{
    let status = line + seq!['\n'] + rest;
    assert forall|k: int| 0 <= k < line.len() implies status[k] != '\n' by {
        assert(status[k] == line[k]);
    }
    crate::text::lemma_first_char_occurrence(status, '\n', line.len() as int);
    assert(status.subrange(0, line.len() as int) =~= line);
}

/// A status line `TracerPid:`, whitespace, then a process id in decimal
/// reports exactly that id, for every i32 and every whitespace separator.
pub proof fn lemma_tracer_pid_reads_the_id(sep: Seq<char>, pid: i32)
    requires
        sep.len() > 0,
        forall|i: int| 0 <= i < sep.len() ==> unicode_whitespace(#[trigger] sep[i]),
    ensures
        tracer_pid("TracerPid:"@ + sep + i32_decimal(pid)) == Some(pid),
{
    reveal_strlit("TracerPid:");
    let prefix = "TracerPid:"@;
    let digits = i32_decimal(pid);
    let line = prefix + sep + digits;
    lemma_i32_decimal_parses_back(pid);
    let magnitude = if pid < 0 { (-pid) as nat } else { pid as nat };
    lemma_decimal_spells(magnitude);
    assert forall|i: int| 0 <= i < digits.len() implies !unicode_whitespace(#[trigger] digits[i]) by {
        if pid < 0 {
            if i > 0 {
                assert(digits[i] == decimal(magnitude)[i - 1]);
                assert(is_digit(decimal(magnitude)[i - 1]));
            }
        } else {
            assert(is_digit(decimal(magnitude)[i]));
        }
    }
    assert forall|i: int| 0 <= i < prefix.len() implies !unicode_whitespace(#[trigger] prefix[i]) by {}
    assert(line.subrange(0, prefix.len() as int) =~= prefix);
    assert(starts_with(line, prefix));
    // The first token is `TracerPid:`, the second the digits.
    assert(line =~= prefix + (sep + digits));
    lemma_leading_whitespace_concat(Seq::<char>::empty(), line);
    assert(Seq::<char>::empty() + line =~= line);
    assert(leading_whitespace(line) == 0);
    assert(trim_leading_whitespace(line) =~= line);
    lemma_leading_token_concat(prefix, sep + digits);
    assert(leading_token_len(sep + digits) == 0);
    let after_first = line.subrange(prefix.len() as int, line.len() as int);
    assert(after_first =~= sep + digits);
    lemma_leading_whitespace_concat(sep, digits);
    assert(leading_whitespace(digits) == 0);
    assert(trim_leading_whitespace(after_first) =~= digits);
    lemma_leading_token_concat(digits, Seq::<char>::empty());
    assert(digits + Seq::<char>::empty() =~= digits);
    assert(leading_token_len(Seq::<char>::empty()) == 0);
    assert(digits.subrange(0, digits.len() as int) =~= digits);
}

proof fn lemma_first_present_is(paths: Seq<Seq<char>>, present: Seq<bool>, i: int, k: int)
    requires
        0 <= i <= k < paths.len(),
        k < present.len(),
        present[k],
        forall|x: int| 0 <= x < k && x < present.len() ==> !present[x],
    ensures
        first_present_path(paths, present, i) == Some(paths[k]),
    decreases k - i,
{
    if i < k {
        lemma_first_present_is(paths, present, i + 1, k);
    }
}

proof fn lemma_none_present(paths: Seq<Seq<char>>, present: Seq<bool>, i: int)
    requires
        0 <= i,
        forall|x: int| 0 <= x < present.len() ==> !present[x],
    ensures
        first_present_path(paths, present, i) is None,
    decreases paths.len() - i,
{
    if i < paths.len() {
        lemma_none_present(paths, present, i + 1);
    }
}

/// Every jailbreak path counts: the first one found present is reported,
/// whichever place it has in the list; with none present, the sandbox write
/// test decides.
pub proof fn lemma_jailbreak_paths_reported(present: Seq<bool>, k: int)
    requires
        0 <= k < 15,
        k < present.len(),
        present[k],
        forall|x: int| 0 <= x < k && x < present.len() ==> !present[x],
    ensures
        jailbreak_paths_finding(present) == Some("Jailbreak: found at "@ + JAILBREAK_PATHS@[k]@),
        forall|w: Option<bool>| #[trigger] jailbreak_ios_finding(present, w) == Some(
            "Jailbreak: found at "@ + JAILBREAK_PATHS@[k]@,
        ),
{
    lemma_first_present_is(path_texts(JAILBREAK_PATHS@), present, 0, k);
}

/// With no jailbreak path present, the finding is the sandbox write test's:
/// writing outside the sandbox is reported, anything else is not.
pub proof fn lemma_jailbreak_without_paths(present: Seq<bool>, writable: Option<bool>)
    requires
        forall|x: int| 0 <= x < present.len() ==> !present[x],
    ensures
        jailbreak_paths_finding(present) is None,
        jailbreak_ios_finding(present, writable) == if writable == Some(true) {
            Some("Jailbreak: can write outside sandbox"@)
        } else {
            None
        },
{
    lemma_none_present(path_texts(JAILBREAK_PATHS@), present, 0);
}

/// Every Frida path on iOS counts: the first one found present is reported.
pub proof fn lemma_frida_ios_paths_reported(present: Seq<bool>, k: int)
    requires
        0 <= k < 3,
        k < present.len(),
        present[k],
        forall|x: int| 0 <= x < k && x < present.len() ==> !present[x],
    ensures
        frida_ios_finding(present) == Some("Frida: found at "@ + FRIDA_IOS_PATHS@[k]@),
{
    lemma_first_present_is(path_texts(FRIDA_IOS_PATHS@), present, 0, k);
}

/// Every `su` path counts: the first one found present is reported, before
/// any Magisk trace and the write test.
pub proof fn lemma_su_paths_reported(su_present: Seq<bool>, magisk_present: Seq<bool>, k: int)
    requires
        0 <= k < 8,
        k < su_present.len(),
        su_present[k],
        forall|x: int| 0 <= x < k && x < su_present.len() ==> !su_present[x],
    ensures
        root_paths_finding(su_present, magisk_present) == Some(
            "Root: su binary at "@ + SU_PATHS@[k]@,
        ),
        forall|w: Option<bool>| #[trigger] root_android_finding(su_present, magisk_present, w)
            == Some("Root: su binary at "@ + SU_PATHS@[k]@),
{
    lemma_first_present_is(path_texts(SU_PATHS@), su_present, 0, k);
}

/// With no `su` binary, every Magisk trace counts: the first one found
/// present is reported, before the write test.
pub proof fn lemma_magisk_paths_reported(su_present: Seq<bool>, magisk_present: Seq<bool>, k: int)
    requires
        forall|x: int| 0 <= x < su_present.len() ==> !su_present[x],
        0 <= k < 6,
        k < magisk_present.len(),
        magisk_present[k],
        forall|x: int| 0 <= x < k && x < magisk_present.len() ==> !magisk_present[x],
    ensures
        root_paths_finding(su_present, magisk_present) == Some(
            "Root: Magisk indicator at "@ + MAGISK_PATHS@[k]@,
        ),
{
    lemma_none_present(path_texts(SU_PATHS@), su_present, 0);
    lemma_first_present_is(path_texts(MAGISK_PATHS@), magisk_present, 0, k);
}

/// With no root path present, the finding is the `/system` write test's.
pub proof fn lemma_root_without_paths(su_present: Seq<bool>, magisk_present: Seq<bool>, writable: Option<bool>)
    requires
        forall|x: int| 0 <= x < su_present.len() ==> !su_present[x],
        forall|x: int| 0 <= x < magisk_present.len() ==> !magisk_present[x],
    ensures
        root_paths_finding(su_present, magisk_present) is None,
        root_android_finding(su_present, magisk_present, writable) == if writable == Some(true) {
            Some("Root: /system is writable"@)
        } else {
            None
        },
{
    lemma_none_present(path_texts(SU_PATHS@), su_present, 0);
    lemma_none_present(path_texts(MAGISK_PATHS@), magisk_present, 0);
}

} // verus!
