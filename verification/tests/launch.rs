use systrace::bootstrap::LaunchError;
use systrace::launch::{
    build_environment, check_command, command_line, contains_nul, env_overrides,
    injected_libraries, log_level, parse_env_override, preload_entry, required_libraries,
    LogLevel,
};

fn pair(k: &str, v: &str) -> (String, String) {
    (k.to_string(), v.to_string())
}

fn paths(list: &[&str]) -> Vec<String> {
    list.iter().map(|s| s.to_string()).collect()
}

fn preload_entries(env: &Vec<String>) -> usize {
    env.iter().filter(|e| e.starts_with("LD_PRELOAD=")).count()
}

#[test]
fn minimal_environment() {
    let inherited = vec![pair("HOME", "/root"), pair("PATH", "/opt/bin")];
    let env = build_environment(false, &inherited, &Vec::new(), &paths(&["/l/a.so"]));
    assert_eq!(env, vec!["PATH=/bin:/usr/bin".to_string(), "LD_PRELOAD=/l/a.so".to_string()]);
}

#[test]
fn inherited_environment_with_overrides() {
    let inherited = vec![pair("HOME", "/root"), pair("EMPTY", "")];
    let overrides = vec![pair("A", "1"), pair("FLAG", ""), pair("B", "x=y")];
    let env = build_environment(true, &inherited, &overrides, &paths(&["/l/a.so", "/l/b.so"]));
    assert_eq!(
        env,
        vec![
            "HOME=/root".to_string(),
            "EMPTY=".to_string(),
            "A=1".to_string(),
            "FLAG".to_string(),
            "B=x=y".to_string(),
            "LD_PRELOAD=/l/a.so:/l/b.so".to_string(),
        ]
    );
}

#[test]
fn overrides_follow_the_minimal_path() {
    let overrides = vec![pair("PATH", "/x")];
    let env = build_environment(false, &Vec::new(), &overrides, &Vec::new());
    assert_eq!(
        env,
        vec!["PATH=/bin:/usr/bin".to_string(), "PATH=/x".to_string(), "LD_PRELOAD=".to_string()]
    );
}

#[test]
fn injected_libraries_are_appended_to_inherited_preload() {
    let inherited = vec![pair("HOME", "/root"), pair("LD_PRELOAD", "/x.so"), pair("USER", "u")];
    let injected = paths(&["/lib/libechotool.so", "/lib/libsystrace.so"]);
    let env = build_environment(true, &inherited, &Vec::new(), &injected);
    assert_eq!(
        env,
        vec![
            "HOME=/root".to_string(),
            "USER=u".to_string(),
            "LD_PRELOAD=/x.so:/lib/libechotool.so:/lib/libsystrace.so".to_string(),
        ]
    );
    assert_eq!(preload_entries(&env), 1);
}

#[test]
fn overridden_preload_is_the_one_appended_to() {
    let inherited = vec![pair("LD_PRELOAD", "/x.so"), pair("HOME", "/root")];
    let overrides = vec![pair("A", "1"), pair("LD_PRELOAD", "/y.so:/z.so")];
    let env = build_environment(true, &inherited, &overrides, &paths(&["/l/e.so", "/l/s.so"]));
    assert_eq!(
        env,
        vec![
            "HOME=/root".to_string(),
            "A=1".to_string(),
            "LD_PRELOAD=/y.so:/z.so:/l/e.so:/l/s.so".to_string(),
        ]
    );
    assert_eq!(preload_entries(&env), 1);
}

#[test]
fn inherited_preload_is_left_out_of_the_minimal_environment() {
    let inherited = vec![pair("LD_PRELOAD", "/x.so")];
    let env = build_environment(false, &inherited, &Vec::new(), &paths(&["/l/e.so"]));
    assert_eq!(env, vec!["PATH=/bin:/usr/bin".to_string(), "LD_PRELOAD=/l/e.so".to_string()]);
    let overrides = vec![pair("LD_PRELOAD", "/o.so")];
    let env = build_environment(false, &inherited, &overrides, &paths(&["/l/e.so"]));
    assert_eq!(env, vec!["PATH=/bin:/usr/bin".to_string(), "LD_PRELOAD=/o.so:/l/e.so".to_string()]);
}

#[test]
fn preload_set_to_nothing_and_preload_without_value() {
    let inherited = vec![pair("LD_PRELOAD", "")];
    let env = build_environment(true, &inherited, &Vec::new(), &paths(&["/l/e.so"]));
    assert_eq!(env, vec!["LD_PRELOAD=:/l/e.so".to_string()]);
    let overrides = vec![pair("LD_PRELOAD", "")];
    let env = build_environment(true, &Vec::new(), &overrides, &paths(&["/l/e.so"]));
    assert_eq!(env, vec!["LD_PRELOAD".to_string(), "LD_PRELOAD=/l/e.so".to_string()]);
    assert_eq!(preload_entries(&env), 1);
    let other = vec![pair("LD_PRELOAD_AUDIT", "/a.so")];
    let env = build_environment(true, &other, &Vec::new(), &paths(&["/l/e.so"]));
    assert_eq!(env, vec!["LD_PRELOAD_AUDIT=/a.so".to_string(), "LD_PRELOAD=/l/e.so".to_string()]);
}

#[test]
fn preload_joins_the_libraries() {
    assert_eq!(
        preload_entry(&None, &paths(&["/lib/libechotool.so", "/lib/libsystrace.so"])),
        "LD_PRELOAD=/lib/libechotool.so:/lib/libsystrace.so"
    );
    assert_eq!(preload_entry(&None, &paths(&["/a.so"])), "LD_PRELOAD=/a.so");
    assert_eq!(preload_entry(&None, &Vec::new()), "LD_PRELOAD=");
    assert_eq!(
        preload_entry(&Some("/x.so".to_string()), &paths(&["/a.so", "/b.so"])),
        "LD_PRELOAD=/x.so:/a.so:/b.so"
    );
    assert_eq!(preload_entry(&Some("/x.so".to_string()), &Vec::new()), "LD_PRELOAD=/x.so:");
}

#[test]
fn found_libraries_give_their_paths() {
    let found = vec![Some("/lib/libechotool.so".to_string()), Some("/lib/libsystrace.so".to_string())];
    assert_eq!(
        injected_libraries(&found),
        Ok(paths(&["/lib/libechotool.so", "/lib/libsystrace.so"]))
    );
    assert_eq!(injected_libraries(&Vec::new()), Ok(Vec::new()));
}

#[test]
fn missing_library_is_reported() {
    let found = vec![Some("/lib/libechotool.so".to_string()), None];
    assert_eq!(injected_libraries(&found), Err(LaunchError::LibraryNotFound(1)));
    assert_eq!(injected_libraries(&vec![None, None]), Err(LaunchError::LibraryNotFound(0)));
}

#[test]
fn program_name_comes_before_its_arguments() {
    assert_eq!(
        command_line("/bin/ls", &paths(&["-l", "--", "-x"])),
        paths(&["/bin/ls", "-l", "--", "-x"])
    );
    assert_eq!(command_line("true", &Vec::new()), paths(&["true"]));
}

#[test]
fn libraries_to_inject() {
    assert_eq!(
        required_libraries("libechotool.so"),
        vec!["libechotool.so".to_string(), "libsystrace.so".to_string()]
    );
}

#[test]
fn override_splits_at_first_equals() {
    assert_eq!(parse_env_override("A=b"), pair("A", "b"));
    assert_eq!(parse_env_override("A=b=c"), pair("A", "b=c"));
    assert_eq!(parse_env_override("A="), pair("A", ""));
    assert_eq!(parse_env_override("A"), pair("A", ""));
    assert_eq!(parse_env_override("=x"), pair("", "x"));
    assert_eq!(parse_env_override(""), pair("", ""));
    assert_eq!(parse_env_override("K\u{e9}=\u{fc}=1"), pair("K\u{e9}", "\u{fc}=1"));
}

#[test]
fn nul_is_found() {
    assert!(contains_nul("a\0b"));
    assert!(contains_nul("\0"));
    assert!(!contains_nul("ab"));
    assert!(!contains_nul(""));
}

#[test]
fn command_with_nul_is_refused() {
    let args = vec!["-l".to_string(), "x\0y".to_string(), "\0".to_string()];
    assert_eq!(check_command("/bin/ls", &args), Err(LaunchError::NulInArgument(2)));
    assert_eq!(check_command("/bin\0/ls", &args), Err(LaunchError::NulInArgument(0)));
    assert_eq!(check_command("/bin/ls", &vec!["-l".to_string()]), Ok(()));
    assert_eq!(check_command("", &Vec::new()), Ok(()));
}

#[test]
fn debug_levels() {
    assert_eq!(log_level(0), LogLevel::Off);
    assert_eq!(log_level(1), LogLevel::Error);
    assert_eq!(log_level(2), LogLevel::Warn);
    assert_eq!(log_level(3), LogLevel::Info);
    assert_eq!(log_level(4), LogLevel::Debug);
    assert_eq!(log_level(5), LogLevel::Trace);
    assert_eq!(log_level(6), LogLevel::Trace);
    assert_eq!(log_level(-1), LogLevel::Trace);
}

#[test]
fn last_override_of_a_key_wins() {
    let texts: Vec<String> =
        ["A=1", "B=2", "A=3", "C", "B", "A=4=5"].iter().map(|s| s.to_string()).collect();
    assert_eq!(env_overrides(&texts), vec![pair("A", "4=5"), pair("B", ""), pair("C", "")]);
    assert_eq!(env_overrides(&Vec::new()), Vec::new());
    assert_eq!(env_overrides(&vec!["=x".to_string(), "=y".to_string()]), vec![pair("", "y")]);
}
