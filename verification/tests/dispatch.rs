use binlink::cfg::{Config, GlobalConfig, KitConfig, KitPath, LinkTarget, LinkedBinary, SdkTarget};
use binlink::dispatch::{
    DispatchError, assemble_argv, filter_search_path, find_fallback, find_main, has_shebang,
    join_search_path, make_env, resolve_command, split_search_path,
};

fn s(x: &str) -> String {
    x.to_string()
}

#[test]
fn split_keeps_empty_entries() {
    assert_eq!(split_search_path(&s("a:b::c")), vec![s("a"), s("b"), s(""), s("c")]);
    assert_eq!(split_search_path(&s("")), vec![s("")]);
    assert_eq!(split_search_path(&s("/usr/bin")), vec![s("/usr/bin")]);
    assert_eq!(split_search_path(&s(":x")), vec![s(""), s("x")]);
}

#[test]
fn join_is_the_inverse_of_split() {
    let joined = join_search_path(&vec![s("/usr/bin"), s("/bin")]);
    assert_eq!(joined, s("/usr/bin:/bin"));
    assert_eq!(split_search_path(&joined), vec![s("/usr/bin"), s("/bin")]);
    assert_eq!(join_search_path(&vec![]), s(""));
    assert_eq!(join_search_path(&vec![s("/only")]), s("/only"));
}

#[test]
fn filter_drops_shim_directory_entries() {
    let kept = filter_search_path(&s("/usr/bin:/usr/local/bin/binlinks"));
    assert_eq!(kept, vec![s("/usr/bin")]);
}

#[test]
fn filter_keeps_everything_without_the_marker() {
    let kept = filter_search_path(&s("/usr/bin:/bin:/sbin"));
    assert_eq!(kept, vec![s("/usr/bin"), s("/bin"), s("/sbin")]);
}

#[test]
fn filter_of_only_shim_entries_is_empty() {
    let kept = filter_search_path(&s("/usr/local/bin/binlinks"));
    assert!(kept.is_empty());
    let kept = filter_search_path(&s("/usr/local/bin/binlinks:/opt/binlinks-extra"));
    assert!(kept.is_empty());
}

#[test]
fn fallback_on_a_shim_only_path_fails_without_searching() {
    let r = find_fallback(&s("python3"), Some(&s("/usr/local/bin/binlinks")), &s("/"));
    match r {
        Err(DispatchError::NotOnPath { name }) => assert_eq!(name, s("python3")),
        _ => panic!("expected the fallback to find nothing"),
    }
}

#[test]
fn fallback_searches_only_the_filtered_entries() {
    // The shim directory is on the PATH but must be skipped; /bin is
    // searched and holds sh on any Unix-like system.
    let r = find_fallback(&s("sh"), Some(&s("/usr/local/bin/binlinks:/bin")), &s("/"));
    match r {
        Ok(p) => assert_eq!(p, s("/bin/sh")),
        Err(e) => panic!("expected to find sh: {}", e.message()),
    }
}

#[test]
fn fallback_for_a_missing_binary_reports_the_name() {
    let r = find_fallback(&s("no-such-binary-here"), Some(&s("/bin")), &s("/"));
    match r {
        Err(DispatchError::NotOnPath { name }) => assert_eq!(name, s("no-such-binary-here")),
        _ => panic!("expected the fallback to find nothing"),
    }
}

#[test]
fn main_resolution_finds_the_binary_inside_the_configured_directory() {
    let r = find_main(&s("sh"), &s("/bin"));
    match r {
        Ok(p) => assert_eq!(p, s("/bin/sh")),
        Err(e) => panic!("expected to find sh: {}", e.message()),
    }
}

#[test]
fn main_resolution_failure_names_the_directory() {
    let r = find_main(&s("sh"), &s("/no/such/directory"));
    match r {
        Err(DispatchError::NotInDir { name, dir }) => {
            assert_eq!(name, s("sh"));
            assert_eq!(dir, s("/no/such/directory"));
        },
        _ => panic!("expected main resolution to fail"),
    }
}

#[test]
fn resolve_command_prefers_the_configured_directory() {
    let global = GlobalConfig {
        bins: vec![LinkedBinary {
            name: s("sh"),
            target: LinkTarget::Sdk { name: s("shell") },
        }],
        kits: vec![KitConfig { name: s("shell"), id: s("shell-root") }],
        paths: vec![KitPath { id: s("shell-root"), target: SdkTarget::Dir { path: s("/bin") } }],
    };
    let resolved = Config { local: None, global: Some(global) }.resolve();
    let r = resolve_command(&resolved, &s("sh"), Some(&s("/usr/bin")), &s("/"));
    match r {
        Ok(p) => assert_eq!(p, s("/bin/sh")),
        Err(e) => panic!("expected to find sh: {}", e.message()),
    }
}

#[test]
fn resolve_command_falls_back_for_unconfigured_names() {
    let resolved = Config { local: None, global: None }.resolve();
    let r = resolve_command(
        &resolved,
        &s("python3"),
        Some(&s("/usr/local/bin/binlinks")),
        &s("/"),
    );
    match r {
        Err(DispatchError::NotOnPath { name }) => assert_eq!(name, s("python3")),
        _ => panic!("expected the fallback to find nothing"),
    }
}

#[test]
fn shebang_needs_exactly_hash_bang() {
    assert!(has_shebang(b'#', b'!'));
    assert!(!has_shebang(b'#', b'?'));
    assert!(!has_shebang(b'!', b'#'));
    assert!(!has_shebang(0x7f, b'E'));
}

#[test]
fn script_argv_starts_with_the_shell_then_the_script() {
    let (target, argv) = assemble_argv(&s("/opt/tool/run"), true, &vec![s("-v"), s("x")]);
    assert_eq!(target, s("/bin/sh"));
    assert_eq!(argv, vec![s("/bin/sh"), s("/opt/tool/run"), s("-v"), s("x")]);
}

#[test]
fn native_argv_starts_with_the_binary_itself() {
    let (target, argv) = assemble_argv(&s("/opt/jdk/bin/java"), false, &vec![s("-version")]);
    assert_eq!(target, s("/opt/jdk/bin/java"));
    assert_eq!(argv, vec![s("/opt/jdk/bin/java"), s("-version")]);
}

#[test]
fn environment_entries_keep_order_and_shape() {
    let vars = vec![(s("PATH"), s("/bin")), (s("HOME"), s("/root")), (s("EMPTY"), s(""))];
    assert_eq!(make_env(&vars), vec![s("PATH=/bin"), s("HOME=/root"), s("EMPTY=")]);
}

#[test]
fn error_messages_name_what_was_looked_for() {
    let e = DispatchError::NotOnPath { name: s("python3") };
    assert_eq!(e.message(), s("Cannot find binary in $PATH: python3"));
    let e = DispatchError::NotInDir { name: s("java"), dir: s("/opt/jdk/bin") };
    assert_eq!(e.message(), s("Cannot find binary java in configured directory: /opt/jdk/bin"));
}
