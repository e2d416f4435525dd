use binlink::cfg::{
    Config, GlobalConfig, KitConfig, KitPath, LinkTarget, LinkedBinary, LocalConfig, SdkTarget,
    get_config,
};

fn bin(name: &str, kit: &str) -> LinkedBinary {
    LinkedBinary { name: name.to_string(), target: LinkTarget::Sdk { name: kit.to_string() } }
}

fn sys_bin(name: &str) -> LinkedBinary {
    LinkedBinary { name: name.to_string(), target: LinkTarget::Default }
}

fn kit(name: &str, id: &str) -> KitConfig {
    KitConfig { name: name.to_string(), id: id.to_string() }
}

fn sdk(id: &str, dir: &str) -> KitPath {
    KitPath { id: id.to_string(), target: SdkTarget::Dir { path: dir.to_string() } }
}

fn scenario_a_global() -> GlobalConfig {
    GlobalConfig {
        bins: vec![bin("java", "jdk")],
        kits: vec![kit("jdk", "jdk-root")],
        paths: vec![sdk("jdk-root", "/opt/jdk/bin")],
    }
}

fn lookup_owned(c: Config, name: &str) -> Option<String> {
    let resolved = c.resolve();
    resolved.lookup(&name.to_string()).cloned()
}

#[test]
fn scenario_a_resolves_java_through_kit_and_sdk() {
    let c = Config { local: None, global: Some(scenario_a_global()) };
    let resolved = c.resolve();
    assert_eq!(resolved.lookup(&"java".to_string()), Some(&"/opt/jdk/bin".to_string()));
    assert!(resolved.names.contains(&"java".to_string()));
}

#[test]
fn scenario_b_local_overrides_global_java() {
    let local = LocalConfig {
        bins: vec![bin("java", "other-jdk")],
        kits: vec![kit("other-jdk", "jdk17-root")],
        paths: vec![sdk("jdk17-root", "/opt/jdk17/bin")],
    };
    let c = Config { local: Some(local), global: Some(scenario_a_global()) };
    assert_eq!(lookup_owned(c, "java"), Some("/opt/jdk17/bin".to_string()));
}

#[test]
fn local_wins_on_every_collision() {
    let global = GlobalConfig {
        bins: vec![bin("node", "g-kit"), bin("npm", "g-kit")],
        kits: vec![kit("g-kit", "g-sdk")],
        paths: vec![sdk("g-sdk", "/global/node/bin")],
    };
    let local = LocalConfig {
        bins: vec![bin("node", "l-kit")],
        kits: vec![kit("l-kit", "l-sdk")],
        paths: vec![sdk("l-sdk", "/local/node/bin")],
    };
    let c = Config { local: Some(local), global: Some(global) };
    let resolved = c.resolve();
    assert_eq!(resolved.lookup(&"node".to_string()), Some(&"/local/node/bin".to_string()));
    assert_eq!(resolved.lookup(&"npm".to_string()), Some(&"/global/node/bin".to_string()));
}

#[test]
fn resolve_is_deterministic() {
    let make = || Config {
        local: Some(LocalConfig {
            bins: vec![bin("a", "k1"), sys_bin("b")],
            kits: vec![kit("k1", "s1")],
            paths: vec![sdk("s1", "/one")],
        }),
        global: Some(scenario_a_global()),
    };
    let r1 = make().resolve();
    let r2 = make().resolve();
    assert_eq!(r1.bins, r2.bins);
    assert_eq!(r1.names, r2.names);
}

#[test]
fn shim_names_are_the_union_of_both_sources() {
    let global = GlobalConfig {
        bins: vec![bin("java", "jdk"), sys_bin("ls")],
        kits: vec![],
        paths: vec![],
    };
    let local = LocalConfig {
        bins: vec![bin("java", "jdk"), bin("node", "nope")],
        kits: vec![],
        paths: vec![],
    };
    let c = Config { local: Some(local), global: Some(global) };
    let resolved = c.resolve();
    let mut names = resolved.names.clone();
    names.sort();
    assert_eq!(names, vec!["java".to_string(), "ls".to_string(), "node".to_string()]);
}

#[test]
fn broken_kit_reference_keeps_name_but_no_directory() {
    let global = GlobalConfig {
        bins: vec![bin("mystery", "no-such-kit")],
        kits: vec![],
        paths: vec![],
    };
    let c = Config { local: None, global: Some(global) };
    let resolved = c.resolve();
    assert!(resolved.names.contains(&"mystery".to_string()));
    assert_eq!(resolved.lookup(&"mystery".to_string()), None);
}

#[test]
fn kit_with_missing_sdk_root_is_dropped_silently() {
    let global = GlobalConfig {
        bins: vec![bin("gradle", "jvm")],
        kits: vec![kit("jvm", "missing-sdk")],
        paths: vec![sdk("present-sdk", "/somewhere/bin")],
    };
    let c = Config { local: None, global: Some(global) };
    let resolved = c.resolve();
    assert!(resolved.names.contains(&"gradle".to_string()));
    assert_eq!(resolved.lookup(&"gradle".to_string()), None);
}

#[test]
fn use_system_path_entries_get_shims_but_no_table_entry() {
    let global = GlobalConfig { bins: vec![sys_bin("cargo")], kits: vec![], paths: vec![] };
    let c = Config { local: None, global: Some(global) };
    let resolved = c.resolve();
    assert!(resolved.names.contains(&"cargo".to_string()));
    assert_eq!(resolved.lookup(&"cargo".to_string()), None);
}

#[test]
fn absent_source_behaves_like_an_empty_one() {
    let none_none = Config { local: None, global: None }.resolve();
    assert!(none_none.bins.is_empty());
    assert!(none_none.names.is_empty());

    let empty_empty = Config {
        local: Some(LocalConfig { bins: vec![], kits: vec![], paths: vec![] }),
        global: Some(GlobalConfig { bins: vec![], kits: vec![], paths: vec![] }),
    }
    .resolve();
    assert_eq!(none_none.bins, empty_empty.bins);
    assert_eq!(none_none.names, empty_empty.names);
}

#[test]
fn later_duplicate_within_one_source_wins() {
    let global = GlobalConfig {
        bins: vec![bin("java", "k-one"), bin("java", "k-two")],
        kits: vec![kit("k-one", "s-one"), kit("k-two", "s-two")],
        paths: vec![sdk("s-one", "/first"), sdk("s-two", "/second")],
    };
    let c = Config { local: None, global: Some(global) };
    let resolved = c.resolve();
    assert_eq!(resolved.lookup(&"java".to_string()), Some(&"/second".to_string()));
    assert_eq!(resolved.names.len(), 1);
}

#[test]
fn get_config_keeps_both_sources() {
    let c = get_config(None, Some(scenario_a_global()));
    assert!(c.local.is_none());
    assert!(c.global.is_some());
}
