use binlink::cfg::{Config, GlobalConfig, LinkTarget, LocalConfig};
use binlink::cli::{
    Action, Args, BASE_CONFIG_DEFAULT_NAME, BINLINK_BASE_CONFIG_PATH_EVAR,
    BINLINK_LOCAL_CONFIG_NAME_EVAR, LOCAL_CONFIG_DEFAULT_NAME, choose_action,
};

fn s(x: &str) -> String {
    x.to_string()
}

#[test]
fn help_text_names_both_override_variables() {
    let args = Args::make();
    assert_eq!(
        args.help,
        s("export BINLINK_LOCAL_CONFIG_NAME to override local config name\nexport BINLINK_BASE_CONFIG_PATH to override global config path\n"),
    );
}

#[test]
fn configuration_names_are_stable() {
    assert_eq!(LOCAL_CONFIG_DEFAULT_NAME, ".binlink.toml");
    assert_eq!(BASE_CONFIG_DEFAULT_NAME, "binlink.toml");
    assert_eq!(BINLINK_LOCAL_CONFIG_NAME_EVAR, "BINLINK_LOCAL_CONFIG_NAME");
    assert_eq!(BINLINK_BASE_CONFIG_PATH_EVAR, "BINLINK_BASE_CONFIG_PATH");
}

#[test]
fn own_name_with_subcommands_picks_the_action() {
    assert!(matches!(choose_action(&s("binlink"), Some(&s("link"))), Action::CreateLinks));
    assert!(matches!(choose_action(&s("binlink"), Some(&s("example"))), Action::ShowExample));
    assert!(matches!(choose_action(&s("binlink"), Some(&s("other"))), Action::ShowHelp));
    assert!(matches!(choose_action(&s("binlink"), None), Action::ShowHelp));
}

#[test]
fn any_other_name_dispatches() {
    assert!(matches!(choose_action(&s("java"), None), Action::Dispatch));
    assert!(matches!(choose_action(&s("node"), Some(&s("link"))), Action::Dispatch));
}

#[test]
fn graal_bins_list_the_graal_tools() {
    let bins = LocalConfig::graal_bins();
    assert_eq!(
        bins,
        vec![s("native-image"), s("gu"), s("rebuild-images"), s("polyglot"), s("lli")],
    );
}

#[test]
fn node_bins_list_the_node_tools() {
    assert_eq!(LocalConfig::node_bins(), vec![s("js"), s("node"), s("npx"), s("npm")]);
}

#[test]
fn jdk_bins_list_the_jdk_tools() {
    let bins = LocalConfig::jdk_bins();
    assert_eq!(bins.len(), 33);
    assert_eq!(bins[0], s("jar"));
    assert_eq!(bins[2], s("java"));
    assert_eq!(bins[32], s("unpack200"));
    assert!(bins.contains(&s("keytool")));
}

#[test]
fn local_example_is_empty() {
    let e = LocalConfig::example();
    assert!(e.bins.is_empty());
    assert!(e.kits.is_empty());
    assert!(e.paths.is_empty());
}

#[test]
fn global_example_declares_all_toolchains() {
    let e = GlobalConfig::example();
    assert_eq!(e.bins.len(), 5 + 33 + 4);
    assert_eq!(e.bins[0].name, s("native-image"));
    assert!(matches!(&e.bins[0].target, LinkTarget::Sdk { name } if name == "jdk-graal"));
    assert_eq!(e.bins[5].name, s("jar"));
    assert!(matches!(&e.bins[5].target, LinkTarget::Sdk { name } if name == "jdk"));
    assert_eq!(e.bins[38].name, s("js"));
    assert!(matches!(&e.bins[38].target, LinkTarget::Sdk { name } if name == "node"));
    assert_eq!(e.kits.len(), 2);
    assert_eq!(e.paths.len(), 1);
}

#[test]
fn global_example_resolves_jdk_and_graal_but_not_node() {
    let c = Config { local: None, global: Some(GlobalConfig::example()) };
    let resolved = c.resolve();
    let graal_home =
        s("/Library/Java/JavaVirtualMachines/graalvm-ce-java11-20.2.0/Contents/Home/bin/");
    assert_eq!(resolved.lookup(&s("java")), Some(&graal_home));
    assert_eq!(resolved.lookup(&s("native-image")), Some(&graal_home));
    // The example declares no `node` kit, so the node names keep their
    // shims but stay on the system PATH.
    assert_eq!(resolved.lookup(&s("node")), None);
    assert!(resolved.names.contains(&s("node")));
    assert_eq!(resolved.names.len(), 42);
}
