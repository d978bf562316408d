use shwrap::bwrap::{join_words_exec, mount_of, mounts_of, sandbox_args_with, Mounts};
use shwrap::document::{Node, ParseError};
use shwrap::entry::deduplicate_vec;
use shwrap::loader::{join_path, ConfigLoader, LocalStep};
use shwrap::{Config, Entry, EntryType, EnvVars, WrappedCommandBuilder};

fn strings(items: &[&str]) -> Vec<String> {
    items.iter().map(|s| s.to_string()).collect()
}

fn yaml(text: &str) -> Config {
    Config::from_yaml(text).unwrap()
}

#[test]
fn deep_merge_keeps_first_occurrences_in_order() {
    let mut parent = Entry::new();
    parent.share = strings(&["a", "b"]);
    let mut child = Entry::new();
    child.share = strings(&["b", "c"]);
    let merged = Entry::deep_merge(parent, child);
    assert_eq!(merged.share, vec!["a", "b", "c"]);
}

#[test]
fn deep_merge_empty_child_list_keeps_parent() {
    let mut parent = Entry::new();
    parent.share = strings(&["x", "y"]);
    parent.tmpfs = strings(&["/tmp", "/tmp"]);
    let child = Entry::new();
    let merged = Entry::deep_merge(parent, child);
    assert_eq!(merged.share, vec!["x", "y"]);
    assert_eq!(merged.tmpfs, vec!["/tmp", "/tmp"]);
}

#[test]
fn deep_merge_scalars_chdir_and_env() {
    let mut parent = Entry::new();
    parent.chdir = Some("/parent".to_string());
    parent.die_with_parent = true;
    parent.extends = strings(&["base"]);
    parent.env.insert("A".to_string(), "1".to_string());
    parent.env.insert("B".to_string(), "2".to_string());
    let mut child = Entry::new();
    child.entry_type = EntryType::Model;
    child.env.insert("B".to_string(), "3".to_string());
    let merged = Entry::deep_merge(parent.clone(), child.clone());
    assert_eq!(merged.chdir, Some("/parent".to_string()));
    assert!(!merged.die_with_parent);
    assert!(merged.extends.is_empty());
    assert_eq!(merged.entry_type, EntryType::Model);
    assert_eq!(merged.env.get("A"), Some(&"1".to_string()));
    assert_eq!(merged.env.get("B"), Some(&"3".to_string()));
    assert_eq!(merged.env.len(), 2);
    child.chdir = Some("/child".to_string());
    let merged = Entry::deep_merge(parent, child);
    assert_eq!(merged.chdir, Some("/child".to_string()));
}

#[test]
fn deduplicate_keeps_first_occurrence() {
    let r = deduplicate_vec(strings(&["b", "a", "b", "c", "a"]));
    assert_eq!(r, vec!["b", "a", "c"]);
    assert!(deduplicate_vec(Vec::new()).is_empty());
}

#[test]
fn disabled_override_keeps_base_entry() {
    for flag in ["false", "true"] {
        let base = yaml("node:\n  enabled: true\n  share:\n    - user\n");
        let over = yaml(&format!(
            "node:\n  enabled: false\n  override: {}\n  share:\n    - network\n",
            flag
        ));
        let merged = Config::merge(base, over);
        let node = merged.get_command("node").unwrap();
        assert!(node.enabled);
        assert_eq!(node.share, vec!["user"]);
    }
}

#[test]
fn override_replaces_base_wholesale() {
    let base = yaml("node:\n  share:\n    - user\n    - pid\n  bind:\n    - /usr:/usr\n");
    let over = yaml("node:\n  override: true\n  share:\n    - network\n");
    let merged = Config::merge(base, over);
    let node = merged.get_command("node").unwrap();
    assert_eq!(node.share, vec!["network"]);
    assert!(node.bind.is_empty());
}

#[test]
fn command_env_wins_over_templates() {
    let config = yaml(
        "base:\n  type: model\n  env:\n    K: b\nnet:\n  type: model\n  env:\n    K: n\n\
         cmd:\n  extends: [base, net]\n  env:\n    K: c\nbare:\n  extends: [base, net]\n",
    );
    let cmd = config.resolve("cmd").unwrap();
    assert_eq!(cmd.env.get("K"), Some(&"c".to_string()));
    let bare = config.resolve("bare").unwrap();
    assert_eq!(bare.env.get("K"), Some(&"n".to_string()));
}

#[test]
fn unknown_template_is_passed_over() {
    let config = yaml("node:\n  extends: [missing]\n  share:\n    - user\n");
    let node = config.resolve("node").unwrap();
    assert_eq!(node.share, vec!["user"]);
    assert!(node.extends.is_empty());
}

#[test]
fn templates_are_concatenated_without_dedup() {
    let config = yaml(
        "a:\n  type: model\n  tmpfs: [/tmp]\n  cap: [X]\nb:\n  type: model\n  tmpfs: [/tmp]\n\
         node:\n  extends: [a, b]\n  tmpfs: [/tmp, /run]\n  chdir: /w\n  new_session: true\n",
    );
    let node = config.resolve("node").unwrap();
    assert_eq!(node.tmpfs, vec!["/tmp", "/tmp", "/tmp", "/run"]);
    assert_eq!(node.cap, vec!["X"]);
    assert_eq!(node.chdir, Some("/w".to_string()));
    assert!(node.new_session);
}

#[test]
fn a_command_is_not_a_template() {
    let config = yaml("other:\n  share: [pid]\nnode:\n  extends: [other]\n");
    let node = config.resolve("node").unwrap();
    assert!(node.share.is_empty());
    assert!(config.resolve("missing").is_none());
    let models = yaml("m:\n  type: model\n");
    assert!(models.resolve("m").is_none());
}

#[test]
fn disabled_command_still_resolves() {
    let config = yaml("node:\n  enabled: false\n");
    let node = config.resolve("node").unwrap();
    assert!(!node.enabled);
}

#[test]
fn aggregating_a_configuration_with_itself() {
    let text = "node:\n  share: [user, pid]\n  env:\n    A: b\n  chdir: /x\nbase:\n  type: model\n  ro_bind: [/usr]\n";
    let merged = Config::merge(yaml(text), yaml(text));
    assert_eq!(merged.len(), 2);
    let node = merged.get("node").unwrap();
    assert_eq!(node.share, vec!["user", "pid"]);
    assert_eq!(node.env.get("A"), Some(&"b".to_string()));
    assert_eq!(node.env.len(), 1);
    assert_eq!(node.chdir, Some("/x".to_string()));
    let base = merged.get("base").unwrap();
    assert_eq!(base.ro_bind, vec!["/usr"]);
    assert_eq!(base.entry_type, EntryType::Model);
}

#[test]
fn extends_as_name_or_as_list_reads_the_same() {
    let single = yaml("base:\n  type: model\n  share: [user]\nnode:\n  extends: base\n");
    let list = yaml("base:\n  type: model\n  share: [user]\nnode:\n  extends: [base]\n");
    let a = single.get_command("node").unwrap();
    let b = list.get_command("node").unwrap();
    assert_eq!(a.extends, b.extends);
    assert_eq!(a.extends, vec!["base"]);
    assert_eq!(single.resolve("node").unwrap().share, list.resolve("node").unwrap().share);
}

#[test]
fn defaults_and_unknown_fields() {
    let config = yaml("node:\n  color: blue\n  42: whatever\n");
    let node = config.get("node").unwrap();
    assert_eq!(node.entry_type, EntryType::Command);
    assert!(node.enabled);
    assert!(!node.override_parent);
    assert!(!node.die_with_parent);
    assert!(!node.new_session);
    assert!(node.chdir.is_none());
    assert!(node.env.is_empty());
    assert!(node.share.is_empty());
}

#[test]
fn malformed_text_is_a_syntax_error() {
    let r = Config::from_yaml("node: [unclosed\n");
    assert!(matches!(r, Err(ParseError::Syntax(_))));
}

#[test]
fn wrong_shapes_are_structure_errors() {
    let cases = [
        "- a\n- b\n",
        "node: 3\n",
        "node:\n  enabled: yes please\n",
        "node:\n  type: tool\n",
        "node:\n  share: user\n",
        "node:\n  share: [1]\n",
        "node:\n  extends: 7\n",
        "node:\n  env: [A]\n",
        "node:\n  env:\n    A: [b]\n",
        "node:\n  chdir: [a]\n",
        "7: {}\n",
    ];
    for text in cases {
        let r = Config::from_yaml(text);
        assert!(matches!(r, Err(ParseError::Structure(_))), "{}", text);
    }
}

#[test]
fn empty_document_has_no_entries() {
    let c = yaml("");
    assert!(c.is_empty());
    let n = Config::from_node(&Node::Null).unwrap();
    assert_eq!(n.len(), 0);
}

#[test]
fn from_node_reads_a_table() {
    let entry = Node::Table(vec![
        (Node::Str("type".to_string()), Node::Str("model".to_string())),
        (Node::Str("extends".to_string()), Node::Str("base".to_string())),
        (Node::Str("chdir".to_string()), Node::Null),
        (Node::Other, Node::Bool(true)),
    ]);
    let doc = Node::Table(vec![(Node::Str("m".to_string()), entry)]);
    let c = Config::from_node(&doc).unwrap();
    let m = c.get_model("m").unwrap();
    assert_eq!(m.extends, vec!["base"]);
    assert!(m.chdir.is_none());
    let bad = Node::Table(vec![(Node::Bool(true), Node::Table(Vec::new()))]);
    assert!(matches!(Config::from_node(&bad), Err(ParseError::Structure(_))));
    assert!(matches!(Entry::from_node(&Node::Other), Err(ParseError::Structure(_))));
}

#[test]
fn later_name_wins_in_a_document_node() {
    let first = Node::Table(vec![(Node::Str("enabled".to_string()), Node::Bool(false))]);
    let second = Node::Table(Vec::new());
    let doc = Node::Table(vec![
        (Node::Str("n".to_string()), first),
        (Node::Str("n".to_string()), second),
    ]);
    let c = Config::from_node(&doc).unwrap();
    assert_eq!(c.len(), 1);
    assert!(c.get("n").unwrap().enabled);
}

#[test]
fn lookups_by_kind() {
    let c = yaml("m:\n  type: model\nc:\n  type: command\n");
    assert_eq!(c.get_commands().len(), 1);
    assert_eq!(c.get_models().len(), 1);
    assert!(c.get_command("m").is_none());
    assert!(c.get_model("c").is_none());
    assert!(c.get_entry("m").is_some());
    assert!(c.get_entry("x").is_none());
    assert_eq!(c.get_entries().len(), 2);
    let mut names = c.names();
    names.sort();
    assert_eq!(names, vec!["c", "m"]);
}

#[test]
fn env_vars_insert_and_overlay() {
    let mut a = EnvVars::new();
    a.insert("X".to_string(), "1".to_string());
    a.insert("Y".to_string(), "2".to_string());
    a.insert("X".to_string(), "3".to_string());
    assert_eq!(a.len(), 2);
    assert_eq!(a.to_pairs(), vec![("X".to_string(), "3".to_string()), ("Y".to_string(), "2".to_string())]);
    let mut b = EnvVars::new();
    b.insert("Y".to_string(), "4".to_string());
    b.insert("Z".to_string(), "5".to_string());
    a.extend(&b);
    assert_eq!(a.get("Y"), Some(&"4".to_string()));
    assert_eq!(a.get("Z"), Some(&"5".to_string()));
    assert!(a.contains_key("X"));
    assert!(!a.contains_key("W"));
}

#[test]
fn mount_items_split_at_first_colon() {
    assert_eq!(mount_of(&"/a:/b".to_string()), ("/a".to_string(), "/b".to_string()));
    assert_eq!(mount_of(&"/a:/b:c".to_string()), ("/a".to_string(), "/b:c".to_string()));
    assert_eq!(mount_of(&"/usr".to_string()), ("/usr".to_string(), "/usr".to_string()));
    assert_eq!(mounts_of(&strings(&["x", "y:z"])).len(), 2);
}

#[test]
fn exact_arguments_for_an_entry() {
    let mut e = Entry::new();
    e.die_with_parent = true;
    e.share = strings(&["user", "network"]);
    e.tmpfs = strings(&["/tmp"]);
    e.cap = strings(&["CAP_X"]);
    e.env.insert("K".to_string(), "V".to_string());
    e.unset_env = strings(&["U"]);
    let mounts = Mounts {
        bind: vec![("/s".to_string(), "/d".to_string())],
        ro_bind: Vec::new(),
        dev_bind: Vec::new(),
        bind_try: Vec::new(),
        ro_bind_try: vec![("/r".to_string(), "/r".to_string())],
        dev_bind_try: Vec::new(),
    };
    let args = sandbox_args_with(&e, &mounts, &Some("/w".to_string()));
    let expected = strings(&[
        "--die-with-parent", "--unshare-pid", "--unshare-ipc", "--unshare-uts", "--unshare-cgroup",
        "--bind", "/s", "/d", "--ro-bind-try", "/r", "/r", "--tmpfs", "/tmp", "--chdir", "/w",
        "--cap-add", "CAP_X", "--setenv", "K", "V", "--unsetenv", "U",
    ]);
    assert_eq!(args, expected);
}

#[test]
fn show_joins_with_single_spaces() {
    let mut e = Entry::new();
    e.share = strings(&["user", "pid", "network", "ipc", "uts"]);
    e.new_session = true;
    let b = WrappedCommandBuilder::new(e);
    assert_eq!(b.show("ls", &strings(&["-l", "/"])), "bwrap --new-session --unshare-cgroup ls -l /");
    assert_eq!(join_words_exec(&Vec::new()), "");
    assert_eq!(join_words_exec(&strings(&["a"])), "a");
}

#[test]
fn build_args_splits_plain_binds() {
    let mut e = Entry::new();
    e.ro_bind = strings(&["/etc/a:/etc/b", "/opt"]);
    let args = WrappedCommandBuilder::new(e).build_args();
    let i = args.iter().position(|x| x == "--ro-bind").unwrap();
    assert_eq!(&args[i..i + 6], &strings(&["--ro-bind", "/etc/a", "/etc/b", "--ro-bind", "/opt", "/opt"])[..]);
}

#[test]
fn paths_and_file_choice() {
    assert_eq!(join_path("/home/u", "f.yaml"), "/home/u/f.yaml");
    assert_eq!(join_path("/", "f.yaml"), "/f.yaml");
    assert_eq!(join_path("", "f.yaml"), "f.yaml");
    assert_eq!(ConfigLoader::local_config_name(), ".shwrap.yaml");
    assert_eq!(ConfigLoader::user_config_name(), "default.yaml");
    assert_eq!(ConfigLoader::user_config_dir(), "~/.config/shwrap");
    assert!(ConfigLoader::get_user_config_dir().ends_with("/.config/shwrap"));
    assert!(ConfigLoader::user_config_path().ends_with("/.config/shwrap/default.yaml"));
    assert_eq!(
        ConfigLoader::get_local_config_file(Some("/p".to_string())),
        Some("/p/.shwrap.yaml".to_string())
    );
    assert_eq!(ConfigLoader::get_local_config_file(None), None);
    let l = Some("l".to_string());
    let u = Some("u".to_string());
    assert_eq!(ConfigLoader::get_config_file(l.clone(), u.clone()), l);
    assert_eq!(ConfigLoader::get_config_file(None, u.clone()), u);
    assert_eq!(ConfigLoader::get_config_file(None, None), None);
}

#[test]
fn load_combines_what_was_found() {
    assert!(ConfigLoader::load(None, None).is_none());
    let only_user = ConfigLoader::load(Some(yaml("a:\n  share: [user]\n")), None).unwrap();
    assert_eq!(only_user.len(), 1);
    let only_local = ConfigLoader::load(None, Some(yaml("b: {}\n"))).unwrap();
    assert!(only_local.contains_key("b"));
    let both = ConfigLoader::load(
        Some(yaml("a:\n  share: [user]\n")),
        Some(yaml("a:\n  share: [pid]\nb: {}\n")),
    )
    .unwrap();
    assert_eq!(both.len(), 2);
    assert_eq!(both.get("a").unwrap().share, vec!["user", "pid"]);
}

#[test]
fn local_search_steps_upwards() {
    assert_eq!(
        ConfigLoader::next_local_step("/a/b".to_string(), true),
        LocalStep::Found("/a/b".to_string())
    );
    assert_eq!(
        ConfigLoader::next_local_step("/a/b".to_string(), false),
        LocalStep::Probe("/a".to_string())
    );
    assert_eq!(
        ConfigLoader::next_local_step("/a".to_string(), false),
        LocalStep::Probe("/".to_string())
    );
    assert_eq!(ConfigLoader::next_local_step("/".to_string(), false), LocalStep::NotFound);
    assert_eq!(ConfigLoader::next_local_step(String::new(), false), LocalStep::NotFound);
}

#[test]
fn string_fields_take_string_scalars_only() {
    for text in [
        "node:\n  env:\n    PORT: 8080\n",
        "node:\n  env:\n    DEBUG: true\n",
        "node:\n  chdir: 2024\n",
        "node:\n  cap: [true]\n",
    ] {
        assert!(matches!(Config::from_yaml(text), Err(ParseError::Structure(_))), "{}", text);
    }
    let quoted = yaml("node:\n  env:\n    PORT: \"8080\"\n    DEBUG: \"true\"\n");
    let node = quoted.get("node").unwrap();
    assert_eq!(node.env.get("PORT"), Some(&"8080".to_string()));
    assert_eq!(node.env.get("DEBUG"), Some(&"true".to_string()));
}

#[test]
fn unexpanded_user_path_keeps_its_directory() {
    let path = ConfigLoader::user_config_path();
    assert!(path == "~/.config/shwrap/default.yaml" || !path.starts_with('~'));
    assert!(path.ends_with("/.config/shwrap/default.yaml"));
}

#[test]
fn repeated_names_in_yaml_are_syntax_errors() {
    let r = Config::from_yaml("node: {}\nnode:\n  enabled: false\n");
    assert!(matches!(r, Err(ParseError::Syntax(_))));
}
