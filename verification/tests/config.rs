//! Connections, settings, groups and the SSH configuration.

use g_terminal::config::connections::unique_copy_name;
use g_terminal::config::profile::{
    Forward, ProfileError, RemoteProfile, SerialError, SerialProfile, DEFAULT_BAUD,
};
use g_terminal::config::search::{
    percent_encode, search_engine_label, search_url, SEARCH_ENGINES,
};
use g_terminal::config::settings::{GroupColors, Settings, SettingsFields};
use g_terminal::config::ssh::{
    expand_home, expand_home_in, expand_home_with, parse_hosts, parse_proxy_jump,
    parse_ssh_config, parse_ssh_config_in,
    path_below_home, resolve_jump_aliases, ssh_directive, strip_comment, unquote, SshConfigBlock,
};
use g_terminal::config::TAG_COLORS;
use g_terminal::layout::Single;
use g_terminal::session::{connection_color, parse_tag_color, SessionKind, TagColor};

fn remote(name: &str, host: &str, group: &str) -> RemoteProfile {
    RemoteProfile {
        name: name.into(),
        host: host.into(),
        group: group.into(),
        ..Default::default()
    }
}

fn serial(name: &str, port: &str, group: &str) -> SerialProfile {
    SerialProfile {
        name: name.into(),
        port: port.into(),
        group: group.into(),
        ..Default::default()
    }
}

fn no_fields() -> SettingsFields {
    SettingsFields {
        font_size: None,
        scrollback: None,
        light_theme: None,
        sidebar: None,
        default_shell: None,
        search_engine: None,
        profiles: None,
        serial_profiles: None,
        groups: None,
        group_colors: None,
        copy_on_select: None,
        hide_dotfiles: None,
        restore_tabs: None,
        confirm_on_exit: None,
        auto_hide_sidebar: None,
        workspace: None,
    }
}

#[test]
fn copy_names_are_numbered_when_taken() {
    let taken = vec!["prod 副本".to_string(), "prod 副本 2".to_string()];
    assert_eq!(unique_copy_name("prod", &taken), "prod 副本 3");
    assert_eq!(unique_copy_name("dev", &vec![]), "dev 副本");
}

fn search_urls() {
    assert_eq!(
        search_url("google", "hello world"),
        "https://www.google.com/search?q=hello%20world"
    );
    assert_eq!(
        search_url("bing", "a&b"),
        "https://www.bing.com/search?q=a%26b"
    );
    assert_eq!(
        search_url("baidu", "中国"),
        "https://www.baidu.com/s?wd=%E4%B8%AD%E5%9B%BD"
    );
    // An unknown key still produces a working default lookup.
    assert_eq!(search_url("nope", "x"), "https://www.google.com/search?q=x");
    assert_eq!(search_engine_label("baidu"), "百度");
    assert_eq!(search_engine_label("nope"), "nope");
}

#[test]
fn config_search_urls_follow_the_engine_and_escape_the_query() {
    search_urls();
}

#[test]
fn tests_search_urls_follow_the_engine_and_escape_the_query() {
    search_urls();
}

fn serial_defaults() {
    let profile = SerialProfile::default();
    assert!(profile.auto());
    assert_eq!(profile.baud, DEFAULT_BAUD);
    assert_eq!(profile.label(), "auto");
    assert!(profile.validate().is_ok());

    let pinned = SerialProfile {
        name: "路由器".into(),
        port: " COM3 ".into(),
        ..Default::default()
    };
    assert!(!pinned.auto());
    assert_eq!(pinned.label(), "路由器");
    assert!(pinned.validate().is_ok());

    assert!(SerialProfile {
        port: "  ".into(),
        ..Default::default()
    }
    .validate()
    .is_err());
    assert!(SerialProfile {
        port: "COM 3".into(),
        ..Default::default()
    }
    .validate()
    .is_err());
    assert!(SerialProfile {
        baud: 0,
        ..Default::default()
    }
    .validate()
    .is_err());
}

#[test]
fn config_serial_profiles_default_to_auto_115200_and_validate() {
    serial_defaults();
}

#[test]
fn tests_serial_profiles_default_to_auto_115200_and_validate() {
    serial_defaults();
}

fn ssh_import() {
    let config = "\
# ~/.ssh/config
Host *
    ServerAliveInterval 30
Host web web-alias
    HostName web.example.com
    User deploy
    Port 2222
    IdentityFile ~/.ssh/id_web
    ProxyJump bastion
Host wildcard-*
    HostName nope
Host no-hostname
    User nobody
";
    let profiles = parse_ssh_config(config);
    // Only the two aliases of the block that names a host, never `*`.
    assert_eq!(profiles.len(), 2);
    assert_eq!(profiles[0].name, "web");
    assert_eq!(profiles[0].host, "web.example.com");
    assert_eq!(profiles[0].user, "deploy");
    assert_eq!(profiles[0].port, 2222);
    assert_eq!(profiles[0].identity, expand_home("~/.ssh/id_web"));
    assert_eq!(profiles[1].name, "web-alias");
    assert_eq!(profiles[1].host, "web.example.com");
    // A global option before the first Host must not leak into the import.
    assert!(profiles.iter().all(|p| p.port != 30));
    let jump = profiles[0].jump.as_ref().unwrap();
    assert_eq!(jump.host, "bastion");
    assert_eq!(jump.port, 22);
}

#[test]
fn config_ssh_config_imports_only_host_blocks_with_a_hostname() {
    ssh_import();
}

#[test]
fn tests_ssh_config_imports_only_host_blocks_with_a_hostname() {
    ssh_import();
}

fn ssh_spelling() {
    let config = r#"
Host=quoted
  HostName="a#b.example.com" # trailing comment
  Port=2200
"#;
    let profiles = parse_ssh_config(config);
    assert_eq!(profiles.len(), 1);
    assert_eq!(profiles[0].name, "quoted");
    assert_eq!(profiles[0].host, "a#b.example.com");
    assert_eq!(profiles[0].port, 2200);
}

#[test]
fn config_ssh_config_accepts_equals_quotes_and_comments() {
    ssh_spelling();
}

#[test]
fn tests_ssh_config_accepts_equals_quotes_and_comments() {
    ssh_spelling();
}

fn proxy_jump() {
    let jump = parse_proxy_jump("root@jump.example.com:2022").unwrap();
    assert_eq!(jump.user, "root");
    assert_eq!(jump.host, "jump.example.com");
    assert_eq!(jump.port, 2022);
    let plain = parse_proxy_jump("bastion").unwrap();
    assert_eq!(plain.user, "");
    assert_eq!(plain.host, "bastion");
    assert_eq!(plain.port, 22);
    // Multiple hops: only the first is usable here.
    assert_eq!(parse_proxy_jump("a,b,c").unwrap().host, "a");
    assert!(parse_proxy_jump("  ").is_none());
}

#[test]
fn config_proxy_jump_splits_user_host_port_in_any_combination() {
    proxy_jump();
}

#[test]
fn tests_proxy_jump_splits_user_host_port_in_any_combination() {
    proxy_jump();
}

fn jump_aliases() {
    let config = "\
Host bastion
    HostName jumphost.example.com
    User admin
    Port 2022
Host app
    HostName 10.0.0.5
    ProxyJump bastion
";
    let profiles = parse_ssh_config(config);
    let app = profiles.iter().find(|p| p.name == "app").unwrap();
    let jump = app.jump.as_ref().unwrap();
    assert_eq!(jump.host, "jumphost.example.com");
    assert_eq!(jump.user, "admin");
    assert_eq!(jump.port, 2022);
}

#[test]
fn config_proxy_jump_aliases_resolve_to_the_imported_host() {
    jump_aliases();
}

#[test]
fn tests_proxy_jump_aliases_resolve_to_the_imported_host() {
    jump_aliases();
}

#[test]
fn tag_colors_parse_and_prefer_the_connection() {
    assert_eq!(
        parse_tag_color("#8bd5ca"),
        Some(TagColor {
            red: 0x8b,
            green: 0xd5,
            blue: 0xca
        })
    );
    assert_eq!(parse_tag_color(""), None);
    assert_eq!(parse_tag_color("#xyzxyz"), None);
    // Only six digits make a colour: no sign, and no fewer or more of them.
    assert_eq!(parse_tag_color("#+12345"), None);
    assert_eq!(parse_tag_color("#12345"), None);
    assert_eq!(parse_tag_color("#1234567"), None);
    assert_eq!(parse_tag_color("8bd5ca"), None);
    assert_eq!(parse_tag_color("#12é45"), None);
    assert_eq!(parse_tag_color(" #8BD5CA\n"), parse_tag_color("#8bd5ca"));

    let mut groups = GroupColors::new();
    groups.insert("prod", TAG_COLORS[0]);

    // The group colour applies while the connection has none.
    let grouped = RemoteProfile {
        group: "prod".into(),
        ..Default::default()
    };
    assert_eq!(
        connection_color(&SessionKind::Ssh(grouped), &groups),
        parse_tag_color(TAG_COLORS[0])
    );

    // The connection's own colour wins over the group's.
    let own = RemoteProfile {
        group: "prod".into(),
        color: TAG_COLORS[2].into(),
        ..Default::default()
    };
    assert_eq!(
        connection_color(&SessionKind::Ssh(own), &groups),
        parse_tag_color(TAG_COLORS[2])
    );

    // Local sessions carry no colour at all.
    assert_eq!(
        connection_color(&SessionKind::Local("shell".into()), &groups),
        None
    );
}

fn unreadable_workspace() {
    let fields = SettingsFields {
        profiles: Some(vec![RemoteProfile {
            name: "prod".into(),
            host: "10.0.0.8".into(),
            user: "root".into(),
            port: 22,
            ..Default::default()
        }]),
        serial_profiles: Some(vec![SerialProfile {
            name: "router".into(),
            port: "COM3".into(),
            baud: 115200,
            ..Default::default()
        }]),
        workspace: Some(vec![None]),
        ..no_fields()
    };
    let settings = Settings::from_fields(fields, true);
    assert_eq!(settings.profiles.len(), 1);
    assert_eq!(settings.profiles[0].host, "10.0.0.8");
    assert_eq!(settings.serial_profiles.len(), 1);
    assert_eq!(settings.serial_profiles[0].port, "COM3");
    assert!(settings.workspace.is_empty());
}

#[test]
fn config_an_unreadable_workspace_keeps_the_saved_connections() {
    unreadable_workspace();
}

#[test]
fn tests_an_unreadable_workspace_keeps_the_saved_connections() {
    unreadable_workspace();
}

#[test]
fn a_field_that_cannot_be_read_costs_that_field_alone() {
    let fields = SettingsFields {
        profiles: Some(vec![remote("", "10.0.0.8", "")]),
        ..no_fields()
    };
    let settings = Settings::from_fields(fields, false);
    assert_eq!(settings.font_size, Settings::new(false).font_size);
    assert_eq!(settings.profiles.len(), 1);
    assert_eq!(settings.profiles[0].label(), "10.0.0.8");
    assert!(settings.profiles[0].group.is_empty());
    assert!(!settings.copy_on_select);
    assert!(settings.restore_tabs);
    assert!(settings.serial_profiles.is_empty());
    assert_eq!(settings.search_engine, "google");
    assert_eq!(settings.default_shell, "shell");
    assert_eq!(Settings::new(true).default_shell, "powershell");
}

#[test]
fn colours_start_empty_and_are_kept_by_group() {
    let mut settings = Settings::new(true);
    assert!(settings.profiles.is_empty());
    assert!(settings.group_colors.get("prod").is_none());
    settings.group_colors.insert("prod", TAG_COLORS[0]);
    settings.group_colors.insert("prod", TAG_COLORS[1]);
    settings.group_colors.insert("dev", TAG_COLORS[2]);
    assert_eq!(
        settings.group_colors.get("prod").map(String::as_str),
        Some(TAG_COLORS[1])
    );
    settings.group_colors.remove("prod");
    assert!(settings.group_colors.get("prod").is_none());
    assert_eq!(
        settings.group_colors.get("dev").map(String::as_str),
        Some(TAG_COLORS[2])
    );
    assert_eq!(RemoteProfile::default().color, "");
    assert_eq!(SerialProfile::default().color, "");
}

#[test]
fn bounds_are_applied_once_and_for_all() {
    let mut settings = Settings::new(false);
    settings.scrollback = 1;
    settings.font_size = Single {
        bits: 100.0f32.to_bits(),
    };
    settings.bound();
    let (scrollback, font) = (settings.scrollback, settings.font_size);
    assert!(scrollback > 1);
    assert!(f32::from_bits(font.bits) < 100.0);
    settings.bound();
    assert_eq!(settings.scrollback, scrollback);
    assert_eq!(settings.font_size, font);
    settings.scrollback = usize::MAX;
    settings.bound();
    assert!(settings.scrollback < usize::MAX);
}

#[test]
fn each_mistake_in_a_connection_has_its_error() {
    let good = || remote("", "example.com", "");
    assert!(good().validate().is_ok());
    assert_eq!(
        RemoteProfile { host: "-oProxyCommand".into(), ..good() }.validate(),
        Err(ProfileError::Host)
    );
    assert_eq!(
        RemoteProfile { host: "a b".into(), ..good() }.validate(),
        Err(ProfileError::Host)
    );
    assert_eq!(
        RemoteProfile { user: "a/b".into(), ..good() }.validate(),
        Err(ProfileError::User)
    );
    assert_eq!(
        RemoteProfile { port: 0, ..good() }.validate(),
        Err(ProfileError::Port)
    );
    let hop = RemoteProfile {
        jump: Some(Box::new(good())),
        ..good()
    };
    assert!(hop.validate().is_ok());
    assert_eq!(
        RemoteProfile { jump: Some(Box::new(hop)), ..good() }.validate(),
        Err(ProfileError::NestedJump)
    );
    let forward = |bind_port: u16, target_host: &str| Forward {
        bind_port,
        target_host: target_host.into(),
        target_port: 80,
    };
    assert_eq!(
        RemoteProfile { forwards: vec![forward(8080, "")], ..good() }.validate(),
        Err(ProfileError::Forward)
    );
    let twice = RemoteProfile {
        forwards: vec![forward(8080, "a"), forward(8080, "b")],
        ..good()
    };
    assert_eq!(twice.validate(), Err(ProfileError::DuplicatePort(8080)));
    assert_eq!(
        ProfileError::DuplicatePort(8080).message(),
        "同一个连接不能重复监听本地端口 8080"
    );
    assert_eq!(ProfileError::Port.message(), "端口范围是 1–65535");

    assert_eq!(serial("", "", "").validate(), Err(SerialError::Missing));
    assert_eq!(serial("", "a\"b", "").validate(), Err(SerialError::Name));
    assert_eq!(
        SerialProfile { baud: 4_000_001, ..Default::default() }.validate(),
        Err(SerialError::Baud)
    );
    assert_eq!(
        SerialError::Missing.message("COM3"),
        "请输入串口设备名，例如 COM3 或 auto"
    );
}

#[test]
fn names_and_destinations_follow_what_is_filled_in() {
    let p = remote("web", "example.com", "");
    assert_eq!(p.label(), "web");
    assert_eq!(p.destination(), "example.com");
    let q = RemoteProfile {
        user: "root".into(),
        ..remote("", "example.com", "")
    };
    assert_eq!(q.label(), "example.com");
    assert_eq!(q.destination(), "root@example.com");
    assert_eq!(serial("", "COM7", "").label(), "COM7");
    assert!(serial("", " AUTO ", "").auto());
}

#[test]
fn escaped_queries_hold_only_safe_characters() {
    let escaped = percent_encode("a b/ü?~_-.");
    assert_eq!(escaped, "a%20b%2F%C3%BC%3F~_-.");
    assert!(escaped
        .chars()
        .all(|c| c.is_ascii_alphanumeric() || "%~_-.".contains(c)));
    assert_eq!(percent_encode(""), "");
}

#[test]
fn lines_of_the_ssh_configuration_are_taken_apart() {
    let line: Vec<char> = "a \"b # c\" # d".chars().collect();
    let text: String = strip_comment(&line).iter().collect();
    assert_eq!(text, "a \"b # c\" ");
    let quoted: Vec<char> = "\"x y\"".chars().collect();
    assert_eq!(unquote(&quoted), "x y");
    let open: Vec<char> = "\"x".chars().collect();
    assert_eq!(unquote(&open), "\"x");
    assert_eq!(
        ssh_directive("  HostName = example.com # here"),
        Some(("HostName".to_string(), "example.com".to_string()))
    );
    assert_eq!(ssh_directive("   # only words"), None);
    assert_eq!(
        ssh_directive("Port"),
        Some(("Port".to_string(), String::new()))
    );
}

#[test]
fn the_first_value_of_an_option_wins() {
    let text = "Host a\n HostName one\n HostName two\n Port 1\n Port 2\n User x\n";
    let hosts = parse_hosts(text);
    assert_eq!(hosts.len(), 1);
    assert_eq!(hosts[0].host, "one");
    assert_eq!(hosts[0].port, 1);
    assert_eq!(hosts[0].user, "x");
}

#[test]
fn options_before_the_first_host_and_in_matches_are_ignored() {
    let text = "User nobody\nPort 99\nHost a\n HostName one\nMatch all\n Port 7\nHost b\n HostName two\n";
    let hosts = parse_hosts(text);
    assert_eq!(hosts.len(), 2);
    assert_eq!((hosts[0].user.as_str(), hosts[0].port), ("", 22));
    assert_eq!((hosts[1].user.as_str(), hosts[1].port), ("", 22));
}

fn block_of(aliases: &[&str]) -> SshConfigBlock {
    SshConfigBlock {
        started: true,
        aliases: aliases.iter().map(|a| a.to_string()).collect(),
        hostname: None,
        user: None,
        port: None,
        identity: None,
        jump: None,
    }
}

#[test]
fn a_block_without_an_address_gives_no_connection() {
    let mut block = block_of(&["a"]);
    block.set("user", "root");
    assert!(block.into_profiles().is_none());
    let mut block = block_of(&["a", "b*"]);
    block.set("hostname", "h");
    block.set("port", "not a port");
    let profiles = block.into_profiles().unwrap();
    assert_eq!(profiles.len(), 1);
    assert_eq!(profiles[0].name, "a");
    assert_eq!(profiles[0].port, 22);
}

#[test]
fn options_read_alike_however_they_are_written() {
    let read = Some(("IdentityFile".to_string(), "a=b c".to_string()));
    for line in [
        "IdentityFile a=b c",
        "IdentityFile=a=b c",
        "  IdentityFile = a=b c # note",
        "\tIdentityFile\t a=b c# 'note",
        "IdentityFile =a=b c  ",
    ] {
        assert_eq!(ssh_directive(line), read, "{line}");
    }
}

#[test]
fn only_where_a_connection_goes_is_checked() {
    let forward = |bind_port: u16| Forward {
        bind_port,
        target_host: "h".into(),
        target_port: 80,
    };
    let mut p = remote("web", "h1", "a");
    p.forwards = vec![forward(1), forward(2), forward(3)];
    let mut q = remote("other", "h1", "b");
    q.identity = "/k".into();
    q.color = "#123456".into();
    q.forwards = vec![forward(3), forward(1), forward(2)];
    assert!(p.validate().is_ok() && q.validate().is_ok());
    p.forwards = vec![forward(1), forward(0), forward(1)];
    q.forwards = vec![forward(1), forward(1), forward(0)];
    assert!(p.validate().is_err() && q.validate().is_err());
}

#[test]
fn identity_files_are_expanded_where_they_are_taken_over() {
    let home = expand_home("~/.ssh/id");
    let mut block = block_of(&["a"]);
    block.set("IdentityFile", "~/.ssh/id");
    block.set("identityfile", "/etc/other");
    block.set("user", "~/me");
    assert_eq!(block.identity, Some(home.clone()));
    assert_eq!(block.user.as_deref(), Some("~/me"));
    let mut block = block_of(&["a"]);
    block.set_in("IdentityFile", "~/.ssh/id", &None);
    assert_eq!(block.identity.as_deref(), Some("~/.ssh/id"));
    let mut block = block_of(&["a"]);
    block.set_in("User", "~/me", &Some("/home/u".into()));
    block.set_in("IdentityFile", "~/id", &Some("/home/u".into()));
    assert_eq!(block.identity, Some(below("/home/u", "id")));
    assert_eq!(block.user.as_deref(), Some("~/me"));
    let text = "Host a\n HostName one\n IdentityFile ~/.ssh/id\n\
                Host b\n HostName two\n ProxyJump a\n IdentityFile /k\n";
    let written = parse_hosts(text);
    assert_eq!(written[0].identity, "~/.ssh/id");
    assert_eq!(written[1].jump.as_ref().unwrap().identity, "~/.ssh/id");
    let read = parse_ssh_config(text);
    assert_eq!(read[0].identity, home);
    assert_eq!(read[1].identity, "/k");
    assert_eq!(read[1].jump.as_ref().unwrap().identity, home);
    let read = parse_ssh_config_in(text, &Some("/home/u".into()));
    assert_eq!(read[0].identity, below("/home/u", ".ssh/id"));
    assert_eq!(read[1].identity, "/k");
    assert_eq!(read[1].jump.as_ref().unwrap().identity, read[0].identity);
    assert_eq!(parse_ssh_config_in(text, &None)[0].identity, "~/.ssh/id");
}

fn below(home: &str, rest: &str) -> String {
    std::path::Path::new(home).join(rest).to_string_lossy().into_owned()
}

#[test]
fn a_given_home_directory_is_the_one_that_paths_go_to() {
    let home = Some("/home/u".to_string());
    assert_eq!(expand_home_in("~/.ssh/id", &home), below("/home/u", ".ssh/id"));
    assert_eq!(expand_home_in("~", &home), "/home/u");
    assert_eq!(expand_home_in("~other/id", &home), "~other/id");
    assert_eq!(expand_home_in("/etc/id", &home), "/etc/id");
    assert_eq!(expand_home_in("~/.ssh/id", &None), "~/.ssh/id");
}

#[test]
fn a_jump_that_is_itself_jumped_to_keeps_one_hop() {
    let mut list = vec![remote("inner", "10.0.0.1", ""), remote("outer", "10.0.0.2", "")];
    list[0].jump = Some(Box::new(remote("", "outer", "")));
    list[1].jump = Some(Box::new(remote("", "inner", "")));
    resolve_jump_aliases(&mut list);
    for p in &list {
        let jump = p.jump.as_ref().unwrap();
        assert!(jump.jump.is_none());
    }
    assert_eq!(list[0].jump.as_ref().unwrap().host, "10.0.0.2");
    assert_eq!(list[1].jump.as_ref().unwrap().host, "10.0.0.1");
}

#[test]
fn paths_below_the_home_directory_are_expanded() {
    assert_eq!(path_below_home("~/.ssh/id"), Some(".ssh/id".to_string()));
    assert_eq!(path_below_home("/etc/id"), None);
    assert_eq!(
        expand_home_with("~/.ssh/id", &Some("/home/u".into()), "/home/u/.ssh/id".into()),
        "/home/u/.ssh/id"
    );
    assert_eq!(expand_home_with("~/.ssh/id", &None, String::new()), "~/.ssh/id");
    assert_eq!(expand_home("/etc/id"), "/etc/id");
    let expanded = expand_home("~/.ssh/id");
    match directories::UserDirs::new() {
        Some(dirs) => assert_eq!(
            expanded,
            dirs.home_dir().join(".ssh/id").to_string_lossy()
        ),
        None => assert_eq!(expanded, "~/.ssh/id"),
    }
}

#[test]
fn copies_and_edits_of_saved_connections() {
    let mut settings = Settings::new(false);
    assert_eq!(settings.store_profile(&remote("web", "h1", ""), None), Ok(()));
    assert!(settings.duplicate_profile(0));
    assert_eq!(settings.profiles[1].name, "web 副本");
    assert!(!settings.duplicate_profile(9));
    assert_eq!(settings.store_profile(&remote("db", "h2", ""), Some(1)), Ok(()));
    assert_eq!(settings.profiles[1].host, "h2");
    assert_eq!(
        settings.store_profile(&remote("bad", "", ""), None),
        Err(ProfileError::Host)
    );
    assert_eq!(settings.profiles.len(), 2);
    settings.remove_profile(0);
    assert_eq!(settings.profiles.len(), 1);
    assert_eq!(settings.profiles[0].name, "db");

    assert_eq!(settings.store_serial(&serial("r", "COM3", ""), None), Ok(()));
    assert!(settings.duplicate_serial(0));
    assert_eq!(settings.serial_profiles[1].name, "r 副本");
    assert_eq!(
        settings.store_serial(&serial("r", " ", ""), None),
        Err(SerialError::Missing)
    );
    settings.remove_serial(0);
    assert_eq!(settings.serial_profiles.len(), 1);
}

#[test]
fn renaming_and_removing_groups_reaches_every_connection() {
    let mut settings = Settings::new(false);
    assert!(settings.add_group("prod"));
    assert!(!settings.add_group("prod"));
    settings.profiles.push(remote("a", "h", "prod"));
    settings.serial_profiles.push(serial("s", "COM1", "prod"));
    settings.profiles.push(remote("b", "h", ""));
    settings.rename_group(0, "live");
    assert_eq!(settings.groups, vec!["live".to_string()]);
    assert_eq!(settings.profiles[0].group, "live");
    assert_eq!(settings.serial_profiles[0].group, "live");
    assert_eq!(settings.profiles[1].group, "");
    let rows = settings.group_rows();
    let listed: usize = rows.iter().map(|r| r.profiles.len() + r.serials.len()).sum();
    assert_eq!(listed, 3);
    settings.remove_group(0);
    assert!(settings.groups.is_empty());
    assert_eq!(settings.profiles[0].group, "");
    assert_eq!(settings.serial_profiles[0].group, "");
}

#[test]
fn every_engine_that_is_offered_is_known() {
    for (key, label, template) in SEARCH_ENGINES {
        assert_eq!(search_engine_label(key), label);
        assert_eq!(search_url(key, "a b"), template.replace("{}", "a%20b"));
    }
    assert_eq!(
        SEARCH_ENGINES[2],
        ("duckduckgo", "DuckDuckGo", "https://duckduckgo.com/?q={}")
    );
}
