use runner::config::{Config, GeneralConfig, ThemeConfig, find_group, Rgba};
use runner::desktop::parse_desktop_file;
use runner::history::{increment_usage, History};
use runner::launch::build_command;
use runner::model::{Entry, EntryType};
use runner::text::{contains_sub, join_with_spaces, split_whitespace, str_eq, str_lt};

#[test]
fn color_parses_eight_hex_digits() {
    assert_eq!(
        ThemeConfig::parse_color("1e2d3cff"),
        Rgba { r: 0x1e, g: 0x2d, b: 0x3c, a: 0xff },
    );
    assert_eq!(
        ThemeConfig::parse_color("#ff8000C0"),
        Rgba { r: 255, g: 128, b: 0, a: 192 },
    );
}

#[test]
fn color_ignores_repeated_leading_hashes() {
    assert_eq!(
        ThemeConfig::parse_color("##ffffffff"),
        Rgba { r: 255, g: 255, b: 255, a: 255 },
    );
}

#[test]
fn malformed_colors_fall_back_to_opaque_black() {
    let black = Rgba { r: 0, g: 0, b: 0, a: 255 };
    assert_eq!(ThemeConfig::parse_color(""), black);
    assert_eq!(ThemeConfig::parse_color("fff"), black);
    assert_eq!(ThemeConfig::parse_color("gg0000ff"), black);
    assert_eq!(ThemeConfig::parse_color("1e1e1eff00"), black);
}

#[test]
fn default_config_has_one_group_with_all_sources() {
    let config = Config::default();
    assert_eq!(config.groups.len(), 1);
    assert_eq!(config.groups[0].0, "default");
    assert_eq!(config.groups[0].1.sources, vec!["desktop", "bin", "scripts"]);
    assert!(config.groups[0].1.blacklist.is_none());
    assert_eq!(config.theme.width, 600);
    assert_eq!(config.theme.height, 400);
    assert_eq!(config.theme.background, "1e1e1eff");
    assert_eq!(config.general.history_size, 50);
}

#[test]
fn group_lookup_finds_by_name() {
    let config = Config::default();
    assert!(find_group(&config.groups, "default").is_some());
    assert!(find_group(&config.groups, "games").is_none());
}

#[test]
fn history_counts_grow_by_one() {
    let mut hist = History::new();
    assert_eq!(hist.get_count("x"), 0);
    increment_usage(&mut hist, "x");
    assert_eq!(hist.get_count("x"), 1);
    increment_usage(&mut hist, "x");
    assert_eq!(hist.get_count("x"), 2);
    increment_usage(&mut hist, "y");
    assert_eq!(hist.get_count("x"), 2);
    assert_eq!(hist.get_count("y"), 1);
}

#[test]
fn whitespace_splitting_and_joining() {
    let parts = split_whitespace("  xterm\t-e  run ");
    assert_eq!(parts, vec!["xterm", "-e", "run"]);
    assert_eq!(join_with_spaces(&parts), "xterm -e run");
    assert_eq!(split_whitespace(""), Vec::<String>::new());
}

#[test]
fn string_utilities() {
    assert!(str_eq("abc", "abc"));
    assert!(!str_eq("abc", "abd"));
    assert!(str_lt("Alpha", "Beta"));
    assert!(str_lt("Alp", "Alpha"));
    assert!(!str_lt("Beta", "Beta"));
    assert!(contains_sub("Alpha", "lph"));
    assert!(!contains_sub("Alpha", "beta"));
    assert!(contains_sub("x", ""));
}

#[test]
fn command_splits_at_whitespace() {
    let entry = Entry::new(
        "e".to_string(),
        "E".to_string(),
        "echo hello world".to_string(),
        EntryType::Custom,
        false,
    );
    let general = GeneralConfig::default();
    assert_eq!(build_command(&entry, &general), vec!["echo", "hello", "world"]);
}

#[test]
fn terminal_items_are_wrapped_in_the_emulator() {
    let entry = Entry::new(
        "e".to_string(),
        "E".to_string(),
        "htop --tree".to_string(),
        EntryType::Binary,
        true,
    );
    let mut general = GeneralConfig::default();
    general.terminal = Some("xterm -e".to_string());
    // the item's command stays one argument
    assert_eq!(build_command(&entry, &general), vec!["xterm", "-e", "htop --tree"]);
}

#[test]
fn terminal_items_without_an_emulator_run_directly() {
    let entry = Entry::new(
        "e".to_string(),
        "E".to_string(),
        "htop --tree".to_string(),
        EntryType::Binary,
        true,
    );
    let general = GeneralConfig::default();
    assert_eq!(build_command(&entry, &general), vec!["htop", "--tree"]);
}

#[test]
fn desktop_entry_fields_are_collected() {
    let content = "\
[Desktop Entry]
Name=Firefox
Exec=firefox %u --new-window %U
Icon=firefox
Terminal=false
";
    let info = parse_desktop_file(content).expect("a complete entry parses");
    assert_eq!(info.name, "Firefox");
    assert_eq!(info.command, "firefox --new-window");
    assert_eq!(info.icon.as_deref(), Some("firefox"));
    assert!(!info.terminal);
    assert!(info.container.is_none());
}

#[test]
fn desktop_entry_outside_main_section_is_ignored() {
    let content = "\
[Desktop Entry]
Name=Real
Exec=real

[Desktop Action new-window]
Name=Other
Exec=other
";
    let info = parse_desktop_file(content).expect("entry parses");
    assert_eq!(info.name, "Real");
    assert_eq!(info.command, "real");
}

#[test]
fn hidden_desktop_entries_parse_to_nothing() {
    let content = "\
[Desktop Entry]
Name=Ghost
Exec=ghost
NoDisplay=true
";
    assert!(parse_desktop_file(content).is_none());
}

#[test]
fn desktop_entry_without_name_or_exec_parses_to_nothing() {
    assert!(parse_desktop_file("[Desktop Entry]\nName=OnlyName\n").is_none());
    assert!(parse_desktop_file("[Desktop Entry]\nExec=only-exec\n").is_none());
    assert!(parse_desktop_file("").is_none());
}

#[test]
fn desktop_entry_terminal_flag_and_comments() {
    let content = "\
# a comment
[Desktop Entry]
# another comment
Name=Term App
Exec=tapp
Terminal=true
";
    let info = parse_desktop_file(content).expect("entry parses");
    assert!(info.terminal);
}

#[test]
fn container_wrappers_name_their_container() {
    let content = "\
[Desktop Entry]
Name=Boxed
Exec=distrobox-enter -n fedora -- app %f
";
    let info = parse_desktop_file(content).expect("entry parses");
    assert_eq!(info.container.as_deref(), Some("fedora"));

    let content = "\
[Desktop Entry]
Name=Boxed
Exec=toolbox run --container dev app
";
    let info = parse_desktop_file(content).expect("entry parses");
    assert_eq!(info.container.as_deref(), Some("dev"));
}

#[test]
fn last_binding_of_a_key_wins() {
    let content = "\
[Desktop Entry]
Name=First
Name=Second
Exec=app
";
    let info = parse_desktop_file(content).expect("entry parses");
    assert_eq!(info.name, "Second");
}
