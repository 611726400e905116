use pueued::aliasing::{apply_alias, space, Alias};
use pueued::bootstrap::{
    daemon_arguments, directories_to_make, directory_label, directory_name, log_level, Directory,
    LogLevel,
};

fn chars(s: &str) -> Vec<char> {
    s.chars().collect()
}

fn text(v: Vec<char>) -> String {
    v.into_iter().collect()
}

fn table() -> Vec<Alias> {
    vec![
        Alias { token: chars("ls"), replacement: chars("ls -ahl") },
        Alias { token: chars("rsync"), replacement: chars("rsync --recursive --partial") },
        Alias { token: chars("ls"), replacement: chars("never") },
    ]
}

#[test]
fn alias_replaces_the_first_token() {
    assert_eq!(text(apply_alias(&chars("ls /tmp"), &table())), "ls -ahl /tmp");
    assert_eq!(
        text(apply_alias(&chars("rsync a b"), &table())),
        "rsync --recursive --partial a b"
    );
    assert_eq!(text(apply_alias(&chars("ls"), &table())), "ls -ahl");
}

#[test]
fn alias_replaces_once_and_only_whole_tokens() {
    assert_eq!(text(apply_alias(&chars("ls ls"), &table())), "ls -ahl ls");
    assert_eq!(text(apply_alias(&chars("lsblk ls"), &table())), "lsblk ls");
    assert_eq!(text(apply_alias(&chars("echo ls"), &table())), "echo ls");
}

#[test]
fn alias_keeps_surrounding_whitespace() {
    assert_eq!(text(apply_alias(&chars("  ls\t/tmp"), &table())), "  ls -ahl\t/tmp");
    assert_eq!(text(apply_alias(&chars("\u{a0}ls\u{2003}x"), &table())), "\u{a0}ls -ahl\u{2003}x");
}

#[test]
fn alias_leaves_other_commands_alone() {
    assert_eq!(text(apply_alias(&chars(""), &table())), "");
    assert_eq!(text(apply_alias(&chars("   "), &table())), "   ");
    assert_eq!(text(apply_alias(&chars("ls /tmp"), &Vec::new())), "ls /tmp");
}

#[test]
fn space_agrees_with_the_standard_library() {
    for n in 0..0x3100u32 {
        if let Some(c) = char::from_u32(n) {
            assert_eq!(space(c), c.is_whitespace());
        }
    }
}

#[test]
fn log_level_follows_verbosity() {
    assert_eq!(log_level(0), LogLevel::Error);
    assert_eq!(log_level(1), LogLevel::Warn);
    assert_eq!(log_level(2), LogLevel::Info);
    assert_eq!(log_level(3), LogLevel::Debug);
    assert_eq!(log_level(255), LogLevel::Debug);
}

#[test]
fn daemon_arguments_carry_port_and_verbosity() {
    assert_eq!(daemon_arguments(&None, 0), Vec::<String>::new());
    assert_eq!(
        daemon_arguments(&Some("6924".to_string()), 0),
        vec!["--port".to_string(), "6924".to_string()]
    );
    assert_eq!(daemon_arguments(&None, 2), vec!["-  ".to_string()]);
    assert_eq!(
        daemon_arguments(&Some("1".to_string()), 1),
        vec!["--port".to_string(), "1".to_string(), "- ".to_string()]
    );
}

#[test]
fn directories_are_named_under_the_base() {
    assert_eq!(directory_name(Directory::Base), None);
    assert_eq!(directory_name(Directory::Log), Some("log".to_string()));
    assert_eq!(directory_name(Directory::TaskLogs), Some("task_logs".to_string()));
    assert_eq!(directory_label(Directory::Base), "main");
    assert_eq!(directory_label(Directory::Log), "log");
    assert_eq!(directory_label(Directory::TaskLogs), "task logs");
}

#[test]
fn only_missing_directories_are_made_base_first() {
    assert_eq!(
        directories_to_make(false, false, false),
        vec![Directory::Base, Directory::Log, Directory::TaskLogs]
    );
    assert_eq!(directories_to_make(true, true, true), Vec::<Directory>::new());
    assert_eq!(directories_to_make(true, false, true), vec![Directory::Log]);
    assert_eq!(directories_to_make(true, true, false), vec![Directory::TaskLogs]);
    assert_eq!(directories_to_make(true, false, false), vec![Directory::Log, Directory::TaskLogs]);
    assert_eq!(directories_to_make(false, true, true), vec![Directory::Base]);
    assert_eq!(directories_to_make(false, true, false), vec![Directory::Base, Directory::TaskLogs]);
    assert_eq!(directories_to_make(false, false, true), vec![Directory::Base, Directory::Log]);
}
