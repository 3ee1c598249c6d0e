use todo_notes::cmd::CommandType;
use todo_notes::config::{
    add_list_to_config, config_dir_from, config_file_path, decide, get_list_name, get_repo_name,
    get_user_config_dir, list_name, new_list, notes_dir, parse_args, repo_list_name,
    to_ascii_upper, usage_brief, Invocation,
};
use todo_notes::cmd::Flags;
use todo_notes::error::{ArgError, ConfigError};

fn args(words: &[&str]) -> Vec<String> {
    words.iter().map(|w| w.to_string()).collect()
}

fn run_of(words: &[&str]) -> (CommandType, String, String) {
    match parse_args("todo", &args(words)).unwrap() {
        Invocation::Run(c) => (c.cmd, c.arg, c.path),
        other => panic!("no command: {:?}", other),
    }
}

#[test]
fn parse_args_reads_each_command() {
    assert_eq!(
        run_of(&["todo", "-a", "buy milk"]),
        (CommandType::Add, "buy milk".to_string(), String::new())
    );
    assert_eq!(
        run_of(&["todo", "--add=call mom"]),
        (CommandType::Add, "call mom".to_string(), String::new())
    );
    assert_eq!(run_of(&["todo", "-d", "2 4"]), (CommandType::Delete, "2 4".to_string(), String::new()));
    assert_eq!(run_of(&["todo", "--delete", "3"]), (CommandType::Delete, "3".to_string(), String::new()));
    assert_eq!(run_of(&["todo", "-l"]), (CommandType::List, String::new(), String::new()));
    assert_eq!(run_of(&["todo", "--list"]), (CommandType::List, String::new(), String::new()));
    assert_eq!(run_of(&["todo", "-r"]), (CommandType::Reset, String::new(), String::new()));
    assert_eq!(run_of(&["todo", "--reset"]), (CommandType::Reset, String::new(), String::new()));
}

#[test]
fn parse_args_reads_the_target() {
    assert_eq!(
        run_of(&["todo", "-t", "work", "-l"]),
        (CommandType::List, String::new(), "work".to_string())
    );
    assert_eq!(
        run_of(&["todo", "-a", "x", "--target=home"]),
        (CommandType::Add, "x".to_string(), "home".to_string())
    );
}

#[test]
fn parse_args_passes_over_the_program_name() {
    assert_eq!(run_of(&["-l", "-l"]), (CommandType::List, String::new(), String::new()));
    assert!(matches!(parse_args("todo", &args(&["-l"])).unwrap(), Invocation::Nothing));
}

#[test]
fn parse_args_prefers_add_then_delete_then_list() {
    assert_eq!(run_of(&["todo", "-l", "-d", "1", "-a", "x"]).0, CommandType::Add);
    assert_eq!(run_of(&["todo", "-r", "-l", "-d", "1"]).0, CommandType::Delete);
    assert_eq!(run_of(&["todo", "-r", "-l"]).0, CommandType::List);
}

#[test]
fn parse_args_without_a_command() {
    assert!(matches!(parse_args("todo", &args(&["todo"])).unwrap(), Invocation::Nothing));
    assert!(matches!(parse_args("todo", &args(&[])).unwrap(), Invocation::Nothing));
    assert!(matches!(parse_args("todo", &args(&["todo", "-t", "work"])).unwrap(), Invocation::Nothing));
}

#[test]
fn parse_args_shows_help() {
    match parse_args("todo", &args(&["todo", "-h"])).unwrap() {
        Invocation::Help(text) => {
            assert!(text.starts_with("\nUsage: ./todo [options]\n\nOptions:\n"), "{:?}", text);
            for option in ["-a, --add", "-l, --list", "-d, --delete", "-r, --reset", "-t, --target", "-h, --help"] {
                assert!(text.contains(option), "{:?} lacks {:?}", text, option);
            }
        }
        other => panic!("no help: {:?}", other),
    }
    assert!(matches!(
        parse_args("todo", &args(&["todo", "-a", "x", "--help", "stray"])).unwrap(),
        Invocation::Help(_)
    ));
}

#[test]
fn parse_args_refuses_stray_arguments() {
    match parse_args("todo", &args(&["todo", "-l", "stray"])).unwrap() {
        Invocation::Stray(text) => assert!(text.contains("Usage: ./todo [options]")),
        other => panic!("not refused: {:?}", other),
    }
    assert!(matches!(
        parse_args("todo", &args(&["todo", "buy", "milk"])).unwrap(),
        Invocation::Stray(_)
    ));
}

#[test]
fn parse_args_hands_on_what_the_parser_refuses() {
    assert_eq!(
        parse_args("todo", &args(&["todo", "-a"])).unwrap_err(),
        ArgError::ArgumentMissing("a".to_string())
    );
    assert_eq!(
        parse_args("todo", &args(&["todo", "-x"])).unwrap_err(),
        ArgError::UnrecognizedOption("x".to_string())
    );
    assert_eq!(
        parse_args("todo", &args(&["todo", "--nope"])).unwrap_err(),
        ArgError::UnrecognizedOption("nope".to_string())
    );
    assert_eq!(
        parse_args("todo", &args(&["todo", "-l", "--list"])).unwrap_err(),
        ArgError::OptionDuplicated("list".to_string())
    );
    assert_eq!(
        parse_args("todo", &args(&["todo", "--list=3"])).unwrap_err(),
        ArgError::UnexpectedArgument("list".to_string())
    );
}

#[test]
fn decide_puts_help_first_and_stray_arguments_second() {
    let flags = || Flags { add: Some("x".to_string()), delete: None, list: false, reset: false, target: None };
    assert!(matches!(decide(true, 2, flags(), "text".to_string()), Invocation::Help(t) if t == "text"));
    assert!(matches!(decide(false, 2, flags(), "text".to_string()), Invocation::Stray(t) if t == "text"));
    assert!(matches!(decide(false, 0, flags(), "text".to_string()), Invocation::Run(c) if c.arg == "x"));
    let none = Flags { add: None, delete: None, list: false, reset: false, target: None };
    assert!(matches!(decide(false, 0, none, "text".to_string()), Invocation::Nothing));
}

#[test]
fn usage_brief_names_the_program() {
    assert_eq!(usage_brief("todo"), "\nUsage: ./todo [options]");
    assert_eq!(usage_brief(""), "\nUsage: ./ [options]");
}

#[test]
fn get_list_name_finds_the_path() {
    let config = "DEFAULT=/c/.todo_notes/default.txt\nWORK=/c/.todo_notes/work.txt";
    assert_eq!(get_list_name(config, "DEFAULT"), Ok(Some("/c/.todo_notes/default.txt".to_string())));
    assert_eq!(get_list_name(config, "WORK"), Ok(Some("/c/.todo_notes/work.txt".to_string())));
    assert_eq!(get_list_name(config, "HOME"), Ok(None));
    assert_eq!(get_list_name("", "DEFAULT"), Ok(None));
}

#[test]
fn get_list_name_goes_by_the_whole_name() {
    let config = "WORK=/one.txt\nWORKSHOP=/two.txt\nHOME=/three.txt";
    assert_eq!(get_list_name(config, "WORK"), Ok(Some("/one.txt".to_string())));
    assert_eq!(get_list_name(config, "WORKSHOP"), Ok(Some("/two.txt".to_string())));
    assert_eq!(get_list_name(config, "HOME"), Ok(Some("/three.txt".to_string())));
    for other in ["", "W", "WOR", "WORKS", "WORKSHOPS", "work", "OME", "HOME ", " HOME", "WORK=/one.txt"] {
        assert_eq!(get_list_name(config, other), Ok(None), "{:?}", other);
    }
    assert_eq!(get_list_name("FOOBAR=/c/.todo_notes/foobar.txt", "FOO"), Ok(None));
    assert_eq!(get_list_name("FOO=/c/.todo_notes/foo.txt", "FOOBAR"), Ok(None));
}

#[test]
fn a_list_gets_its_own_entry_beside_a_longer_name() {
    let config = "FOOBAR=/c/.todo_notes/foobar.txt".to_string();
    assert_eq!(get_list_name(&config, "FOO"), Ok(None));
    let new = add_list_to_config("/c", "FOO", &config);
    assert_eq!(new.path, "/c/.todo_notes/foo.txt");
    let config = config + &new.entry;
    assert_eq!(config, "FOOBAR=/c/.todo_notes/foobar.txt\nFOO=/c/.todo_notes/foo.txt");
    assert_eq!(get_list_name(&config, "FOO"), Ok(Some("/c/.todo_notes/foo.txt".to_string())));
    assert_eq!(get_list_name(&config, "FOOBAR"), Ok(Some("/c/.todo_notes/foobar.txt".to_string())));
}

#[test]
fn get_list_name_takes_the_last_line_for_the_list() {
    assert_eq!(get_list_name("WORK=/a.txt\nHOME=/h.txt\nWORK=/b.txt", "WORK"), Ok(Some("/b.txt".to_string())));
    assert_eq!(get_list_name("WORK=/a.txt\nWORK=", "WORK"), Ok(None));
    assert_eq!(get_list_name("WORK=\nWORK=/a.txt", "WORK"), Ok(Some("/a.txt".to_string())));
}

#[test]
fn get_list_name_takes_all_that_follows_the_first_equals_sign() {
    assert_eq!(get_list_name("WORK=/a=b.txt", "WORK"), Ok(Some("/a=b.txt".to_string())));
    assert_eq!(get_list_name("WORK==/a.txt", "WORK"), Ok(Some("=/a.txt".to_string())));
    assert_eq!(get_list_name("WORK=/a.txt=", "WORK"), Ok(Some("/a.txt=".to_string())));
    assert_eq!(get_list_name("WORK= /a b.txt ", "WORK"), Ok(Some(" /a b.txt ".to_string())));
    assert_eq!(get_list_name("WORK=", "WORK"), Ok(None));
    assert_eq!(get_list_name("=/a.txt", ""), Ok(Some("/a.txt".to_string())));
}

#[test]
fn get_list_name_reads_lines_as_std_does() {
    assert_eq!(get_list_name("WORK=/a.txt\r\nHOME=/b.txt\r\n", "WORK"), Ok(Some("/a.txt".to_string())));
    assert_eq!(get_list_name("WORK=/a.txt\r\nHOME=/b.txt\r\n", "HOME"), Ok(Some("/b.txt".to_string())));
    assert_eq!(get_list_name("WORK=/a.txt\n", "WORK"), Ok(Some("/a.txt".to_string())));
    assert_eq!(get_list_name("WORK=/a.txt\r", "WORK"), Ok(Some("/a.txt\r".to_string())));
    assert_eq!(get_list_name("\n\nWORK=/a.txt", "WORK"), Ok(Some("/a.txt".to_string())));
}

#[test]
fn get_list_name_agrees_with_std_lines() {
    for config in ["", "\n", "A=1", "A=1\n", "A=1\r\n", "A=1\r", "A=1\n\nA=2", "A=1\r\n\r\nA=\r\r\n", "\r\nA=x\n\r", "AB=1\nA=2=3\r\nB=A"] {
        let mut expected = String::new();
        for line in config.lines() {
            if let Some((name, path)) = line.split_once('=') {
                if name == "A" {
                    expected = path.to_string();
                }
            }
        }
        let expected = if expected.is_empty() { None } else { Some(expected) };
        assert_eq!(get_list_name(config, "A"), Ok(expected), "{:?}", config);
    }
}

#[test]
fn get_list_name_refuses_a_line_without_an_equals_sign() {
    assert_eq!(get_list_name("WORK", "WORK"), Err(ConfigError::Malformed { line: 1 }));
    assert_eq!(
        get_list_name("HOME=/h.txt\nWORK=/w.txt\nWORKING\nWORK\nWORK", "WORK"),
        Err(ConfigError::Malformed { line: 4 })
    );
    assert_eq!(get_list_name("WORK\r\nWORK=/w.txt", "WORK"), Err(ConfigError::Malformed { line: 1 }));
    assert_eq!(get_list_name("HOME\nWORKING\nWORK=/w.txt", "WORK"), Ok(Some("/w.txt".to_string())));
}

#[test]
fn to_ascii_upper_changes_ascii_letters_only() {
    assert_eq!(to_ascii_upper("my-repo_2"), "MY-REPO_2");
    assert_eq!(to_ascii_upper("az AZ `{"), "AZ AZ `{");
    assert_eq!(to_ascii_upper("caf\u{e9} \u{df}"), "CAF\u{e9} \u{df}");
    assert_eq!(to_ascii_upper(""), "");
    for text in ["abc", "Stra\u{df}e", "\u{3b1}\u{3b2}x", "a\0z"] {
        assert_eq!(to_ascii_upper(text), text.to_ascii_uppercase());
    }
}

#[test]
fn list_name_prefers_the_target_then_the_repository() {
    assert_eq!(list_name("work", Some("REPO".to_string())), "WORK");
    assert_eq!(list_name("", Some("REPO".to_string())), "REPO");
    assert_eq!(list_name("", None), "DEFAULT");
    assert_eq!(list_name("Home", None), "HOME");
}

#[test]
fn repo_list_name_is_the_directory_in_upper_case() {
    assert_eq!(repo_list_name(Some("todo_notes".to_string())), Some("TODO_NOTES".to_string()));
    assert_eq!(repo_list_name(None), None);
}

#[test]
fn get_repo_name_names_the_directory_above() {
    assert_eq!(get_repo_name("/home/u/proj/.git/"), Some("PROJ".to_string()));
    assert_eq!(get_repo_name("/home/u/proj/.git"), Some("PROJ".to_string()));
    assert_eq!(get_repo_name("/home/u/my.repo/.git/"), Some("MY".to_string()));
    assert_eq!(get_repo_name("/.git/"), None);
    assert_eq!(get_repo_name("/"), None);
    assert_eq!(get_repo_name(""), None);
}

#[test]
fn config_dir_from_prefers_the_environment() {
    assert_eq!(
        config_dir_from(Some("/x".to_string()), Some("/home/u".to_string())),
        Some("/x".to_string())
    );
    assert_eq!(config_dir_from(None, Some("/home/u".to_string())), Some("/home/u/.config".to_string()));
    assert_eq!(config_dir_from(Some("/x".to_string()), None), Some("/x".to_string()));
    assert_eq!(config_dir_from(Some(String::new()), None), Some(String::new()));
    assert_eq!(config_dir_from(None, None), None);
}

#[test]
fn get_user_config_dir_hands_on_the_environment() {
    assert_eq!(get_user_config_dir(Some("/tmp/xdg".to_string())), Some("/tmp/xdg".to_string()));
    assert_eq!(get_user_config_dir(Some(String::new())), Some(String::new()));
    let dir = get_user_config_dir(None);
    assert!(dir.is_none() || dir.unwrap().ends_with("/.config"));
}

#[test]
fn paths_of_the_configuration() {
    assert_eq!(notes_dir("/home/u/.config"), "/home/u/.config/.todo_notes");
    assert_eq!(config_file_path("/home/u/.config"), "/home/u/.config/.todo_notes/config.toml");
}

#[test]
fn add_list_to_config_makes_entry_and_path() {
    let new = add_list_to_config("/c", "DEFAULT", "");
    assert_eq!(new.path, "/c/.todo_notes/default.txt");
    assert_eq!(new.entry, "DEFAULT=/c/.todo_notes/default.txt");
    let new = add_list_to_config("/c", "MyRepo", "DEFAULT=/c/.todo_notes/default.txt");
    assert_eq!(new.path, "/c/.todo_notes/myrepo.txt");
    assert_eq!(new.entry, "\nMyRepo=/c/.todo_notes/myrepo.txt");
}

#[test]
fn add_list_to_config_lowers_by_unicode_and_trims_white_space() {
    let new = add_list_to_config("/c", "\u{c9}COLE", "x");
    assert_eq!(new.path, "/c/.todo_notes/\u{e9}cole.txt");
    let new = add_list_to_config("/c", " \tX", "");
    assert_eq!(new.path, "/c/.todo_notes/ \tx.txt");
    assert_eq!(new.entry, "X=/c/.todo_notes/ \tx.txt");
    let new = add_list_to_config("/c", " \tX", "\n");
    assert_eq!(new.entry, "\n \tX=/c/.todo_notes/ \tx.txt");
}

#[test]
fn new_list_takes_the_lower_case_name_as_given() {
    let new = new_list("/c", "Work", "w", "");
    assert_eq!(new.path, "/c/.todo_notes/w.txt");
    assert_eq!(new.entry, "Work=/c/.todo_notes/w.txt");
    let new = new_list("", "", "", "x");
    assert_eq!(new.path, "/.todo_notes/.txt");
    assert_eq!(new.entry, "\n=/.todo_notes/.txt");
    let new = new_list("", "", "", "");
    assert_eq!(new.entry, "=/.todo_notes/.txt");
}

#[test]
fn a_new_list_is_found_in_the_new_configuration() {
    let mut config = String::new();
    for list in ["DEFAULT", "WORK", "HOME"] {
        assert_eq!(get_list_name(&config, list), Ok(None));
        let new = add_list_to_config("/c", list, &config);
        config.push_str(&new.entry);
        assert_eq!(get_list_name(&config, list), Ok(Some(new.path)));
    }
    assert_eq!(
        config,
        "DEFAULT=/c/.todo_notes/default.txt\nWORK=/c/.todo_notes/work.txt\nHOME=/c/.todo_notes/home.txt"
    );
}
