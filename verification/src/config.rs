use vstd::prelude::*;
use vstd::string::StringExecFns;
use crate::cmd::{chosen, named, Command, Flags, FlagsView};
use crate::error::{fault, ArgError, ConfigError};
use crate::options::{
    all_valid, declared, first_value, free_args, given, name_set, new_options, opt_present,
    opt_str, optflag, optopt, parse, parse_spec, usage, usage_spec,
};
use crate::platform::{home_dir, lowercase, path_file_stem, path_parent, to_lowercase};
use crate::request::{is_space, is_space_char};
use crate::text::{
    chars_of, position_of, rows, run_before, starts_with, std_lines, std_lines_spec, string_from,
    texts,
};

verus! {

/// What a command line asks for.
#[derive(Debug)]
pub enum Invocation {
    /// The help text is to be shown; the program then ends well.
    Help(String),
    /// Arguments that belong to no option were given: the help text is to
    /// be shown, and the program then ends badly.
    Stray(String),
    /// No command was given: the program ends badly.
    Nothing,
    /// This command is to be run, once the path of its list file is known.
    Run(Command),
}

/// What a command line asks for, given whether help was asked for, how
/// many stray arguments there were, the options of the command, and the help
/// text. Help goes before stray arguments, and both before the command.
pub open spec fn decided(
    help: bool,
    stray: nat,
    flags: FlagsView,
    text: Seq<char>,
    inv: Invocation,
) -> bool {
    if help {
        inv matches Invocation::Help(shown) && shown@ == text
    } else if stray > 0 {
        inv matches Invocation::Stray(shown) && shown@ == text
    } else {
        match inv {
            Invocation::Run(command) => {
                &&& chosen(flags) == Some((command.cmd, command.arg@))
                &&& command.path@ == named(flags)
            },
            Invocation::Nothing => chosen(flags) is None,
            _ => false,
        }
    }
}

/// Decides what a command line asks for; `text` is the help text to show
/// where that is called for.
pub fn decide(help: bool, stray: usize, flags: Flags, text: String) -> (inv: Invocation)
    ensures
        decided(help, stray as nat, flags@, text@, inv),
{
    if help {
        Invocation::Help(text)
    } else if stray > 0 {
        Invocation::Stray(text)
    } else {
        match Command::get_command(flags) {
            Some(command) => Invocation::Run(command),
            None => Invocation::Nothing,
        }
    }
}

/// The line that heads the help text.
pub open spec fn brief_spec(program: Seq<char>) -> Seq<char> {
    "\nUsage: ./"@ + program + " [options]"@
}

/// The line that heads the help text.
pub fn usage_brief(program: &str) -> (brief: String)
    ensures
        brief@ == brief_spec(program@),
{
    let mut brief = String::from_str("\nUsage: ./");
    brief.append(program);
    brief.append(" [options]");
    brief
}

/// The help text of the program.
fn print_usage(program: &str, opts: &getopts::Options) -> (text: String)
    requires
        all_valid(declared(*opts)),
    ensures
        text@ == usage_spec(declared(*opts), brief_spec(program@)),
{
    let brief = usage_brief(program);
    usage(opts, brief.as_str())
}

/// The options of the program: add, list, delete, reset, target and help.
pub open spec fn cli_options() -> Seq<(Seq<char>, Seq<char>, Seq<char>, Seq<char>, bool)> {
    seq![
        ("a"@, "add"@, "Add \"list item\""@, ""@, true),
        ("l"@, "list"@, "List all items"@, Seq::empty(), false),
        ("d"@, "delete"@, "Delete list items \"n [n2 n3...]\""@, ""@, true),
        ("r"@, "reset"@, "Delete all items"@, Seq::empty(), false),
        ("t"@, "target"@, "Use list \"name\""@, ""@, true),
        ("h"@, "help"@, "Display usage info"@, Seq::empty(), false),
    ]
}

/// The arguments after the first, which is the program itself.
pub open spec fn rest_of(args: Seq<Seq<char>>) -> Seq<Seq<char>> {
    if args.len() == 0 {
        args
    } else {
        args.skip(1)
    }
}

/// The options of a command as the parser found them.
pub open spec fn flags_of(found: Map<Seq<char>, Seq<Option<Seq<char>>>>) -> FlagsView {
    FlagsView {
        add: first_value(found["a"@]),
        delete: first_value(found["d"@]),
        list: found["l"@].len() > 0,
        reset: found["r"@].len() > 0,
        target: first_value(found["t"@]),
    }
}

/// What the command line `args` of the program `program` asks for, given
/// what the option parser makes of it.
pub open spec fn parsed(
    program: Seq<char>,
    outcome: Result<(Map<Seq<char>, Seq<Option<Seq<char>>>>, Seq<Seq<char>>), (nat, Seq<char>)>,
    r: Result<Invocation, ArgError>,
) -> bool {
    match outcome {
        Ok((found, stray)) => r matches Ok(inv) && decided(
            found["h"@].len() > 0,
            stray.len(),
            flags_of(found),
            usage_spec(cli_options(), brief_spec(program)),
            inv,
        ),
        Err(refusal) => r matches Err(e) && fault(e) == refusal,
    }
}

/// Reads a command line; `args[0]` is the program itself and is passed over.
/// The options are `-a TEXT` (add), `-l` (list), `-d PLACES` (delete),
/// `-r` (reset), `-t LIST` (target) and `-h` (help), each with a long form.
///
/// The arguments are refused where the option parser refuses them. Else
/// the result is what `decide` makes of the options that the parser found.
pub fn parse_args(program: &str, args: &Vec<String>) -> (r: Result<Invocation, ArgError>)
    ensures
        parsed(program@, parse_spec(cli_options(), rest_of(texts(args@))), r),
{
    let mut opts = new_options();
    proof {
        reveal_strlit("a");
        reveal_strlit("add");
        reveal_strlit("l");
        reveal_strlit("list");
        reveal_strlit("d");
        reveal_strlit("delete");
        reveal_strlit("r");
        reveal_strlit("reset");
        reveal_strlit("t");
        reveal_strlit("target");
        reveal_strlit("h");
        reveal_strlit("help");
        reveal_strlit("");
    }
    optopt(&mut opts, "a", "add", "Add \"list item\"", "");
    optflag(&mut opts, "l", "list", "List all items");
    optopt(&mut opts, "d", "delete", "Delete list items \"n [n2 n3...]\"", "");
    optflag(&mut opts, "r", "reset", "Delete all items");
    optopt(&mut opts, "t", "target", "Use list \"name\"", "");
    optflag(&mut opts, "h", "help", "Display usage info");
    let ghost names = declared(opts);
    proof {
        assert(names =~= cli_options());
        assert(all_valid(names));
        assert(names[0].0 == "a"@);
        assert(names[1].0 == "l"@);
        assert(names[2].0 == "d"@);
        assert(names[3].0 == "r"@);
        assert(names[4].0 == "t"@);
        assert(names[5].0 == "h"@);
        assert(name_set(names).contains("a"@));
        assert(name_set(names).contains("l"@));
        assert(name_set(names).contains("d"@));
        assert(name_set(names).contains("r"@));
        assert(name_set(names).contains("t"@));
        assert(name_set(names).contains("h"@));
    }

    let mut rest: Vec<String> = Vec::new();
    let mut i: usize = 1;
    while i < args.len()
        invariant
            1 <= i,
            args@.len() > 0 ==> i <= args@.len(),
            args@.len() > 0 ==> rest@ == args@.subrange(1, i as int),
            args@.len() == 0 ==> rest@.len() == 0,
        decreases args.len() - i,
    {
        rest.push(args[i].clone());
        i += 1;
    }
    proof {
        if args@.len() > 0 {
            assert(args@.subrange(1, i as int) == args@.skip(1));
            assert(texts(rest@) == texts(args@).skip(1));
        } else {
            assert(texts(rest@) == texts(args@));
        }
    }

    let matches = match parse(&opts, &rest) {
        Ok(matches) => matches,
        Err(e) => {
            return Err(e);
        },
    };
    let help = opt_present(&matches, "h");
    let stray = free_args(&matches).len();
    let flags = Flags {
        add: opt_str(&matches, "a"),
        delete: opt_str(&matches, "d"),
        list: opt_present(&matches, "l"),
        reset: opt_present(&matches, "r"),
        target: opt_str(&matches, "t"),
    };
    assert(flags@ == flags_of(given(matches)));
    let text = print_usage(program, &opts);
    Ok(decide(help, stray, flags, text))
}

/// The list that a line of the configuration is for: what stands before
/// its first equals sign; the whole line where it has none.
pub open spec fn key_spec(line: Seq<char>) -> Seq<char> {
    line.take(run_before(line, '=') as int)
}

/// The path that a line of the configuration gives: all that follows its
/// first equals sign; none where it has no equals sign.
pub open spec fn value_spec(line: Seq<char>) -> Option<Seq<char>> {
    let at = run_before(line, '=') as int;
    if at < line.len() {
        Some(line.skip(at + 1))
    } else {
        None
    }
}

/// The line is for the list `list`: what stands before its first equals
/// sign is `list`, no more and no less.
pub open spec fn names(line: Seq<char>, list: Seq<char>) -> bool {
    key_spec(line) == list
}

/// The path that the last line for `list` gives; empty where no line is
/// for `list`.
pub open spec fn lookup(lines: Seq<Seq<char>>, list: Seq<char>) -> Seq<char>
    decreases lines.len(),
{
    if lines.len() == 0 {
        Seq::empty()
    } else if names(lines.last(), list) && value_spec(lines.last()) is Some {
        value_spec(lines.last()).unwrap()
    } else {
        lookup(lines.drop_last(), list)
    }
}

/// Line `k` (from 0) is the first that is for `list` and has no equals sign.
pub open spec fn first_malformed(lines: Seq<Seq<char>>, list: Seq<char>, k: int) -> bool {
    &&& 0 <= k < lines.len()
    &&& names(lines[k], list)
    &&& value_spec(lines[k]) is None
    &&& forall|j: int| 0 <= j < k && names(#[trigger] lines[j], list) ==> value_spec(lines[j]) is Some
}

/// Every line that is for `list` has an equals sign.
pub open spec fn well_formed(lines: Seq<Seq<char>>, list: Seq<char>) -> bool {
    forall|j: int|
        0 <= j < lines.len() && names(#[trigger] lines[j], list) ==> value_spec(lines[j]) is Some
}

/// Finds the path of the file of the list `list` in the text `config` of
/// the configuration. Each line maps a list to a path: the name of the list,
/// an equals sign, and the path, which is all the rest of the line. A line
/// is for `list` where the name before its first equals sign is `list`
/// itself; a longer name that begins with `list` is another list. Where
/// several lines are for `list`, the last counts. `None` where no line is for
/// `list`, or the path is empty: the list is then still to be made. A line
/// that holds `list` and no equals sign is refused.
pub fn get_list_name(config: &str, list: &str) -> (r: Result<Option<String>, ConfigError>)
    ensures
        match r {
            Ok(found) => {
                &&& well_formed(std_lines_spec(config@), list@)
                &&& match found {
                    Some(path) => path@ == lookup(std_lines_spec(config@), list@) && path@.len() > 0,
                    None => lookup(std_lines_spec(config@), list@).len() == 0,
                }
            },
            Err(ConfigError::Malformed { line }) => first_malformed(
                std_lines_spec(config@),
                list@,
                line - 1,
            ),
        },
{
    let text = chars_of(config);
    let name = chars_of(list);
    let lines = std_lines(&text);
    let ghost all = std_lines_spec(config@);
    let mut found = String::new();
    let mut i: usize = 0;
    while i < lines.len()
        invariant
            i <= lines.len(),
            rows(lines@) == all,
            all == std_lines_spec(config@),
            name@ == list@,
            well_formed(all.take(i as int), list@),
            found@ == lookup(all.take(i as int), list@),
        decreases lines.len() - i,
    {
        let ghost seen = all.take(i as int + 1);
        let ghost line = all[i as int];
        proof {
            assert(seen.drop_last() == all.take(i as int));
            assert(seen.last() == line);
            assert(lines@[i as int]@ == line);
        }
        let at = position_of(&lines[i], '=');
        let is_for = at == name.len() && starts_with(&lines[i], &name);
        proof {
            assert(key_spec(line) == line.subrange(0, at as int));
            assert(is_for == names(line, list@));
        }
        if is_for {
            if at == lines[i].len() {
                proof {
                    assert forall|j: int| 0 <= j < i && names(#[trigger] all[j], list@) implies value_spec(
                        all[j],
                    ) is Some by {
                        assert(all.take(i as int)[j] == all[j]);
                    }
                }
                return Err(ConfigError::Malformed { line: i + 1 });
            }
            found = string_from(&lines[i], at + 1);
        }
        proof {
            assert forall|j: int| 0 <= j < seen.len() && names(#[trigger] seen[j], list@) implies value_spec(
                seen[j],
            ) is Some by {
                if j < i {
                    assert(all.take(i as int)[j] == seen[j]);
                }
            }
        }
        i += 1;
    }
    proof {
        assert(all.take(all.len() as int) == all);
    }
    if found.as_str().is_empty() {
        Ok(None)
    } else {
        Ok(Some(found))
    }
}

/// The upper-case form of an ASCII letter; any other character as it is.
pub open spec fn upper(c: char) -> char {
    if 97 <= c as int <= 122 {
        (c as int - 32) as char
    } else {
        c
    }
}

/// The text with its ASCII letters in upper case.
pub open spec fn ascii_upper(s: Seq<char>) -> Seq<char> {
    s.map_values(|c: char| upper(c))
}

/// Puts the ASCII letters of `s` in upper case.
pub fn to_ascii_upper(s: &str) -> (up: String)
    ensures
        up@ == ascii_upper(s@),
{
    let chars = chars_of(s);
    let mut up = String::new();
    let mut i: usize = 0;
    while i < chars.len()
        invariant
            i <= chars.len(),
            up@ == ascii_upper(chars@.take(i as int)),
        decreases chars.len() - i,
    {
        let c = chars[i];
        let u: char = if 'a' <= c && c <= 'z' {
            (c as u8 - 32u8) as char
        } else {
            c
        };
        up.push(u);
        assert(ascii_upper(chars@.take(i + 1)) == ascii_upper(chars@.take(i as int)).push(
            upper(c),
        ));
        i += 1;
    }
    assert(chars@.take(chars@.len() as int) == chars@);
    up
}

/// The list that is used where no other is named.
pub const DEFAULT_LIST: &'static str = "DEFAULT";

/// The name of the list to use: the list that the command line names,
/// else the list of the repository that the program was started in, else the
/// list `DEFAULT`. A list that the command line names is looked up under its
/// name in upper case, as the lists of repositories are.
pub fn list_name(target: &str, repo: Option<String>) -> (list: String)
    ensures
        list@ == if target@.len() > 0 {
            ascii_upper(target@)
        } else {
            match repo {
                Some(name) => name@,
                None => DEFAULT_LIST@,
            }
        },
{
    if !target.is_empty() {
        to_ascii_upper(target)
    } else {
        match repo {
            Some(name) => name,
            None => String::from_str(DEFAULT_LIST),
        }
    }
}

/// The name of the list of a repository, made from its directory's name.
pub fn repo_list_name(stem: Option<String>) -> (list: Option<String>)
    ensures
        match stem {
            Some(name) => list matches Some(up) && up@ == ascii_upper(name@),
            None => list is None,
        },
{
    match stem {
        Some(name) => Some(to_ascii_upper(name.as_str())),
        None => None,
    }
}

/// The name of the list of the repository whose data lies in the directory
/// `git_dir`: the name of the directory above it, without an extension, in
/// upper case. What the directory above is called is for the system's path
/// rules to say; `None` where they give no name.
pub fn get_repo_name(git_dir: &str) -> (list: Option<String>)
    ensures
        list matches Some(name) ==> ascii_upper(name@) == name@,
{
    let stem = match path_parent(git_dir) {
        Some(parent) => path_file_stem(parent.as_str()),
        None => None,
    };
    let ghost found = stem;
    let list = repo_list_name(stem);
    proof {
        if let Some(name) = found {
            assert(ascii_upper(ascii_upper(name@)) == ascii_upper(name@));
        }
    }
    list
}

/// The directory of the user's configuration, given the value of
/// `XDG_CONFIG_HOME` where it is set, and the user's home directory where
/// there is one: the former, else `.config` in the latter. There is none
/// where neither is given.
pub fn config_dir_from(xdg: Option<String>, home: Option<String>) -> (dir: Option<String>)
    ensures
        match xdg {
            Some(x) => dir matches Some(d) && d@ == x@,
            None => match home {
                Some(h) => dir matches Some(d) && d@ == h@ + "/.config"@,
                None => dir is None,
            },
        },
{
    match xdg {
        Some(x) => Some(x),
        None => match home {
            Some(h) => {
                let mut dir = h;
                dir.append("/.config");
                Some(dir)
            },
            None => None,
        },
    }
}

/// The directory of the user's configuration; `xdg` is the value of
/// `XDG_CONFIG_HOME`, where it is set. With it set, the directory is that
/// value, and the home directory is not asked for. Without it, the directory
/// is `.config` in the user's home directory; which that is, and whether
/// there is one, is for the system to say: `None` where there is none.
pub fn get_user_config_dir(xdg: Option<String>) -> (dir: Option<String>)
    ensures
        match xdg {
            Some(x) => dir matches Some(d) && d@ == x@,
            None => dir matches Some(d) ==> exists|home: Seq<char>| d@ == home + "/.config"@,
        },
{
    let home = if xdg.is_some() {
        None
    } else {
        home_dir()
    };
    let ghost found = home;
    let dir = config_dir_from(xdg, home);
    proof {
        if xdg is None {
            if let Some(h) = found {
                assert(dir.unwrap()@ == h@ + "/.config"@);
            }
        }
    }
    dir
}

/// The directory in which the lists and their configuration are kept.
pub fn notes_dir(config_dir: &str) -> (dir: String)
    ensures
        dir@ == config_dir@ + "/.todo_notes"@,
{
    let mut dir = String::from_str(config_dir);
    dir.append("/.todo_notes");
    dir
}

/// The path of the configuration file.
pub fn config_file_path(config_dir: &str) -> (path: String)
    ensures
        path@ == config_dir@ + "/.todo_notes/config.toml"@,
{
    let mut path = String::from_str(config_dir);
    path.append("/.todo_notes/config.toml");
    path
}

/// The path of the file of a list whose name in lower case is `lower`.
pub open spec fn path_with(config_dir: Seq<char>, lower: Seq<char>) -> Seq<char> {
    config_dir + "/.todo_notes/"@ + lower + ".txt"@
}

/// The path of the file of the list `list`: its name in lower case, in
/// the directory of the lists.
pub open spec fn list_path_spec(config_dir: Seq<char>, list: Seq<char>) -> Seq<char> {
    path_with(config_dir, lowercase(list))
}

/// The text without the white space that it begins with.
pub open spec fn trim_start_spec(s: Seq<char>) -> Seq<char>
    decreases s.len(),
{
    if s.len() > 0 && is_space(s[0]) {
        trim_start_spec(s.drop_first())
    } else {
        s
    }
}

/// What is to be added to the text `config` of the configuration for a
/// new list with the file `path`: a line break, the list, an equals sign and
/// the path; without the white space in front where the configuration is empty.
pub open spec fn entry_with(list: Seq<char>, path: Seq<char>, config: Seq<char>) -> Seq<char> {
    let line = seq!['\n'] + list + seq!['='] + path;
    if config.len() > 0 {
        line
    } else {
        trim_start_spec(line)
    }
}

/// What is to be added to the text `config` of the configuration for the
/// new list `list`.
pub open spec fn entry_spec(config_dir: Seq<char>, list: Seq<char>, config: Seq<char>) -> Seq<char> {
    entry_with(list, list_path_spec(config_dir, list), config)
}

/// A new list: the path of its file, which is to be made empty, and the
/// text to add at the end of the configuration.
#[derive(Debug)]
pub struct NewList {
    pub path: String,
    pub entry: String,
}

/// Takes the white space off the front of `s`.
pub fn trim_start(s: &Vec<char>) -> (rest: String)
    ensures
        rest@ == trim_start_spec(s@),
{
    let mut i: usize = 0;
    assert(s@.skip(0) == s@);
    while i < s.len() && is_space_char(s[i])
        invariant
            i <= s.len(),
            trim_start_spec(s@) == trim_start_spec(s@.skip(i as int)),
        decreases s.len() - i,
    {
        assert(s@.skip(i as int).drop_first() == s@.skip(i + 1));
        i += 1;
    }
    proof {
        if i < s.len() {
            assert(s@.skip(i as int)[0] == s@[i as int]);
        }
    }
    string_from(s, i)
}

/// Makes the entry of a new list `list` for the configuration whose text
/// is `config`, and the path of the list's file; `lower` is the name of the
/// list in lower case.
pub fn new_list(config_dir: &str, list: &str, lower: &str, config: &str) -> (new: NewList)
    ensures
        new.path@ == path_with(config_dir@, lower@),
        new.entry@ == entry_with(list@, path_with(config_dir@, lower@), config@),
{
    let mut path = String::from_str(config_dir);
    path.append("/.todo_notes/");
    path.append(lower);
    path.append(".txt");

    let mut line = String::new();
    line.push('\n');
    line.append(list);
    line.push('=');
    line.append(path.as_str());
    assert(line@ == seq!['\n'] + list@ + seq!['='] + path@);
    let entry = if config.is_empty() {
        let chars = chars_of(line.as_str());
        trim_start(&chars)
    } else {
        line
    };
    NewList { path, entry }
}

/// Makes the entry of a new list `list` for the configuration whose text
/// is `config`, and the path of the list's file.
pub fn add_list_to_config(config_dir: &str, list: &str, config: &str) -> (new: NewList)
    ensures
        new.path@ == list_path_spec(config_dir@, list@),
        new.entry@ == entry_spec(config_dir@, list@, config@),
{
    let lower = to_lowercase(list);
    new_list(config_dir, list, lower.as_str(), config)
}

} // verus!
