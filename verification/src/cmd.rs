use vstd::prelude::*;
use vstd::string::StringExecFns;
use crate::codec::{decimal, encode_into, encode_spec, push_decimal, Item, ListEntry};
use crate::error::ListError;
use crate::pattern::{capture_group, group_text};
use crate::request::{parse_indices, positions, request_spec};
use crate::store::{
    add_spec, delete_spec, encoded, first_bad, in_range, items, lines_spec, load_spec, offending,
    pick, serialize_spec, ListStore,
};
use crate::text::{free_of, text_of, texts};

verus! {

/// What a command does to its list.
#[derive(Debug, Clone, Copy, PartialEq, Eq, Structural)]
pub enum CommandType {
    Add,
    List,
    Delete,
    Reset,
}

/// One command: what to do, its argument (the text of a new item, or the
/// places to delete), and the path of the list file.
#[derive(Debug)]
pub struct Command {
    pub cmd: CommandType,
    pub arg: String,
    pub path: String,
}

/// The options of a command line, as plain values.
#[derive(Debug)]
pub struct Flags {
    /// The text given with the add option.
    pub add: Option<String>,
    /// The places given with the delete option.
    pub delete: Option<String>,
    /// The list option was given.
    pub list: bool,
    /// The reset option was given.
    pub reset: bool,
    /// The list named with the target option.
    pub target: Option<String>,
}

/// The options of a command line as mathematical values.
pub struct FlagsView {
    pub add: Option<Seq<char>>,
    pub delete: Option<Seq<char>>,
    pub list: bool,
    pub reset: bool,
    pub target: Option<Seq<char>>,
}

impl View for Flags {
    type V = FlagsView;

    open spec fn view(&self) -> FlagsView {
        FlagsView {
            add: text_of(self.add),
            delete: text_of(self.delete),
            list: self.list,
            reset: self.reset,
            target: text_of(self.target),
        }
    }
}

/// What a command reports besides the list itself.
#[derive(Debug)]
pub enum Report {
    /// The item that was added.
    Added(ListEntry),
    /// Nothing was changed.
    Listed,
    /// The items that were deleted, in the order that they had in the list.
    Deleted(Vec<ListEntry>),
    /// The list was emptied; the name of the list, where its path shows one.
    Reset(Option<String>),
}

/// The result of a command: its report, the list as it is after the
/// command, and the text to store for it. Where `written` is `None` the
/// list file is to be left alone.
#[derive(Debug)]
pub struct Outcome {
    pub report: Report,
    pub entries: Vec<ListEntry>,
    pub written: Option<String>,
}

/// The line that shows a deleted item.
pub open spec fn indented(item: Item) -> Seq<char> {
    seq!['\t'] + encode_spec(item.index, item.text)
}

/// The lines that tell what a command did.
pub open spec fn report_lines(report: Report) -> Seq<Seq<char>> {
    match report {
        Report::Added(entry) => seq!["Added new item: "@ + encode_spec(entry@.index, entry@.text)],
        Report::Listed => Seq::empty(),
        Report::Deleted(removed) => seq![
            "Deleted "@ + decimal(removed@.len()) + " list items:"@,
        ] + items(removed@).map_values(|item: Item| indented(item)),
        Report::Reset(Some(name)) => seq!["List \""@ + name@ + "\" state reset."@],
        Report::Reset(None) => seq!["List state reset."@],
    }
}

/// The regular expression that finds the name of a list in the path of
/// its file: its first group takes the name.
pub const LIST_NAME_PATTERN: &'static str = "/([\\w_]+).txt$";

/// The name of a list as the path of its file shows it.
pub open spec fn list_name_spec(path: Seq<char>) -> Option<Seq<char>> {
    group_text(LIST_NAME_PATTERN@, path, 1)
}

/// The error is the one for a list text with a line that cannot be read.
pub open spec fn corrupt(contents: Seq<char>, e: ListError) -> bool {
    &&& load_spec(contents) is None
    &&& e matches ListError::Corrupt { line }
    &&& first_bad(lines_spec(contents), line - 1)
}

/// The outcome stores the text that stands for its entries.
pub open spec fn stored(out: Outcome) -> bool {
    out.written matches Some(text) && text@ == serialize_spec(items(out.entries@))
}

/// What listing the text `contents` must give.
pub open spec fn listed(contents: Seq<char>, r: Result<Outcome, ListError>) -> bool {
    match r {
        Ok(out) => {
            &&& load_spec(contents) == Some(items(out.entries@))
            &&& out.report is Listed
            &&& out.written is None
        },
        Err(e) => corrupt(contents, e),
    }
}

/// What adding an item with text `body` to the text `contents` must give.
pub open spec fn added(body: Seq<char>, contents: Seq<char>, r: Result<Outcome, ListError>) -> bool {
    match r {
        Ok(out) => {
            &&& load_spec(contents) matches Some(before)
            &&& free_of(body, '\n')
            &&& items(out.entries@) == add_spec(before, body)
            &&& out.report matches Report::Added(entry)
            &&& entry@ == items(out.entries@).last()
            &&& stored(out)
        },
        Err(e) => if load_spec(contents) is None {
            corrupt(contents, e)
        } else {
            e == ListError::InvalidArgument && !free_of(body, '\n')
        },
    }
}

/// What deleting the places that `arg` names from the text `contents` must give.
pub open spec fn deleted(arg: Seq<char>, contents: Seq<char>, r: Result<Outcome, ListError>) -> bool {
    match r {
        Ok(out) => {
            &&& request_spec(arg) matches Some(indices)
            &&& load_spec(contents) matches Some(before)
            &&& in_range(indices, before.len())
            &&& items(out.entries@) == delete_spec(before, positions(indices))
            &&& out.report matches Report::Deleted(removed)
            &&& items(removed@) == pick(before, positions(indices))
            &&& stored(out)
        },
        Err(e) => match request_spec(arg) {
            None => e == ListError::InvalidArgument,
            Some(indices) => match load_spec(contents) {
                None => corrupt(contents, e),
                Some(before) => {
                    &&& !in_range(indices, before.len())
                    &&& e matches ListError::IndexOutOfRange { index, count }
                    &&& count == before.len()
                    &&& offending(indices, count as nat, index)
                },
            },
        },
    }
}

/// What resetting a list must give, where `name` is what the path shows of
/// the list's name.
pub open spec fn was_reset(name: Option<Seq<char>>, r: Result<Outcome, ListError>) -> bool {
    &&& r matches Ok(out)
    &&& out.entries@.len() == 0
    &&& out.written matches Some(text)
    &&& text@.len() == 0
    &&& out.report matches Report::Reset(shown)
    &&& match shown {
        Some(s) => name == Some(s@),
        None => name is None,
    }
}

/// What running a command on the text `contents` of its list file must give.
pub open spec fn ran(command: Command, contents: Seq<char>, r: Result<Outcome, ListError>) -> bool {
    match command.cmd {
        CommandType::Add => added(command.arg@, contents, r),
        CommandType::List => listed(contents, r),
        CommandType::Delete => deleted(command.arg@, contents, r),
        CommandType::Reset => was_reset(list_name_spec(command.path@), r),
    }
}

/// The command that the options ask for, and its argument: add before
/// delete, delete before list, list before reset; none where none of the four
/// is given.
pub open spec fn chosen(flags: FlagsView) -> Option<(CommandType, Seq<char>)> {
    if flags.add is Some {
        Some((CommandType::Add, flags.add.unwrap()))
    } else if flags.delete is Some {
        Some((CommandType::Delete, flags.delete.unwrap()))
    } else if flags.list {
        Some((CommandType::List, Seq::empty()))
    } else if flags.reset {
        Some((CommandType::Reset, Seq::empty()))
    } else {
        None
    }
}

/// The list that the options name; empty where they name none.
pub open spec fn named(flags: FlagsView) -> Seq<char> {
    match flags.target {
        Some(target) => target,
        None => Seq::empty(),
    }
}

/// The outcome of a reset of the list that is called `name`.
pub fn reset_outcome(name: Option<String>) -> (out: Outcome)
    ensures
        out.entries@.len() == 0,
        out.written matches Some(text) && text@.len() == 0,
        out.report == Report::Reset(name),
{
    Outcome { report: Report::Reset(name), entries: Vec::new(), written: Some(String::new()) }
}

impl Outcome {
    /// The lines to show for the outcome: what the command did, then the
    /// list as it is now, one line for each item.
    pub fn lines(&self) -> (lines: Vec<String>)
        ensures
            texts(lines@) == report_lines(self.report) + encoded(items(self.entries@)),
    {
        let mut lines: Vec<String> = Vec::new();
        match &self.report {
            Report::Added(entry) => {
                let mut line = String::from_str("Added new item: ");
                encode_into(&mut line, entry.index, entry.text.as_str());
                lines.push(line);
            },
            Report::Listed => {},
            Report::Deleted(removed) => {
                let mut line = String::from_str("Deleted ");
                push_decimal(&mut line, removed.len());
                line.append(" list items:");
                lines.push(line);
                let ghost head = texts(lines@);
                let ghost shown = items(removed@).map_values(|item: Item| indented(item));
                let mut i: usize = 0;
                while i < removed.len()
                    invariant
                        i <= removed.len(),
                        shown == items(removed@).map_values(|item: Item| indented(item)),
                        texts(lines@) == head + shown.take(i as int),
                    decreases removed.len() - i,
                {
                    let mut line = String::new();
                    line.push('\t');
                    encode_into(&mut line, removed[i].index, removed[i].text.as_str());
                    let ghost before = texts(lines@);
                    let ghost added = line@;
                    lines.push(line);
                    proof {
                        assert(texts(lines@) == before.push(added));
                        assert(Seq::<char>::empty().push('\t') == seq!['\t']);
                        assert(added == shown[i as int]);
                        assert(shown.take(i + 1) == shown.take(i as int).push(shown[i as int]));
                    }
                    i += 1;
                }
                assert(shown.take(shown.len() as int) == shown);
            },
            Report::Reset(Some(name)) => {
                let mut line = String::from_str("List \"");
                line.append(name.as_str());
                line.append("\" state reset.");
                lines.push(line);
            },
            Report::Reset(None) => {
                lines.push(String::from_str("List state reset."));
            },
        }
        assert(texts(lines@) == report_lines(self.report));
        let ghost head = texts(lines@);
        let ghost list = encoded(items(self.entries@));
        let mut i: usize = 0;
        while i < self.entries.len()
            invariant
                i <= self.entries.len(),
                list == encoded(items(self.entries@)),
                texts(lines@) == head + list.take(i as int),
            decreases self.entries.len() - i,
        {
            let mut line = String::new();
            encode_into(&mut line, self.entries[i].index, self.entries[i].text.as_str());
            let ghost before = texts(lines@);
            let ghost added = line@;
            lines.push(line);
            proof {
                assert(texts(lines@) == before.push(added));
                assert(added == list[i as int]);
                assert(list.take(i + 1) == list.take(i as int).push(list[i as int]));
            }
            i += 1;
        }
        assert(list.take(list.len() as int) == list);
        lines
    }
}

impl Command {
    /// A command made of its parts.
    pub fn new(cmd: CommandType, arg: String, path: String) -> (command: Command)
        ensures
            command.cmd == cmd,
            command.arg == arg,
            command.path == path,
    {
        Command { cmd, arg, path }
    }

    /// Makes the command that the options ask for. Its path is the list that
    /// the target option names, empty where there is none: the caller puts
    /// the path of the list file in its place.
    pub fn get_command(flags: Flags) -> (r: Option<Command>)
        ensures
            match r {
                Some(command) => {
                    &&& chosen(flags@) == Some((command.cmd, command.arg@))
                    &&& command.path@ == named(flags@)
                },
                None => chosen(flags@) is None,
            },
    {
        let path = match flags.target {
            Some(target) => target,
            None => String::new(),
        };
        if let Some(arg) = flags.add {
            Some(Command::new(CommandType::Add, arg, path))
        } else if let Some(arg) = flags.delete {
            Some(Command::new(CommandType::Delete, arg, path))
        } else if flags.list {
            Some(Command::new(CommandType::List, String::new(), path))
        } else if flags.reset {
            Some(Command::new(CommandType::Reset, String::new(), path))
        } else {
            None
        }
    }

    /// Adds the command's argument as a new item at the end of the list that
    /// `contents` holds.
    pub fn add_list_item(command: Command, contents: &str) -> (r: Result<Outcome, ListError>)
        ensures
            added(command.arg@, contents@, r),
    {
        let mut store = match ListStore::load(contents) {
            Ok(store) => store,
            Err(e) => {
                return Err(e);
            },
        };
        let entry = match store.add(command.arg.as_str()) {
            Ok(entry) => entry,
            Err(e) => {
                return Err(e);
            },
        };
        Ok(finish(store, Report::Added(entry), true))
    }

    /// Deletes from the list that `contents` holds the items at the places
    /// that the command's argument names.
    pub fn delete_list_item(command: Command, contents: &str) -> (r: Result<Outcome, ListError>)
        ensures
            deleted(command.arg@, contents@, r),
    {
        let indices = match parse_indices(command.arg.as_str()) {
            Ok(indices) => indices,
            Err(e) => {
                return Err(e);
            },
        };
        let mut store = match ListStore::load(contents) {
            Ok(store) => store,
            Err(e) => {
                return Err(e);
            },
        };
        let removed = match store.delete(&indices) {
            Ok(removed) => removed,
            Err(e) => {
                return Err(e);
            },
        };
        Ok(finish(store, Report::Deleted(removed), true))
    }

    /// Empties the list, and reads the list's name off the path of its file.
    pub fn reset_list(command: Command) -> (r: Result<Outcome, ListError>)
        ensures
            was_reset(list_name_spec(command.path@), r),
    {
        let name = capture_group(LIST_NAME_PATTERN, command.path.as_str(), 1);
        Ok(reset_outcome(name))
    }

    /// Reads the list that `contents` holds, and changes nothing.
    pub fn print_list_items(command: Command, contents: &str) -> (r: Result<Outcome, ListError>)
        ensures
            listed(contents@, r),
    {
        let store = match ListStore::load(contents) {
            Ok(store) => store,
            Err(e) => {
                return Err(e);
            },
        };
        Ok(finish(store, Report::Listed, false))
    }

    /// Runs the command on the text `contents` of its list file. The caller
    /// reads the file before, and stores `written` after.
    pub fn run(command: Command, contents: &str) -> (r: Result<Outcome, ListError>)
        ensures
            ran(command, contents@, r),
    {
        match command.cmd {
            CommandType::Add => Command::add_list_item(command, contents),
            CommandType::List => Command::print_list_items(command, contents),
            CommandType::Delete => Command::delete_list_item(command, contents),
            CommandType::Reset => Command::reset_list(command),
        }
    }
}

/// Puts a list and a report together; with `write` set, the text of the
/// list goes with them.
fn finish(list: ListStore, report: Report, write: bool) -> (out: Outcome)
    ensures
        items(out.entries@) == list@,
        out.report == report,
        write ==> stored(out),
        !write ==> out.written is None,
{
    let written = if write {
        Some(list.serialize())
    } else {
        None
    };
    Outcome { report, entries: list.into_entries(), written }
}

} // verus!
