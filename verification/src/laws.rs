use vstd::prelude::*;
use crate::codec::{decodes, encode_spec, Item};
use crate::config::{entry_with, key_spec, lookup, trim_start_spec, value_spec};
use crate::request::is_space;
use crate::text::{
    free_of, lemma_run_before, lemma_split_nonempty, lemma_split_tail, lemma_split_whole,
    split_spec, std_lines_spec,
};
use crate::request::{has, positions};
use crate::store::{
    add_spec, apply, apply_all, delete_spec, encoded, in_range, lemma_load_serialize,
    lemma_pick_all, lemma_pick_drop, lemma_pick_len, lemma_pick_lowest, lemma_pick_none,
    lemma_pick_single_lined, lemma_same_numbers, lines_spec, load_spec, numbered, others, pick,
    serialize_spec, single_lined, Change,
};

verus! {

/// The state in which a list is kept: numbered by places, every text on
/// one line, and no more items than there are numbers.
pub open spec fn tidy(items: Seq<Item>) -> bool {
    &&& numbered(items)
    &&& single_lined(items)
    &&& items.len() <= usize::MAX
}

/// A change keeps a list tidy.
pub proof fn lemma_apply_tidy(items: Seq<Item>, change: Change)
    requires
        tidy(items),
    ensures
        tidy(apply(items, change)),
{
    match change {
        Change::Add(body) => {},
        Change::Delete(indices) => {
            lemma_pick_single_lined(items, others(positions(indices)));
            lemma_pick_len(items, others(positions(indices)));
        },
        Change::Reset => {},
    }
}

/// Renumbering: however a list was changed, starting from the empty list,
/// its items bear the numbers 1, 2, 3, ... in order, without a gap and none
/// twice, and the text written for the list reads back as the same items.
pub proof fn law_numbering(changes: Seq<Change>)
    ensures
        numbered(apply_all(changes)),
        tidy(apply_all(changes)),
        load_spec(serialize_spec(apply_all(changes))) == Some(apply_all(changes)),
    decreases changes.len(),
{
    if changes.len() > 0 {
        law_numbering(changes.drop_last());
        lemma_apply_tidy(apply_all(changes.drop_last()), changes.last());
    }
    lemma_load_serialize(apply_all(changes));
}

/// A deletion always leaves the list numbered by places, whatever numbers
/// the items had before.
pub proof fn law_delete_renumbers(items: Seq<Item>, gone: Set<int>)
    ensures
        numbered(delete_spec(items, gone)),
        delete_spec(items, gone).len() == pick(items, others(gone)).len(),
        forall|i: int|
            0 <= i < delete_spec(items, gone).len() ==> (#[trigger] delete_spec(items, gone)[i]).text
                == pick(items, others(gone))[i].text,
{
}

/// A request is judged by the set of places that it names.
pub proof fn lemma_in_range_by_set(a: Seq<usize>, b: Seq<usize>, count: nat)
    requires
        positions(a) == positions(b),
        in_range(a, count),
    ensures
        in_range(b, count),
{
    lemma_same_numbers(a, b);
    assert forall|i: int| 0 <= i < b.len() implies 1 <= #[trigger] b[i] <= count by {
        assert(has(b, b[i] as int));
        let k = choose|k: int| 0 <= k < a.len() && #[trigger] a[k] == b[i];
    }
}

/// Deleting does not depend on the order of the request: two requests that
/// name the same places, in any order and any number of times, leave the same
/// list and take out the same items.
pub proof fn law_delete_any_order(items: Seq<Item>, a: Seq<usize>, b: Seq<usize>)
    requires
        positions(a) == positions(b),
    ensures
        in_range(a, items.len()) == in_range(b, items.len()),
        apply(items, Change::Delete(a)) == apply(items, Change::Delete(b)),
        pick(items, positions(a)) == pick(items, positions(b)),
{
    if in_range(a, items.len()) {
        lemma_in_range_by_set(a, b, items.len());
    }
    if in_range(b, items.len()) {
        lemma_in_range_by_set(b, a, items.len());
    }
}

/// A deletion that is refused changes nothing: the list, and so the text
/// written for it, stay as they were.
pub proof fn law_refused_delete(items: Seq<Item>, indices: Seq<usize>)
    requires
        !in_range(indices, items.len()),
    ensures
        apply(items, Change::Delete(indices)) == items,
        serialize_spec(apply(items, Change::Delete(indices))) == serialize_spec(items),
{
}

/// Resetting leaves the empty list, whose text has no character, whatever
/// the list was; resetting twice is resetting once.
pub proof fn law_reset(items: Seq<Item>)
    ensures
        apply(items, Change::Reset) == Seq::<Item>::empty(),
        serialize_spec(apply(items, Change::Reset)).len() == 0,
        apply(apply(items, Change::Reset), Change::Reset) == apply(items, Change::Reset),
{
    assert(encoded(Seq::<Item>::empty()) == Seq::<Seq<char>>::empty());
}

/// One line that cannot be read spoils the whole text: nothing is skipped.
pub proof fn law_corrupt_line(text: Seq<char>, k: int)
    requires
        0 <= k < lines_spec(text).len(),
        !decodes(lines_spec(text)[k]),
    ensures
        load_spec(text) is None,
{
}

/// Adding writes one more line and leaves the others as they are: the new
/// line alone where the list was empty, else after a line break.
pub proof fn law_add_appends(items: Seq<Item>, body: Seq<char>)
    ensures
        serialize_spec(add_spec(items, body)) == if items.len() == 0 {
            encode_spec(1, body)
        } else {
            serialize_spec(items).push('\n') + encode_spec(items.len() + 1, body)
        },
{
    let after = add_spec(items, body);
    assert(encoded(after).drop_last() == encoded(items));
    assert(encoded(after).last() == encode_spec(items.len() + 1, body));
}

/// Deleting one item of a numbered list leaves the items before it as they
/// are and moves each later item up by one place and one number.
pub proof fn law_delete_one(items: Seq<Item>, p: int)
    requires
        numbered(items),
        1 <= p <= items.len(),
    ensures
        delete_spec(items, set![p]) == Seq::new(
            (items.len() - 1) as nat,
            |i: int|
                if i < p - 1 {
                    items[i]
                } else {
                    Item { index: (items[i + 1].index - 1) as nat, text: items[i + 1].text }
                },
        ),
        pick(items, set![p]) == seq![items[p - 1]],
{
    let all = Set::new(|place: int| true);
    lemma_pick_all(items, all);
    lemma_pick_drop(items, all, p);
    assert(others(set![p]) =~= all.remove(p));
    let none = Set::<int>::empty();
    lemma_pick_none(items, none);
    lemma_pick_lowest(items, none, p);
    assert(none.insert(p) =~= set![p]);
    assert(delete_spec(items, set![p]) =~= Seq::new(
        (items.len() - 1) as nat,
        |i: int|
            if i < p - 1 {
                items[i]
            } else {
                Item { index: (items[i + 1].index - 1) as nat, text: items[i + 1].text }
            },
    ));
}

/// A line made of a name without an equals sign, an equals sign and a
/// path is for that name and gives that path.
pub proof fn lemma_entry_line(list: Seq<char>, path: Seq<char>)
    requires
        free_of(list, '='),
    ensures
        key_spec(list + seq!['='] + path) == list,
        value_spec(list + seq!['='] + path) == Some(path),
{
    let line = list + seq!['='] + path;
    let at = list.len() as int;
    assert forall|i: int| 0 <= i < at implies #[trigger] line[i] != '=' by {
        assert(line[i] == list[i]);
    }
    assert(line[at] == '=');
    lemma_run_before(line, '=', at);
    assert(line.take(at) == list);
    assert(line.skip(at + 1) == path);
}

/// A line for another list plays no part in what is found for a list.
pub proof fn law_other_lists_play_no_part(lines: Seq<Seq<char>>, line: Seq<char>, list: Seq<char>)
    requires
        key_spec(line) != list,
    ensures
        lookup(lines.push(line), list) == lookup(lines, list),
{
    assert(lines.push(line).drop_last() == lines);
}

/// A list that was added is found: once the entry made for a new list
/// stands at the end of the configuration, the path found for the list is the
/// path of the entry. The name of the list must be free of equals signs and
/// line breaks and the path of line breaks, and the path must not be empty;
/// where the configuration was empty, the name must not begin with white
/// space, which the entry then goes without.
pub proof fn law_added_list_is_found(config: Seq<char>, list: Seq<char>, path: Seq<char>)
    requires
        free_of(list, '='),
        free_of(list, '\n'),
        free_of(path, '\n'),
        path.len() > 0,
        config.len() > 0 || list.len() == 0 || !is_space(list[0]),
    ensures
        lookup(std_lines_spec(config + entry_with(list, path, config)), list) == path,
{
    let line = list + seq!['='] + path;
    let after = config + entry_with(list, path, config);
    assert forall|i: int| 0 <= i < line.len() implies line[i] != '\n' by {
        if i < list.len() {
            assert(line[i] == list[i]);
        } else if i > list.len() {
            assert(line[i] == path[i - list.len() - 1]);
        }
    }
    if config.len() > 0 {
        assert(seq!['\n'] + list + seq!['='] + path == seq!['\n'] + line);
        assert(after == config.push('\n') + line);
        lemma_split_tail(config, line, '\n');
        lemma_split_nonempty(config, '\n');
    } else {
        let whole = seq!['\n'] + list + seq!['='] + path;
        assert(whole.drop_first() == line);
        assert(whole[0] == '\n');
        assert(!is_space(line[0])) by {
            if list.len() > 0 {
                assert(line[0] == list[0]);
            } else {
                assert(line[0] == '=');
            }
        }
        assert(trim_start_spec(whole) == trim_start_spec(line));
        assert(trim_start_spec(line) == line);
        assert(after == line);
        lemma_split_whole(line, '\n');
    }
    let pieces = split_spec(after, '\n');
    assert(pieces.last() == line);
    let lines = std_lines_spec(after);
    assert(lines.last() == line);
    lemma_entry_line(list, path);
}

} // verus!
