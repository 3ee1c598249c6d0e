use vstd::prelude::*;
use crate::codec::{
    decode_chars, decode_spec, decodes, encode_into, encode_spec, lemma_decode_encode, lemma_padded,
    padded, Item, ListEntry,
};
use crate::error::ListError;
use crate::request::{descending, has, lemma_has_take, positions, sorted_descending};
use crate::text::{
    chars_of, contains_char, free_of, join_spec, lemma_split_count, lemma_split_join,
    lemma_split_nonempty, lemma_split_pieces_free, rows, split, split_spec,
};

verus! {

/// The entries as mathematical items.
pub open spec fn items(entries: Seq<ListEntry>) -> Seq<Item> {
    entries.map_values(|e: ListEntry| e@)
}

/// The lines of a list text: none for the empty text, else the pieces
/// between line breaks.
pub open spec fn lines_spec(text: Seq<char>) -> Seq<Seq<char>> {
    if text.len() == 0 {
        Seq::empty()
    } else {
        split_spec(text, '\n')
    }
}

/// Line `k` (from 0) is the first that cannot be read as an item.
pub open spec fn first_bad(lines: Seq<Seq<char>>, k: int) -> bool {
    &&& 0 <= k < lines.len()
    &&& !decodes(lines[k])
    &&& forall|j: int| 0 <= j < k ==> decodes(#[trigger] lines[j])
}

/// The items that a list text holds, line by line; `None` where some line
/// cannot be read.
pub open spec fn load_spec(text: Seq<char>) -> Option<Seq<Item>> {
    let lines = lines_spec(text);
    if forall|i: int| 0 <= i < lines.len() ==> decodes(#[trigger] lines[i]) {
        Some(lines.map_values(|line: Seq<char>| decode_spec(line).unwrap()))
    } else {
        None
    }
}

/// The lines that stand for the items.
pub open spec fn encoded(items: Seq<Item>) -> Seq<Seq<char>> {
    items.map_values(|e: Item| encode_spec(e.index, e.text))
}

/// The list text that stands for the items: their lines with a line break
/// between neighbours, none at the end.
pub open spec fn serialize_spec(items: Seq<Item>) -> Seq<char> {
    join_spec(encoded(items), '\n')
}

/// The items are numbered 1, 2, 3, ... in order.
pub open spec fn numbered(items: Seq<Item>) -> bool {
    forall|i: int| 0 <= i < items.len() ==> (#[trigger] items[i]).index == i + 1
}

/// No item's text holds a line break.
pub open spec fn single_lined(items: Seq<Item>) -> bool {
    forall|i: int| 0 <= i < items.len() ==> free_of((#[trigger] items[i]).text, '\n')
}

/// Every index fits the machine's index type.
pub open spec fn bounded(items: Seq<Item>) -> bool {
    forall|i: int| 0 <= i < items.len() ==> (#[trigger] items[i]).index <= usize::MAX
}

/// The list after a new item with text `body` was put at its end.
pub open spec fn add_spec(items: Seq<Item>, body: Seq<char>) -> Seq<Item> {
    items.push(Item { index: items.len() + 1, text: body })
}

/// The items whose places, counted from 1, are in `wanted`, in their order.
pub open spec fn pick(items: Seq<Item>, wanted: Set<int>) -> Seq<Item>
    decreases items.len(),
{
    if items.len() == 0 {
        Seq::empty()
    } else {
        let front = pick(items.drop_last(), wanted);
        if wanted.contains(items.len() as int) {
            front.push(items.last())
        } else {
            front
        }
    }
}

/// The items, numbered anew by their places: 1, 2, 3, ...
pub open spec fn renumber(items: Seq<Item>) -> Seq<Item> {
    Seq::new(items.len(), |i: int| Item { index: (i + 1) as nat, text: items[i].text })
}

/// The places that are not in `gone`.
pub open spec fn others(gone: Set<int>) -> Set<int> {
    Set::new(|place: int| !gone.contains(place))
}

/// The list after the items at the places in `gone` were taken out and the
/// rest numbered anew.
pub open spec fn delete_spec(items: Seq<Item>, gone: Set<int>) -> Seq<Item> {
    renumber(pick(items, others(gone)))
}

/// The request names at least one place, and only places of the list.
pub open spec fn in_range(indices: Seq<usize>, count: nat) -> bool {
    &&& indices.len() > 0
    &&& forall|i: int| 0 <= i < indices.len() ==> 1 <= #[trigger] indices[i] <= count
}

/// `index` is the place for which a request is refused: its largest number
/// where that lies beyond the list, else 0.
pub open spec fn offending(indices: Seq<usize>, count: nat, index: usize) -> bool {
    &&& has(indices, index as int)
    &&& forall|i: int| 0 <= i < indices.len() ==> #[trigger] indices[i] <= index || indices[i] <= count
    &&& index > count || index == 0
}

/// A change to a list.
pub enum Change {
    /// A new item with this text at the end.
    Add(Seq<char>),
    /// The items at these places taken out.
    Delete(Seq<usize>),
    /// All items taken out.
    Reset,
}

/// The list after a change. A change that is refused leaves the list as it
/// was: a new text with a line break, a new item where no number is left for
/// it, a request that names nothing or a place outside the list.
pub open spec fn apply(items: Seq<Item>, change: Change) -> Seq<Item> {
    match change {
        Change::Add(body) => if free_of(body, '\n') && items.len() < usize::MAX {
            add_spec(items, body)
        } else {
            items
        },
        Change::Delete(indices) => if in_range(indices, items.len()) {
            delete_spec(items, positions(indices))
        } else {
            items
        },
        Change::Reset => Seq::empty(),
    }
}

/// The list after the changes were made one after the other to the empty list.
pub open spec fn apply_all(changes: Seq<Change>) -> Seq<Item>
    decreases changes.len(),
{
    if changes.len() == 0 {
        Seq::empty()
    } else {
        apply(apply_all(changes.drop_last()), changes.last())
    }
}

/// A list of numbered items, as one list file holds it.
#[derive(Debug)]
pub struct ListStore {
    entries: Vec<ListEntry>,
}

impl View for ListStore {
    type V = Seq<Item>;

    closed spec fn view(&self) -> Seq<Item> {
        items(self.entries@)
    }
}

impl ListStore {
    #[verifier::type_invariant]
    spec fn texts_on_one_line(&self) -> bool {
        single_lined(items(self.entries@))
    }

    /// The empty list.
    pub fn new() -> (store: ListStore)
        ensures
            store@ == Seq::<Item>::empty(),
    {
        ListStore { entries: Vec::new() }
    }

    /// Reads a list text. Every line must be readable as an item; the first
    /// that is not is reported by its number.
    pub fn load(text: &str) -> (r: Result<ListStore, ListError>)
        ensures
            match r {
                Ok(store) => load_spec(text@) == Some(store@) && store@.len() < usize::MAX,
                Err(ListError::Corrupt { line }) => load_spec(text@) is None && first_bad(
                    lines_spec(text@),
                    line - 1,
                ),
                Err(_) => false,
            },
    {
        let chars = chars_of(text);
        let mut entries: Vec<ListEntry> = Vec::new();
        if chars.len() == 0 {
            assert(items(entries@) == lines_spec(text@).map_values(
                |line: Seq<char>| decode_spec(line).unwrap(),
            ));
            return Ok(ListStore { entries });
        }
        let lines = split(&chars, '\n');
        let ghost all = lines_spec(text@);
        proof {
            lemma_split_pieces_free(text@, '\n');
            lemma_split_count(text@, '\n');
            lemma_split_nonempty(text@, '\n');
        }
        let mut i: usize = 0;
        while i < lines.len()
            invariant
                i <= lines.len(),
                rows(lines@) == all,
                all == lines_spec(text@),
                entries.len() == i,
                forall|j: int| 0 <= j < all.len() ==> free_of(#[trigger] all[j], '\n'),
                forall|j: int| 0 <= j < i ==> decodes(#[trigger] all[j]),
                forall|j: int| 0 <= j < i ==> (#[trigger] entries@[j])@ == decode_spec(all[j]).unwrap(),
            decreases lines.len() - i,
        {
            assert(lines@[i as int]@ == all[i as int]);
            match decode_chars(&lines[i]) {
                Ok(entry) => {
                    entries.push(entry);
                },
                Err(_) => {
                    assert(!decodes(all[i as int]));
                    assert(first_bad(all, i as int));
                    return Err(ListError::Corrupt { line: i + 1 });
                },
            }
            i += 1;
        }
        proof {
            assert(items(entries@) == all.map_values(|line: Seq<char>| decode_spec(line).unwrap()));
            assert(decodes(all[0]));
            assert forall|j: int| 0 <= j < entries.len() implies free_of(
                (#[trigger] items(entries@)[j]).text,
                '\n',
            ) by {
                assert(free_of(all[j], '\n'));
                assert(entries@[j]@ == decode_spec(all[j]).unwrap());
            }
        }
        Ok(ListStore { entries })
    }

    /// The entries, in file order.
    pub fn entries(&self) -> (entries: &Vec<ListEntry>)
        ensures
            items(entries@) == self@,
    {
        &self.entries
    }

    /// The entries, in file order, without the list around them.
    pub fn into_entries(self) -> (entries: Vec<ListEntry>)
        ensures
            items(entries@) == self@,
    {
        self.entries
    }

    /// The number of items.
    pub fn len(&self) -> (n: usize)
        ensures
            n == self@.len(),
    {
        self.entries.len()
    }

    /// The list text that stands for this list. Reading it back gives this list.
    pub fn serialize(&self) -> (text: String)
        ensures
            text@ == serialize_spec(self@),
            load_spec(text@) == Some(self@),
    {
        let mut text = String::new();
        let mut i: usize = 0;
        while i < self.entries.len()
            invariant
                i <= self.entries.len(),
                text@ == serialize_spec(self@.take(i as int)),
            decreases self.entries.len() - i,
        {
            let ghost upto = encoded(self@.take(i as int + 1));
            assert(upto.drop_last() == encoded(self@.take(i as int)));
            assert(upto.last() == encode_spec(self@[i as int].index, self@[i as int].text));
            if i > 0 {
                text.push('\n');
            }
            encode_into(&mut text, self.entries[i].index, self.entries[i].text.as_str());
            i += 1;
        }
        proof {
            assert(self@.take(self@.len() as int) == self@);
            use_type_invariant(self);
            lemma_load_serialize(self@);
        }
        text
    }

    /// Puts a new item with text `body` at the end of the list, under the
    /// number that follows the last place, and hands back a copy of it.
    /// A text with a line break in it is refused, and the list stays as it was.
    pub fn add(&mut self, body: &str) -> (r: Result<ListEntry, ListError>)
        requires
            old(self)@.len() < usize::MAX,
        ensures
            match r {
                Ok(entry) => {
                    &&& free_of(body@, '\n')
                    &&& final(self)@ == add_spec(old(self)@, body@)
                    &&& entry@ == final(self)@.last()
                },
                Err(e) => {
                    &&& e == ListError::InvalidArgument
                    &&& !free_of(body@, '\n')
                    &&& final(self)@ == old(self)@
                },
            },
            final(self)@ == apply(old(self)@, Change::Add(body@)),
            numbered(old(self)@) ==> numbered(final(self)@),
    {
        proof {
            use_type_invariant(&*self);
        }
        let chars = chars_of(body);
        if contains_char(&chars, '\n') {
            return Err(ListError::InvalidArgument);
        }
        let index = self.entries.len() + 1;
        let mut entries: Vec<ListEntry> = Vec::new();
        std::mem::swap(&mut self.entries, &mut entries);
        let ghost before = items(entries@);
        entries.push(ListEntry { index, text: body.to_owned() });
        assert(items(entries@) == add_spec(before, body@));
        self.entries = entries;
        Ok(ListEntry { index, text: body.to_owned() })
    }

    /// Takes out the items at the places that `indices` names, counted from 1
    /// in the list as it is, and numbers the rest anew by their places. Hands
    /// back the items taken out, in the order that they had in the list. The
    /// order of `indices`, and a place named twice, make no difference.
    ///
    /// A request that names nothing is refused as an invalid argument, and
    /// one that names a place outside the list as out of range; the list then
    /// stays as it was.
    pub fn delete(&mut self, indices: &Vec<usize>) -> (r: Result<Vec<ListEntry>, ListError>)
        ensures
            match r {
                Ok(removed) => {
                    &&& in_range(indices@, old(self)@.len())
                    &&& final(self)@ == delete_spec(old(self)@, positions(indices@))
                    &&& items(removed@) == pick(old(self)@, positions(indices@))
                },
                Err(ListError::InvalidArgument) => {
                    &&& indices@.len() == 0
                    &&& final(self)@ == old(self)@
                },
                Err(ListError::IndexOutOfRange { index, count }) => {
                    &&& indices@.len() > 0
                    &&& count == old(self)@.len()
                    &&& offending(indices@, count as nat, index)
                    &&& final(self)@ == old(self)@
                },
                Err(_) => false,
            },
            r is Ok <==> in_range(indices@, old(self)@.len()),
            final(self)@ == apply(old(self)@, Change::Delete(indices@)),
            r is Ok ==> numbered(final(self)@),
    {
        proof {
            use_type_invariant(&*self);
        }
        let order = sorted_descending(indices);
        let count = self.entries.len();
        proof {
            lemma_same_numbers(order@, indices@);
        }
        if order.len() == 0 {
            return Err(ListError::InvalidArgument);
        }
        let largest = order[0];
        let smallest = order[order.len() - 1];
        proof {
            lemma_descending_ends(order@);
            assert(has(order@, largest as int));
            assert(has(order@, smallest as int));
            assert forall|i: int| 0 <= i < indices@.len() implies smallest <= #[trigger] indices@[i]
                <= largest by {
                assert(has(indices@, indices@[i] as int));
                let k = choose|k: int| 0 <= k < order@.len() && #[trigger] order@[k] == indices@[i];
            }
        }
        if largest > count {
            return Err(ListError::IndexOutOfRange { index: largest, count });
        }
        if smallest == 0 {
            return Err(ListError::IndexOutOfRange { index: 0, count });
        }
        let mut entries: Vec<ListEntry> = Vec::new();
        std::mem::swap(&mut self.entries, &mut entries);
        let ghost orig = items(entries@);
        let removed = take_out(&mut entries, &order);
        renumber_entries(&mut entries);
        proof {
            assert(positions(order@) == positions(indices@));
            lemma_pick_single_lined(orig, others(positions(order@)));
            assert(items(entries@) == renumber(pick(orig, others(positions(order@)))));
        }
        self.entries = entries;
        Ok(removed)
    }

    /// Empties the list.
    pub fn reset(&mut self)
        ensures
            final(self)@ == Seq::<Item>::empty(),
            final(self)@ == apply(old(self)@, Change::Reset),
    {
        self.entries = Vec::new();
    }
}

/// Takes out of `entries` the items at the places in `order`, highest place
/// first so that no place moves before its turn, and hands them back in the
/// order that they had in the list.
fn take_out(entries: &mut Vec<ListEntry>, order: &Vec<usize>) -> (removed: Vec<ListEntry>)
    requires
        descending(order@),
        forall|k: int| 0 <= k < order@.len() ==> 1 <= #[trigger] order@[k] <= old(entries)@.len(),
    ensures
        items(final(entries)@) == pick(items(old(entries)@), others(positions(order@))),
        items(removed@) == pick(items(old(entries)@), positions(order@)),
{
    let ghost orig = items(entries@);
    let ghost mut gone: Set<int> = Set::empty();
    let mut taken: Vec<ListEntry> = Vec::new();
    let mut j: usize = 0;
    proof {
        lemma_pick_all(orig, others(gone));
        lemma_pick_none(orig, gone);
    }
    while j < order.len()
        invariant
            j <= order.len(),
            descending(order@),
            forall|k: int| 0 <= k < order@.len() ==> 1 <= #[trigger] order@[k] <= orig.len(),
            forall|x: int| gone.contains(x) <==> has(order@.take(j as int), x),
            items(entries@) == pick(orig, others(gone)),
            pick(orig, gone).len() == j,
            taken@.len() == j,
            forall|k: int| 0 <= k < j ==> pick(orig, gone)[k] == (#[trigger] taken@[j - 1 - k])@,
        decreases order.len() - j,
    {
        let p = order[j];
        let ghost kept = others(gone);
        let ghost picked = pick(orig, gone);
        proof {
            assert forall|place: int| gone.contains(place) implies place > p by {
                let k = choose|k: int|
                    0 <= k < order@.take(j as int).len() && #[trigger] order@.take(j as int)[k]
                        == place;
                assert(order@[k] > order@[j as int]);
            }
            lemma_pick_drop(orig, kept, p as int);
            lemma_pick_lowest(orig, gone, p as int);
            assert(others(gone.insert(p as int)) =~= kept.remove(p as int));
            assert forall|x: int| gone.insert(p as int).contains(x) <==> has(
                order@.take(j as int + 1),
                x,
            ) by {
                lemma_has_take(order@, j as int, x);
            }
        }
        let ghost before = entries@;
        let entry = entries.remove(p - 1);
        assert(items(entries@) == items(before).remove(p - 1));
        taken.push(entry);
        proof {
            gone = gone.insert(p as int);
            assert forall|k: int| 0 <= k < j + 1 implies pick(orig, gone)[k] == (#[trigger] taken@[j
                - k])@ by {
                if k > 0 {
                    assert(pick(orig, gone)[k] == picked[k - 1]);
                    assert(picked[k - 1] == taken@[j - 1 - (k - 1)]@);
                }
            }
        }
        j += 1;
    }
    proof {
        assert(order@.take(order@.len() as int) == order@);
        assert(gone =~= positions(order@));
    }
    let ghost picked = pick(orig, gone);
    let ghost all = taken@;
    let mut removed: Vec<ListEntry> = Vec::new();
    while taken.len() > 0
        invariant
            taken@.len() + removed@.len() == all.len(),
            taken@ == all.take(taken@.len() as int),
            forall|k: int| 0 <= k < removed@.len() ==> (#[trigger] removed@[k])@ == picked[k],
            picked.len() == all.len(),
            forall|k: int| 0 <= k < all.len() ==> picked[k] == (#[trigger] all[all.len() - 1 - k])@,
        decreases taken.len(),
    {
        let ghost k = removed@.len() as int;
        let entry = taken.pop().unwrap();
        assert(entry == all[all.len() - 1 - k]);
        removed.push(entry);
    }
    assert(items(removed@) == picked);
    removed
}

/// Numbers the entries 1, 2, 3, ... by their places.
fn renumber_entries(entries: &mut Vec<ListEntry>)
    ensures
        items(final(entries)@) == renumber(items(old(entries)@)),
{
    let mut k: usize = 0;
    while k < entries.len()
        invariant
            k <= entries.len(),
            entries@.len() == old(entries)@.len(),
            forall|i: int| 0 <= i < k ==> (#[trigger] entries@[i]).index == i + 1,
            forall|i: int|
                0 <= i < entries.len() ==> (#[trigger] entries@[i]).text == old(entries)@[i].text,
        decreases entries.len() - k,
    {
        entries[k].index = k + 1;
        k += 1;
    }
    assert(items(entries@) == renumber(items(old(entries)@)));
}

/// Where every place is wanted, all items are picked.
pub proof fn lemma_pick_all(items: Seq<Item>, wanted: Set<int>)
    requires
        forall|place: int| 1 <= place <= items.len() ==> wanted.contains(place),
    ensures
        pick(items, wanted) == items,
    decreases items.len(),
{
    if items.len() > 0 {
        lemma_pick_all(items.drop_last(), wanted);
        assert(items.drop_last().push(items.last()) == items);
    }
}

/// Where no place is wanted, nothing is picked.
pub proof fn lemma_pick_none(items: Seq<Item>, wanted: Set<int>)
    requires
        forall|place: int| 1 <= place <= items.len() ==> !wanted.contains(place),
    ensures
        pick(items, wanted) == Seq::<Item>::empty(),
    decreases items.len(),
{
    if items.len() > 0 {
        lemma_pick_none(items.drop_last(), wanted);
    }
}

/// What is picked is no longer than the list.
pub proof fn lemma_pick_len(items: Seq<Item>, wanted: Set<int>)
    ensures
        pick(items, wanted).len() <= items.len(),
    decreases items.len(),
{
    if items.len() > 0 {
        lemma_pick_len(items.drop_last(), wanted);
    }
}

/// Taking place `p` out of the wanted places, where all places up to `p`
/// were wanted, removes the item at `p` from what is picked.
pub proof fn lemma_pick_drop(items: Seq<Item>, wanted: Set<int>, p: int)
    requires
        1 <= p <= items.len(),
        forall|place: int| 1 <= place <= p ==> wanted.contains(place),
    ensures
        pick(items, wanted).len() >= p,
        pick(items, wanted)[p - 1] == items[p - 1],
        pick(items, wanted.remove(p)) == pick(items, wanted).remove(p - 1),
    decreases items.len(),
{
    let front = items.drop_last();
    let less = wanted.remove(p);
    if items.len() == p {
        lemma_pick_all(front, wanted);
        lemma_pick_all(front, less);
        assert(front.push(items.last()).remove(p - 1) == front);
    } else {
        lemma_pick_drop(front, wanted, p);
        if wanted.contains(items.len() as int) {
            assert(pick(front, wanted).remove(p - 1).push(items.last()) == pick(front, wanted).push(
                items.last(),
            ).remove(p - 1));
        }
    }
}

/// Adding a place below all wanted places puts its item in front of what is picked.
pub proof fn lemma_pick_lowest(items: Seq<Item>, wanted: Set<int>, p: int)
    requires
        1 <= p <= items.len(),
        forall|place: int| wanted.contains(place) ==> place > p,
    ensures
        pick(items, wanted.insert(p)) == seq![items[p - 1]] + pick(items, wanted),
    decreases items.len(),
{
    let front = items.drop_last();
    let more = wanted.insert(p);
    if items.len() == p {
        lemma_pick_none(front, wanted);
        lemma_pick_none(front, more);
        assert(Seq::<Item>::empty().push(items.last()) == seq![items[p - 1]] + Seq::<Item>::empty());
    } else {
        lemma_pick_lowest(front, wanted, p);
        if wanted.contains(items.len() as int) {
            assert((seq![items[p - 1]] + pick(front, wanted)).push(items.last()) == seq![
                items[p - 1],
            ] + pick(front, wanted).push(items.last()));
        }
    }
}

/// Picking keeps each text on its line.
pub proof fn lemma_pick_single_lined(items: Seq<Item>, wanted: Set<int>)
    requires
        single_lined(items),
    ensures
        single_lined(pick(items, wanted)),
    decreases items.len(),
{
    if items.len() > 0 {
        let front = items.drop_last();
        assert forall|i: int| 0 <= i < front.len() implies free_of(
            (#[trigger] front[i]).text,
            '\n',
        ) by {
            assert(front[i] == items[i]);
        }
        lemma_pick_single_lined(front, wanted);
    }
}

/// An encoded line is not empty and holds a line break only where the text does.
pub proof fn lemma_encoded_line(index: nat, body: Seq<char>)
    requires
        free_of(body, '\n'),
    ensures
        encode_spec(index, body).len() >= 4,
        free_of(encode_spec(index, body), '\n'),
{
    lemma_padded(index);
    let head = padded(index);
    let line = encode_spec(index, body);
    assert forall|i: int| 0 <= i < line.len() implies line[i] != '\n' by {
        if i < head.len() {
            assert(line[i] == head[i]);
        } else if i >= head.len() + 2 {
            assert(line[i] == body[i - head.len() - 2]);
        }
    }
}

/// Text that was written from items reads back as the same items.
pub proof fn lemma_load_serialize(items: Seq<Item>)
    requires
        single_lined(items),
        bounded(items),
    ensures
        load_spec(serialize_spec(items)) == Some(items),
{
    let lines = encoded(items);
    let text = serialize_spec(items);
    assert forall|i: int| 0 <= i < lines.len() implies free_of(#[trigger] lines[i], '\n')
        && lines[i].len() >= 4 && decodes(lines[i]) && decode_spec(lines[i]).unwrap()
        == items[i] by {
        lemma_encoded_line(items[i].index, items[i].text);
        lemma_decode_encode(items[i].index, items[i].text);
    }
    if items.len() == 0 {
        assert(lines_spec(text) == lines);
    } else {
        lemma_join_nonempty(lines);
        lemma_split_join(lines, '\n');
    }
    assert(lines.map_values(|line: Seq<char>| decode_spec(line).unwrap()) == items);
}

/// Joined lines are not empty where the first line is not.
pub proof fn lemma_join_nonempty(lines: Seq<Seq<char>>)
    requires
        lines.len() >= 1,
        lines[0].len() >= 1,
    ensures
        join_spec(lines, '\n').len() >= 1,
    decreases lines.len(),
{
    if lines.len() > 1 {
        lemma_join_nonempty(lines.drop_last());
    }
}

/// Sequences with the same numbers agree on every bound on their numbers.
pub proof fn lemma_same_numbers(a: Seq<usize>, b: Seq<usize>)
    requires
        positions(a) == positions(b),
    ensures
        forall|x: int| has(a, x) <==> has(b, x),
        a.len() == 0 <==> b.len() == 0,
{
    assert forall|x: int| has(a, x) <==> has(b, x) by {
        assert(positions(a).contains(x) == has(a, x));
        assert(positions(b).contains(x) == has(b, x));
    }
    if a.len() > 0 {
        assert(has(a, a[0] as int));
    }
    if b.len() > 0 {
        assert(has(b, b[0] as int));
    }
}

/// In a descending sequence the first number is the largest and the last the smallest.
pub proof fn lemma_descending_ends(s: Seq<usize>)
    requires
        descending(s),
        s.len() > 0,
    ensures
        forall|i: int| 0 <= i < s.len() ==> s.last() <= #[trigger] s[i] <= s[0],
{
}

} // verus!
