use vstd::prelude::*;

verus! {

/// `String::push` of std: the character is appended, and nothing else changes.
pub assume_specification[ String::push ](s: &mut String, c: char)
    ensures
        final(s)@ == old(s)@.push(c),
;

/// The characters of a string, in order.
pub fn chars_of(s: &str) -> (v: Vec<char>)
    ensures
        v@ == s@,
{
    broadcast use vstd::string::group_string_axioms;

    let mut v: Vec<char> = Vec::new();
    for c in it: s.chars()
        invariant
            it.seq() == s@,
            v@ == s@.take(it.index() as int),
    {
        v.push(c);
    }
    assert(s@.take(s@.len() as int) == s@);
    v
}

/// The string made of the characters of `v` from position `from` on.
pub(crate) fn string_from(v: &Vec<char>, from: usize) -> (s: String)
    requires
        from <= v.len(),
    ensures
        s@ == v@.skip(from as int),
{
    let mut s = String::new();
    let mut i: usize = from;
    while i < v.len()
        invariant
            from <= i <= v.len(),
            s@ == v@.subrange(from as int, i as int),
        decreases v.len() - i,
    {
        s.push(v[i]);
        i += 1;
    }
    s
}

/// The string made of the characters of `v`.
pub fn string_of(v: &Vec<char>) -> (s: String)
    ensures
        s@ == v@,
{
    string_from(v, 0)
}

/// Tells whether `line` begins with `prefix`.
pub fn starts_with(line: &Vec<char>, prefix: &Vec<char>) -> (b: bool)
    ensures
        b == prefix@.is_prefix_of(line@),
{
    if prefix.len() > line.len() {
        return false;
    }
    let mut i: usize = 0;
    while i < prefix.len()
        invariant
            i <= prefix.len() <= line.len(),
            prefix@.take(i as int) == line@.take(i as int),
        decreases prefix.len() - i,
    {
        if prefix[i] != line[i] {
            assert(prefix@[i as int] != line@.subrange(0, prefix@.len() as int)[i as int]);
            return false;
        }
        assert(prefix@.take(i + 1) == prefix@.take(i as int).push(prefix@[i as int]));
        assert(line@.take(i + 1) == line@.take(i as int).push(line@[i as int]));
        i += 1;
    }
    assert(prefix@.take(prefix@.len() as int) == prefix@);
    true
}

/// The texts of the strings.
pub open spec fn texts(strings: Seq<String>) -> Seq<Seq<char>> {
    strings.map_values(|s: String| s@)
}

/// The text of the string, where there is one.
pub open spec fn text_of(s: Option<String>) -> Option<Seq<char>> {
    match s {
        Some(s) => Some(s@),
        None => None,
    }
}

/// The rows of a table of characters, each as a sequence.
pub open spec fn rows(table: Seq<Vec<char>>) -> Seq<Seq<char>> {
    table.map_values(|row: Vec<char>| row@)
}

/// The pieces of `s` between the occurrences of `sep`. There is always at
/// least one piece; `k` separators give `k + 1` pieces, some perhaps empty.
pub open spec fn split_spec(s: Seq<char>, sep: char) -> Seq<Seq<char>>
    decreases s.len(),
{
    if s.len() == 0 {
        seq![Seq::empty()]
    } else {
        let before = split_spec(s.drop_last(), sep);
        if s.last() == sep {
            before.push(Seq::empty())
        } else {
            before.drop_last().push(before.last().push(s.last()))
        }
    }
}

/// The pieces written one after the other, with `sep` between neighbours.
pub open spec fn join_spec(pieces: Seq<Seq<char>>, sep: char) -> Seq<char>
    decreases pieces.len(),
{
    if pieces.len() == 0 {
        Seq::empty()
    } else if pieces.len() == 1 {
        pieces[0]
    } else {
        join_spec(pieces.drop_last(), sep).push(sep) + pieces.last()
    }
}

/// `c` occurs nowhere in `s`.
pub open spec fn free_of(s: Seq<char>, c: char) -> bool {
    forall|i: int| 0 <= i < s.len() ==> s[i] != c
}

/// Tells whether `c` occurs in `s`.
pub fn contains_char(s: &Vec<char>, c: char) -> (found: bool)
    ensures
        found == !free_of(s@, c),
{
    let mut i: usize = 0;
    while i < s.len()
        invariant
            i <= s.len(),
            free_of(s@.take(i as int), c),
        decreases s.len() - i,
    {
        if s[i] == c {
            return true;
        }
        assert forall|j: int| 0 <= j < i + 1 implies #[trigger] s@.take(i + 1)[j] != c by {
            if j < i {
                assert(s@.take(i as int)[j] != c);
            }
        }
        i += 1;
    }
    assert(s@.take(s@.len() as int) == s@);
    false
}

/// The place of the first `c` in `s`, counted from 0; the length of `s`
/// where `c` does not occur in it.
pub open spec fn run_before(s: Seq<char>, c: char) -> nat
    decreases s.len(),
{
    if s.len() > 0 && s[0] != c {
        1 + run_before(s.drop_first(), c)
    } else {
        0
    }
}

/// `run_before` is the first place that holds `c`.
pub proof fn lemma_run_before(s: Seq<char>, c: char, k: int)
    requires
        0 <= k <= s.len(),
        forall|i: int| 0 <= i < k ==> #[trigger] s[i] != c,
        k == s.len() || s[k] == c,
    ensures
        run_before(s, c) == k,
    decreases k,
{
    if k > 0 {
        let rest = s.drop_first();
        assert forall|i: int| 0 <= i < k - 1 implies #[trigger] rest[i] != c by {
            assert(rest[i] == s[i + 1]);
        }
        lemma_run_before(rest, c, k - 1);
    }
}

/// Finds the first `c` in `s`.
pub fn position_of(s: &Vec<char>, c: char) -> (k: usize)
    ensures
        k == run_before(s@, c),
        k <= s@.len(),
{
    let mut k: usize = 0;
    while k < s.len() && s[k] != c
        invariant
            k <= s.len(),
            forall|i: int| 0 <= i < k ==> #[trigger] s@[i] != c,
        decreases s.len() - k,
    {
        k += 1;
    }
    proof {
        lemma_run_before(s@, c, k as int);
    }
    k
}

/// Splitting never gives an empty list of pieces.
pub proof fn lemma_split_nonempty(s: Seq<char>, sep: char)
    ensures
        split_spec(s, sep).len() >= 1,
    decreases s.len(),
{
    if s.len() > 0 {
        lemma_split_nonempty(s.drop_last(), sep);
    }
}

/// No piece holds the separator.
pub proof fn lemma_split_pieces_free(s: Seq<char>, sep: char)
    ensures
        forall|i: int|
            0 <= i < split_spec(s, sep).len() ==> free_of(#[trigger] split_spec(s, sep)[i], sep),
    decreases s.len(),
{
    if s.len() > 0 {
        lemma_split_pieces_free(s.drop_last(), sep);
        lemma_split_nonempty(s.drop_last(), sep);
    }
}

/// The pieces are at most one more than the characters outside the first piece.
pub proof fn lemma_split_count(s: Seq<char>, sep: char)
    ensures
        split_spec(s, sep).len() + split_spec(s, sep)[0].len() <= s.len() + 1,
    decreases s.len(),
{
    if s.len() > 0 {
        lemma_split_count(s.drop_last(), sep);
        lemma_split_nonempty(s.drop_last(), sep);
    }
}

/// Text after the last separator is the last piece.
pub proof fn lemma_split_tail(head: Seq<char>, tail: Seq<char>, sep: char)
    requires
        free_of(tail, sep),
    ensures
        split_spec(head.push(sep) + tail, sep) == split_spec(head, sep).push(tail),
    decreases tail.len(),
{
    let all = head.push(sep) + tail;
    if tail.len() == 0 {
        assert(all.drop_last() == head);
        assert(tail == Seq::<char>::empty());
    } else {
        let shorter = tail.drop_last();
        lemma_split_tail(head, shorter, sep);
        assert(all.drop_last() == head.push(sep) + shorter);
        assert(all.last() == tail.last());
        let before = split_spec(head, sep).push(shorter);
        assert(before.drop_last() == split_spec(head, sep));
        assert(shorter.push(tail.last()) == tail);
    }
}

/// Text without a separator is its own single piece.
pub proof fn lemma_split_whole(s: Seq<char>, sep: char)
    requires
        free_of(s, sep),
    ensures
        split_spec(s, sep) == seq![s],
    decreases s.len(),
{
    if s.len() == 0 {
        assert(s == Seq::<char>::empty());
    } else {
        let shorter = s.drop_last();
        lemma_split_whole(shorter, sep);
        assert(seq![shorter].drop_last().push(shorter.push(s.last())) == seq![s]) by {
            assert(shorter.push(s.last()) == s);
        }
    }
}

/// Splitting undoes joining, where no piece holds the separator.
pub proof fn lemma_split_join(pieces: Seq<Seq<char>>, sep: char)
    requires
        pieces.len() >= 1,
        forall|i: int| 0 <= i < pieces.len() ==> free_of(#[trigger] pieces[i], sep),
    ensures
        split_spec(join_spec(pieces, sep), sep) == pieces,
    decreases pieces.len(),
{
    if pieces.len() == 1 {
        lemma_split_whole(pieces[0], sep);
        assert(seq![pieces[0]] == pieces);
    } else {
        let front = pieces.drop_last();
        lemma_split_join(front, sep);
        lemma_split_tail(join_spec(front, sep), pieces.last(), sep);
        assert(front.push(pieces.last()) == pieces);
    }
}

/// Cuts `s` at every occurrence of `sep`.
pub fn split(s: &Vec<char>, sep: char) -> (pieces: Vec<Vec<char>>)
    ensures
        rows(pieces@) == split_spec(s@, sep),
{
    let mut pieces: Vec<Vec<char>> = Vec::new();
    let mut piece: Vec<char> = Vec::new();
    let mut i: usize = 0;
    while i < s.len()
        invariant
            i <= s.len(),
            rows(pieces@).push(piece@) == split_spec(s@.take(i as int), sep),
        decreases s.len() - i,
    {
        let ghost before = rows(pieces@).push(piece@);
        let ghost seen = s@.take(i as int + 1);
        assert(seen.drop_last() == s@.take(i as int));
        assert(seen.last() == s@[i as int]);
        if s[i] == sep {
            pieces.push(piece);
            piece = Vec::new();
            assert(rows(pieces@) == before);
        } else {
            piece.push(s[i]);
            assert(rows(pieces@).push(piece@) == before.drop_last().push(
                before.last().push(s@[i as int]),
            ));
        }
        i += 1;
    }
    assert(s@.take(s@.len() as int) == s@);
    let ghost last = piece@;
    let ghost front = rows(pieces@);
    pieces.push(piece);
    assert(rows(pieces@) == front.push(last));
    pieces
}

/// A piece without the carriage return that it may end in.
pub open spec fn strip_cr(piece: Seq<char>) -> Seq<char> {
    if piece.len() > 0 && piece.last() == '\r' {
        piece.drop_last()
    } else {
        piece
    }
}

/// The lines of a text as std's `str::lines` gives them: a line ends with
/// a line feed, or with a carriage return and a line feed, and the end of
/// the text ends the last line where no line feed does.
pub open spec fn std_lines_spec(text: Seq<char>) -> Seq<Seq<char>> {
    let pieces = split_spec(text, '\n');
    let ended = pieces.drop_last().map_values(|piece: Seq<char>| strip_cr(piece));
    if pieces.last().len() == 0 {
        ended
    } else {
        ended.push(pieces.last())
    }
}

/// Cuts a text into lines as std's `str::lines` does.
pub fn std_lines(text: &Vec<char>) -> (lines: Vec<Vec<char>>)
    ensures
        rows(lines@) == std_lines_spec(text@),
{
    let mut lines = split(text, '\n');
    proof {
        lemma_split_nonempty(text@, '\n');
    }
    let ghost pieces = rows(lines@);
    let last = lines.pop().unwrap();
    assert(rows(lines@) == pieces.drop_last());
    let mut i: usize = 0;
    while i < lines.len()
        invariant
            i <= lines.len(),
            lines@.len() == pieces.len() - 1,
            forall|j: int| 0 <= j < i ==> (#[trigger] lines@[j])@ == strip_cr(pieces[j]),
            forall|j: int| i <= j < lines.len() ==> (#[trigger] lines@[j])@ == pieces[j],
        decreases lines.len() - i,
    {
        let n = lines[i].len();
        if n > 0 && lines[i][n - 1] == '\r' {
            lines[i].pop();
        }
        i += 1;
    }
    assert(rows(lines@) == pieces.drop_last().map_values(|piece: Seq<char>| strip_cr(piece)));
    if last.len() > 0 {
        let ghost ended = rows(lines@);
        let ghost tail = last@;
        lines.push(last);
        assert(rows(lines@) == ended.push(tail));
    }
    lines
}

} // verus!
