use vstd::prelude::*;
use crate::codec::{digit_run, numeral_value, read_digits};
use crate::error::ListError;
use crate::text::{chars_of, rows};

verus! {

/// `x` is one of the numbers in `s`.
pub open spec fn has(s: Seq<usize>, x: int) -> bool {
    exists|i: int| 0 <= i < s.len() && #[trigger] s[i] == x
}

/// The set of the numbers in `s`: how often and where a number stands in
/// `s` plays no part.
pub open spec fn positions(s: Seq<usize>) -> Set<int> {
    Set::new(|x: int| has(s, x))
}

/// Each number is larger than all that follow it.
pub open spec fn descending(s: Seq<usize>) -> bool {
    forall|a: int, b: int| 0 <= a < b < s.len() ==> s[a] > s[b]
}

/// Putting a number into a sequence adds it to the numbers that the sequence has.
pub proof fn lemma_has_insert(s: Seq<usize>, at: int, x: usize, y: int)
    requires
        0 <= at <= s.len(),
    ensures
        has(s.insert(at, x), y) <==> (has(s, y) || y == x),
{
    let t = s.insert(at, x);
    if has(s, y) {
        let i = choose|i: int| 0 <= i < s.len() && #[trigger] s[i] == y;
        if i < at {
            assert(t[i] == y);
        } else {
            assert(t[i + 1] == y);
        }
    }
    if y == x {
        assert(t[at] == y);
    }
    if has(t, y) {
        let i = choose|i: int| 0 <= i < t.len() && #[trigger] t[i] == y;
        if i < at {
            assert(s[i] == y);
        } else if i > at {
            assert(s[i - 1] == y);
        }
    }
}

/// One more number of a sequence taken into account.
pub proof fn lemma_has_take(s: Seq<usize>, n: int, y: int)
    requires
        0 <= n < s.len(),
    ensures
        has(s.take(n + 1), y) <==> (has(s.take(n), y) || y == s[n]),
{
    let short = s.take(n);
    let long = s.take(n + 1);
    if has(short, y) {
        let i = choose|i: int| 0 <= i < short.len() && #[trigger] short[i] == y;
        assert(long[i] == y);
    }
    if y == s[n] {
        assert(long[n] == y);
    }
    if has(long, y) {
        let i = choose|i: int| 0 <= i < long.len() && #[trigger] long[i] == y;
        if i < n {
            assert(short[i] == y);
        }
    }
}

/// The distinct numbers of `indices`, largest first.
pub fn sorted_descending(indices: &Vec<usize>) -> (sorted: Vec<usize>)
    ensures
        descending(sorted@),
        positions(sorted@) == positions(indices@),
{
    let mut sorted: Vec<usize> = Vec::new();
    let mut i: usize = 0;
    while i < indices.len()
        invariant
            i <= indices.len(),
            descending(sorted@),
            forall|y: int| has(sorted@, y) <==> has(indices@.take(i as int), y),
        decreases indices.len() - i,
    {
        let x = indices[i];
        let mut at: usize = 0;
        while at < sorted.len() && sorted[at] > x
            invariant
                at <= sorted.len(),
                forall|k: int| 0 <= k < at ==> sorted@[k] > x,
            decreases sorted.len() - at,
        {
            at += 1;
        }
        let ghost before = sorted@;
        if at == sorted.len() || sorted[at] != x {
            sorted.insert(at, x);
            assert forall|y: int| has(sorted@, y) <==> has(indices@.take(i as int + 1), y) by {
                lemma_has_insert(before, at as int, x, y);
                lemma_has_take(indices@, i as int, y);
            }
        } else {
            assert forall|y: int| has(sorted@, y) <==> has(indices@.take(i as int + 1), y) by {
                lemma_has_take(indices@, i as int, y);
                assert(before[at as int] == x);
            }
        }
        i += 1;
    }
    assert(indices@.take(indices@.len() as int) == indices@);
    assert(positions(sorted@) =~= positions(indices@));
    sorted
}

/// The white space that parts the words of a request: the characters that
/// Unicode gives the property White_Space.
pub open spec fn is_space(c: char) -> bool {
    let u = c as int;
    ||| 0x09 <= u <= 0x0D
    ||| u == 0x20
    ||| u == 0x85
    ||| u == 0xA0
    ||| u == 0x1680
    ||| 0x2000 <= u <= 0x200A
    ||| u == 0x2028
    ||| u == 0x2029
    ||| u == 0x202F
    ||| u == 0x205F
    ||| u == 0x3000
}

/// Tells white space from other characters.
pub fn is_space_char(c: char) -> (b: bool)
    ensures
        b == is_space(c),
{
    let u: u32 = c as u32;
    (0x09 <= u && u <= 0x0D) || u == 0x20 || u == 0x85 || u == 0xA0 || u == 0x1680 || (0x2000 <= u
        && u <= 0x200A) || u == 0x2028 || u == 0x2029 || u == 0x202F || u == 0x205F || u == 0x3000
}

/// The words of `s`: its longest runs of characters that are not white space.
pub open spec fn words_spec(s: Seq<char>) -> Seq<Seq<char>>
    decreases s.len(),
{
    if s.len() == 0 {
        Seq::empty()
    } else if is_space(s.last()) {
        words_spec(s.drop_last())
    } else if s.len() >= 2 && !is_space(s[s.len() - 2]) {
        let before = words_spec(s.drop_last());
        before.drop_last().push(before.last().push(s.last()))
    } else {
        words_spec(s.drop_last()).push(seq![s.last()])
    }
}

/// The number that a word denotes: one or more decimal digits, with or
/// without a plus sign in front, of a value that fits an index.
pub open spec fn number_spec(word: Seq<char>) -> Option<nat> {
    let digits = if word.len() > 0 && word[0] == '+' {
        word.skip(1)
    } else {
        word
    };
    if digits.len() > 0 && digit_run(digits) == digits.len() && numeral_value(digits)
        <= usize::MAX {
        Some(numeral_value(digits))
    } else {
        None
    }
}

/// The numbers that a request names, word by word; `None` where it has no
/// word or a word that denotes no number.
pub open spec fn request_spec(arg: Seq<char>) -> Option<Seq<usize>> {
    let words = words_spec(arg);
    if words.len() > 0 && forall|i: int|
        0 <= i < words.len() ==> number_spec(#[trigger] words[i]) is Some {
        Some(words.map_values(|word: Seq<char>| number_spec(word).unwrap() as usize))
    } else {
        None
    }
}

/// Cuts `s` into its words.
pub fn words(s: &Vec<char>) -> (found: Vec<Vec<char>>)
    ensures
        rows(found@) == words_spec(s@),
{
    let mut found: Vec<Vec<char>> = Vec::new();
    let mut word: Vec<char> = Vec::new();
    let mut i: usize = 0;
    while i < s.len()
        invariant
            i <= s.len(),
            word@.len() > 0 <==> (i > 0 && !is_space(s@[i - 1])),
            word@.len() > 0 ==> rows(found@).push(word@) == words_spec(s@.take(i as int)),
            word@.len() == 0 ==> rows(found@) == words_spec(s@.take(i as int)),
        decreases s.len() - i,
    {
        let ghost seen = s@.take(i as int + 1);
        let ghost before = words_spec(s@.take(i as int));
        proof {
            assert(seen.drop_last() == s@.take(i as int));
            assert(seen.last() == s@[i as int]);
            if i > 0 {
                assert(seen[seen.len() - 2] == s@[i - 1]);
            }
        }
        let c = s[i];
        if is_space_char(c) {
            if word.len() > 0 {
                found.push(word);
                word = Vec::new();
                assert(rows(found@) == before);
            }
        } else {
            let ghost old_word = word@;
            word.push(c);
            proof {
                if old_word.len() > 0 {
                    assert(before.drop_last() == rows(found@));
                    assert(before.last() == old_word);
                } else {
                    assert(word@ == seq![c]);
                }
            }
        }
        i += 1;
    }
    assert(s@.take(s@.len() as int) == s@);
    if word.len() > 0 {
        let ghost front = rows(found@);
        let ghost last = word@;
        found.push(word);
        assert(rows(found@) == front.push(last));
    }
    found
}

/// Reads a word as a number.
pub fn parse_number(word: &Vec<char>) -> (r: Option<usize>)
    ensures
        r is Some <==> number_spec(word@) is Some,
        r matches Some(value) ==> number_spec(word@) == Some(value as nat),
{
    let from: usize = if word.len() > 0 && word[0] == '+' {
        1
    } else {
        0
    };
    let (end, number) = read_digits(word, from);
    proof {
        let digits = word@.skip(from as int);
        assert(word@.skip(0) == word@);
        if end == word@.len() {
            assert(word@.subrange(from as int, end as int) == digits);
        }
    }
    if end == from || end < word.len() {
        return None;
    }
    number
}

/// Reads a delete request: numbers in decimal, parted by white space.
/// A request without a word, or with a word that is no number or is too
/// large for an index, is refused as an invalid argument.
pub fn parse_indices(arg: &str) -> (r: Result<Vec<usize>, ListError>)
    ensures
        match r {
            Ok(indices) => request_spec(arg@) == Some(indices@),
            Err(e) => e == ListError::InvalidArgument && request_spec(arg@) is None,
        },
{
    let chars = chars_of(arg);
    let found = words(&chars);
    let ghost all = words_spec(arg@);
    if found.len() == 0 {
        return Err(ListError::InvalidArgument);
    }
    let mut indices: Vec<usize> = Vec::new();
    let mut i: usize = 0;
    while i < found.len()
        invariant
            i <= found.len(),
            rows(found@) == all,
            all == words_spec(arg@),
            indices@.len() == i,
            forall|j: int| 0 <= j < i ==> number_spec(#[trigger] all[j]) == Some(indices@[j] as nat),
        decreases found.len() - i,
    {
        assert(found@[i as int]@ == all[i as int]);
        match parse_number(&found[i]) {
            Some(value) => {
                indices.push(value);
            },
            None => {
                assert(number_spec(all[i as int]) is None);
                return Err(ListError::InvalidArgument);
            },
        }
        i += 1;
    }
    assert(indices@ == all.map_values(|word: Seq<char>| number_spec(word).unwrap() as usize));
    Ok(indices)
}

} // verus!
