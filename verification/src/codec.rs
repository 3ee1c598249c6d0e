use vstd::prelude::*;
use vstd::string::StringExecFns;
use crate::error::ListError;
use crate::text::{chars_of, string_from};

verus! {

/// One list item as a mathematical value: its number and its text.
pub struct Item {
    pub index: nat,
    pub text: Seq<char>,
}

/// One list item in memory.
#[derive(Debug, PartialEq, Eq)]
pub struct ListEntry {
    pub index: usize,
    pub text: String,
}

impl View for ListEntry {
    type V = Item;

    open spec fn view(&self) -> Item {
        Item { index: self.index as nat, text: self.text@ }
    }
}

/// `c` is one of the ten digits `0` to `9`.
pub open spec fn is_digit(c: char) -> bool {
    48 <= c as int <= 57
}

/// The digit that stands for `d`.
pub open spec fn digit_char(d: nat) -> char
    recommends
        d < 10,
{
    (48 + d) as char
}

/// The number that the digit `c` stands for.
pub open spec fn digit_value(c: char) -> nat
    recommends
        is_digit(c),
{
    (c as int - 48) as nat
}

/// The decimal numeral of `n`, without leading zeros.
pub open spec fn decimal(n: nat) -> Seq<char>
    decreases n,
{
    if n < 10 {
        seq![digit_char(n)]
    } else {
        decimal(n / 10).push(digit_char(n % 10))
    }
}

/// The decimal numeral of `n`, with a leading zero where it would have one digit.
pub open spec fn padded(n: nat) -> Seq<char> {
    if n < 10 {
        seq!['0'] + decimal(n)
    } else {
        decimal(n)
    }
}

/// The line that stands for item `index` with text `body`.
pub open spec fn encode_spec(index: nat, body: Seq<char>) -> Seq<char> {
    padded(index) + seq!['.', ' '] + body
}

/// The number that a sequence of digits denotes; leading zeros count for nothing.
pub open spec fn numeral_value(digits: Seq<char>) -> nat
    decreases digits.len(),
{
    if digits.len() == 0 {
        0
    } else {
        numeral_value(digits.drop_last()) * 10 + digit_value(digits.last())
    }
}

/// The length of the longest prefix of `s` made of digits.
pub open spec fn digit_run(s: Seq<char>) -> nat
    decreases s.len(),
{
    if s.len() > 0 && is_digit(s[0]) {
        1 + digit_run(s.drop_first())
    } else {
        0
    }
}

/// What a line decodes to: `Some` exactly when it begins with one or more
/// digits, a period and a space; the text is all that follows them.
pub open spec fn decode_spec(line: Seq<char>) -> Option<Item> {
    let k = digit_run(line) as int;
    if k >= 1 && line.len() >= k + 2 && line[k] == '.' && line[k + 1] == ' ' {
        Some(Item { index: numeral_value(line.take(k)), text: line.skip(k + 2) })
    } else {
        None
    }
}

/// A line can be read as an item: it has the shape, and its numeral fits an index.
pub open spec fn decodes(line: Seq<char>) -> bool {
    decode_spec(line) is Some && decode_spec(line).unwrap().index <= usize::MAX
}

/// Appends to `out` the decimal numeral of `n`.
pub fn push_decimal(out: &mut String, n: usize)
    ensures
        final(out)@ == old(out)@ + decimal(n as nat),
    decreases n,
{
    if n >= 10 {
        push_decimal(out, n / 10);
    }
    let d: u8 = (n % 10) as u8;
    out.push((48u8 + d) as char);
}

/// Appends to `out` the line that stands for item `index` with text `body`.
pub fn encode_into(out: &mut String, index: usize, body: &str)
    ensures
        final(out)@ == old(out)@ + encode_spec(index as nat, body@),
{
    if index < 10 {
        out.push('0');
    }
    push_decimal(out, index);
    out.push('.');
    out.push(' ');
    out.append(body);
}

/// Formats an item as a line: the index in decimal, zero-padded to two
/// digits, then a period, a space and the text.
pub fn encode(index: usize, body: &str) -> (line: String)
    ensures
        line@ == encode_spec(index as nat, body@),
{
    let mut line = String::new();
    encode_into(&mut line, index, body);
    line
}

/// `digit_run` is the position of the first character that is no digit.
pub proof fn lemma_digit_run(s: Seq<char>, k: int)
    requires
        0 <= k <= s.len(),
        forall|i: int| 0 <= i < k ==> is_digit(#[trigger] s[i]),
        k == s.len() || !is_digit(s[k]),
    ensures
        digit_run(s) == k,
    decreases k,
{
    if k > 0 {
        let rest = s.drop_first();
        assert forall|i: int| 0 <= i < k - 1 implies is_digit(#[trigger] rest[i]) by {
            assert(rest[i] == s[i + 1]);
        }
        lemma_digit_run(rest, k - 1);
    }
}

/// Reading one more digit multiplies the value by ten and adds the digit.
pub proof fn lemma_numeral_step(s: Seq<char>, k: int)
    requires
        0 <= k < s.len(),
    ensures
        numeral_value(s.take(k + 1)) == numeral_value(s.take(k)) * 10 + digit_value(s[k]),
{
    assert(s.take(k + 1).drop_last() == s.take(k));
}

/// Reads the digits of `line` that begin at `from`. Hands back the place
/// after the last of them and, where it fits, the number that they denote.
pub(crate) fn read_digits(line: &Vec<char>, from: usize) -> (r: (usize, Option<usize>))
    requires
        from <= line@.len(),
    ensures
        r.0 == from + digit_run(line@.skip(from as int)),
        r.0 <= line@.len(),
        match r.1 {
            Some(value) => value == numeral_value(line@.subrange(from as int, r.0 as int)),
            None => numeral_value(line@.subrange(from as int, r.0 as int)) > usize::MAX,
        },
{
    let n = line.len();
    let ghost rest = line@.skip(from as int);
    let mut k: usize = from;
    let mut value: usize = 0;
    let mut fits = true;
    while k < n && '0' <= line[k] && line[k] <= '9'
        invariant
            n == line.len(),
            from <= k <= n,
            rest == line@.skip(from as int),
            forall|i: int| 0 <= i < k - from ==> is_digit(#[trigger] rest[i]),
            fits ==> value == numeral_value(rest.take(k - from)),
            !fits ==> numeral_value(rest.take(k - from)) > usize::MAX,
        decreases n - k,
    {
        let d: usize = (line[k] as u8 - 48u8) as usize;
        proof {
            assert(rest[k - from] == line@[k as int]);
            lemma_numeral_step(rest, k - from);
        }
        if fits {
            if value > (usize::MAX - d) / 10 {
                fits = false;
            } else {
                value = value * 10 + d;
            }
        }
        k += 1;
    }
    proof {
        if k < n {
            assert(rest[k - from] == line@[k as int]);
        }
        lemma_digit_run(rest, k - from);
        assert(rest.take(k - from) == line@.subrange(from as int, k as int));
    }
    if fits {
        (k, Some(value))
    } else {
        (k, None)
    }
}

/// Reads a line, given by its characters, as an item.
pub(crate) fn decode_chars(line: &Vec<char>) -> (r: Result<ListEntry, ListError>)
    ensures
        r is Ok <==> decodes(line@),
        r matches Ok(entry) ==> decode_spec(line@) == Some(entry@),
        r matches Err(e) ==> e == ListError::Parse,
{
    let n = line.len();
    let (k, number) = read_digits(line, 0);
    proof {
        assert(line@.skip(0) == line@);
        assert(line@.subrange(0, k as int) == line@.take(k as int));
    }
    if k == 0 || n - k < 2 {
        return Err(ListError::Parse);
    }
    if line[k] != '.' || line[k + 1] != ' ' {
        return Err(ListError::Parse);
    }
    match number {
        Some(index) => Ok(ListEntry { index, text: string_from(line, k + 2) }),
        None => Err(ListError::Parse),
    }
}

/// Reads a line as an item. The line must begin with one or more digits, a
/// period and a space; the rest of it, whatever it holds, is the text.
pub fn decode(line: &str) -> (r: Result<ListEntry, ListError>)
    ensures
        r is Ok <==> decodes(line@),
        r matches Ok(entry) ==> decode_spec(line@) == Some(entry@),
        r matches Err(e) ==> e == ListError::Parse,
{
    let chars = chars_of(line);
    decode_chars(&chars)
}

/// A decimal numeral is one or more digits.
pub proof fn lemma_decimal_digits(n: nat)
    ensures
        decimal(n).len() >= 1,
        n >= 10 ==> decimal(n).len() >= 2,
        forall|i: int| 0 <= i < decimal(n).len() ==> is_digit(#[trigger] decimal(n)[i]),
    decreases n,
{
    if n >= 10 {
        lemma_decimal_digits(n / 10);
    }
}

/// A decimal numeral denotes the number it was made from.
pub proof fn lemma_decimal_value(n: nat)
    ensures
        numeral_value(decimal(n)) == n,
    decreases n,
{
    let d = decimal(n);
    if n < 10 {
        assert(d.drop_last() == Seq::<char>::empty());
        assert(numeral_value(d.drop_last()) == 0);
        assert(digit_value(d.last()) == n);
    } else {
        lemma_decimal_value(n / 10);
        assert(d.drop_last() == decimal(n / 10));
        assert(digit_value(d.last()) == n % 10);
    }
}

/// A zero in front of a numeral does not change its value.
pub proof fn lemma_leading_zero(digits: Seq<char>)
    ensures
        numeral_value(seq!['0'] + digits) == numeral_value(digits),
    decreases digits.len(),
{
    let all = seq!['0'] + digits;
    if digits.len() == 0 {
        assert(all.drop_last() == Seq::<char>::empty());
        assert(numeral_value(all.drop_last()) == 0);
        assert(digit_value(all.last()) == 0);
    } else {
        lemma_leading_zero(digits.drop_last());
        assert(all.drop_last() == seq!['0'] + digits.drop_last());
        assert(all.last() == digits.last());
    }
}

/// The padded numeral of `n` is two or more digits that denote `n`.
pub proof fn lemma_padded(n: nat)
    ensures
        padded(n).len() >= 2,
        forall|i: int| 0 <= i < padded(n).len() ==> is_digit(#[trigger] padded(n)[i]),
        numeral_value(padded(n)) == n,
{
    lemma_decimal_digits(n);
    lemma_decimal_value(n);
    if n < 10 {
        lemma_leading_zero(decimal(n));
    }
}

/// Decoding an encoded item gives the item back, whatever its text holds.
pub proof fn lemma_decode_encode(index: nat, body: Seq<char>)
    ensures
        decode_spec(encode_spec(index, body)) == Some(Item { index, text: body }),
{
    let head = padded(index);
    let line = encode_spec(index, body);
    let k = head.len() as int;
    lemma_padded(index);
    assert forall|i: int| 0 <= i < k implies is_digit(#[trigger] line[i]) by {
        assert(line[i] == head[i]);
    }
    assert(line[k] == '.');
    assert(line[k + 1] == ' ');
    lemma_digit_run(line, k);
    assert(line.take(k) == head);
    assert(line.skip(k + 2) == body);
}

} // verus!
