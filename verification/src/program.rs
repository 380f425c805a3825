//! The text form of a program: whole numbers in decimal, separated by commas.

use vstd::prelude::*;

verus! {

/// Whether `c` counts as white space: whether it has the Unicode property
/// `White_Space`.
pub uninterp spec fn white_space(c: char) -> bool;

/// `char::is_whitespace`: tells whether the character has the Unicode
/// property `White_Space`. Nothing is claimed about which characters have it.
#[verifier::external_body]
fn is_white_space(c: char) -> (white: bool)
    ensures
        white == white_space(c),
{
    c.is_whitespace()
}

/// `text` without the white space at its beginning.
pub open spec fn skip_front(text: Seq<char>) -> Seq<char>
    decreases text.len(),
{
    if text.len() > 0 && white_space(text[0]) {
        skip_front(text.drop_first())
    } else {
        text
    }
}

/// `text` without the white space at its end.
pub open spec fn skip_back(text: Seq<char>) -> Seq<char>
    decreases text.len(),
{
    if text.len() > 0 && white_space(text.last()) {
        skip_back(text.drop_last())
    } else {
        text
    }
}

/// `text` without the white space at both ends.
pub open spec fn trimmed(text: Seq<char>) -> Seq<char> {
    skip_back(skip_front(text))
}

/// What the first `count` characters of `text` hold: the fields that a comma
/// has ended, and the characters of the field that is still open.
pub open spec fn scanned(text: Seq<char>, count: int) -> (Seq<Seq<char>>, Seq<char>)
    decreases count,
{
    if count <= 0 {
        (Seq::empty(), Seq::empty())
    } else {
        let (fields, field) = scanned(text, count - 1);
        if text[count - 1] == ',' {
            (fields.push(field), Seq::empty())
        } else {
            (fields, field.push(text[count - 1]))
        }
    }
}

/// The fields of `text`: what stands before, between and after its commas.
/// There is always one field more than there are commas.
pub open spec fn fields_of(text: Seq<char>) -> Seq<Seq<char>> {
    let (fields, field) = scanned(text, text.len() as int);
    fields.push(field)
}

/// Whether `c` is one of the ten decimal digits.
pub open spec fn is_digit(c: char) -> bool {
    '0' <= c <= '9'
}

/// The number that a string of decimal digits stands for.
pub open spec fn decimal(digits: Seq<char>) -> int
    decreases digits.len(),
{
    if digits.len() == 0 {
        0
    } else {
        decimal(digits.drop_last()) * 10 + (digits.last() as int - '0' as int)
    }
}

/// Whether `field` begins with a sign.
pub open spec fn has_sign(field: Seq<char>) -> bool {
    field.len() > 0 && (field[0] == '-' || field[0] == '+')
}

/// The digits of `field`: all of it but a leading sign.
pub open spec fn digits_of(field: Seq<char>) -> Seq<char> {
    if has_sign(field) {
        field.drop_first()
    } else {
        field
    }
}

/// The 64-bit number that `field` stands for: an optional `+` or `-`, then
/// one or more decimal digits and nothing else. `None` where `field` is not
/// of that form or the number does not fit.
pub open spec fn number_of(field: Seq<char>) -> Option<i64> {
    let digits = digits_of(field);
    let value = if has_sign(field) && field[0] == '-' {
        -decimal(digits)
    } else {
        decimal(digits)
    };
    if digits.len() > 0 && (forall|i: int| 0 <= i < digits.len() ==> is_digit(#[trigger] digits[i]))
        && i64::MIN <= value <= i64::MAX {
        Some(value as i64)
    } else {
        None
    }
}

/// The word that `field` gives: its number, or -1 where it stands for none.
pub open spec fn word_of(field: Seq<char>) -> i64 {
    match number_of(field) {
        Some(value) => value,
        None => -1i64,
    }
}

/// The program that `text` holds: white space at both ends is dropped, and
/// each field between commas gives one word.
pub open spec fn program_of(text: Seq<char>) -> Seq<i64> {
    fields_of(trimmed(text)).map_values(|field: Seq<char>| word_of(field))
}

/// Dropping white space at the front of a text whose first `count`
/// characters are white space is dropping it from the rest.
proof fn lemma_skip_front(text: Seq<char>, count: int)
    requires
        0 <= count <= text.len(),
        forall|i: int| 0 <= i < count ==> white_space(#[trigger] text[i]),
    ensures
        skip_front(text) == skip_front(text.subrange(count, text.len() as int)),
    decreases count,
{
    if count == 0 {
        assert(text.subrange(0, text.len() as int) =~= text);
    } else {
        let rest = text.drop_first();
        assert forall|i: int| 0 <= i < count - 1 implies white_space(#[trigger] rest[i]) by {
            assert(rest[i] == text[i + 1]);
        }
        lemma_skip_front(rest, count - 1);
        assert(rest.subrange(count - 1, rest.len() as int) =~= text.subrange(
            count,
            text.len() as int,
        ));
    }
}

/// Dropping white space at the back of a text whose characters from `count`
/// on are white space is dropping it from what stands before them.
proof fn lemma_skip_back(text: Seq<char>, count: int)
    requires
        0 <= count <= text.len(),
        forall|i: int| count <= i < text.len() ==> white_space(#[trigger] text[i]),
    ensures
        skip_back(text) == skip_back(text.subrange(0, count)),
    decreases text.len() - count,
{
    if count == text.len() {
        assert(text.subrange(0, count) =~= text);
    } else {
        let rest = text.drop_last();
        assert forall|i: int| count <= i < rest.len() implies white_space(#[trigger] rest[i]) by {
            assert(rest[i] == text[i]);
        }
        lemma_skip_back(rest, count);
        assert(rest.subrange(0, count) =~= text.subrange(0, count));
    }
}

/// A string of digits stands for a number that is not negative and not
/// smaller than the number of any of its beginnings.
proof fn lemma_decimal_grows(digits: Seq<char>, count: int)
    requires
        0 <= count <= digits.len(),
        forall|i: int| 0 <= i < digits.len() ==> is_digit(#[trigger] digits[i]),
    ensures
        0 <= decimal(digits.subrange(0, count)) <= decimal(digits),
    decreases digits.len(),
{
    if digits.len() == 0 {
        assert(digits.subrange(0, count) =~= digits);
    } else {
        let front = digits.drop_last();
        assert forall|i: int| 0 <= i < front.len() implies is_digit(#[trigger] front[i]) by {
            assert(front[i] == digits[i]);
        }
        assert(is_digit(digits[digits.len() - 1]));
        if count == digits.len() {
            assert(digits.subrange(0, count) =~= digits);
            lemma_decimal_grows(front, 0);
            assert(front.subrange(0, 0) =~= Seq::<char>::empty());
        } else {
            lemma_decimal_grows(front, count);
            assert(front.subrange(0, count) =~= digits.subrange(0, count));
        }
    }
}

/// Reads the characters of `text` into a vector.
fn chars_of(text: &str) -> (chars: Vec<char>)
    ensures
        chars@ == text@,
{
    let total = text.unicode_len();
    let mut chars: Vec<char> = Vec::new();
    let mut i: usize = 0;
    while i < total
        invariant
            i <= total,
            total == text@.len(),
            chars@ == text@.subrange(0, i as int),
        decreases total - i,
    {
        chars.push(text.get_char(i));
        assert(chars@ =~= text@.subrange(0, i + 1));
        i = i + 1;
    }
    assert(text@.subrange(0, total as int) =~= text@);
    chars
}

/// The decimal digit that `c` is, if it is one.
fn digit(c: char) -> (d: Option<u8>)
    ensures
        match d {
            Some(d) => is_digit(c) && d == c as int - '0' as int,
            None => !is_digit(c),
        },
{
    if '0' <= c && c <= '9' {
        Some((c as u32 - '0' as u32) as u8)
    } else {
        None
    }
}

/// Reads the number that the characters `from..to` of `text` stand for.
fn number(text: &Vec<char>, from: usize, to: usize) -> (value: Option<i64>)
    requires
        from <= to <= text.len(),
    ensures
        value == number_of(text@.subrange(from as int, to as int)),
{
    let ghost field = text@.subrange(from as int, to as int);
    let mut at = from;
    let mut negative = false;
    if from < to && (text[from] == '-' || text[from] == '+') {
        negative = text[from] == '-';
        at = from + 1;
    }
    let ghost digits = digits_of(field);
    let first = at;
    assert(digits =~= text@.subrange(first as int, to as int));
    if at == to {
        return None;
    }
    let mut acc: i128 = 0;
    let limit: i128 = 0x8000_0000_0000_0000;
    assert(digits.subrange(0, 0) =~= Seq::<char>::empty());
    while at < to
        invariant
            from <= first <= at <= to <= text.len(),
            field == text@.subrange(from as int, to as int),
            digits == digits_of(field),
            digits == text@.subrange(first as int, to as int),
            limit == 0x8000_0000_0000_0000,
            forall|i: int| 0 <= i < at - first ==> is_digit(#[trigger] digits[i]),
            acc == decimal(digits.subrange(0, at - first)),
            0 <= acc <= limit,
        decreases to - at,
    {
        let d = match digit(text[at]) {
            Some(d) => d,
            None => {
                assert(!is_digit(digits[at - first]));
                return None;
            },
        };
        let ghost before = digits.subrange(0, at - first);
        let ghost upto = digits.subrange(0, at - first + 1);
        assert(upto.drop_last() =~= before);
        assert(upto.last() == text@[at as int]);
        let next: i128 = acc * 10 + d as i128;
        if next > limit {
            proof {
                if forall|i: int| 0 <= i < digits.len() ==> is_digit(#[trigger] digits[i]) {
                    lemma_decimal_grows(digits, at - first + 1);
                }
            }
            return None;
        }
        acc = next;
        at = at + 1;
    }
    assert(digits.subrange(0, to - first) =~= digits);
    if negative {
        Some((-acc) as i64)
    } else if acc < limit {
        Some(acc as i64)
    } else {
        None
    }
}

/// Reads a program from its text: white space at both ends is dropped, and
/// each field between commas gives one word, -1 where the field is no
/// number.
pub fn parse_program(text: &str) -> (prog: Vec<i64>)
    ensures
        prog@ == program_of(text@),
{
    let chars = chars_of(text);
    let mut from: usize = 0;
    while from < chars.len() && is_white_space(chars[from])
        invariant
            from <= chars.len(),
            forall|i: int| 0 <= i < from ==> white_space(#[trigger] chars@[i]),
        decreases chars.len() - from,
    {
        from = from + 1;
    }
    let mut to: usize = chars.len();
    while to > from && is_white_space(chars[to - 1])
        invariant
            from <= to <= chars.len(),
            forall|i: int| to <= i < chars.len() ==> white_space(#[trigger] chars@[i]),
        decreases to,
    {
        to = to - 1;
    }
    let ghost body = chars@.subrange(from as int, to as int);
    proof {
        let back = chars@.subrange(from as int, chars@.len() as int);
        lemma_skip_front(chars@, from as int);
        assert(skip_front(back) == back);
        assert forall|i: int| to - from <= i < back.len() implies white_space(
            #[trigger] back[i],
        ) by {
            assert(back[i] == chars@[i + from]);
        }
        lemma_skip_back(back, to - from);
        assert(back.subrange(0, to - from) =~= body);
        assert(skip_back(body) == body) by {
            if body.len() > 0 {
                assert(body.last() == chars@[to - 1]);
            }
        }
        assert(trimmed(text@) == body);
    }
    let mut prog: Vec<i64> = Vec::new();
    let mut begin: usize = from;
    let mut at: usize = from;
    let ghost mut fields: Seq<Seq<char>> = Seq::empty();
    while at < to
        invariant
            from <= begin <= at <= to <= chars.len(),
            body == chars@.subrange(from as int, to as int),
            scanned(body, at - from) == (fields, chars@.subrange(begin as int, at as int)),
            prog@ == fields.map_values(|field: Seq<char>| word_of(field)),
        decreases to - at,
    {
        assert(body[at - from] == chars@[at as int]);
        if chars[at] == ',' {
            let word = match number(&chars, begin, at) {
                Some(value) => value,
                None => -1,
            };
            prog.push(word);
            proof {
                let field = chars@.subrange(begin as int, at as int);
                assert(fields.push(field).map_values(|field: Seq<char>| word_of(field))
                    =~= fields.map_values(|field: Seq<char>| word_of(field)).push(word_of(field)));
                fields = fields.push(field);
            }
            begin = at + 1;
            assert(chars@.subrange(begin as int, begin as int) =~= Seq::<char>::empty());
        } else {
            assert(chars@.subrange(begin as int, at + 1) =~= chars@.subrange(
                begin as int,
                at as int,
            ).push(chars@[at as int]));
        }
        at = at + 1;
    }
    let word = match number(&chars, begin, to) {
        Some(value) => value,
        None => -1,
    };
    prog.push(word);
    proof {
        let field = chars@.subrange(begin as int, to as int);
        assert(fields.push(field).map_values(|field: Seq<char>| word_of(field))
            =~= fields.map_values(|field: Seq<char>| word_of(field)).push(word_of(field)));
    }
    prog
}

} // verus!
