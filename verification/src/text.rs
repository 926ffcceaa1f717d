//! Text as the configuration and the messages need it.
use vstd::prelude::*;
use vstd::string::*;

verus! {

/// The characters of a text.
pub fn chars_of(text: &str) -> (result: Vec<char>)
    ensures
        result@ == text@,
{
    let mut result: Vec<char> = Vec::new();
    for c in it: text.chars()
        invariant
            it.seq() == text@,
            result@ == text@.take(it.index() as int),
    {
        assert(text@.take(it.index() as int + 1) =~= text@.take(it.index() as int).push(c));
        result.push(c);
    }
    assert(text@.take(text@.len() as int) =~= text@);
    result
}

/// Whether two texts are the same.
pub fn same_text(left: &str, right: &str) -> (result: bool)
    ensures
        result == (left@ == right@),
{
    let a = chars_of(left);
    let b = chars_of(right);
    if a.len() != b.len() {
        return false;
    }
    let mut i: usize = 0;
    while i < a.len()
        invariant
            i <= a@.len(),
            a@.len() == b@.len(),
            a@ == left@,
            b@ == right@,
            forall|j: int| 0 <= j < i ==> #[trigger] a@[j] == b@[j],
        decreases a@.len() - i,
    {
        if a[i] != b[i] {
            return false;
        }
        i = i + 1;
    }
    assert(left@ =~= right@);
    true
}

/// The character has Unicode's `White_Space` property.
pub open spec fn is_white(c: char) -> bool {
    let n = c as u32;
    ||| 0x9 <= n <= 0xd
    ||| n == 0x20
    ||| n == 0x85
    ||| n == 0xa0
    ||| n == 0x1680
    ||| 0x2000 <= n <= 0x200a
    ||| n == 0x2028
    ||| n == 0x2029
    ||| n == 0x202f
    ||| n == 0x205f
    ||| n == 0x3000
}

fn white(c: char) -> (result: bool)
    ensures
        result == is_white(c),
{
    let n: u32 = c as u32;
    (0x9 <= n && n <= 0xd) || n == 0x20 || n == 0x85 || n == 0xa0 || n == 0x1680 || (0x2000 <= n
        && n <= 0x200a) || n == 0x2028 || n == 0x2029 || n == 0x202f || n == 0x205f || n == 0x3000
}

/// Leading white space removed.
pub open spec fn trimmed_start(text: Seq<char>) -> Seq<char>
    decreases text.len(),
{
    if text.len() > 0 && is_white(text[0]) {
        trimmed_start(text.skip(1))
    } else {
        text
    }
}

/// Trailing white space removed.
pub open spec fn trimmed_end(text: Seq<char>) -> Seq<char>
    decreases text.len(),
{
    if text.len() > 0 && is_white(text.last()) {
        trimmed_end(text.drop_last())
    } else {
        text
    }
}

/// White space removed at both ends.
pub open spec fn trimmed(text: Seq<char>) -> Seq<char> {
    trimmed_end(trimmed_start(text))
}

/// The part of `text` between two positions, without white space at its ends.
pub fn trim_range(text: &[char], from: usize, to: usize) -> (result: (usize, usize))
    requires
        from <= to <= text@.len(),
    ensures
        from <= result.0 <= result.1 <= to,
        text@.subrange(result.0 as int, result.1 as int) == trimmed(
            text@.subrange(from as int, to as int),
        ),
{
    let mut start: usize = from;
    while start < to && white(text[start])
        invariant
            from <= start <= to <= text@.len(),
            trimmed_start(text@.subrange(from as int, to as int)) == trimmed_start(
                text@.subrange(start as int, to as int),
            ),
        decreases to - start,
    {
        assert(text@.subrange(start as int, to as int).skip(1) =~= text@.subrange(
            start + 1,
            to as int,
        ));
        start = start + 1;
    }
    assert(trimmed_start(text@.subrange(from as int, to as int)) == text@.subrange(
        start as int,
        to as int,
    ));
    let mut end: usize = to;
    while start < end && white(text[end - 1])
        invariant
            from <= start <= end <= to <= text@.len(),
            trimmed_end(text@.subrange(start as int, to as int)) == trimmed_end(
                text@.subrange(start as int, end as int),
            ),
        decreases end - start,
    {
        assert(text@.subrange(start as int, end as int).drop_last() =~= text@.subrange(
            start as int,
            end - 1,
        ));
        end = end - 1;
    }
    (start, end)
}

/// The text without white space at its ends.
pub fn trim(text: &str) -> (result: &str)
    ensures
        result@ == trimmed(text@),
{
    let chars = chars_of(text);
    let (from, to) = trim_range(chars.as_slice(), 0, chars.len());
    assert(chars@.subrange(0, chars@.len() as int) =~= text@);
    text.substring_char(from, to)
}

/// The character is a decimal digit.
pub open spec fn is_digit(c: char) -> bool {
    '0' <= c <= '9'
}

/// The number that a row of digits denotes.
pub open spec fn digits_value(digits: Seq<char>) -> int
    decreases digits.len(),
{
    if digits.len() == 0 {
        0
    } else {
        digits_value(digits.drop_last()) * 10 + (digits.last() as int - '0' as int)
    }
}

/// The characters are all digits.
pub open spec fn all_digits(text: Seq<char>) -> bool {
    forall|i: int| 0 <= i < text.len() ==> is_digit(#[trigger] text[i])
}

/// The digits of a number literal, without its plus sign.
pub open spec fn unsigned_part(text: Seq<char>) -> Seq<char> {
    if text.len() > 1 && text[0] == '+' {
        text.skip(1)
    } else {
        text
    }
}

/// The unsigned number that a text denotes: digits, with an optional plus sign before them.
pub open spec fn parsed(text: Seq<char>) -> Option<int> {
    let digits = unsigned_part(text);
    if digits.len() > 0 && all_digits(digits) {
        Some(digits_value(digits))
    } else {
        None
    }
}

/// The unsigned number that a text denotes, if it is at most `limit`.
pub open spec fn parsed_upto(text: Seq<char>, limit: int) -> Option<int> {
    match parsed(text) {
        Some(value) => if value <= limit {
            Some(value)
        } else {
            None
        },
        None => None,
    }
}

/// The unsigned number that the characters between two positions denote, if it fits.
pub fn parse_range(text: &[char], from: usize, to: usize) -> (result: Option<u64>)
    requires
        from <= to <= text@.len(),
    ensures
        match result {
            Some(value) => parsed_upto(text@.subrange(from as int, to as int), u64::MAX as int)
                == Some(value as int),
            None => parsed_upto(text@.subrange(from as int, to as int), u64::MAX as int) is None,
        },
{
    let ghost whole = text@.subrange(from as int, to as int);
    let mut i: usize = from;
    if from < to && to - from > 1 && text[from] == '+' {
        i = from + 1;
    }
    let start: usize = i;
    let ghost digits = text@.subrange(start as int, to as int);
    assert(digits =~= unsigned_part(whole)) by {
        if start > from {
            assert(whole.skip(1) =~= digits);
        }
    }
    if start == to {
        return None;
    }
    let mut value: u64 = 0;
    let mut over: bool = false;
    while i < to
        invariant
            start <= i <= to <= text@.len(),
            digits == text@.subrange(start as int, to as int),
            digits == unsigned_part(whole),
            whole == text@.subrange(from as int, to as int),
            forall|j: int| 0 <= j < i - start ==> is_digit(#[trigger] digits[j]),
            !over ==> value == digits_value(digits.take(i - start)),
            over ==> digits_value(digits.take(i - start)) > u64::MAX,
        decreases to - i,
    {
        let c: char = text[i];
        assert(digits[i - start] == c);
        let ghost head = digits.take(i - start);
        let ghost next = digits.take(i + 1 - start);
        assert(next.drop_last() =~= head);
        if !('0' <= c && c <= '9') {
            assert(!is_digit(digits[i - start]));
            return None;
        }
        let digit: u64 = (c as u32 - '0' as u32) as u64;
        if !over {
            match value.checked_mul(10) {
                Some(tens) => match tens.checked_add(digit) {
                    Some(sum) => {
                        value = sum;
                    },
                    None => {
                        over = true;
                    },
                },
                None => {
                    over = true;
                },
            }
        }
        i = i + 1;
    }
    assert(digits.take(i - start) =~= digits);
    if over {
        None
    } else {
        Some(value)
    }
}

/// The unsigned number that a text denotes, if it fits.
pub fn parse_u64(text: &str) -> (result: Option<u64>)
    ensures
        match result {
            Some(value) => parsed_upto(text@, u64::MAX as int) == Some(value as int),
            None => parsed_upto(text@, u64::MAX as int) is None,
        },
{
    let chars = chars_of(text);
    assert(chars@.subrange(0, chars@.len() as int) =~= text@);
    parse_range(chars.as_slice(), 0, chars.len())
}

/// The unsigned number that a text denotes, if it fits.
pub fn parse_usize(text: &str) -> (result: Option<usize>)
    ensures
        match result {
            Some(value) => parsed_upto(text@, usize::MAX as int) == Some(value as int),
            None => parsed_upto(text@, usize::MAX as int) is None,
        },
{
    match parse_u64(text) {
        Some(value) => if value <= usize::MAX as u64 {
            Some(value as usize)
        } else {
            None
        },
        None => None,
    }
}

/// The decimal digits of a number.
pub open spec fn decimal(value: nat) -> Seq<char>
    decreases value,
{
    if value < 10 {
        seq![digit_char(value as int)]
    } else {
        decimal(value / 10).push(digit_char((value % 10) as int))
    }
}

pub open spec fn digit_char(digit: int) -> char {
    (digit + 48) as u8 as char
}

/// One digit as text.
fn digit_text(digit: u64) -> (result: &'static str)
    requires
        digit < 10,
    ensures
        result@ == seq![digit_char(digit as int)],
{
    proof {
        reveal_strlit("0");
        reveal_strlit("1");
        reveal_strlit("2");
        reveal_strlit("3");
        reveal_strlit("4");
        reveal_strlit("5");
        reveal_strlit("6");
        reveal_strlit("7");
        reveal_strlit("8");
        reveal_strlit("9");
    }
    let text: &'static str = match digit {
        0 => "0",
        1 => "1",
        2 => "2",
        3 => "3",
        4 => "4",
        5 => "5",
        6 => "6",
        7 => "7",
        8 => "8",
        _ => "9",
    };
    assert(text@ =~= seq![digit_char(digit as int)]);
    text
}

/// Appends a number in decimal.
pub fn push_decimal(out: &mut String, value: u64)
    ensures
        final(out)@ == old(out)@ + decimal(value as nat),
    decreases value,
{
    if value < 10 {
        out.append(digit_text(value));
    } else {
        push_decimal(out, value / 10);
        out.append(digit_text(value % 10));
        assert(out@ =~= old(out)@ + decimal(value as nat));
    }
}

/// Reading back what [`push_decimal`] writes gives the number.
pub proof fn law_decimal_reads_back(value: nat)
    ensures
        parsed(decimal(value)) == Some(value as int),
        all_digits(decimal(value)),
        digits_value(decimal(value)) == value,
        decimal(value).len() > 0,
    decreases value,
{
    if value < 10 {
        let one = decimal(value);
        assert(one.drop_last() =~= Seq::empty());
        assert(digits_value(one.drop_last()) == 0);
        assert(one.last() as int == value + 48);
    } else {
        law_decimal_reads_back(value / 10);
        let text = decimal(value);
        let head = decimal(value / 10);
        assert(text.drop_last() =~= head);
        assert(text.last() == digit_char((value % 10) as int));
        assert forall|i: int| 0 <= i < text.len() implies is_digit(#[trigger] text[i]) by {
            if i < head.len() {
                assert(is_digit(head[i]));
            }
        }
        assert(value == (value / 10) * 10 + value % 10);
    }
    assert(is_digit(decimal(value)[0]));
    assert(unsigned_part(decimal(value)) == decimal(value));
}

/// A text in lower case.
pub uninterp spec fn lowercased(text: Seq<char>) -> Seq<char>;

/// `str::to_lowercase` maps a text to lower case, as Unicode defines it. Which characters become
/// which is left unsaid.
#[verifier::external_body]
pub(crate) fn to_lowercase(text: &str) -> (result: String)
    ensures
        result@ == lowercased(text@),
{
    text.to_lowercase()
}

/// The character is an upper-case letter of ASCII.
pub open spec fn is_upper(c: char) -> bool {
    'A' <= c <= 'Z'
}

/// The characters are the same, or the same letter of ASCII in upper and lower case.
pub open spec fn same_letter(a: char, b: char) -> bool {
    ||| a == b
    ||| is_upper(a) && a as int + 32 == b as int
    ||| is_upper(b) && b as int + 32 == a as int
}

fn is_same_letter(a: char, b: char) -> (result: bool)
    ensures
        result == same_letter(a, b),
{
    let x: u32 = a as u32;
    let y: u32 = b as u32;
    x == y || (0x41 <= x && x <= 0x5a && x + 32 == y) || (0x41 <= y && y <= 0x5a && y + 32 == x)
}

/// The texts are the same but for the case of letters of ASCII.
pub open spec fn same_but_case(left: Seq<char>, right: Seq<char>) -> bool {
    &&& left.len() == right.len()
    &&& forall|i: int| 0 <= i < left.len() ==> same_letter(#[trigger] left[i], right[i])
}

/// Whether two texts are the same but for the case of letters of ASCII.
pub fn eq_ignore_case(left: &str, right: &str) -> (result: bool)
    ensures
        result == same_but_case(left@, right@),
{
    let a = chars_of(left);
    let b = chars_of(right);
    if a.len() != b.len() {
        return false;
    }
    let mut i: usize = 0;
    while i < a.len()
        invariant
            i <= a@.len(),
            a@.len() == b@.len(),
            a@ == left@,
            b@ == right@,
            forall|j: int| 0 <= j < i ==> same_letter(#[trigger] a@[j], b@[j]),
        decreases a@.len() - i,
    {
        if !is_same_letter(a[i], b[i]) {
            assert(!same_letter(left@[i as int], right@[i as int]));
            return false;
        }
        i = i + 1;
    }
    true
}

/// The pattern stands at place `at` of the text.
pub open spec fn occurs_at(text: Seq<char>, pattern: Seq<char>, at: int) -> bool {
    &&& 0 <= at
    &&& at + pattern.len() <= text.len()
    &&& text.subrange(at, at + pattern.len()) == pattern
}

/// The pattern stands somewhere in the text.
pub open spec fn occurs(text: Seq<char>, pattern: Seq<char>) -> bool {
    exists|at: int| #[trigger] occurs_at(text, pattern, at)
}

/// Whether the pattern stands somewhere in the text.
pub fn contains(text: &str, pattern: &str) -> (result: bool)
    ensures
        result == occurs(text@, pattern@),
{
    let a = chars_of(text);
    let b = chars_of(pattern);
    let width: usize = a.len();
    let mut at: usize = 0;
    while width - at >= b.len()
        invariant
            at <= width,
            width == a@.len(),
            a@ == text@,
            b@ == pattern@,
            forall|k: int| 0 <= k < at ==> !#[trigger] occurs_at(text@, pattern@, k),
        decreases a@.len() - at,
    {
        let mut same: usize = 0;
        while same < b.len() && a[at + same] == b[same]
            invariant
                same <= b@.len(),
                at + b@.len() <= width,
                width == a@.len(),
                a@ == text@,
                b@ == pattern@,
                forall|j: int| 0 <= j < same ==> a@[at + j] == #[trigger] b@[j],
            decreases b@.len() - same,
        {
            same = same + 1;
        }
        if same == b.len() {
            assert(text@.subrange(at as int, at + pattern@.len()) =~= pattern@);
            assert(occurs_at(text@, pattern@, at as int));
            return true;
        }
        proof {
            if occurs_at(text@, pattern@, at as int) {
                let part = text@.subrange(at as int, at + pattern@.len());
                assert(part[same as int] == text@[at + same]);
                assert(false);
            }
        }
        at = at + 1;
    }
    false
}

/// Every character is white space.
pub open spec fn all_white(text: Seq<char>) -> bool {
    forall|i: int| 0 <= i < text.len() ==> is_white(#[trigger] text[i])
}

proof fn lemma_trimmed_start(text: Seq<char>) -> (white: Seq<char>)
    ensures
        text == white + trimmed_start(text),
        all_white(white),
        trimmed_start(text).len() > 0 ==> !is_white(trimmed_start(text)[0]),
    decreases text.len(),
{
    if text.len() > 0 && is_white(text[0]) {
        let rest = lemma_trimmed_start(text.skip(1));
        let white = seq![text[0]] + rest;
        assert(text =~= white + trimmed_start(text)) by {
            assert(text =~= seq![text[0]] + text.skip(1));
        }
        assert forall|i: int| 0 <= i < white.len() implies is_white(#[trigger] white[i]) by {
            if i > 0 {
                assert(white[i] == rest[i - 1]);
            }
        }
        white
    } else {
        assert(text =~= Seq::empty() + text);
        Seq::empty()
    }
}

proof fn lemma_trimmed_end(text: Seq<char>) -> (white: Seq<char>)
    ensures
        text == trimmed_end(text) + white,
        all_white(white),
        trimmed_end(text).len() > 0 ==> !is_white(trimmed_end(text).last()),
    decreases text.len(),
{
    if text.len() > 0 && is_white(text.last()) {
        let rest = lemma_trimmed_end(text.drop_last());
        let white = rest.push(text.last());
        assert(text =~= trimmed_end(text) + white) by {
            assert(text =~= text.drop_last().push(text.last()));
        }
        assert forall|i: int| 0 <= i < white.len() implies is_white(#[trigger] white[i]) by {
            if i < rest.len() {
                assert(white[i] == rest[i]);
            }
        }
        white
    } else {
        assert(text =~= text + Seq::empty());
        Seq::empty()
    }
}

/// Trimming takes away white space at both ends, all of it and nothing else.
pub proof fn law_trim_takes_white_space(text: Seq<char>)
    ensures
        exists|before: Seq<char>, after: Seq<char>|
            #![trigger all_white(before), all_white(after)]
            all_white(before) && all_white(after) && text == before + trimmed(text) + after,
        trimmed(text).len() > 0 ==> !is_white(trimmed(text)[0]) && !is_white(trimmed(text).last()),
{
    let before = lemma_trimmed_start(text);
    let middle = trimmed_start(text);
    let after = lemma_trimmed_end(middle);
    assert(text =~= before + trimmed(text) + after);
    assert(all_white(before) && all_white(after));
    if trimmed(text).len() > 0 {
        assert(middle[0] == trimmed(text)[0]);
    }
}

/// A text holds whatever it is put together from, and what it holds it can be put together from.
pub proof fn law_occurrence_is_a_part(text: Seq<char>, pattern: Seq<char>)
    ensures
        forall|before: Seq<char>, after: Seq<char>|
            text == #[trigger] (before + pattern + after) ==> occurs(text, pattern),
        occurs(text, pattern) ==> exists|before: Seq<char>, after: Seq<char>|
            text == #[trigger] (before + pattern + after),
{
    assert forall|before: Seq<char>, after: Seq<char>|
        text == #[trigger] (before + pattern + after) implies occurs(text, pattern) by {
        let at = before.len() as int;
        assert(text.subrange(at, at + pattern.len()) =~= pattern);
        assert(occurs_at(text, pattern, at));
    }
    if occurs(text, pattern) {
        let at = choose|at: int| #[trigger] occurs_at(text, pattern, at);
        let before = text.take(at);
        let after = text.skip(at + pattern.len());
        assert(text =~= before + pattern + after);
    }
}

} // verus!
