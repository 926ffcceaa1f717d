//! Meaning of the engine's environment settings.
//!
//! Each function takes the raw value of a variable, `None` where it is not set.
use crate::text;
use vstd::prelude::*;

verus! {

/// A text that switches a flag on.
pub open spec fn says_yes(value: Seq<char>) -> bool {
    ||| value == "1"@
    ||| value == "true"@
    ||| value == "TRUE"@
    ||| value == "yes"@
    ||| value == "YES"@
    ||| value == "on"@
    ||| value == "ON"@
}

/// A text that switches a flag off.
pub open spec fn says_no(value: Seq<char>) -> bool {
    ||| value == "0"@
    ||| value == "false"@
    ||| value == "FALSE"@
    ||| value == "no"@
    ||| value == "NO"@
    ||| value == "off"@
    ||| value == "OFF"@
}

fn yes(value: &str) -> (result: bool)
    ensures
        result == says_yes(value@),
{
    text::same_text(value, "1") || text::same_text(value, "true") || text::same_text(value, "TRUE")
        || text::same_text(value, "yes") || text::same_text(value, "YES") || text::same_text(
        value,
        "on",
    ) || text::same_text(value, "ON")
}

fn no(value: &str) -> (result: bool)
    ensures
        result == says_no(value@),
{
    text::same_text(value, "0") || text::same_text(value, "false") || text::same_text(
        value,
        "FALSE",
    ) || text::same_text(value, "no") || text::same_text(value, "NO") || text::same_text(
        value,
        "off",
    ) || text::same_text(value, "OFF")
}

/// No text switches a flag on and off.
pub proof fn law_yes_is_not_no(value: Seq<char>)
    ensures
        !(says_yes(value) && says_no(value)),
{
    reveal_strlit("1");
    reveal_strlit("true");
    reveal_strlit("TRUE");
    reveal_strlit("yes");
    reveal_strlit("YES");
    reveal_strlit("on");
    reveal_strlit("ON");
    reveal_strlit("0");
    reveal_strlit("false");
    reveal_strlit("FALSE");
    reveal_strlit("no");
    reveal_strlit("NO");
    reveal_strlit("off");
    reveal_strlit("OFF");
    if says_yes(value) && says_no(value) {
        assert(value.len() > 0);
        let first = value[0];
        assert(first == '1' || first == 't' || first == 'T' || first == 'y' || first == 'Y'
            || first == 'o' || first == 'O');
        assert(first == '0' || first == 'f' || first == 'F' || first == 'n' || first == 'N'
            || first == 'o' || first == 'O');
        assert(value[1] == 'n' || value[1] == 'N');
        assert(value[1] == 'f' || value[1] == 'F');
    }
}

/// What a flag is set to: on or off where the text says so, else the default.
pub open spec fn flag(value: Option<Seq<char>>, default: bool) -> bool {
    match value {
        Some(text) => if says_yes(text) {
            true
        } else if says_no(text) {
            false
        } else {
            default
        },
        None => default,
    }
}

/// The text of a variable.
pub open spec fn text_of(value: Option<&str>) -> Option<Seq<char>> {
    match value {
        Some(text) => Some(text@),
        None => None,
    }
}

/// A flag that is off unless switched on.
pub fn env_flag(value: Option<&str>) -> (result: bool)
    ensures
        result == flag(text_of(value), false),
{
    env_flag_default(value, false)
}

/// A flag with a default.
pub fn env_flag_default(value: Option<&str>, default: bool) -> (result: bool)
    ensures
        result == flag(text_of(value), default),
{
    match value {
        Some(raw) => {
            if yes(raw) {
                true
            } else if no(raw) {
                false
            } else {
                default
            }
        },
        None => default,
    }
}

/// The text sets a flag at all.
pub open spec fn is_explicit(value: Option<Seq<char>>) -> bool {
    match value {
        Some(text) => says_yes(text) || says_no(text),
        None => false,
    }
}

/// Whether the variable sets the flag at all.
pub fn env_flag_is_explicit(value: Option<&str>) -> (result: bool)
    ensures
        result == is_explicit(text_of(value)),
{
    match value {
        Some(raw) => yes(raw) || no(raw),
        None => false,
    }
}

/// A positive number, or the default.
pub open spec fn positive(value: Option<Seq<char>>, default: int) -> int {
    match value {
        Some(text) => match text::parsed_upto(text, usize::MAX as int) {
            Some(number) => if number > 0 {
                number
            } else {
                default
            },
            None => default,
        },
        None => default,
    }
}

/// A positive number; the default where the variable holds none.
pub fn env_usize(value: Option<&str>, default: usize) -> (result: usize)
    ensures
        result == positive(text_of(value), default as int),
{
    match value {
        Some(raw) => match text::parse_usize(raw) {
            Some(number) => {
                if number > 0 {
                    number
                } else {
                    default
                }
            },
            None => default,
        },
        None => default,
    }
}

/// Seconds that a variable gives; `None` for zero. The default stands in where the variable is
/// not set, blank or no number.
pub open spec fn seconds(value: Option<Seq<char>>, default: int) -> Option<int> {
    let fallback = if default > 0 {
        Some(default)
    } else {
        None
    };
    match value {
        Some(text) => match text::parsed_upto(text::trimmed(text), u64::MAX as int) {
            Some(number) => if number > 0 {
                Some(number)
            } else {
                None
            },
            None => fallback,
        },
        None => fallback,
    }
}

/// A duration in seconds, or none.
pub fn env_duration_secs(value: Option<&str>, default_secs: u64) -> (result: Option<u64>)
    ensures
        match result {
            Some(number) => seconds(text_of(value), default_secs as int) == Some(number as int),
            None => seconds(text_of(value), default_secs as int) is None,
        },
{
    let fallback: Option<u64> = if default_secs > 0 {
        Some(default_secs)
    } else {
        None
    };
    match value {
        Some(raw) => match text::parse_u64(text::trim(raw)) {
            Some(number) => {
                if number > 0 {
                    Some(number)
                } else {
                    None
                }
            },
            None => fallback,
        },
        None => fallback,
    }
}

/// An unsigned number up to `limit` with white space around it; 0 where there is none.
pub open spec fn count(value: Option<Seq<char>>, limit: int) -> int {
    match value {
        Some(text) => match text::parsed_upto(text::trimmed(text), limit) {
            Some(number) => number,
            None => 0,
        },
        None => 0,
    }
}

/// A 32-bit count; 0 where the variable holds none.
pub fn env_count(value: Option<&str>) -> (result: u32)
    ensures
        result == count(text_of(value), u32::MAX as int),
{
    match value {
        Some(raw) => match text::parse_u64(text::trim(raw)) {
            Some(number) => {
                if number <= 0xffff_ffff {
                    number as u32
                } else {
                    0
                }
            },
            None => 0,
        },
        None => 0,
    }
}

/// A text that says yes or no settles a flag, whatever its default is; without such a text the
/// default does.
pub proof fn law_text_settles_a_flag(value: Option<Seq<char>>, default: bool)
    ensures
        value matches Some(text) && says_yes(text) ==> flag(value, default),
        value matches Some(text) && says_no(text) ==> !flag(value, default),
        value is None ==> flag(value, default) == default,
        is_explicit(value) <==> flag(value, true) == flag(value, false),
        !is_explicit(value) ==> flag(value, default) == default,
{
    if let Some(text) = value {
        law_yes_is_not_no(text);
    }
}

/// A number that is written out is read as that number; zero stands for the default, for no
/// duration or for itself, and so does what is too large.
pub proof fn law_written_numbers_are_read(number: nat, default: int, limit: int)
    ensures
        positive(Some(text::decimal(number)), default) == if 0 < number <= usize::MAX {
            number as int
        } else {
            default
        },
        0 < number <= u64::MAX ==> seconds(Some(text::decimal(number)), default) == Some(
            number as int,
        ),
        number == 0 ==> seconds(Some(text::decimal(number)), default) is None,
        number <= limit ==> count(Some(text::decimal(number)), limit) == number,
        number > limit ==> count(Some(text::decimal(number)), limit) == 0,
        positive(None, default) == default,
        default > 0 ==> seconds(None, default) == Some(default),
        count(None, limit) == 0,
{
    let digits = text::decimal(number);
    text::law_decimal_reads_back(number);
    assert(text::is_digit(digits[0]));
    assert(text::is_digit(digits[digits.len() - 1]));
    assert(text::trimmed_start(digits) == digits);
    assert(text::trimmed_end(digits) == digits);
}

} // verus!
