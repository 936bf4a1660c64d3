//! Commands that sessions are sent, and what each must look like to be let through.
use crate::mgba::ipc_transport::{address, message_request};
use crate::mgba::protocol::{TERMINATION_MARKER, format_message, message, texts};
use crate::numbers::{
    decimal, digit_value, digits_value, lemma_decimal, lemma_digits_are_parsed,
};
use crate::text::{
    chars_between, chars_of, ends_with, has_end, has_start, split, split_at_each, starts_with,
    text_eq, views,
};
use vstd::prelude::*;

verus! {

/// Whether a text is one or more decimal digits.
pub open spec fn decimal_arg(s: Seq<char>) -> bool {
    s.len() > 0 && forall|i: int| 0 <= i < s.len() ==> digit_value(#[trigger] s[i], 10) is Some
}

/// Whether a text is one or more hexadecimal digits behind `0x`.
pub open spec fn hex_arg(s: Seq<char>) -> bool {
    &&& starts_with(s, "0x"@)
    &&& s.len() > 2
    &&& forall|i: int| 2 <= i < s.len() ==> digit_value(#[trigger] s[i], 16) is Some
}

/// Whether a text is a number, decimal or hexadecimal.
pub open spec fn numeric_arg(s: Seq<char>) -> bool {
    decimal_arg(s) || hex_arg(s)
}

/// Whether a text is the name of a button.
pub open spec fn button_name(s: Seq<char>) -> bool {
    s == "A"@ || s == "B"@ || s == "L"@ || s == "R"@ || s == "Start"@ || s == "Select"@ || s
        == "Up"@ || s == "Down"@ || s == "Left"@ || s == "Right"@
}

/// What is wrong with the fields of a command, if anything: first a missing argument, then one that
/// is malformed or too many.
pub open spec fn objection(fields: Seq<Seq<char>>) -> Option<&'static str> {
    let name = fields[0];
    let n = fields.len();
    if name == "core.read8"@ || name == "core.read16"@ {
        if n < 2 {
            Some("missing address")
        } else if n > 2 || !numeric_arg(fields[1]) {
            Some("invalid address")
        } else {
            None
        }
    } else if name == "core.readRange"@ {
        if n < 2 {
            Some("missing address")
        } else if n < 3 {
            Some("missing length")
        } else if n > 3 || !numeric_arg(fields[1]) || !decimal_arg(fields[2]) {
            Some("invalid range")
        } else {
            None
        }
    } else if name == "core.write8"@ || name == "core.write16"@ || name == "core.write32"@ {
        if n < 2 {
            Some("missing address")
        } else if n < 3 {
            Some("missing value")
        } else if n > 3 || !numeric_arg(fields[1]) || !numeric_arg(fields[2]) {
            Some("invalid write args")
        } else {
            None
        }
    } else if name == "core.saveStateSlot"@ || name == "core.loadStateSlot"@ {
        if n < 2 {
            Some("missing slot")
        } else if n > 2 || !decimal_arg(fields[1]) {
            Some("invalid slot")
        } else {
            None
        }
    } else if name == "core.reset"@ {
        if n > 1 {
            Some("reset takes no args")
        } else {
            None
        }
    } else if name == "core.currentFrame"@ {
        if n > 1 {
            Some("currentFrame takes no args")
        } else {
            None
        }
    } else if name == "mgba-http.button.tap"@ {
        if n < 2 {
            Some("missing button")
        } else if n > 2 || !button_name(fields[1]) {
            Some("invalid button")
        } else {
            None
        }
    } else if name == "mgba-http.button.hold"@ {
        if n < 2 {
            Some("missing button")
        } else if n < 3 {
            Some("missing duration")
        } else if n > 3 || !button_name(fields[1]) || !decimal_arg(fields[2]) {
            Some("invalid hold")
        } else {
            None
        }
    } else {
        Some("unsupported command")
    }
}

/// The fields of a command that ends with the marker.
pub open spec fn command_fields(command: Seq<char>) -> Seq<Seq<char>> {
    split(command.take(command.len() - TERMINATION_MARKER@.len()), ',')
}

/// What is wrong with a command, if anything.
pub open spec fn command_fault(command: Seq<char>) -> Option<&'static str> {
    if !ends_with(command, TERMINATION_MARKER@) {
        Some("invalid command terminator")
    } else {
        objection(command_fields(command))
    }
}

fn all_digits(chars: &[char], from: usize, hex: bool) -> (all: bool)
    requires
        from <= chars@.len(),
    ensures
        all == (forall|i: int|
            from <= i < chars@.len() ==> digit_value(
                #[trigger] chars@[i],
                if hex {
                    16
                } else {
                    10
                },
            ) is Some),
{
    let ghost base: int = if hex {
        16
    } else {
        10
    };
    let mut i: usize = from;
    while i < chars.len()
        invariant
            from <= i <= chars@.len(),
            base == if hex {
                16int
            } else {
                10
            },
            forall|j: int| from <= j < i ==> digit_value(#[trigger] chars@[j], base) is Some,
        decreases chars.len() - i,
    {
        let c = chars[i];
        let is_digit = ('0' <= c && c <= '9') || (hex && (('a' <= c && c <= 'f') || ('A' <= c && c
            <= 'F')));
        if !is_digit {
            assert(digit_value(chars@[i as int], base) is None);
            return false;
        }
        i += 1;
    }
    true
}

/// Whether a text is one or more decimal digits.
pub fn is_decimal_arg(value: &str) -> (res: bool)
    ensures
        res == decimal_arg(value@),
{
    let chars = chars_of(value);
    chars.len() > 0 && all_digits(&chars, 0, false)
}

/// Whether a text is a number, decimal or hexadecimal.
pub fn is_numeric_arg(value: &str) -> (res: bool)
    ensures
        res == numeric_arg(value@),
{
    let chars = chars_of(value);
    let prefix = chars_of("0x");
    is_decimal_arg(value) || (has_start(&chars, &prefix) && chars.len() > 2 && all_digits(
        &chars,
        2,
        true,
    ))
}

/// Whether a text is the name of a button.
pub fn is_valid_button(value: &str) -> (res: bool)
    ensures
        res == button_name(value@),
{
    text_eq(value, "A") || text_eq(value, "B") || text_eq(value, "L") || text_eq(value, "R")
        || text_eq(value, "Start") || text_eq(value, "Select") || text_eq(value, "Up") || text_eq(
        value,
        "Down",
    ) || text_eq(value, "Left") || text_eq(value, "Right")
}

fn fields_objection(fields: &Vec<String>) -> (res: Option<&'static str>)
    requires
        fields@.len() > 0,
    ensures
        match res {
            Some(why) => objection(views(fields@)) matches Some(w) && w@ == why@,
            None => objection(views(fields@)) is None,
        },
{
    let ghost seen = views(fields@);
    let name = fields[0].as_str();
    let n: usize = fields.len();
    assert(seen.len() == n);
    assert(seen[0] == name@);
    assert(n > 1 ==> seen[1] == fields@[1]@);
    assert(n > 2 ==> seen[2] == fields@[2]@);
    if text_eq(name, "core.read8") || text_eq(name, "core.read16") {
        if n < 2 {
            Some("missing address")
        } else if n > 2 || !is_numeric_arg(&fields[1]) {
            Some("invalid address")
        } else {
            None
        }
    } else if text_eq(name, "core.readRange") {
        if n < 2 {
            Some("missing address")
        } else if n < 3 {
            Some("missing length")
        } else if n > 3 || !is_numeric_arg(&fields[1]) || !is_decimal_arg(&fields[2]) {
            Some("invalid range")
        } else {
            None
        }
    } else if text_eq(name, "core.write8") || text_eq(name, "core.write16") || text_eq(
        name,
        "core.write32",
    ) {
        if n < 2 {
            Some("missing address")
        } else if n < 3 {
            Some("missing value")
        } else if n > 3 || !is_numeric_arg(&fields[1]) || !is_numeric_arg(&fields[2]) {
            Some("invalid write args")
        } else {
            None
        }
    } else if text_eq(name, "core.saveStateSlot") || text_eq(name, "core.loadStateSlot") {
        if n < 2 {
            Some("missing slot")
        } else if n > 2 || !is_decimal_arg(&fields[1]) {
            Some("invalid slot")
        } else {
            None
        }
    } else if text_eq(name, "core.reset") {
        if n > 1 {
            Some("reset takes no args")
        } else {
            None
        }
    } else if text_eq(name, "core.currentFrame") {
        if n > 1 {
            Some("currentFrame takes no args")
        } else {
            None
        }
    } else if text_eq(name, "mgba-http.button.tap") {
        if n < 2 {
            Some("missing button")
        } else if n > 2 || !is_valid_button(&fields[1]) {
            Some("invalid button")
        } else {
            None
        }
    } else if text_eq(name, "mgba-http.button.hold") {
        if n < 2 {
            Some("missing button")
        } else if n < 3 {
            Some("missing duration")
        } else if n > 3 || !is_valid_button(&fields[1]) || !is_decimal_arg(&fields[2]) {
            Some("invalid hold")
        } else {
            None
        }
    } else {
        Some("unsupported command")
    }
}

/// Lets a command through, or says what is wrong with it.
pub fn validate_command(command: String) -> (res: Result<String, &'static str>)
    ensures
        match command_fault(command@) {
            None => res == Ok::<String, &'static str>(command),
            Some(fault) => res matches Err(why) && why@ == fault@,
        },
{
    let chars = chars_of(&command);
    let marker = chars_of(TERMINATION_MARKER);
    if !has_end(&chars, &marker) {
        return Err("invalid command terminator");
    }
    let body = chars_between(&chars, 0, chars.len() - marker.len());
    assert(body@ =~= command@.take(command@.len() - TERMINATION_MARKER@.len()));
    let fields = split_at_each(&body, ',');
    match fields_objection(&fields) {
        Some(why) => Err(why),
        None => Ok(command),
    }
}

/// A command with its arguments.
pub fn read_command(command: &str, args: &[String]) -> (text: String)
    ensures
        text@ == message(command@, views(args@)),
{
    assert(texts(args@) =~= views(args@));
    format_message(command, args)
}

/// A command for a button, held for a number of frames where one is given.
pub fn button_command(command: &str, button: String, duration: Option<String>) -> (text: String)
    ensures
        text@ == match duration {
            Some(frames) => message(command@, seq![button@, frames@]),
            None => message(command@, seq![button@]),
        },
{
    let mut args: Vec<String> = Vec::new();
    args.push(button);
    match duration {
        Some(frames) => {
            args.push(frames);
            assert(texts(args@) =~= seq![button@, frames@]);
        },
        None => {
            assert(texts(args@) =~= seq![button@]);
        },
    }
    format_message(command, &args)
}

/// The number that an argument stands for.
pub open spec fn arg_value(s: Seq<char>) -> int {
    if decimal_arg(s) {
        digits_value(s, 10)
    } else {
        digits_value(s.skip(2), 16)
    }
}

/// The largest number that an argument of a command may be for a worker to take it.
pub open spec fn arg_limit(name: Seq<char>) -> int {
    if name == "core.saveStateSlot"@ || name == "core.loadStateSlot"@ {
        u8::MAX as int
    } else {
        u32::MAX as int
    }
}

/// An argument is the address that its number is.
pub proof fn lemma_address(s: Seq<char>)
    requires
        numeric_arg(s),
        arg_value(s) <= u32::MAX,
    ensures
        0 <= arg_value(s),
        address(s) == Some(arg_value(s) as u32),
{
    reveal_strlit("0x");
    if decimal_arg(s) {
        if s.len() >= 2 {
            assert(digit_value(s[1], 10) is Some);
        }
        lemma_digits_are_parsed(s, 10, u32::MAX as int);
    } else {
        let digits = s.skip(2);
        assert(s.take(2)[0] == s[0] && s.take(2)[1] == s[1]);
        assert forall|i: int| 0 <= i < digits.len() implies digit_value(
            #[trigger] digits[i],
            16,
        ) is Some by {
            assert(digits[i] == s[i + 2]);
        }
        lemma_digits_are_parsed(digits, 16, u32::MAX as int);
    }
}

/// A command that is let through is one that a worker understands, as long as its numbers are not
/// too large to be held.
pub proof fn law_valid_command_is_understood(command: Seq<char>)
    requires
        command_fault(command) is None,
        forall|i: int|
            1 <= i < command_fields(command).len() && numeric_arg(
                #[trigger] command_fields(command)[i],
            ) ==> arg_value(command_fields(command)[i]) <= arg_limit(command_fields(command)[0]),
    ensures
        message_request(command) is Some,
{
    let fields = command_fields(command);
    let name = fields[0];
    reveal_strlit("core.read8");
    reveal_strlit("core.read16");
    reveal_strlit("core.readRange");
    reveal_strlit("core.write8");
    reveal_strlit("core.write16");
    reveal_strlit("core.write32");
    reveal_strlit("core.currentFrame");
    reveal_strlit("core.screenshot");
    reveal_strlit("core.saveStateSlot");
    reveal_strlit("core.loadStateSlot");
    reveal_strlit("core.reset");
    reveal_strlit("restart");
    reveal_strlit("mgba-http.button.tap");
    reveal_strlit("mgba-http.button.hold");
    if fields.len() > 1 && numeric_arg(fields[1]) {
        if decimal_arg(fields[1]) {
            lemma_digits_are_parsed(fields[1], 10, arg_limit(name));
        }
        lemma_address(fields[1]);
    }
    if fields.len() > 2 && numeric_arg(fields[2]) {
        if decimal_arg(fields[2]) {
            lemma_digits_are_parsed(fields[2], 10, arg_limit(name));
        }
        lemma_address(fields[2]);
    }
}

/// An argument is a number where it is decimal digits, or hexadecimal digits behind `0x`.
pub proof fn law_numbers_in_arguments(s: Seq<char>)
    ensures
        decimal_arg(s) <==> s.len() > 0 && forall|i: int|
            0 <= i < s.len() ==> '0' <= #[trigger] s[i] && s[i] <= '9',
        hex_arg(s) <==> s.len() > 2 && s[0] == '0' && s[1] == 'x' && forall|i: int|
            2 <= i < s.len() ==> ('0' <= #[trigger] s[i] && s[i] <= '9') || ('a' <= s[i] && s[i]
                <= 'f') || ('A' <= s[i] && s[i] <= 'F'),
        numeric_arg(s) <==> decimal_arg(s) || hex_arg(s),
{
    reveal_strlit("0x");
    if decimal_arg(s) {
        assert forall|i: int| 0 <= i < s.len() implies '0' <= #[trigger] s[i] && s[i] <= '9' by {
            assert(digit_value(s[i], 10) is Some);
        }
    }
    if s.len() > 2 {
        assert(s.take(2)[0] == s[0] && s.take(2)[1] == s[1]);
        if s[0] == '0' && s[1] == 'x' {
            assert(s.take(2) =~= "0x"@);
        }
        if hex_arg(s) {
            assert forall|i: int| 2 <= i < s.len() implies ('0' <= #[trigger] s[i] && s[i] <= '9')
                || ('a' <= s[i] && s[i] <= 'f') || ('A' <= s[i] && s[i] <= 'F') by {
                assert(digit_value(s[i], 16) is Some);
            }
        }
    }
}

/// The value of a number in an argument is what it spells.
pub proof fn law_value_of_arguments(n: u32, digits: Seq<char>)
    ensures
        decimal_arg(decimal(n as int)),
        arg_value(decimal(n as int)) == n,
        arg_value(seq!['0', 'x'] + digits) == digits_value(digits, 16),
{
    lemma_decimal(n as int);
    let s = seq!['0', 'x'] + digits;
    assert(s.skip(2) =~= digits);
    assert(s[1] == 'x' && digit_value('x', 10) is None);
}

/// A command without the mark of its end is refused before anything else is looked at.
pub proof fn law_commands_are_marked(command: Seq<char>)
    ensures
        command_fault(command) == Some("invalid command terminator") <== !(command.len() >= 7
            && command.skip(command.len() - 7) == "<|END|>"@),
        command_fields(command + "<|END|>"@) == split(command, ','),
        command_fault(command + "<|END|>"@) == objection(split(command, ',')),
{
    reveal_strlit("<|END|>");
    let text = command + "<|END|>"@;
    assert(text.skip(text.len() - 7) =~= "<|END|>"@);
    assert(text.take(text.len() - 7) =~= command);
}

} // verus!
