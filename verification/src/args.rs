//! Validation of what the user asks for: how many requests, how many of them
//! at a time, and by which HTTP method.

use vstd::prelude::*;
use vstd::string::*;

verus! {

/// Whether `c` is one of the ten decimal digits.
pub open spec fn is_digit(c: char) -> bool {
    '0' <= c && c <= '9'
}

/// The number that `digits`, all of them decimal digits, write in base ten.
pub open spec fn decimal_value(digits: Seq<char>) -> nat
    decreases digits.len(),
{
    if digits.len() == 0 {
        0
    } else {
        10 * decimal_value(digits.drop_last()) + (digits.last() as u32 - '0' as u32) as nat
    }
}

/// `text` without the plus sign that may stand in front of a number.
pub open spec fn without_sign(text: Seq<char>) -> Seq<char> {
    if text.len() > 0 && text[0] == '+' {
        text.drop_first()
    } else {
        text
    }
}

/// The number that `text` writes, if it writes one that fits in a `usize`:
/// an optional plus sign, then one or more decimal digits and nothing else.
pub open spec fn written_number(text: Seq<char>) -> Option<usize> {
    let digits = without_sign(text);
    if digits.len() > 0 && (forall|i: int| 0 <= i < digits.len() ==> is_digit(#[trigger] digits[i]))
        && decimal_value(digits) <= usize::MAX {
        Some(decimal_value(digits) as usize)
    } else {
        None
    }
}

/// Parses `text` with `str::parse::<usize>` of the standard library. Its
/// documentation expects an optional `+` sign followed by only decimal
/// digits, at least one, and reports everything else, and a number too large
/// for the type, as an error.
#[verifier::external_body]
fn parse_usize(text: &str) -> (number: Option<usize>)
    ensures
        number == written_number(text@),
{
    text.parse::<usize>().ok()
}

/// What is said of a count that is no number.
pub open spec fn not_a_number_message(text: Seq<char>) -> Seq<char> {
    "'"@ + text + "' is not a valid positive number"@
}

/// What is said of a request count of zero.
pub open spec fn zero_requests_message() -> Seq<char> {
    "number of requests must be greater than 0"@
}

/// What is said of a concurrency limit of zero.
pub open spec fn zero_concurrent_requests_message() -> Seq<char> {
    "number of concurrent requests must be greater than 0"@
}

/// The verdict on `text` as a count that must not be zero: accepted, or
/// refused with `zero_message` for zero and with the text itself where it
/// writes no number.
pub open spec fn is_verdict_on_count(
    checked: Result<(), String>,
    text: Seq<char>,
    zero_message: Seq<char>,
) -> bool {
    match written_number(text) {
        Some(count) => if count != 0 {
            checked is Ok
        } else {
            checked matches Err(message) && message@ == zero_message
        },
        None => checked matches Err(message) && message@ == not_a_number_message(text),
    }
}

fn check_count(text: &str, zero_message: &str) -> (checked: Result<(), String>)
    ensures
        is_verdict_on_count(checked, text@, zero_message@),
{
    match parse_usize(text) {
        Some(count) => {
            if count != 0 {
                Ok(())
            } else {
                Err(String::from_str(zero_message))
            }
        },
        None => {
            let message = String::from_str("'").concat(text).concat(
                "' is not a valid positive number",
            );
            Err(message)
        },
    }
}

/// Checks that `n` writes a number of requests that can be made: a number,
/// and not zero.
pub fn parse_number_of_requests(n: String) -> (checked: Result<(), String>)
    ensures
        is_verdict_on_count(checked, n@, zero_requests_message()),
{
    check_count(n.as_str(), "number of requests must be greater than 0")
}

/// Checks that `n` writes a number of requests that can be in flight at a
/// time: a number, and not zero.
pub fn parse_number_of_concurrent_requests(n: String) -> (checked: Result<(), String>)
    ensures
        is_verdict_on_count(checked, n@, zero_concurrent_requests_message()),
{
    check_count(n.as_str(), "number of concurrent requests must be greater than 0")
}

/// Whether `c` may stand in the name of an HTTP method, as the `http` crate
/// has it: a letter, a digit, or one of ``! * + - . ^ _ ` | ~``.
pub open spec fn is_method_char(c: char) -> bool {
    ||| ('a' <= c && c <= 'z')
    ||| ('A' <= c && c <= 'Z')
    ||| ('0' <= c && c <= '9')
    ||| c == '!'
    ||| c == '*'
    ||| c == '+'
    ||| c == '-'
    ||| c == '.'
    ||| c == '^'
    ||| c == '_'
    ||| c == '`'
    ||| c == '|'
    ||| c == '~'
}

/// Whether `name` can be the name of an HTTP method: at least one character,
/// and only characters that may stand in one.
pub open spec fn is_method_name(name: Seq<char>) -> bool {
    name.len() > 0 && forall|i: int| 0 <= i < name.len() ==> is_method_char(#[trigger] name[i])
}

/// Asks `http::Method::from_bytes` whether it accepts `name`. It refuses the
/// empty name and every name with a byte outside its table of method
/// characters, and accepts all others, the nine standard methods among them.
#[verifier::external_body]
fn http_accepts_method(name: &str) -> (accepted: bool)
    ensures
        accepted == is_method_name(name@),
{
    http::Method::from_bytes(name.as_bytes()).is_ok()
}

/// An HTTP method, standard or not. Every value of this type holds a name
/// that `http::Method` accepts.
#[derive(Debug)]
pub struct Method {
    name: String,
}

impl View for Method {
    type V = Seq<char>;

    /// The name of the method.
    closed spec fn view(&self) -> Seq<char> {
        self.name@
    }
}

impl Method {
    #[verifier::type_invariant]
    spec fn named(self) -> bool {
        is_method_name(self.name@)
    }

    /// The name of the method, as it goes on the wire.
    pub fn as_str(&self) -> (name: &str)
        ensures
            name@ == self@,
            is_method_name(name@),
    {
        proof {
            use_type_invariant(self);
        }
        self.name.as_str()
    }
}

/// What is said of a method name that is none.
pub open spec fn unrecognized_method_message(text: Seq<char>) -> Seq<char> {
    "unrecognized method: "@ + text
}

/// Reads `str` as the name of an HTTP method.
pub fn parse_method(str: &str) -> (parsed: Result<Method, String>)
    ensures
        match parsed {
            Ok(method) => is_method_name(str@) && method@ == str@,
            Err(message) => !is_method_name(str@) && message@ == unrecognized_method_message(str@),
        },
{
    if http_accepts_method(str) {
        Ok(Method { name: String::from_str(str) })
    } else {
        Err(String::from_str("unrecognized method: ").concat(str))
    }
}

} // verus!
