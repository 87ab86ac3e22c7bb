//! A display hint for a stored value, inferred from its bytes each time the
//! value is read.

use crate::text::{chars_of, utf8_text};
use vstd::prelude::*;
use vstd::utf8::{decode_utf8, valid_utf8};

verus! {

/// What a value looks like. A hint for display only: the store never holds it.
#[derive(Debug, Clone, Copy, PartialEq, Eq, Structural)]
pub enum ValueType {
    String,
    Number,
    Boolean,
    Json,
    Binary,
}

/// `c` is white space as `char::is_whitespace` has it: a character with the
/// Unicode property `White_Space`.
pub open spec fn is_whitespace(c: char) -> bool {
    let u = c as u32;
    ||| 0x09 <= u <= 0x0D
    ||| u == 0x20
    ||| u == 0x85
    ||| u == 0xA0
    ||| u == 0x1680
    ||| 0x2000 <= u <= 0x200A
    ||| u == 0x2028
    ||| u == 0x2029
    ||| u == 0x202F
    ||| u == 0x205F
    ||| u == 0x3000
}

/// `c` is one of the ten ASCII digits.
pub open spec fn is_digit(c: char) -> bool {
    '0' <= c <= '9'
}

/// `c` is a plus or a minus sign.
pub open spec fn is_sign(c: char) -> bool {
    c == '+' || c == '-'
}

/// `c` with an ASCII capital letter turned into its small letter.
pub open spec fn ascii_lower(c: char) -> char {
    if 'A' <= c <= 'Z' {
        ((c as u32) + 32) as char
    } else {
        c
    }
}

/// The index of the first character of `text` at or after `from` that is no
/// white space, or the length of `text` if there is none.
pub open spec fn skip_whitespace(text: Seq<char>, from: int) -> int
    decreases text.len() - from,
{
    if 0 <= from < text.len() && is_whitespace(text[from]) {
        skip_whitespace(text, from + 1)
    } else {
        from
    }
}

/// The index at which the run of digits that starts at `from` ends.
pub open spec fn digits_end(text: Seq<char>, from: int) -> int
    decreases text.len() - from,
{
    if 0 <= from < text.len() && is_digit(text[from]) {
        digits_end(text, from + 1)
    } else {
        from
    }
}

/// After its leading white space the text starts with `{` or `[`.
pub open spec fn looks_like_json(text: Seq<char>) -> bool {
    let at = skip_whitespace(text, 0);
    at < text.len() && (text[at] == '{' || text[at] == '[')
}

/// The text is `true` or `false`.
pub open spec fn is_boolean_text(text: Seq<char>) -> bool {
    text == seq!['t', 'r', 'u', 'e'] || text == seq!['f', 'a', 'l', 's', 'e']
}

/// `inf`, `infinity` or `nan`, in capital or small letters.
pub open spec fn is_special_number(body: Seq<char>) -> bool {
    let low = body.map_values(|c: char| ascii_lower(c));
    ||| low == seq!['i', 'n', 'f']
    ||| low == seq!['i', 'n', 'f', 'i', 'n', 'i', 't', 'y']
    ||| low == seq!['n', 'a', 'n']
}

/// `text` from `at` on is an exponent: `e` or `E`, an optional sign, and one
/// digit or more up to the end.
pub open spec fn is_exponent(text: Seq<char>, at: int) -> bool {
    &&& 0 <= at < text.len()
    &&& (text[at] == 'e' || text[at] == 'E')
    &&& {
        let digits = if at + 1 < text.len() && is_sign(text[at + 1]) {
            at + 2
        } else {
            at + 1
        };
        digits < text.len() && digits_end(text, digits) == text.len()
    }
}

/// `text` from `at` on is a decimal number: digits with at most one point
/// among them, one digit at least, and then an optional exponent.
pub open spec fn is_decimal_number(text: Seq<char>, at: int) -> bool {
    let whole_end = digits_end(text, at);
    let has_point = whole_end < text.len() && text[whole_end] == '.';
    let mantissa_end = if has_point {
        digits_end(text, whole_end + 1)
    } else {
        whole_end
    };
    let digits = if has_point {
        mantissa_end - at - 1
    } else {
        mantissa_end - at
    };
    &&& digits >= 1
    &&& (mantissa_end == text.len() || is_exponent(text, mantissa_end))
}

/// The text parses as a 64-bit floating-point number, by the grammar that
/// `f64::from_str` documents: an optional sign, then `inf`, `infinity`, `nan`
/// or a decimal number.
pub open spec fn is_number_text(text: Seq<char>) -> bool {
    let at: int = if text.len() > 0 && is_sign(text[0]) {
        1
    } else {
        0
    };
    is_special_number(text.subrange(at, text.len() as int)) || is_decimal_number(text, at)
}

/// The hint for a text.
pub open spec fn classify_text(text: Seq<char>) -> ValueType {
    if looks_like_json(text) {
        ValueType::Json
    } else if is_boolean_text(text) {
        ValueType::Boolean
    } else if is_number_text(text) {
        ValueType::Number
    } else {
        ValueType::String
    }
}

/// The hint for a value: `Binary` unless the bytes are valid UTF-8, else what
/// the text looks like, a JSON opening before a boolean before a number.
pub open spec fn classify(bytes: Seq<u8>) -> ValueType {
    if valid_utf8(bytes) {
        classify_text(decode_utf8(bytes))
    } else {
        ValueType::Binary
    }
}

impl ValueType {
    /// The variant's name, as the text formats write it.
    pub open spec fn label(self) -> Seq<char> {
        match self {
            ValueType::String => seq!['S', 't', 'r', 'i', 'n', 'g'],
            ValueType::Number => seq!['N', 'u', 'm', 'b', 'e', 'r'],
            ValueType::Boolean => seq!['B', 'o', 'o', 'l', 'e', 'a', 'n'],
            ValueType::Json => seq!['J', 's', 'o', 'n'],
            ValueType::Binary => seq!['B', 'i', 'n', 'a', 'r', 'y'],
        }
    }

    /// The variant's name.
    pub fn name(&self) -> (s: &'static str)
        ensures
            s@ == self.label(),
    {
        proof {
            reveal_strlit("String");
            reveal_strlit("Number");
            reveal_strlit("Boolean");
            reveal_strlit("Json");
            reveal_strlit("Binary");
        }
        let s = match self {
            ValueType::String => "String",
            ValueType::Number => "Number",
            ValueType::Boolean => "Boolean",
            ValueType::Json => "Json",
            ValueType::Binary => "Binary",
        };
        assert(s@ =~= self.label());
        s
    }
}

fn whitespace(c: char) -> (b: bool)
    ensures
        b == is_whitespace(c),
{
    let u: u32 = c as u32;
    (0x09 <= u && u <= 0x0D) || u == 0x20 || u == 0x85 || u == 0xA0 || u == 0x1680 || (0x2000 <= u
        && u <= 0x200A) || u == 0x2028 || u == 0x2029 || u == 0x202F || u == 0x205F || u == 0x3000
}

fn digit(c: char) -> (b: bool)
    ensures
        b == is_digit(c),
{
    '0' <= c && c <= '9'
}

fn lower(c: char) -> (l: char)
    ensures
        l == ascii_lower(c),
{
    if 'A' <= c && c <= 'Z' {
        let u: u8 = (c as u32 + 32) as u8;
        u as char
    } else {
        c
    }
}

fn digit_run(text: &Vec<char>, from: usize) -> (end: usize)
    requires
        from <= text.len(),
    ensures
        end == digits_end(text@, from as int),
        from <= end <= text.len(),
{
    let mut at: usize = from;
    while at < text.len() && digit(text[at])
        invariant
            from <= at <= text.len(),
            digits_end(text@, at as int) == digits_end(text@, from as int),
        decreases text.len() - at,
    {
        at += 1;
    }
    at
}

fn starts_json(text: &Vec<char>) -> (b: bool)
    ensures
        b == looks_like_json(text@),
{
    let mut at: usize = 0;
    while at < text.len() && whitespace(text[at])
        invariant
            at <= text.len(),
            skip_whitespace(text@, at as int) == skip_whitespace(text@, 0),
        decreases text.len() - at,
    {
        at += 1;
    }
    at < text.len() && (text[at] == '{' || text[at] == '[')
}

/// `text` from `at` on is `word`, whatever the case of its ASCII letters.
fn matches_word(text: &Vec<char>, at: usize, word: &Vec<char>) -> (b: bool)
    requires
        at <= text.len(),
    ensures
        b == (text@.subrange(at as int, text.len() as int).map_values(|c: char| ascii_lower(c))
            == word@),
{
    let ghost body = text@.subrange(at as int, text.len() as int);
    let ghost low = body.map_values(|c: char| ascii_lower(c));
    if text.len() - at != word.len() {
        return false;
    }
    let mut i: usize = 0;
    while i < word.len()
        invariant
            at <= text.len(),
            text.len() - at == word.len(),
            i <= word.len(),
            body == text@.subrange(at as int, text.len() as int),
            low == body.map_values(|c: char| ascii_lower(c)),
            forall|j: int| 0 <= j < i ==> low[j] == word@[j],
        decreases word.len() - i,
    {
        if lower(text[at + i]) != word[i] {
            assert(low[i as int] != word@[i as int]);
            return false;
        }
        i += 1;
    }
    assert(low =~= word@);
    true
}

fn special_number(text: &Vec<char>, at: usize) -> (b: bool)
    requires
        at <= text.len(),
    ensures
        b == is_special_number(text@.subrange(at as int, text.len() as int)),
{
    let inf: Vec<char> = vec!['i', 'n', 'f'];
    let infinity: Vec<char> = vec!['i', 'n', 'f', 'i', 'n', 'i', 't', 'y'];
    let nan: Vec<char> = vec!['n', 'a', 'n'];
    assert(inf@ =~= seq!['i', 'n', 'f']);
    assert(infinity@ =~= seq!['i', 'n', 'f', 'i', 'n', 'i', 't', 'y']);
    assert(nan@ =~= seq!['n', 'a', 'n']);
    matches_word(text, at, &inf) || matches_word(text, at, &infinity) || matches_word(
        text,
        at,
        &nan,
    )
}

fn exponent(text: &Vec<char>, at: usize) -> (b: bool)
    requires
        at <= text.len(),
    ensures
        b == is_exponent(text@, at as int),
{
    if at >= text.len() || !(text[at] == 'e' || text[at] == 'E') {
        return false;
    }
    let digits: usize = if at + 1 < text.len() && (text[at + 1] == '+' || text[at + 1] == '-') {
        at + 2
    } else {
        at + 1
    };
    if digits >= text.len() {
        return false;
    }
    digit_run(text, digits) == text.len()
}

fn decimal_number(text: &Vec<char>, at: usize) -> (b: bool)
    requires
        at <= text.len(),
    ensures
        b == is_decimal_number(text@, at as int),
{
    let whole_end = digit_run(text, at);
    let has_point = whole_end < text.len() && text[whole_end] == '.';
    let mantissa_end = if has_point {
        digit_run(text, whole_end + 1)
    } else {
        whole_end
    };
    let digits = if has_point {
        mantissa_end - at - 1
    } else {
        mantissa_end - at
    };
    digits >= 1 && (mantissa_end == text.len() || exponent(text, mantissa_end))
}

fn number_text(text: &Vec<char>) -> (b: bool)
    ensures
        b == is_number_text(text@),
{
    let at: usize = if text.len() > 0 && (text[0] == '+' || text[0] == '-') {
        1
    } else {
        0
    };
    special_number(text, at) || decimal_number(text, at)
}

fn boolean_text(text: &Vec<char>) -> (b: bool)
    ensures
        b == is_boolean_text(text@),
{
    if text.len() == 4 {
        let b = text[0] == 't' && text[1] == 'r' && text[2] == 'u' && text[3] == 'e';
        assert(b == (text@ =~= seq!['t', 'r', 'u', 'e']));
        b
    } else if text.len() == 5 {
        let b = text[0] == 'f' && text[1] == 'a' && text[2] == 'l' && text[3] == 's' && text[4]
            == 'e';
        assert(b == (text@ =~= seq!['f', 'a', 'l', 's', 'e']));
        b
    } else {
        false
    }
}

/// Infers the display hint of a value from its bytes.
pub fn detect(value: &[u8]) -> (t: ValueType)
    ensures
        t == classify(value@),
{
    match utf8_text(value) {
        None => ValueType::Binary,
        Some(s) => {
            let text = chars_of(s);
            if starts_json(&text) {
                ValueType::Json
            } else if boolean_text(&text) {
                ValueType::Boolean
            } else if number_text(&text) {
                ValueType::Number
            } else {
                ValueType::String
            }
        },
    }
}

} // verus!
