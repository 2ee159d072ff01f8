//! Text helpers shared by the library: lowercase hexadecimal, decimal
//! numerals and tests on leading characters.

use vstd::prelude::*;

verus! {

/// The lowercase hexadecimal digit for a value below 16.
pub open spec fn hex_digit(n: int) -> char {
    if n < 10 {
        (48 + n) as char
    } else {
        (87 + n) as char
    }
}

/// Two lowercase hexadecimal digits per byte, high nibble first.
pub open spec fn hex_text(bytes: Seq<u8>) -> Seq<char>
    decreases bytes.len(),
{
    if bytes.len() == 0 {
        Seq::empty()
    } else {
        let b = bytes.last();
        hex_text(bytes.drop_last()) + seq![hex_digit((b / 16) as int), hex_digit((b % 16) as int)]
    }
}

/// Appends one character to a string (`String::push`).
#[verifier::external_body]
pub(crate) fn push_char(s: &mut String, c: char)
    ensures
        final(s)@ == old(s)@.push(c),
{
    s.push(c);
}

fn hex_digit_exec(n: u8) -> (c: char)
    requires
        n < 16,
    ensures
        c == hex_digit(n as int),
{
    if n < 10 {
        (n + 48) as char
    } else {
        (n + 87) as char
    }
}

/// Encodes bytes as lowercase hexadecimal, two digits per byte.
pub fn hex_encode(bytes: &[u8]) -> (out: String)
    ensures
        out@ == hex_text(bytes@),
        out@.len() == 2 * bytes@.len(),
{
    let mut output = String::new();
    let n = bytes.len();
    for i in 0..n
        invariant
            n == bytes@.len(),
            output@ == hex_text(bytes@.take(i as int)),
            output@.len() == 2 * i,
    {
        let byte = bytes[i];
        assert(bytes@.take(i + 1).drop_last() =~= bytes@.take(i as int));
        push_char(&mut output, hex_digit_exec(byte / 16));
        push_char(&mut output, hex_digit_exec(byte % 16));
        assert(output@ =~= hex_text(bytes@.take(i + 1)));
    }
    assert(bytes@.take(n as int) =~= bytes@);
    output
}

/// The character of a decimal digit below 10.
pub open spec fn digit_char(d: int) -> char {
    (48 + d) as char
}

/// The decimal numeral of a natural number, without leading zeros.
pub open spec fn digits_text(n: nat) -> Seq<char>
    decreases n,
{
    if n < 10 {
        seq![digit_char(n as int)]
    } else {
        digits_text(n / 10).push(digit_char((n % 10) as int))
    }
}

/// The decimal numeral of an integer, with a leading `-` when negative.
pub open spec fn decimal_text(n: int) -> Seq<char> {
    if n < 0 {
        seq!['-'] + digits_text((-n) as nat)
    } else {
        digits_text(n as nat)
    }
}

/// What a JSON string literal holds for one character: `"` and `\` and the
/// control characters below U+0020 are escaped, the short forms where JSON
/// has them, `\u00xx` with lowercase digits otherwise.
pub open spec fn json_escape_char(c: char) -> Seq<char> {
    if c == '"' {
        seq!['\\', '"']
    } else if c == '\\' {
        seq!['\\', '\\']
    } else if c == '\x08' {
        seq!['\\', 'b']
    } else if c == '\t' {
        seq!['\\', 't']
    } else if c == '\n' {
        seq!['\\', 'n']
    } else if c == '\x0c' {
        seq!['\\', 'f']
    } else if c == '\r' {
        seq!['\\', 'r']
    } else if (c as int) < 32 {
        seq!['\\', 'u', '0', '0', hex_digit((c as int) / 16), hex_digit((c as int) % 16)]
    } else {
        seq![c]
    }
}

/// The escaped contents of a JSON string literal.
pub open spec fn json_escaped(s: Seq<char>) -> Seq<char>
    decreases s.len(),
{
    if s.len() == 0 {
        Seq::empty()
    } else {
        json_escaped(s.drop_last()) + json_escape_char(s.last())
    }
}

/// A complete JSON string literal for the text.
pub open spec fn json_quoted(s: Seq<char>) -> Seq<char> {
    seq!['"'] + json_escaped(s) + seq!['"']
}

/// The text begins with at least `n` characters `0`.
pub open spec fn has_leading_zeros(s: Seq<char>, n: int) -> bool {
    &&& n <= s.len()
    &&& forall|i: int| 0 <= i < n ==> s[i] == '0'
}

/// Whether the text begins with `n` characters `0` (that is, whether it
/// starts with `"0".repeat(n)`).
pub fn starts_with_zeros(s: &str, n: u32) -> (r: bool)
    ensures
        r == has_leading_zeros(s@, n as int),
{
    let len = s.unicode_len();
    if (n as usize) > len {
        return false;
    }
    let mut i: usize = 0;
    while i < n as usize
        invariant
            len == s@.len(),
            n <= len,
            i <= n,
            forall|j: int| 0 <= j < i ==> s@[j] == '0',
        decreases n - i,
    {
        if s.get_char(i) != '0' {
            return false;
        }
        i = i + 1;
    }
    true
}

} // verus!
