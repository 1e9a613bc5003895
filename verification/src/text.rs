//! Building strings: decimal formatting of integers, and the few std string
//! operations that have no specification of their own in vstd.
use vstd::prelude::*;

verus! {

/// The character of a decimal digit.
pub open spec fn digit_char(d: nat) -> char {
    if d == 0 { '0' }
    else if d == 1 { '1' }
    else if d == 2 { '2' }
    else if d == 3 { '3' }
    else if d == 4 { '4' }
    else if d == 5 { '5' }
    else if d == 6 { '6' }
    else if d == 7 { '7' }
    else if d == 8 { '8' }
    else { '9' }
}

/// The decimal representation of a natural number, without leading zeros.
pub open spec fn decimal(n: nat) -> Seq<char>
    decreases n,
{
    if n < 10 {
        seq![digit_char(n)]
    } else {
        decimal(n / 10).push(digit_char(n % 10))
    }
}

/// The decimal representation of an integer, with a leading `-` when negative
/// (what `Display` prints for the integer types).
pub open spec fn int_text(n: int) -> Seq<char> {
    if n < 0 {
        seq!['-'] + decimal((-n) as nat)
    } else {
        decimal(n as nat)
    }
}

/// Appends one character to a string.
///
/// Trusted: calls `String::push`, which the std documentation says appends
/// the given `char` to the end of the `String`.
#[verifier::external_body]
pub(crate) fn string_push(s: &mut String, c: char)
    ensures
        final(s)@ == old(s)@.push(c),
{
    s.push(c);
}

/// A string holding a copy of `s`.
pub fn string_of(s: &str) -> (r: String)
    ensures
        r@ == s@,
{
    s.to_owned()
}

/// Appends `s` to `out`.
pub fn push_str(out: &mut String, s: &str)
    ensures
        final(out)@ == old(out)@ + s@,
{
    out.append(s);
}

/// Appends the contents of `s` to `out`.
pub fn push_string(out: &mut String, s: &String)
    ensures
        final(out)@ == old(out)@ + s@,
{
    out.append(s.as_str());
}

fn digit(d: u64) -> (c: char)
    requires
        d < 10,
    ensures
        c == digit_char(d as nat),
{
    if d == 0 { '0' }
    else if d == 1 { '1' }
    else if d == 2 { '2' }
    else if d == 3 { '3' }
    else if d == 4 { '4' }
    else if d == 5 { '5' }
    else if d == 6 { '6' }
    else if d == 7 { '7' }
    else if d == 8 { '8' }
    else { '9' }
}

/// Appends the decimal digits of `n` to `out`.
pub fn push_decimal(out: &mut String, n: u64)
    ensures
        final(out)@ == old(out)@ + decimal(n as nat),
    decreases n,
{
    if n < 10 {
        string_push(out, digit(n));
    } else {
        push_decimal(out, n / 10);
        string_push(out, digit(n % 10));
    }
}

/// Appends the text of a signed integer to `out`.
pub fn push_int(out: &mut String, n: i64)
    ensures
        final(out)@ == old(out)@ + int_text(n as int),
{
    if n < 0 {
        string_push(out, '-');
        let m: i128 = n as i128;
        let mag: u64 = (-m) as u64;
        push_decimal(out, mag);
        assert(seq!['-'] + decimal(mag as nat) =~= seq!['-'].add(decimal(mag as nat)));
        assert(final(out)@ =~= old(out)@ + int_text(n as int));
    } else {
        push_decimal(out, n as u64);
    }
}

/// The text of a signed integer.
pub fn int_to_string(n: i64) -> (r: String)
    ensures
        r@ == int_text(n as int),
{
    let mut s = String::new();
    push_int(&mut s, n);
    proof {
        assert(s@ =~= int_text(n as int));
    }
    s
}

/// The text of an unsigned integer.
pub fn nat_to_string(n: u64) -> (r: String)
    ensures
        r@ == decimal(n as nat),
{
    let mut s = String::new();
    push_decimal(&mut s, n);
    proof {
        assert(s@ =~= decimal(n as nat));
    }
    s
}

/// The characters of the bytes `b[s..e]`, read one byte per character.
pub open spec fn ascii_text(b: Seq<u8>, s: int, e: int) -> Seq<char> {
    Seq::new((e - s) as nat, |k: int| b[s + k] as char)
}

/// A string with one character per byte of `b[s..e]`.
pub fn ascii_string(b: &[u8], s: usize, e: usize) -> (r: String)
    requires
        s <= e <= b@.len(),
    ensures
        r@ == ascii_text(b@, s as int, e as int),
{
    let mut r = String::new();
    let mut k = s;
    while k < e
        invariant
            s <= k <= e,
            e <= b@.len(),
            r@ == ascii_text(b@, s as int, k as int),
        decreases e - k,
    {
        string_push(&mut r, b[k] as char);
        proof {
            assert(r@ =~= ascii_text(b@, s as int, k + 1));
        }
        k = k + 1;
    }
    r
}

/// What `char::escape_debug` produces for a character.
pub uninterp spec fn spec_escape_debug(c: char) -> Seq<char>;

/// The escaped form of a character, as `{:?}` would print it inside quotes.
///
/// Trusted: calls `char::escape_debug` and collects the escape into a
/// `String`. The result is named by `spec_escape_debug`; the one fact stated
/// beside it, from the std documentation, is that a printable ASCII character
/// other than a backslash or a quote is left as it is.
#[verifier::external_body]
pub(crate) fn escape_debug(c: char) -> (r: String)
    ensures
        r@ == spec_escape_debug(c),
        (' ' <= c <= '~' && c != '\\' && c != '\'' && c != '"') ==> r@ == seq![c],
{
    c.escape_debug().to_string()
}

/// Converts a code point to a character.
///
/// Trusted: calls `char::from_u32`, which gives `Some` exactly for Unicode
/// scalar values (below `0x110000` and outside the surrogates), with the
/// character of that code point.
#[verifier::external_body]
pub(crate) fn char_from_u32(u: u32) -> (r: Option<char>)
    ensures
        r is Some <==> (u < 0xD800 || (0xE000 <= u && u < 0x110000)),
        r matches Some(c) ==> c as u32 == u,
{
    char::from_u32(u)
}

/// A random letter from `a` to `y`.
///
/// Trusted: calls `rand::random_range('a'..'z')`, which draws a value from
/// the half-open range with the thread-local generator. Which letter comes
/// back is left open.
#[verifier::external_body]
pub(crate) fn random_lowercase_letter() -> (c: char)
    ensures
        'a' <= c < 'z',
{
    rand::random_range('a'..'z')
}

} // verus!
