//! The JSON text that a session token carries as its payload.
//!
//! The payload is the object `{"sub":..,"email":..,"role":..,"exp":..}`, written
//! compactly, keys in this order, strings escaped the way serde_json escapes them.
//! `claims_text` is that text as a mathematical sequence; the encoder produces it
//! and the parser accepts exactly it. A payload in any other JSON layout (other
//! key order, white space, escapes, extra keys, or the claims as an array) is
//! read through serde_json, as serde reads a struct of these four fields.

use vstd::prelude::*;

use crate::text::{chars_of, push_char};

verus! {

/// The character of a decimal digit `d < 10`.
pub open spec fn digit_char(d: int) -> char {
    (48 + d) as char
}

/// Whether `c` is one of `0`..`9`.
pub open spec fn is_digit(c: char) -> bool {
    48 <= (c as u32) && (c as u32) <= 57
}

/// The numeric value of a digit character.
pub open spec fn digit_value(c: char) -> int {
    (c as u32) - 48
}

/// The lower-case hexadecimal digit of `d < 16`.
pub open spec fn hex_char(d: int) -> char {
    if d < 10 {
        (48 + d) as char
    } else {
        (87 + d) as char
    }
}

/// The shortest decimal text of `n`.
pub open spec fn decimal(n: nat) -> Seq<char>
    decreases n,
{
    if n < 10 {
        seq![digit_char(n as int)]
    } else {
        decimal(n / 10).push(digit_char((n % 10) as int))
    }
}

/// The decimal text of a signed integer, with a leading `-` when negative.
pub open spec fn signed_decimal(i: int) -> Seq<char> {
    if i < 0 {
        seq!['-'] + decimal((-i) as nat)
    } else {
        decimal(i as nat)
    }
}

/// How one character stands inside a JSON string literal.
pub open spec fn escape_char(c: char) -> Seq<char> {
    if c == '"' {
        seq!['\\', '"']
    } else if c == '\\' {
        seq!['\\', '\\']
    } else if c == '\u{8}' {
        seq!['\\', 'b']
    } else if c == '\u{c}' {
        seq!['\\', 'f']
    } else if c == '\n' {
        seq!['\\', 'n']
    } else if c == '\r' {
        seq!['\\', 'r']
    } else if c == '\t' {
        seq!['\\', 't']
    } else if (c as u32) < 32 {
        seq!['\\', 'u', '0', '0', hex_char((c as u32) as int / 16), hex_char((c as u32) as int % 16)]
    } else {
        seq![c]
    }
}

/// The escaped body of a JSON string literal.
pub open spec fn escape(s: Seq<char>) -> Seq<char>
    decreases s.len(),
{
    if s.len() == 0 {
        seq![]
    } else {
        escape_char(s[0]) + escape(s.drop_first())
    }
}

/// A JSON string literal, quotes included.
pub open spec fn json_string(s: Seq<char>) -> Seq<char> {
    seq!['"'] + escape(s) + seq!['"']
}

pub open spec fn key_sub() -> Seq<char> {
    seq!['{', '"', 's', 'u', 'b', '"', ':']
}

pub open spec fn key_email() -> Seq<char> {
    seq![',', '"', 'e', 'm', 'a', 'i', 'l', '"', ':']
}

pub open spec fn key_role() -> Seq<char> {
    seq![',', '"', 'r', 'o', 'l', 'e', '"', ':']
}

pub open spec fn key_exp() -> Seq<char> {
    seq![',', '"', 'e', 'x', 'p', '"', ':']
}

/// The payload text of a token for these claims.
pub open spec fn claims_text(sub: i64, email: Seq<char>, role: Seq<char>, exp: usize) -> Seq<char> {
    key_sub() + signed_decimal(sub as int) + key_email() + json_string(email) + key_role()
        + json_string(role) + key_exp() + decimal(exp as nat) + seq!['}']
}

// ---------------------------------------------------------------------------
// lemmas about the encoding

pub proof fn lemma_escape_append(a: Seq<char>, b: Seq<char>)
    ensures
        escape(a + b) == escape(a) + escape(b),
    decreases a.len(),
{
    if a.len() == 0 {
        assert(a + b =~= b);
    } else {
        assert((a + b).drop_first() =~= a.drop_first() + b);
        lemma_escape_append(a.drop_first(), b);
    }
}

pub proof fn lemma_escape_push(a: Seq<char>, c: char)
    ensures
        escape(a.push(c)) == escape(a) + escape_char(c),
{
    assert(a.push(c) =~= a + seq![c]);
    lemma_escape_append(a, seq![c]);
    assert(seq![c].drop_first() =~= Seq::<char>::empty());
    assert(escape(seq![c].drop_first()) == Seq::<char>::empty());
    assert(escape(seq![c]) =~= escape_char(c));
}

// ---------------------------------------------------------------------------
// the encoder

fn push_all(out: &mut String, cs: &[char])
    ensures
        final(out)@ == old(out)@ + cs@,
{
    let mut i: usize = 0;
    while i < cs.len()
        invariant
            i <= cs@.len(),
            out@ == old(out)@ + cs@.take(i as int),
        decreases cs@.len() - i,
    {
        push_char(out, cs[i]);
        assert(cs@.take(i + 1) =~= cs@.take(i as int).push(cs@[i as int]));
        i = i + 1;
    }
    assert(cs@.take(cs@.len() as int) =~= cs@);
}

fn digit(d: u64) -> (c: char)
    requires
        d < 10,
    ensures
        c == digit_char(d as int),
{
    let b: u8 = 48u8 + (d as u8);
    b as char
}

fn hex_digit(d: u32) -> (c: char)
    requires
        d < 16,
    ensures
        c == hex_char(d as int),
{
    if d < 10 {
        let b: u8 = 48u8 + (d as u8);
        b as char
    } else {
        let b: u8 = 87u8 + (d as u8);
        b as char
    }
}

/// Appends the decimal text of `n`.
pub fn push_decimal(out: &mut String, n: u64)
    ensures
        final(out)@ == old(out)@ + decimal(n as nat),
    decreases n,
{
    if n < 10 {
        push_char(out, digit(n));
        assert(old(out)@.push(digit_char(n as int)) =~= old(out)@ + seq![digit_char(n as int)]);
    } else {
        push_decimal(out, n / 10);
        push_char(out, digit(n % 10));
        assert(decimal(n as nat) == decimal((n / 10) as nat).push(digit_char((n % 10) as int)));
        assert(final(out)@ =~= old(out)@ + decimal(n as nat));
    }
}

/// Appends the decimal text of a signed integer.
pub fn push_signed_decimal(out: &mut String, i: i64)
    ensures
        final(out)@ == old(out)@ + signed_decimal(i as int),
{
    if i < 0 {
        push_char(out, '-');
        let m: u64 = if i == i64::MIN {
            9223372036854775808u64
        } else {
            (-i) as u64
        };
        push_decimal(out, m);
        assert(final(out)@ =~= old(out)@ + (seq!['-'] + decimal((-(i as int)) as nat)));
    } else {
        push_decimal(out, i as u64);
    }
}

/// Appends one character as it stands inside a JSON string literal.
fn push_escaped_char(out: &mut String, c: char)
    ensures
        final(out)@ == old(out)@ + escape_char(c),
{
    if c == '"' {
        push_all(out, &['\\', '"']);
    } else if c == '\\' {
        push_all(out, &['\\', '\\']);
    } else if c == '\u{8}' {
        push_all(out, &['\\', 'b']);
    } else if c == '\u{c}' {
        push_all(out, &['\\', 'f']);
    } else if c == '\n' {
        push_all(out, &['\\', 'n']);
    } else if c == '\r' {
        push_all(out, &['\\', 'r']);
    } else if c == '\t' {
        push_all(out, &['\\', 't']);
    } else if (c as u32) < 32 {
        let code: u32 = c as u32;
        let hi = hex_digit(code / 16);
        let lo = hex_digit(code % 16);
        push_all(out, &['\\', 'u', '0', '0', hi, lo]);
    } else {
        push_char(out, c);
        assert(old(out)@.push(c) =~= old(out)@ + seq![c]);
    }
}

/// Appends `s` as a JSON string literal, quotes included.
pub fn push_json_string(out: &mut String, s: &str)
    ensures
        final(out)@ == old(out)@ + json_string(s@),
{
    let ghost start = out@;
    let cs = chars_of(s);
    push_char(out, '"');
    let mut i: usize = 0;
    while i < cs.len()
        invariant
            i <= cs@.len(),
            cs@ == s@,
            out@ == start.push('"') + escape(cs@.take(i as int)),
        decreases cs@.len() - i,
    {
        push_escaped_char(out, cs[i]);
        proof {
            lemma_escape_push(cs@.take(i as int), cs@[i as int]);
            assert(cs@.take(i + 1) =~= cs@.take(i as int).push(cs@[i as int]));
        }
        i = i + 1;
    }
    push_char(out, '"');
    assert(cs@.take(cs@.len() as int) =~= s@);
    assert(final(out)@ =~= start + json_string(s@));
}


// ---------------------------------------------------------------------------
// reading the payload back

/// Whether `c` is a lower-case hexadecimal digit.
pub open spec fn is_hex(c: char) -> bool {
    is_digit(c) || (97 <= (c as u32) && (c as u32) <= 102)
}

/// The value of a lower-case hexadecimal digit.
pub open spec fn hex_value(c: char) -> int {
    if is_digit(c) {
        digit_value(c)
    } else {
        (c as u32) - 87
    }
}

/// The first unit of a string body: an escape sequence or a plain character,
/// with the number of characters it takes.
pub open spec fn unit_at(t: Seq<char>) -> Option<(char, int)> {
    if t.len() == 0 {
        None
    } else if t[0] != '\\' {
        Some((t[0], 1))
    } else if t.len() < 2 {
        None
    } else if t[1] == '"' {
        Some(('"', 2))
    } else if t[1] == '\\' {
        Some(('\\', 2))
    } else if t[1] == 'b' {
        Some(('\u{8}', 2))
    } else if t[1] == 'f' {
        Some(('\u{c}', 2))
    } else if t[1] == 'n' {
        Some(('\n', 2))
    } else if t[1] == 'r' {
        Some(('\r', 2))
    } else if t[1] == 't' {
        Some(('\t', 2))
    } else if t[1] == 'u' && t.len() >= 6 && t[2] == '0' && t[3] == '0' && (t[4] == '0'
        || t[4] == '1') && is_hex(t[5]) {
        Some(((digit_value(t[4]) * 16 + hex_value(t[5])) as char, 6))
    } else {
        None
    }
}

/// Reads a string body up to and including its closing quote: the decoded
/// characters and the number of characters read.
pub open spec fn unescape(t: Seq<char>) -> Option<(Seq<char>, int)>
    decreases t.len(),
{
    if t.len() == 0 {
        None
    } else if t[0] == '"' {
        Some((seq![], 1))
    } else {
        match unit_at(t) {
            Some((c, k)) => if 0 < k <= t.len() {
                match unescape(t.skip(k)) {
                    Some((s, m)) => Some((seq![c] + s, k + m)),
                    None => None,
                }
            } else {
                None
            },
            None => None,
        }
    }
}

/// The length of the run of digits that `t` starts with.
pub open spec fn run_len(t: Seq<char>) -> nat
    decreases t.len(),
{
    if t.len() > 0 && is_digit(t[0]) {
        1 + run_len(t.drop_first())
    } else {
        0
    }
}

/// The value of a sequence of digits.
pub open spec fn digits_value(s: Seq<char>) -> int
    decreases s.len(),
{
    if s.len() == 0 {
        0
    } else {
        digits_value(s.drop_last()) * 10 + digit_value(s.last())
    }
}

/// The number at the front of `t`, if it has one no larger than `bound`, and
/// the number of characters it takes.
pub open spec fn nat_at(t: Seq<char>, bound: int) -> Option<(int, int)> {
    let len = run_len(t);
    if len == 0 || digits_value(t.take(len as int)) > bound {
        None
    } else {
        Some((digits_value(t.take(len as int)), len as int))
    }
}

/// The signed 64-bit integer at the front of `t`.
pub open spec fn int_at(t: Seq<char>) -> Option<(int, int)> {
    if t.len() > 0 && t[0] == '-' {
        match nat_at(t.drop_first(), 9223372036854775808) {
            Some((v, k)) => Some((-v, k + 1)),
            None => None,
        }
    } else {
        nat_at(t, 9223372036854775807)
    }
}

/// The string literal at the front of `t`.
pub open spec fn str_at(t: Seq<char>) -> Option<(Seq<char>, int)> {
    if t.len() > 0 && t[0] == '"' {
        match unescape(t.drop_first()) {
            Some((s, m)) => Some((s, m + 1)),
            None => None,
        }
    } else {
        None
    }
}

/// Whether `t` starts with `lit`.
pub open spec fn starts_with(t: Seq<char>, lit: Seq<char>) -> bool {
    lit.len() <= t.len() && t.take(lit.len() as int) == lit
}

/// Reads the payload object field by field.
pub open spec fn read_claims(t: Seq<char>) -> Option<(int, Seq<char>, Seq<char>, int)> {
    if !starts_with(t, key_sub()) {
        None
    } else {
        match int_at(t.skip(7)) {
            None => None,
            Some((sub, k)) => match read_from_email(t.skip(7).skip(k)) {
                Some((email, role, exp)) => Some((sub, email, role, exp)),
                None => None,
            },
        }
    }
}

/// Reads `,"email":` and the rest of the object.
pub open spec fn read_from_email(t: Seq<char>) -> Option<(Seq<char>, Seq<char>, int)> {
    if !starts_with(t, key_email()) {
        None
    } else {
        match str_at(t.skip(9)) {
            None => None,
            Some((email, k)) => match read_from_role(t.skip(9).skip(k)) {
                Some((role, exp)) => Some((email, role, exp)),
                None => None,
            },
        }
    }
}

/// Reads `,"role":` and the rest of the object.
pub open spec fn read_from_role(t: Seq<char>) -> Option<(Seq<char>, int)> {
    if !starts_with(t, key_role()) {
        None
    } else {
        match str_at(t.skip(8)) {
            None => None,
            Some((role, k)) => match read_from_exp(t.skip(8).skip(k)) {
                Some(exp) => Some((role, exp)),
                None => None,
            },
        }
    }
}

/// Reads `,"exp":`, the expiry and the closing brace.
pub open spec fn read_from_exp(t: Seq<char>) -> Option<int> {
    if !starts_with(t, key_exp()) {
        None
    } else {
        match nat_at(t.skip(7), usize::MAX as int) {
            None => None,
            Some((exp, k)) => if t.skip(7).skip(k) == seq!['}'] {
                Some(exp)
            } else {
                None
            },
        }
    }
}

// ---------------------------------------------------------------------------
// lemmas: reading back what the encoder wrote

pub proof fn lemma_decimal_digits(n: nat)
    ensures
        decimal(n).len() > 0,
        forall|i: int| 0 <= i < decimal(n).len() ==> is_digit(#[trigger] decimal(n)[i]),
        digits_value(decimal(n)) == n,
    decreases n,
{
    let d = decimal(n);
    if n >= 10 {
        lemma_decimal_digits(n / 10);
        assert(d.drop_last() =~= decimal(n / 10));
        assert(d.last() == digit_char((n % 10) as int));
        assert(digit_value(digit_char((n % 10) as int)) == n % 10);
        assert(n == (n / 10) * 10 + n % 10);
        assert(digits_value(d) == digits_value(d.drop_last()) * 10 + digit_value(d.last()));
    } else {
        assert(d.drop_last() =~= Seq::<char>::empty());
        assert(digit_value(digit_char(n as int)) == n);
        assert(digits_value(d.drop_last()) == 0);
        assert(digits_value(d) == digits_value(d.drop_last()) * 10 + digit_value(d.last()));
    }
}

pub proof fn lemma_run_len_digits(a: Seq<char>, rest: Seq<char>)
    requires
        forall|i: int| 0 <= i < a.len() ==> is_digit(#[trigger] a[i]),
        rest.len() == 0 || !is_digit(rest[0]),
    ensures
        run_len(a + rest) == a.len(),
    decreases a.len(),
{
    if a.len() == 0 {
        assert(a + rest =~= rest);
    } else {
        assert((a + rest).drop_first() =~= a.drop_first() + rest);
        lemma_run_len_digits(a.drop_first(), rest);
    }
}

pub proof fn lemma_nat_at_decimal(n: nat, rest: Seq<char>, bound: int)
    requires
        n <= bound,
        rest.len() == 0 || !is_digit(rest[0]),
    ensures
        nat_at(decimal(n) + rest, bound) == Some((n as int, decimal(n).len() as int)),
{
    lemma_decimal_digits(n);
    lemma_run_len_digits(decimal(n), rest);
    assert((decimal(n) + rest).take(decimal(n).len() as int) =~= decimal(n));
}

pub proof fn lemma_int_at_signed(i: int, rest: Seq<char>)
    requires
        -9223372036854775808 <= i <= 9223372036854775807,
        rest.len() == 0 || !is_digit(rest[0]),
    ensures
        int_at(signed_decimal(i) + rest) == Some((i, signed_decimal(i).len() as int)),
{
    if i < 0 {
        let t = signed_decimal(i) + rest;
        assert(t.drop_first() =~= decimal((-i) as nat) + rest);
        lemma_nat_at_decimal((-i) as nat, rest, 9223372036854775808);
    } else {
        lemma_decimal_digits(i as nat);
        assert(is_digit(decimal(i as nat)[0]));
        lemma_nat_at_decimal(i as nat, rest, 9223372036854775807);
    }
}

pub proof fn lemma_unit_at_escape(c: char, rest: Seq<char>)
    ensures
        unit_at(escape_char(c) + rest) == Some((c, escape_char(c).len() as int)),
        (escape_char(c) + rest)[0] != '"',
        escape_char(c).len() > 0,
{
    let t = escape_char(c) + rest;
    if (c as u32) < 32 && c != '\u{8}' && c != '\u{c}' && c != '\n' && c != '\r' && c != '\t' {
        let code = (c as u32) as int;
        assert(t[4] == hex_char(code / 16));
        assert(t[5] == hex_char(code % 16));
        assert(code / 16 == 0 || code / 16 == 1);
        assert(digit_value(t[4]) == code / 16);
        assert(is_hex(t[5]));
        assert(hex_value(t[5]) == code % 16);
        assert(code == (code / 16) * 16 + code % 16);
    }
}

pub proof fn lemma_unescape_escape(s: Seq<char>, rest: Seq<char>)
    ensures
        unescape(escape(s) + seq!['"'] + rest) == Some((s, escape(s).len() as int + 1)),
    decreases s.len(),
{
    let t = escape(s) + seq!['"'] + rest;
    if s.len() == 0 {
        assert(t[0] == '"');
        assert(s =~= Seq::<char>::empty());
    } else {
        let c = s[0];
        let tail = escape(s.drop_first()) + seq!['"'] + rest;
        assert(t =~= escape_char(c) + tail);
        lemma_unit_at_escape(c, tail);
        let k = escape_char(c).len() as int;
        assert(t.skip(k) =~= tail);
        lemma_unescape_escape(s.drop_first(), rest);
        assert(seq![c] + s.drop_first() =~= s);
    }
}

pub proof fn lemma_str_at_json(s: Seq<char>, rest: Seq<char>)
    ensures
        str_at(json_string(s) + rest) == Some((s, json_string(s).len() as int)),
{
    let t = json_string(s) + rest;
    assert(t.drop_first() =~= escape(s) + seq!['"'] + rest);
    lemma_unescape_escape(s, rest);
}

proof fn lemma_read_from_exp(exp: usize)
    ensures
        read_from_exp(key_exp() + decimal(exp as nat) + seq!['}']) == Some(exp as int),
{
    let d = decimal(exp as nat);
    let t = key_exp() + d + seq!['}'];
    assert(t.take(7) =~= key_exp());
    assert(t.skip(7) =~= d + seq!['}']);
    lemma_nat_at_decimal(exp as nat, seq!['}'], usize::MAX as int);
    assert(t.skip(7).skip(d.len() as int) =~= seq!['}']);
}

proof fn lemma_read_from_role(role: Seq<char>, exp: usize)
    ensures
        read_from_role(key_role() + json_string(role) + key_exp() + decimal(exp as nat) + seq!['}'])
            == Some((role, exp as int)),
{
    let jr = json_string(role);
    let rest = key_exp() + decimal(exp as nat) + seq!['}'];
    let t = key_role() + jr + key_exp() + decimal(exp as nat) + seq!['}'];
    assert(t.take(8) =~= key_role());
    assert(t.skip(8) =~= jr + rest);
    lemma_str_at_json(role, rest);
    assert(t.skip(8).skip(jr.len() as int) =~= rest);
    lemma_read_from_exp(exp);
}

proof fn lemma_read_from_email(email: Seq<char>, role: Seq<char>, exp: usize)
    ensures
        read_from_email(
            key_email() + json_string(email) + key_role() + json_string(role) + key_exp()
                + decimal(exp as nat) + seq!['}'],
        ) == Some((email, role, exp as int)),
{
    let je = json_string(email);
    let rest = key_role() + json_string(role) + key_exp() + decimal(exp as nat) + seq!['}'];
    let t = key_email() + je + key_role() + json_string(role) + key_exp() + decimal(exp as nat)
        + seq!['}'];
    assert(t.take(9) =~= key_email());
    assert(t.skip(9) =~= je + rest);
    lemma_str_at_json(email, rest);
    assert(t.skip(9).skip(je.len() as int) =~= rest);
    lemma_read_from_role(role, exp);
}

/// The encoder's output reads back as the same claims.
pub proof fn lemma_read_claims_text(sub: i64, email: Seq<char>, role: Seq<char>, exp: usize)
    ensures
        read_claims(claims_text(sub, email, role, exp)) == Some(
            (sub as int, email, role, exp as int),
        ),
{
    let a = signed_decimal(sub as int);
    let rest = key_email() + json_string(email) + key_role() + json_string(role) + key_exp()
        + decimal(exp as nat) + seq!['}'];
    let t = claims_text(sub, email, role, exp);
    assert(t.take(7) =~= key_sub());
    assert(t.skip(7) =~= a + rest);
    lemma_decimal_digits(0);
    assert(rest[0] == ',');
    lemma_int_at_signed(sub as int, rest);
    assert(t.skip(7).skip(a.len() as int) =~= rest);
    lemma_read_from_email(email, role, exp);
}

// ---------------------------------------------------------------------------
// the reader

fn char_is_digit(c: char) -> (b: bool)
    ensures
        b == is_digit(c),
{
    let code: u32 = c as u32;
    48 <= code && code <= 57
}

fn char_is_hex(c: char) -> (b: bool)
    ensures
        b == is_hex(c),
{
    let code: u32 = c as u32;
    (48 <= code && code <= 57) || (97 <= code && code <= 102)
}

fn char_hex_value(c: char) -> (v: u32)
    requires
        is_hex(c),
    ensures
        v == hex_value(c),
        v < 16,
{
    let code: u32 = c as u32;
    if code <= 57 {
        code - 48
    } else {
        code - 87
    }
}

fn starts_with_at(t: &Vec<char>, p: usize, lit: &[char]) -> (b: bool)
    requires
        p <= t@.len(),
    ensures
        b == starts_with(t@.skip(p as int), lit@),
        b ==> p + lit@.len() <= t@.len(),
{
    if lit.len() > t.len() - p {
        return false;
    }
    let mut j: usize = 0;
    while j < lit.len()
        invariant
            j <= lit@.len(),
            p + lit@.len() <= t@.len(),
            t@.len() == t.len(),
            forall|k: int| 0 <= k < j ==> t@[p + k] == lit@[k],
        decreases lit@.len() - j,
    {
        if t[p + j] != lit[j] {
            assert(t@.skip(p as int).take(lit@.len() as int)[j as int] != lit@[j as int]);
            return false;
        }
        j = j + 1;
    }
    assert(t@.skip(p as int).take(lit@.len() as int) =~= lit@);
    true
}

fn nat_at_exec(t: &Vec<char>, p: usize, bound: u64) -> (r: Option<(u64, usize)>)
    requires
        p <= t@.len(),
    ensures
        match nat_at(t@.skip(p as int), bound as int) {
            Some((v, k)) => r matches Some((a, q)) && a == v && q == p + k,
            None => r is None,
        },
        r matches Some((v, q)) ==> p < q <= t@.len() && v <= bound,
{
    let cap: u128 = (bound as u128) + 1;
    let mut acc: u128 = 0;
    let mut i: usize = p;
    while i < t.len() && char_is_digit(t[i])
        invariant
            p <= i <= t@.len(),
            cap == bound + 1,
            run_len(t@.skip(p as int)) == (i - p) + run_len(t@.skip(i as int)),
            acc == if digits_value(t@.subrange(p as int, i as int)) < cap {
                digits_value(t@.subrange(p as int, i as int))
            } else {
                cap as int
            },
            digits_value(t@.subrange(p as int, i as int)) >= 0,
        decreases t@.len() - i,
    {
        let d: u32 = (t[i] as u32) - 48;
        proof {
            assert(t@.skip(i as int).drop_first() =~= t@.skip(i + 1));
            let sub = t@.subrange(p as int, i + 1);
            assert(sub.drop_last() =~= t@.subrange(p as int, i as int));
            assert(digits_value(sub) == digits_value(t@.subrange(p as int, i as int)) * 10 + d);
        }
        let next: u128 = acc * 10 + (d as u128);
        acc = if next < cap {
            next
        } else {
            cap
        };
        proof {
            let x = digits_value(t@.subrange(p as int, i as int));
            let y = digits_value(t@.subrange(p as int, i + 1));
            if x >= cap {
                assert(y >= x) by (nonlinear_arith)
                    requires
                        y == x * 10 + d,
                        x >= 0,
                        d >= 0,
                ;
            }
        }
        i = i + 1;
    }
    proof {
        assert(run_len(t@.skip(i as int)) == 0);
        assert(t@.skip(p as int).take((i - p) as int) =~= t@.subrange(p as int, i as int));
    }
    if i == p || acc > bound as u128 {
        None
    } else {
        Some((acc as u64, i))
    }
}

fn int_at_exec(t: &Vec<char>, p: usize) -> (r: Option<(i64, usize)>)
    requires
        p <= t@.len(),
    ensures
        match int_at(t@.skip(p as int)) {
            Some((v, k)) => r matches Some((a, q)) && a == v && q == p + k,
            None => r is None,
        },
        r matches Some((v, q)) ==> p < q <= t@.len(),
{
    if p < t.len() && t[p] == '-' {
        assert(t@.skip(p as int).drop_first() =~= t@.skip(p + 1));
        match nat_at_exec(t, p + 1, 9223372036854775808u64) {
            Some((v, q)) => {
                let i: i64 = if v == 9223372036854775808u64 {
                    i64::MIN
                } else {
                    -(v as i64)
                };
                Some((i, q))
            },
            None => None,
        }
    } else {
        match nat_at_exec(t, p, 9223372036854775807u64) {
            Some((v, q)) => Some((v as i64, q)),
            None => None,
        }
    }
}

fn unit_at_exec(t: &Vec<char>, i: usize) -> (r: Option<(char, usize)>)
    requires
        i <= t@.len(),
    ensures
        match unit_at(t@.skip(i as int)) {
            Some((c, k)) => r == Some((c, k as usize)),
            None => r is None,
        },
{
    let n = t.len();
    if i >= n {
        return None;
    }
    let c0 = t[i];
    if c0 != '\\' {
        return Some((c0, 1));
    }
    if n - i < 2 {
        return None;
    }
    let c1 = t[i + 1];
    if c1 == '"' {
        Some(('"', 2))
    } else if c1 == '\\' {
        Some(('\\', 2))
    } else if c1 == 'b' {
        Some(('\u{8}', 2))
    } else if c1 == 'f' {
        Some(('\u{c}', 2))
    } else if c1 == 'n' {
        Some(('\n', 2))
    } else if c1 == 'r' {
        Some(('\r', 2))
    } else if c1 == 't' {
        Some(('\t', 2))
    } else if c1 == 'u' && n - i >= 6 && t[i + 2] == '0' && t[i + 3] == '0' && (t[i + 4] == '0'
        || t[i + 4] == '1') && char_is_hex(t[i + 5]) {
        let hi: u32 = (t[i + 4] as u32) - 48;
        let lo: u32 = char_hex_value(t[i + 5]);
        let b: u8 = (hi * 16 + lo) as u8;
        Some((b as char, 6))
    } else {
        None
    }
}

fn str_at_exec(t: &Vec<char>, p: usize) -> (r: Option<(String, usize)>)
    requires
        p <= t@.len(),
    ensures
        match str_at(t@.skip(p as int)) {
            Some((s, k)) => r matches Some((v, q)) && v@ == s && q == p + k,
            None => r is None,
        },
        r matches Some((v, q)) ==> p < q <= t@.len(),
{
    if p >= t.len() || t[p] != '"' {
        return None;
    }
    assert(t@.skip(p as int).drop_first() =~= t@.skip(p + 1));
    let mut out = String::new();
    let mut i: usize = p + 1;
    while i < t.len()
        invariant
            p + 1 <= i <= t@.len(),
            p < t@.len(),
            t@[p as int] == '"',
            t@.skip(p as int).drop_first() == t@.skip(p + 1),
            unescape(t@.skip(p + 1)) == match unescape(t@.skip(i as int)) {
                Some((s, m)) => Some((out@ + s, (i - (p + 1)) + m)),
                None => None,
            },
        decreases t@.len() - i,
    {
        assert(t@.skip(i as int)[0] == t@[i as int]);
        if t[i] == '"' {
            assert(out@ + Seq::<char>::empty() =~= out@);
            return Some((out, i + 1));
        }
        match unit_at_exec(t, i) {
            None => {
                return None;
            },
            Some((c, k)) => {
                proof {
                    assert(t@.skip(i as int).skip(k as int) =~= t@.skip(i + k));
                    let ghost before = out@;
                    match unescape(t@.skip(i + k)) {
                        Some((s, m)) => {
                            assert(before.push(c) + s =~= before + (seq![c] + s));
                        },
                        None => {},
                    }
                }
                push_char(&mut out, c);
                i = i + k;
            },
        }
    }
    assert(t@.skip(i as int).len() == 0);
    None
}

fn read_from_exp_exec(t: &Vec<char>, p: usize) -> (r: Option<usize>)
    requires
        p <= t@.len(),
    ensures
        match read_from_exp(t@.skip(p as int)) {
            Some(exp) => r matches Some(d) && d == exp,
            None => r is None,
        },
{
    let lit = [',', '"', 'e', 'x', 'p', '"', ':'];
    assert(lit@ =~= key_exp());
    let _n = t.len();
    if !starts_with_at(t, p, &lit) {
        return None;
    }
    assert(t@.skip(p as int).skip(7) =~= t@.skip(p + 7));
    let (exp, q) = match nat_at_exec(t, p + 7, usize::MAX as u64) {
        Some(x) => x,
        None => {
            return None;
        },
    };
    assert(t@.skip(p + 7).skip(q - (p + 7)) =~= t@.skip(q as int));
    if t.len() - q == 1 && t[q] == '}' {
        assert(t@.skip(q as int) =~= seq!['}']);
        Some(exp as usize)
    } else {
        assert(t@.skip(q as int).len() != 1 || t@.skip(q as int)[0] != '}');
        assert(t@.skip(q as int) != seq!['}']);
        None
    }
}

fn read_from_role_exec(t: &Vec<char>, p: usize) -> (r: Option<(String, usize)>)
    requires
        p <= t@.len(),
    ensures
        match read_from_role(t@.skip(p as int)) {
            Some((role, exp)) => r matches Some((c, d)) && c@ == role && d == exp,
            None => r is None,
        },
{
    let lit = [',', '"', 'r', 'o', 'l', 'e', '"', ':'];
    assert(lit@ =~= key_role());
    let _n = t.len();
    if !starts_with_at(t, p, &lit) {
        return None;
    }
    assert(t@.skip(p as int).skip(8) =~= t@.skip(p + 8));
    let (role, q) = match str_at_exec(t, p + 8) {
        Some(x) => x,
        None => {
            return None;
        },
    };
    assert(t@.skip(p + 8).skip(q - (p + 8)) =~= t@.skip(q as int));
    match read_from_exp_exec(t, q) {
        Some(exp) => Some((role, exp)),
        None => None,
    }
}

fn read_from_email_exec(t: &Vec<char>, p: usize) -> (r: Option<(String, String, usize)>)
    requires
        p <= t@.len(),
    ensures
        match read_from_email(t@.skip(p as int)) {
            Some((email, role, exp)) => r matches Some((b, c, d)) && b@ == email && c@ == role
                && d == exp,
            None => r is None,
        },
{
    let lit = [',', '"', 'e', 'm', 'a', 'i', 'l', '"', ':'];
    assert(lit@ =~= key_email());
    let _n = t.len();
    if !starts_with_at(t, p, &lit) {
        return None;
    }
    assert(t@.skip(p as int).skip(9) =~= t@.skip(p + 9));
    let (email, q) = match str_at_exec(t, p + 9) {
        Some(x) => x,
        None => {
            return None;
        },
    };
    assert(t@.skip(p + 9).skip(q - (p + 9)) =~= t@.skip(q as int));
    match read_from_role_exec(t, q) {
        Some((role, exp)) => Some((email, role, exp)),
        None => None,
    }
}

/// Reads the claims object field by field.
fn read_claims_exec(text: &str) -> (r: Option<(i64, String, String, usize)>)
    ensures
        match read_claims(text@) {
            Some((sub, email, role, exp)) => r matches Some((a, b, c, d)) && a == sub && b@
                == email && c@ == role && d == exp,
            None => r is None,
        },
{
    let t = chars_of(text);
    assert(t@.skip(0) =~= t@);
    let lit = ['{', '"', 's', 'u', 'b', '"', ':'];
    assert(lit@ =~= key_sub());
    if !starts_with_at(&t, 0, &lit) {
        return None;
    }
    let (sub, p) = match int_at_exec(&t, 7) {
        Some(x) => x,
        None => {
            return None;
        },
    };
    assert(t@.skip(7).skip(p - 7) =~= t@.skip(p as int));
    match read_from_email_exec(&t, p) {
        Some((email, role, exp)) => Some((sub, email, role, exp)),
        None => None,
    }
}

/// Different claims never give the same payload text.
pub proof fn lemma_claims_text_injective(
    a: (i64, Seq<char>, Seq<char>, usize),
    b: (i64, Seq<char>, Seq<char>, usize),
)
    requires
        claims_text(a.0, a.1, a.2, a.3) == claims_text(b.0, b.1, b.2, b.3),
    ensures
        a == b,
{
    lemma_read_claims_text(a.0, a.1, a.2, a.3);
    lemma_read_claims_text(b.0, b.1, b.2, b.3);
}

// ---------------------------------------------------------------------------
// the public encoder and decoder

/// The payload text for these claims: `{"sub":..,"email":..,"role":..,"exp":..}`.
pub fn encode_claims(sub: i64, email: &str, role: &str, exp: usize) -> (t: String)
    ensures
        t@ == claims_text(sub, email@, role@, exp),
{
    let mut out = String::new();
    let k1 = ['{', '"', 's', 'u', 'b', '"', ':'];
    let k2 = [',', '"', 'e', 'm', 'a', 'i', 'l', '"', ':'];
    let k3 = [',', '"', 'r', 'o', 'l', 'e', '"', ':'];
    let k4 = [',', '"', 'e', 'x', 'p', '"', ':'];
    assert(k1@ =~= key_sub());
    assert(k2@ =~= key_email());
    assert(k3@ =~= key_role());
    assert(k4@ =~= key_exp());
    push_all(&mut out, &k1);
    push_signed_decimal(&mut out, sub);
    push_all(&mut out, &k2);
    push_json_string(&mut out, email);
    push_all(&mut out, &k3);
    push_json_string(&mut out, role);
    push_all(&mut out, &k4);
    push_decimal(&mut out, exp as u64);
    push_char(&mut out, '}');
    assert(out@ =~= claims_text(sub, email@, role@, exp));
    out
}

/// Reads claims back from a payload text. Exactly the texts that `encode_claims`
/// produces are accepted, and each gives back the claims it was made from.
pub fn decode_claims(text: &str) -> (r: Option<(i64, String, String, usize)>)
    ensures
        forall|sub: i64, email: Seq<char>, role: Seq<char>, exp: usize|
            #![trigger claims_text(sub, email, role, exp)]
            (r matches Some((a, b, c, d)) && a == sub && b@ == email && c@ == role && d == exp)
                <==> claims_text(sub, email, role, exp) == text@,
{
    let read = read_claims_exec(text);
    let r = match read {
        Some((sub, email, role, exp)) => {
            let again = encode_claims(sub, email.as_str(), role.as_str(), exp);
            let given = text.to_owned();
            if again == given {
                Some((sub, email, role, exp))
            } else {
                None
            }
        },
        None => None,
    };
    proof {
        assert forall|sub: i64, email: Seq<char>, role: Seq<char>, exp: usize|
            #![trigger claims_text(sub, email, role, exp)]
            (r matches Some((a, b, c, d)) && a == sub && b@ == email && c@ == role && d == exp)
                <==> claims_text(sub, email, role, exp) == text@ by {
            lemma_read_claims_text(sub, email, role, exp);
            if let Some((a, b, c, d)) = r {
                lemma_read_claims_text(a, b@, c@, d);
            }
        }
    }
    r
}


// ---------------------------------------------------------------------------
// any JSON layout, read by serde_json

/// The members of a JSON object as serde_json reads it into a
/// `BTreeMap<String, Box<RawValue>>`: each key (unescaped) with the JSON text of
/// its value, in key order; `None` where the text is not such an object.
pub uninterp spec fn json_object_members(text: Seq<char>) -> Option<Seq<(Seq<char>, Seq<char>)>>;

/// What `serde_json::from_str::<i64>` reads from a JSON text.
pub uninterp spec fn json_i64(text: Seq<char>) -> Option<i64>;

/// What `serde_json::from_str::<String>` reads from a JSON text.
pub uninterp spec fn json_str_value(text: Seq<char>) -> Option<Seq<char>>;

/// What `serde_json::from_str::<usize>` reads from a JSON text.
pub uninterp spec fn json_usize(text: Seq<char>) -> Option<usize>;

/// What `serde_json::from_str::<(i64, String, String, usize)>` reads from a JSON
/// text: a four-element array.
pub uninterp spec fn json_claims_array(text: Seq<char>) -> Option<(i64, Seq<char>, Seq<char>, usize)>;

/// Calls `serde_json::from_str` into a `BTreeMap<String, Box<RawValue>>`, each
/// raw value taken as its text. Claims: the result is `json_object_members`.
#[verifier::external_body]
fn read_object_members(text: &str) -> (r: Option<Vec<(String, String)>>)
    ensures
        match json_object_members(text@) {
            Some(m) => r matches Some(v) && v@.len() == m.len() && forall|i: int|
                0 <= i < m.len() ==> (#[trigger] v@[i]).0@ == m[i].0 && v@[i].1@ == m[i].1,
            None => r is None,
        },
{
    serde_json::from_str::<std::collections::BTreeMap<String, Box<serde_json::value::RawValue>>>(
        text,
    ).ok().map(|m| m.into_iter().map(|(k, v)| (k, v.get().to_string())).collect())
}

/// Calls `serde_json::from_str::<i64>`. Claims: the result is `json_i64`.
#[verifier::external_body]
fn read_i64(text: &str) -> (r: Option<i64>)
    ensures
        r == json_i64(text@),
{
    serde_json::from_str::<i64>(text).ok()
}

/// Calls `serde_json::from_str::<String>`. Claims: the result is `json_str_value`.
#[verifier::external_body]
fn read_string(text: &str) -> (r: Option<String>)
    ensures
        match json_str_value(text@) {
            Some(x) => r matches Some(y) && y@ == x,
            None => r is None,
        },
{
    serde_json::from_str::<String>(text).ok()
}

/// Calls `serde_json::from_str::<usize>`. Claims: the result is `json_usize`.
#[verifier::external_body]
fn read_usize(text: &str) -> (r: Option<usize>)
    ensures
        r == json_usize(text@),
{
    serde_json::from_str::<usize>(text).ok()
}

/// Calls `serde_json::from_str::<(i64, String, String, usize)>`. Claims: the
/// result is `json_claims_array`.
#[verifier::external_body]
fn read_claims_array(text: &str) -> (r: Option<(i64, String, String, usize)>)
    ensures
        match json_claims_array(text@) {
            Some(c) => r matches Some(x) && x.0 == c.0 && x.1@ == c.1 && x.2@ == c.2 && x.3 == c.3,
            None => r is None,
        },
{
    serde_json::from_str::<(i64, String, String, usize)>(text).ok()
}

/// The value text of the first member under `key`.
pub open spec fn member(ms: Seq<(Seq<char>, Seq<char>)>, key: Seq<char>) -> Option<Seq<char>>
    decreases ms.len(),
{
    if ms.len() == 0 {
        None
    } else if ms[0].0 == key {
        Some(ms[0].1)
    } else {
        member(ms.drop_first(), key)
    }
}

pub open spec fn name_sub() -> Seq<char> {
    seq!['s', 'u', 'b']
}

pub open spec fn name_email() -> Seq<char> {
    seq!['e', 'm', 'a', 'i', 'l']
}

pub open spec fn name_role() -> Seq<char> {
    seq!['r', 'o', 'l', 'e']
}

pub open spec fn name_exp() -> Seq<char> {
    seq!['e', 'x', 'p']
}

/// The claims serde reads from a JSON text into a struct with the fields `sub`
/// (`i64`), `email`, `role` (strings) and `exp` (`usize`): an object holding
/// each of those keys with a value of its type (other keys are ignored), or an
/// array of the four values in that order.
pub open spec fn serde_claims(text: Seq<char>) -> Option<(i64, Seq<char>, Seq<char>, usize)> {
    match json_object_members(text) {
        Some(ms) => match (
            member(ms, name_sub()),
            member(ms, name_email()),
            member(ms, name_role()),
            member(ms, name_exp()),
        ) {
            (Some(a), Some(b), Some(c), Some(d)) => match (
                json_i64(a),
                json_str_value(b),
                json_str_value(c),
                json_usize(d),
            ) {
                (Some(w), Some(x), Some(y), Some(z)) => Some((w, x, y, z)),
                _ => None,
            },
            _ => None,
        },
        None => json_claims_array(text),
    }
}

fn find_member(ms: &Vec<(String, String)>, key: &str) -> (r: Option<usize>)
    ensures
        match member(ms@.map_values(|m: (String, String)| (m.0@, m.1@)), key@) {
            Some(v) => r matches Some(i) && i < ms@.len() && ms@[i as int].1@ == v,
            None => r is None,
        },
{
    let ghost all = ms@.map_values(|m: (String, String)| (m.0@, m.1@));
    assert(all.skip(0) =~= all);
    let mut i: usize = 0;
    while i < ms.len()
        invariant
            i <= ms@.len(),
            all == ms@.map_values(|m: (String, String)| (m.0@, m.1@)),
            member(all, key@) == member(all.skip(i as int), key@),
        decreases ms@.len() - i,
    {
        assert(all.skip(i as int).drop_first() =~= all.skip(i + 1));
        if crate::text::text_eq(ms[i].0.as_str(), key) {
            return Some(i);
        }
        i = i + 1;
    }
    assert(all.skip(i as int).len() == 0);
    None
}

/// Reads the claims from a payload in any JSON layout, as serde does.
pub fn read_claims_json(text: &str) -> (r: Option<(i64, String, String, usize)>)
    ensures
        match serde_claims(text@) {
            Some(c) => r matches Some(x) && x.0 == c.0 && x.1@ == c.1 && x.2@ == c.2 && x.3 == c.3,
            None => r is None,
        },
{
    let ms = match read_object_members(text) {
        Some(ms) => ms,
        None => {
            return read_claims_array(text);
        },
    };
    let ghost view = ms@.map_values(|m: (String, String)| (m.0@, m.1@));
    proof {
        assert(view =~= json_object_members(text@)->0);
        reveal_strlit("sub");
        reveal_strlit("email");
        reveal_strlit("role");
        reveal_strlit("exp");
        assert("sub"@ =~= name_sub());
        assert("email"@ =~= name_email());
        assert("role"@ =~= name_role());
        assert("exp"@ =~= name_exp());
    }
    let a = match find_member(&ms, "sub") {
        Some(i) => i,
        None => {
            return None;
        },
    };
    let b = match find_member(&ms, "email") {
        Some(i) => i,
        None => {
            return None;
        },
    };
    let c = match find_member(&ms, "role") {
        Some(i) => i,
        None => {
            return None;
        },
    };
    let d = match find_member(&ms, "exp") {
        Some(i) => i,
        None => {
            return None;
        },
    };
    let sub = match read_i64(ms[a].1.as_str()) {
        Some(x) => x,
        None => {
            return None;
        },
    };
    let email = match read_string(ms[b].1.as_str()) {
        Some(x) => x,
        None => {
            return None;
        },
    };
    let role = match read_string(ms[c].1.as_str()) {
        Some(x) => x,
        None => {
            return None;
        },
    };
    let exp = match read_usize(ms[d].1.as_str()) {
        Some(x) => x,
        None => {
            return None;
        },
    };
    Some((sub, email, role, exp))
}

} // verus!
