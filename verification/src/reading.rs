//! Reading compact JSON text back: a small reader for strings, integers,
//! arrays and objects. It is what shows that the messages the library
//! writes carry exactly the values they were built from.
use vstd::prelude::*;
use crate::json::comma_joined;
use crate::json::decimal;
use crate::json::digit;
use crate::json::escaped;
use crate::json::escaped_char;
use crate::json::hex_digit;
use crate::json::in_quotes;
use crate::json::json_array;
use crate::json::json_object;
use crate::json::json_quoted;
use crate::json::member;
use crate::json::members;
use crate::json::signed_decimal;

verus! {

/// A JSON value as a reader sees it.
pub enum JsonValue {
    /// `null`.
    Null,
    /// A string, its escapes decoded.
    Str(Seq<char>),
    /// An integer.
    Num(int),
    /// An array's items, in order.
    Arr(Seq<JsonValue>),
    /// An object's keys and values, in the order in which they are written.
    Obj(Seq<(Seq<char>, JsonValue)>),
}

/// The value of a hexadecimal digit, either case.
pub open spec fn hex_value(c: char) -> Option<int> {
    let n = c as int;
    if '0' as int <= n <= '9' as int {
        Some(n - '0' as int)
    } else if 'a' as int <= n <= 'f' as int {
        Some(n - 'a' as int + 10)
    } else if 'A' as int <= n <= 'F' as int {
        Some(n - 'A' as int + 10)
    } else {
        None
    }
}

/// The character that a two-character escape `\e` stands for.
pub open spec fn short_escape(e: char) -> Option<char> {
    if e == '"' {
        Some('"')
    } else if e == '\\' {
        Some('\\')
    } else if e == '/' {
        Some('/')
    } else if e == 'b' {
        Some('\u{8}')
    } else if e == 't' {
        Some('\t')
    } else if e == 'n' {
        Some('\n')
    } else if e == 'f' {
        Some('\u{c}')
    } else if e == 'r' {
        Some('\r')
    } else {
        None
    }
}

/// The escape at the start of `t`, which begins with a backslash: the
/// character it stands for and its length. A `\u` escape names a code
/// point of four hexadecimal digits outside the surrogates.
pub open spec fn escape_at(t: Seq<char>) -> Option<(char, int)> {
    if t.len() < 2 {
        None
    } else if t[1] == 'u' {
        if t.len() < 6 {
            None
        } else {
            match (hex_value(t[2]), hex_value(t[3]), hex_value(t[4]), hex_value(t[5])) {
                (Some(a), Some(b), Some(c), Some(d)) => {
                    let code = a * 4096 + b * 256 + c * 16 + d;
                    if code < 0xD800 || code > 0xDFFF {
                        Some(((code as u32) as char, 6))
                    } else {
                        None
                    }
                },
                _ => None,
            }
        }
    } else {
        match short_escape(t[1]) {
            Some(c) => Some((c, 2)),
            None => None,
        }
    }
}

/// Reads the rest of a string whose opening quote is already read: the
/// characters up to the closing quote, escapes decoded, and what follows
/// the closing quote.
pub open spec fn read_string_body(t: Seq<char>) -> Option<(Seq<char>, Seq<char>)>
    decreases t.len(),
{
    if t.len() == 0 {
        None
    } else if t[0] == '"' {
        Some((Seq::empty(), t.skip(1)))
    } else if t[0] == '\\' {
        match escape_at(t) {
            Some((c, n)) => {
                if 0 < n <= t.len() {
                    match read_string_body(t.skip(n)) {
                        Some((s, r)) => Some((seq![c] + s, r)),
                        None => None,
                    }
                } else {
                    None
                }
            },
            None => None,
        }
    } else {
        match read_string_body(t.skip(1)) {
            Some((s, r)) => Some((seq![t[0]] + s, r)),
            None => None,
        }
    }
}

/// A decimal digit.
pub open spec fn is_digit_char(c: char) -> bool {
    '0' as int <= c as int <= '9' as int
}

/// How many decimal digits `t` starts with.
pub open spec fn digit_run(t: Seq<char>) -> nat
    decreases t.len(),
{
    if t.len() > 0 && is_digit_char(t[0]) {
        1 + digit_run(t.skip(1))
    } else {
        0
    }
}

/// The number that the decimal digits `s` write.
pub open spec fn digits_value(s: Seq<char>) -> int
    decreases s.len(),
{
    if s.len() == 0 {
        0
    } else {
        digits_value(s.drop_last()) * 10 + (s.last() as int - '0' as int)
    }
}

/// Reads an integer at the start of `t`: an optional minus sign and the
/// longest run of decimal digits that follows it.
pub open spec fn read_number(t: Seq<char>) -> Option<(int, Seq<char>)> {
    let negative = t.len() > 0 && t[0] == '-';
    let u = if negative {
        t.skip(1)
    } else {
        t
    };
    let k = digit_run(u) as int;
    if k == 0 {
        None
    } else if negative {
        Some((-digits_value(u.take(k)), u.skip(k)))
    } else {
        Some((digits_value(u.take(k)), u.skip(k)))
    }
}

/// Reads a JSON value at the start of `t`, and what follows it.
pub open spec fn read_value(t: Seq<char>) -> Option<(JsonValue, Seq<char>)>
    decreases t.len(), 0nat,
{
    if t.len() == 0 {
        None
    } else if t[0] == '"' {
        match read_string_body(t.skip(1)) {
            Some((s, r)) => Some((JsonValue::Str(s), r)),
            None => None,
        }
    } else if t[0] == '[' {
        if t.len() > 1 && t[1] == ']' {
            Some((JsonValue::Arr(Seq::empty()), t.skip(2)))
        } else {
            match read_elements(t.skip(1)) {
                Some((items, r)) => Some((JsonValue::Arr(items), r)),
                None => None,
            }
        }
    } else if t[0] == '{' {
        if t.len() > 1 && t[1] == '}' {
            Some((JsonValue::Obj(Seq::empty()), t.skip(2)))
        } else {
            match read_members(t.skip(1)) {
                Some((fields, r)) => Some((JsonValue::Obj(fields), r)),
                None => None,
            }
        }
    } else if t.len() >= 4 && t[0] == 'n' && t[1] == 'u' && t[2] == 'l' && t[3] == 'l' {
        Some((JsonValue::Null, t.skip(4)))
    } else {
        match read_number(t) {
            Some((n, r)) => Some((JsonValue::Num(n), r)),
            None => None,
        }
    }
}

/// Reads the items of an array whose opening bracket is already read, up
/// to and including the closing bracket.
pub open spec fn read_elements(t: Seq<char>) -> Option<(Seq<JsonValue>, Seq<char>)>
    decreases t.len(), 1nat,
{
    match read_value(t) {
        Some((v, r)) => {
            if 0 < r.len() < t.len() {
                if r[0] == ']' {
                    Some((seq![v], r.skip(1)))
                } else if r[0] == ',' {
                    match read_elements(r.skip(1)) {
                        Some((vs, r2)) => Some((seq![v] + vs, r2)),
                        None => None,
                    }
                } else {
                    None
                }
            } else {
                None
            }
        },
        None => None,
    }
}

/// Reads the members of an object whose opening brace is already read, up
/// to and including the closing brace.
pub open spec fn read_members(t: Seq<char>) -> Option<(Seq<(Seq<char>, JsonValue)>, Seq<char>)>
    decreases t.len(), 1nat,
{
    if t.len() == 0 || t[0] != '"' {
        None
    } else {
        match read_string_body(t.skip(1)) {
            Some((k, r1)) => {
                if 0 < r1.len() < t.len() && r1[0] == ':' {
                    match read_value(r1.skip(1)) {
                        Some((v, r2)) => {
                            if 0 < r2.len() < r1.len() {
                                if r2[0] == '}' {
                                    Some((seq![(k, v)], r2.skip(1)))
                                } else if r2[0] == ',' {
                                    match read_members(r2.skip(1)) {
                                        Some((fs, r3)) => Some((seq![(k, v)] + fs, r3)),
                                        None => None,
                                    }
                                } else {
                                    None
                                }
                            } else {
                                None
                            }
                        },
                        None => None,
                    }
                } else {
                    None
                }
            },
            None => None,
        }
    }
}


proof fn lemma_escaped_append(a: Seq<char>, b: Seq<char>)
    ensures
        escaped(a + b) == escaped(a) + escaped(b),
    decreases b.len(),
{
    if b.len() == 0 {
        assert(a + b =~= a);
        assert(escaped(a) + escaped(b) =~= escaped(a));
    } else {
        lemma_escaped_append(a, b.drop_last());
        assert((a + b).drop_last() =~= a + b.drop_last());
        assert((a + b).last() == b.last());
        assert(escaped(a + b) =~= escaped(a) + escaped(b));
    }
}

proof fn lemma_hex_digit_value(d: nat)
    requires
        d < 16,
    ensures
        hex_value(hex_digit(d)) == Some(d as int),
{
}

/// Reading a character as the serializer escapes it gives the character
/// back, followed by whatever comes after it.
proof fn lemma_read_escaped_char(c: char, x: Seq<char>)
    ensures
        read_string_body(escaped_char(c) + x) == match read_string_body(x) {
            Some((s, r)) => Some((seq![c] + s, r)),
            None => None,
        },
{
    let e = escaped_char(c);
    let t = e + x;
    let n = c as int;
    assert(t.skip(e.len() as int) =~= x);
    if c == '"' || c == '\\' || n == 8 || n == 9 || n == 10 || n == 12 || n == 13 {
        assert(t[0] == '\\');
        assert(escape_at(t) == Some((c, 2int)));
    } else if n < 0x20 {
        lemma_hex_digit_value((n / 16) as nat);
        lemma_hex_digit_value((n % 16) as nat);
        assert(t[0] == '\\');
        assert(t[2] == '0' && t[3] == '0');
        assert(t[4] == hex_digit((n / 16) as nat));
        assert(t[5] == hex_digit((n % 16) as nat));
        let code = 0 * 4096 + 0 * 256 + (n / 16) * 16 + n % 16;
        assert(code == n);
        vstd::utf8::char_u32_cast(c, c as u32);
        assert(escape_at(t) == Some((c, 6int)));
    } else {
        assert(t[0] == c);
    }
}

/// Reading the escaped characters of `s` and a closing quote gives `s`
/// back and what follows the quote.
pub proof fn lemma_read_string_body(s: Seq<char>, rest: Seq<char>)
    ensures
        read_string_body(escaped(s) + seq!['"'] + rest) == Some((s, rest)),
    decreases s.len(),
{
    if s.len() == 0 {
        let t = escaped(s) + seq!['"'] + rest;
        assert(t =~= seq!['"'] + rest);
        assert(t.skip(1) =~= rest);
    } else {
        let head = seq![s[0]];
        let tail = s.skip(1);
        assert(s =~= head + tail);
        lemma_escaped_append(head, tail);
        assert(escaped(head) =~= escaped_char(s[0])) by {
            assert(head.drop_last() =~= Seq::<char>::empty());
            assert(head.last() == s[0]);
            assert(escaped(head.drop_last()) =~= Seq::<char>::empty());
            assert(escaped(head) == escaped(head.drop_last()) + escaped_char(head.last()));
        }
        lemma_read_string_body(tail, rest);
        let x = escaped(tail) + seq!['"'] + rest;
        lemma_read_escaped_char(s[0], x);
        assert(escaped(s) + seq!['"'] + rest =~= escaped_char(s[0]) + x);
        assert(seq![s[0]] + tail =~= s);
    }
}

/// A string, as the serializer writes it, reads back as that string,
/// whatever follows it.
pub proof fn lemma_read_quoted(s: Seq<char>, rest: Seq<char>)
    ensures
        read_value(json_quoted(s) + rest) == Some((JsonValue::Str(s), rest)),
{
    lemma_read_string_body(s, rest);
    let t = json_quoted(s) + rest;
    assert(t[0] == '"');
    assert(t.skip(1) =~= escaped(s) + seq!['"'] + rest);
}


/// The text that may follow a value inside an object or an array.
pub open spec fn is_closer(c: char) -> bool {
    c == ',' || c == '}' || c == ']'
}

proof fn lemma_digit(d: nat)
    requires
        d < 10,
    ensures
        is_digit_char(digit(d)),
        digit(d) as int - '0' as int == d,
{
}

proof fn lemma_decimal_digits(n: nat)
    ensures
        decimal(n).len() > 0,
        forall|i: int| 0 <= i < decimal(n).len() ==> is_digit_char(#[trigger] decimal(n)[i]),
        digits_value(decimal(n)) == n,
    decreases n,
{
    if n < 10 {
        lemma_digit(n);
        assert(decimal(n) =~= seq![digit(n)]);
        assert(decimal(n).drop_last() =~= Seq::<char>::empty());
        assert(digits_value(Seq::<char>::empty()) == 0);
        assert(decimal(n).last() == digit(n));
    } else {
        lemma_decimal_digits(n / 10);
        lemma_digit(n % 10);
        let d = decimal(n);
        assert(d == decimal(n / 10).push(digit(n % 10)));
        assert(d.drop_last() =~= decimal(n / 10));
        assert(forall|i: int| 0 <= i < decimal(n / 10).len() ==> d[i] == decimal(n / 10)[i]);
        assert(d.last() == digit(n % 10));
        assert((n / 10) * 10 + n % 10 == n) by (nonlinear_arith);
        assert(digits_value(d) == digits_value(d.drop_last()) * 10 + (d.last() as int - '0' as int));
    }
}

proof fn lemma_digit_run(s: Seq<char>, rest: Seq<char>)
    requires
        forall|i: int| 0 <= i < s.len() ==> is_digit_char(#[trigger] s[i]),
        rest.len() == 0 || !is_digit_char(rest[0]),
    ensures
        digit_run(s + rest) == s.len(),
    decreases s.len(),
{
    if s.len() == 0 {
        assert(s + rest =~= rest);
    } else {
        assert(forall|i: int| 0 <= i < s.skip(1).len() ==> s.skip(1)[i] == s[i + 1]);
        lemma_digit_run(s.skip(1), rest);
        assert((s + rest).skip(1) =~= s.skip(1) + rest);
        assert((s + rest)[0] == s[0]);
    }
}

proof fn lemma_read_decimal(n: nat, rest: Seq<char>)
    requires
        rest.len() == 0 || !is_digit_char(rest[0]),
    ensures
        digit_run(decimal(n) + rest) == decimal(n).len(),
        (decimal(n) + rest).take(decimal(n).len() as int) == decimal(n),
        (decimal(n) + rest).skip(decimal(n).len() as int) == rest,
        digits_value(decimal(n)) == n,
        is_digit_char((decimal(n) + rest)[0]),
{
    lemma_decimal_digits(n);
    lemma_digit_run(decimal(n), rest);
    assert((decimal(n) + rest).take(decimal(n).len() as int) =~= decimal(n));
    assert((decimal(n) + rest).skip(decimal(n).len() as int) =~= rest);
    assert(is_digit_char(decimal(n)[0]));
}

/// An integer, written in decimal, reads back as that integer when what
/// follows it does not start with a digit.
pub proof fn lemma_read_signed_decimal(n: int, rest: Seq<char>)
    requires
        rest.len() == 0 || !is_digit_char(rest[0]),
    ensures
        read_value(signed_decimal(n) + rest) == Some((JsonValue::Num(n), rest)),
{
    let t = signed_decimal(n) + rest;
    if n < 0 {
        let m = (-n) as nat;
        lemma_read_decimal(m, rest);
        assert(t =~= seq!['-'] + (decimal(m) + rest));
        assert(t.skip(1) =~= decimal(m) + rest);
        assert(t[0] == '-');
    } else {
        lemma_read_decimal(n as nat, rest);
        assert(t =~= decimal(n as nat) + rest);
        assert(t[0] != '-' && t[0] != '"' && t[0] != '[' && t[0] != '{');
    }
}


/// `text` reads as the value `v` whenever an object's or an array's
/// punctuation follows it.
pub open spec fn reads_as(text: Seq<char>, v: JsonValue) -> bool {
    &&& text.len() > 0
    &&& forall|rest: Seq<char>|
        rest.len() > 0 && is_closer(rest[0]) ==> #[trigger] read_value(text + rest) == Some((v, rest))
}

/// A key that needs no escaping: no quote, no backslash, no control
/// character.
pub open spec fn is_plain(k: Seq<char>) -> bool {
    forall|i: int| 0 <= i < k.len() ==> {
        let c = #[trigger] k[i];
        c != '"' && c != '\\' && c as int >= 0x20
    }
}

/// The keys of `fields`, each with the value read for it.
pub open spec fn keyed(fields: Seq<(Seq<char>, Seq<char>)>, vals: Seq<JsonValue>) -> Seq<
    (Seq<char>, JsonValue),
> {
    Seq::new(fields.len(), |i: int| (fields[i].0, vals[i]))
}

proof fn lemma_plain_escaped(k: Seq<char>)
    requires
        is_plain(k),
    ensures
        escaped(k) == k,
    decreases k.len(),
{
    if k.len() > 0 {
        assert(forall|i: int| 0 <= i < k.drop_last().len() ==> k.drop_last()[i] == k[i]);
        lemma_plain_escaped(k.drop_last());
        let c = k.last();
        assert(c == k[k.len() - 1]);
        assert(escaped_char(c) =~= seq![c]);
        assert(k.drop_last() + seq![c] =~= k);
    } else {
        assert(escaped(k) =~= k);
    }
}

proof fn lemma_comma_joined_front(items: Seq<Seq<char>>)
    requires
        items.len() >= 2,
    ensures
        comma_joined(items) == items[0] + seq![','] + comma_joined(items.skip(1)),
    decreases items.len(),
{
    if items.len() == 2 {
        assert(items.drop_last() =~= seq![items[0]]);
        assert(items.skip(1) =~= seq![items[1]]);
        assert(comma_joined(items.drop_last()) == items[0]);
        assert(comma_joined(items.skip(1)) == items[1]);
    } else {
        let init = items.drop_last();
        lemma_comma_joined_front(init);
        assert(init.skip(1) =~= items.skip(1).drop_last());
        assert(items.skip(1).last() == items.last());
        assert(init[0] == items[0]);
        assert(comma_joined(items.skip(1)) == comma_joined(items.skip(1).drop_last()) + seq![','] + items.skip(1).last());
    }
}

#[verifier::spinoff_prover]
proof fn lemma_read_member_step(k: Seq<char>, v: Seq<char>, val: JsonValue, x: Seq<char>)
    requires
        is_plain(k),
        reads_as(v, val),
        x.len() > 0,
        is_closer(x[0]),
    ensures
        read_members(member(k, v) + x) == (if x[0] == '}' {
            Some((seq![(k, val)], x.skip(1)))
        } else if x[0] == ',' {
            match read_members(x.skip(1)) {
                Some((fs, r3)) => Some((seq![(k, val)] + fs, r3)),
                None => None,
            }
        } else {
            None
        }),
        (member(k, v) + x)[0] == '"',
{
    let t = member(k, v) + x;
    let r1 = seq![':'] + v + x;
    assert(t =~= seq!['"'] + k + seq!['"'] + r1);
    lemma_plain_escaped(k);
    lemma_read_string_body(k, r1);
    assert(t.skip(1) =~= escaped(k) + seq!['"'] + r1);
    assert(r1.skip(1) =~= v + x);
    assert(read_value(v + x) == Some((val, x)));
    assert(read_string_body(t.skip(1)) == Some((k, r1)));
}

#[verifier::spinoff_prover]
proof fn lemma_read_members(
    fields: Seq<(Seq<char>, Seq<char>)>,
    vals: Seq<JsonValue>,
    rest: Seq<char>,
)
    requires
        fields.len() == vals.len(),
        fields.len() >= 1,
        forall|i: int| 0 <= i < fields.len() ==> is_plain(#[trigger] fields[i].0),
        forall|i: int| 0 <= i < fields.len() ==> reads_as(#[trigger] fields[i].1, vals[i]),
    ensures
        read_members(comma_joined(members(fields)) + seq!['}'] + rest) == Some((keyed(fields, vals), rest)),
        (comma_joined(members(fields)) + seq!['}'] + rest)[0] == '"',
    decreases fields.len(),
{
    let k0 = fields[0].0;
    let v0 = fields[0].1;
    let tail = fields.skip(1);
    let tail_members = comma_joined(members(tail));
    let x = if fields.len() == 1 {
        seq!['}'] + rest
    } else {
        seq![','] + tail_members + seq!['}'] + rest
    };
    let t = comma_joined(members(fields)) + seq!['}'] + rest;
    assert(members(fields)[0] == member(k0, v0));
    if fields.len() == 1 {
        assert(comma_joined(members(fields)) == members(fields)[0]);
    } else {
        lemma_comma_joined_front(members(fields));
        assert(members(fields).skip(1) =~= members(tail));
    }
    assert(t =~= member(k0, v0) + x);
    assert(is_plain(k0));
    assert(reads_as(v0, vals[0]));
    lemma_read_member_step(k0, v0, vals[0], x);
    if fields.len() == 1 {
        assert(x.skip(1) =~= rest);
        assert(keyed(fields, vals) =~= seq![(k0, vals[0])]);
    } else {
        let tv = vals.skip(1);
        assert forall|i: int| 0 <= i < tail.len() implies is_plain(#[trigger] tail[i].0) by {
            assert(tail[i] == fields[i + 1]);
        }
        assert forall|i: int| 0 <= i < tail.len() implies reads_as(#[trigger] tail[i].1, tv[i]) by {
            assert(tail[i] == fields[i + 1]);
            assert(tv[i] == vals[i + 1]);
        }
        lemma_read_members(tail, tv, rest);
        assert(x.skip(1) =~= tail_members + seq!['}'] + rest);
        assert(keyed(fields, vals) =~= seq![(k0, vals[0])] + keyed(tail, tv));
    }
}

/// An object whose keys need no escaping and whose values read as `vals`
/// reads back as those keys with those values, in order, whatever follows
/// it.
#[verifier::spinoff_prover]
pub proof fn lemma_read_object(
    fields: Seq<(Seq<char>, Seq<char>)>,
    vals: Seq<JsonValue>,
    rest: Seq<char>,
)
    requires
        fields.len() == vals.len(),
        forall|i: int| 0 <= i < fields.len() ==> is_plain(#[trigger] fields[i].0),
        forall|i: int| 0 <= i < fields.len() ==> reads_as(#[trigger] fields[i].1, vals[i]),
    ensures
        read_value(json_object(fields) + rest) == Some((JsonValue::Obj(keyed(fields, vals)), rest)),
        reads_as(json_object(fields), JsonValue::Obj(keyed(fields, vals))),
{
    assert forall|r: Seq<char>| #[trigger] read_value(json_object(fields) + r) == Some(
        (JsonValue::Obj(keyed(fields, vals)), r),
    ) by {
        let t = json_object(fields) + r;
        if fields.len() == 0 {
            assert(members(fields) =~= Seq::<Seq<char>>::empty());
            assert(t =~= seq!['{', '}'] + r);
            assert(t.skip(2) =~= r);
            assert(keyed(fields, vals) =~= Seq::<(Seq<char>, JsonValue)>::empty());
        } else {
            lemma_read_members(fields, vals, r);
            assert(t =~= seq!['{'] + (comma_joined(members(fields)) + seq!['}'] + r));
            assert(t.skip(1) =~= comma_joined(members(fields)) + seq!['}'] + r);
        }
    }
}

#[verifier::spinoff_prover]
proof fn lemma_read_elements(items: Seq<Seq<char>>, vals: Seq<JsonValue>, rest: Seq<char>)
    requires
        items.len() == vals.len(),
        items.len() >= 1,
        forall|i: int| 0 <= i < items.len() ==> reads_as(#[trigger] items[i], vals[i]),
    ensures
        read_elements(comma_joined(items) + seq![']'] + rest) == Some((vals, rest)),
        (comma_joined(items) + seq![']'] + rest)[0] != ']',
    decreases items.len(),
{
    let v0 = items[0];
    let x = if items.len() == 1 {
        seq![']'] + rest
    } else {
        seq![','] + comma_joined(items.skip(1)) + seq![']'] + rest
    };
    let t = comma_joined(items) + seq![']'] + rest;
    if items.len() == 1 {
        assert(comma_joined(items) == items[0]);
    } else {
        lemma_comma_joined_front(items);
    }
    assert(t =~= v0 + x);
    assert(reads_as(v0, vals[0]));
    assert(x.len() > 0 && is_closer(x[0]));
    assert(read_value(v0 + x) == Some((vals[0], x)));
    assert(read_value(v0 + seq![',']) == Some((vals[0], seq![','])));
    assert((v0 + seq![','])[0] == v0[0]);
    assert(t[0] == v0[0]);
    if items.len() == 1 {
        assert(x.skip(1) =~= rest);
        assert(vals =~= seq![vals[0]]);
    } else {
        let tail = items.skip(1);
        let tv = vals.skip(1);
        assert forall|i: int| 0 <= i < tail.len() implies reads_as(#[trigger] tail[i], tv[i]) by {
            assert(tail[i] == items[i + 1]);
            assert(tv[i] == vals[i + 1]);
        }
        lemma_read_elements(tail, tv, rest);
        assert(x.skip(1) =~= comma_joined(tail) + seq![']'] + rest);
        assert(vals =~= seq![vals[0]] + tv);
    }
}

/// An array whose items read as `vals` reads back as those values, in
/// order, whatever follows it.
#[verifier::spinoff_prover]
pub proof fn lemma_read_array(items: Seq<Seq<char>>, vals: Seq<JsonValue>, rest: Seq<char>)
    requires
        items.len() == vals.len(),
        forall|i: int| 0 <= i < items.len() ==> reads_as(#[trigger] items[i], vals[i]),
    ensures
        read_value(json_array(items) + rest) == Some((JsonValue::Arr(vals), rest)),
        reads_as(json_array(items), JsonValue::Arr(vals)),
{
    assert forall|r: Seq<char>| #[trigger] read_value(json_array(items) + r) == Some(
        (JsonValue::Arr(vals), r),
    ) by {
        let t = json_array(items) + r;
        if items.len() == 0 {
            assert(t =~= seq!['[', ']'] + r);
            assert(t.skip(2) =~= r);
            assert(vals =~= Seq::<JsonValue>::empty());
        } else {
            lemma_read_elements(items, vals, r);
            assert(t =~= seq!['['] + (comma_joined(items) + seq![']'] + r));
            assert(t.skip(1) =~= comma_joined(items) + seq![']'] + r);
        }
    }
}


/// A string, as the serializer writes it, reads as that string.
pub proof fn lemma_quoted_reads_as(s: Seq<char>)
    ensures
        reads_as(json_quoted(s), JsonValue::Str(s)),
{
    assert forall|rest: Seq<char>| #[trigger] read_value(json_quoted(s) + rest) == Some(
        (JsonValue::Str(s), rest),
    ) by {
        lemma_read_quoted(s, rest);
    }
}

/// An integer, written in decimal, reads as that integer.
pub proof fn lemma_decimal_reads_as(n: int)
    ensures
        reads_as(signed_decimal(n), JsonValue::Num(n)),
{
    assert forall|rest: Seq<char>| rest.len() > 0 && is_closer(rest[0]) implies #[trigger] read_value(
        signed_decimal(n) + rest,
    ) == Some((JsonValue::Num(n), rest)) by {
        lemma_read_signed_decimal(n, rest);
    }
    if n < 0 {
        assert(signed_decimal(n).len() > 0);
    } else {
        lemma_decimal_digits(n as nat);
    }
}


/// `null` reads as the null value.
pub proof fn lemma_null_reads_as()
    ensures
        reads_as("null"@, JsonValue::Null),
{
    reveal_strlit("null");
    assert forall|rest: Seq<char>| #[trigger] read_value("null"@ + rest) == Some((JsonValue::Null, rest)) by {
        let t = "null"@ + rest;
        assert(t[0] == 'n' && t[1] == 'u' && t[2] == 'l' && t[3] == 'l');
        assert(t.skip(4) =~= rest);
    }
}

}
