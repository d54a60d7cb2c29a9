//! Framing of the compact JSON text that the swarm's messages are made of.
//!
//! String values go through `serde_json`, which escapes them; objects,
//! arrays and integers are framed here, in the order in which `serde_json`
//! writes them.
use vstd::prelude::*;

verus! {

/// A lowercase hexadecimal digit for `d < 16`.
pub open spec fn hex_digit(d: nat) -> char {
    if d < 10 {
        digit(d)
    } else if d == 10 {
        'a'
    } else if d == 11 {
        'b'
    } else if d == 12 {
        'c'
    } else if d == 13 {
        'd'
    } else if d == 14 {
        'e'
    } else {
        'f'
    }
}

/// How `serde_json` writes the character `c` inside a string: a quote or a
/// backslash gets a backslash before it; backspace, tab, line feed, form
/// feed and carriage return become `\b`, `\t`, `\n`, `\f` and `\r`; any
/// other character below U+0020 becomes `\u00` and two lowercase
/// hexadecimal digits; every other character stays as it is.
pub open spec fn escaped_char(c: char) -> Seq<char> {
    let n = c as int;
    if c == '"' {
        seq!['\\', '"']
    } else if c == '\\' {
        seq!['\\', '\\']
    } else if n == 8 {
        seq!['\\', 'b']
    } else if n == 9 {
        seq!['\\', 't']
    } else if n == 10 {
        seq!['\\', 'n']
    } else if n == 12 {
        seq!['\\', 'f']
    } else if n == 13 {
        seq!['\\', 'r']
    } else if n < 0x20 {
        seq!['\\', 'u', '0', '0', hex_digit((n / 16) as nat), hex_digit((n % 16) as nat)]
    } else {
        seq![c]
    }
}

/// The characters of `s`, each as `serde_json` writes it inside a string.
pub open spec fn escaped(s: Seq<char>) -> Seq<char>
    decreases s.len(),
{
    if s.len() == 0 {
        seq![]
    } else {
        escaped(s.drop_last()) + escaped_char(s.last())
    }
}

/// `s` between double quotes.
pub open spec fn in_quotes(s: Seq<char>) -> Seq<char> {
    seq!['"'] + s + seq!['"']
}

/// What `serde_json` writes for a string value `s`: its characters, each
/// escaped, between double quotes.
pub open spec fn json_quoted(s: Seq<char>) -> Seq<char> {
    in_quotes(escaped(s))
}

/// The JSON string for `s`, as `serde_json::to_string` writes it for a
/// `&str`.
///
/// Trusted: `serde_json::to_string`. The contract states the escaping that
/// `serde_json`'s serializer applies (its escape table and its escapes for
/// control characters). Serializing a `str` into a `Vec` cannot fail, so the
/// error arm is never taken.
#[verifier::external_body]
pub(crate) fn quote(s: &str) -> (r: String)
    ensures
        r@ == json_quoted(s@),
{
    match serde_json::to_string(s) {
        Ok(t) => t,
        Err(_) => String::new(),
    }
}

/// One member of an object: the key between quotes, a colon, the value's
/// JSON text.
pub open spec fn member(key: Seq<char>, value: Seq<char>) -> Seq<char> {
    in_quotes(key) + seq![':'] + value
}

/// Texts joined by commas.
pub open spec fn comma_joined(items: Seq<Seq<char>>) -> Seq<char>
    decreases items.len(),
{
    if items.len() == 0 {
        seq![]
    } else if items.len() == 1 {
        items[0]
    } else {
        comma_joined(items.drop_last()) + seq![','] + items.last()
    }
}

/// The members of an object, each a key and a value's JSON text.
pub open spec fn members(fields: Seq<(Seq<char>, Seq<char>)>) -> Seq<Seq<char>> {
    fields.map_values(|f: (Seq<char>, Seq<char>)| member(f.0, f.1))
}

/// A compact JSON object with the given members in the given order.
pub open spec fn json_object(fields: Seq<(Seq<char>, Seq<char>)>) -> Seq<char> {
    seq!['{'] + comma_joined(members(fields)) + seq!['}']
}

/// A compact JSON array of the given JSON texts.
pub open spec fn json_array(items: Seq<Seq<char>>) -> Seq<char> {
    seq!['['] + comma_joined(items) + seq![']']
}

/// The views of key and value pairs.
pub open spec fn pair_views(v: Seq<(String, String)>) -> Seq<(Seq<char>, Seq<char>)> {
    v.map_values(|p: (String, String)| (p.0@, p.1@))
}

/// The views of strings.
pub open spec fn string_views(v: Seq<String>) -> Seq<Seq<char>> {
    v.map_values(|s: String| s@)
}

proof fn lemma_comma_joined_step(items: Seq<Seq<char>>, i: int)
    requires
        0 < i < items.len(),
    ensures
        comma_joined(items.take(i + 1)) == comma_joined(items.take(i)) + seq![','] + items[i],
{
    assert(items.take(i + 1).drop_last() =~= items.take(i));
}

/// Joins JSON texts with commas.
fn join_commas(out: &mut String, items: &Vec<String>)
    ensures
        final(out)@ == old(out)@ + comma_joined(string_views(items@)),
{
    let ghost start = out@;
    let ghost views = string_views(items@);
    let mut i: usize = 0;
    while i < items.len()
        invariant
            i <= items.len(),
            views == string_views(items@),
            out@ == start + comma_joined(views.take(i as int)),
        decreases items.len() - i,
    {
        if i > 0 {
            out.append(",");
            proof {
                reveal_strlit(",");
                lemma_comma_joined_step(views, i as int);
            }
        } else {
            assert(views.take(1) =~= seq![views[0]]);
        }
        out.append(items[i].as_str());
        assert(out@ == start + comma_joined(views.take(i + 1))) by {
            if i > 0 {
                lemma_comma_joined_step(views, i as int);
            }
        }
        i = i + 1;
    }
    assert(views.take(items.len() as int) =~= views);
}

/// The compact JSON object with the given members, each a key and the JSON
/// text of its value, in the given order.
pub fn object_text(fields: &Vec<(String, String)>) -> (r: String)
    ensures
        r@ == json_object(pair_views(fields@)),
{
    let mut items: Vec<String> = Vec::new();
    let mut i: usize = 0;
    while i < fields.len()
        invariant
            i <= fields.len(),
            string_views(items@) == members(pair_views(fields@)).take(i as int),
        decreases fields.len() - i,
    {
        let mut m = String::from_str("\"");
        m.append(fields[i].0.as_str());
        m.append("\":");
        m.append(fields[i].1.as_str());
        proof {
            reveal_strlit("\"");
            reveal_strlit("\":");
            assert(m@ =~= member(fields@[i as int].0@, fields@[i as int].1@));
        }
        let ghost before = items@;
        items.push(m);
        assert(string_views(items@) =~= string_views(before).push(m@));
        assert(pair_views(fields@)[i as int] == (fields@[i as int].0@, fields@[i as int].1@));
        assert(members(pair_views(fields@))[i as int] == m@);
        assert(string_views(items@) =~= members(pair_views(fields@)).take(i + 1));
        i = i + 1;
    }
    assert(members(pair_views(fields@)).take(fields.len() as int) =~= members(
        pair_views(fields@),
    ));
    let mut out = String::from_str("{");
    join_commas(&mut out, &items);
    out.append("}");
    proof {
        reveal_strlit("{");
        reveal_strlit("}");
        assert(out@ =~= json_object(pair_views(fields@)));
    }
    out
}

/// The compact JSON array of the given JSON texts.
pub fn array_text(items: &Vec<String>) -> (r: String)
    ensures
        r@ == json_array(string_views(items@)),
{
    let mut out = String::from_str("[");
    join_commas(&mut out, items);
    out.append("]");
    proof {
        reveal_strlit("[");
        reveal_strlit("]");
        assert(out@ =~= json_array(string_views(items@)));
    }
    out
}

/// The decimal digit for `d`.
pub open spec fn digit(d: nat) -> char {
    if d == 0 {
        '0'
    } else if d == 1 {
        '1'
    } else if d == 2 {
        '2'
    } else if d == 3 {
        '3'
    } else if d == 4 {
        '4'
    } else if d == 5 {
        '5'
    } else if d == 6 {
        '6'
    } else if d == 7 {
        '7'
    } else if d == 8 {
        '8'
    } else {
        '9'
    }
}

/// The decimal notation of `n`, without leading zeros.
pub open spec fn decimal(n: nat) -> Seq<char>
    decreases n,
{
    if n < 10 {
        seq![digit(n)]
    } else {
        decimal(n / 10).push(digit(n % 10))
    }
}

/// The decimal notation of an integer, with a minus sign when negative.
pub open spec fn signed_decimal(n: int) -> Seq<char> {
    if n < 0 {
        seq!['-'] + decimal((-n) as nat)
    } else {
        decimal(n as nat)
    }
}

fn digit_text(d: u64) -> (r: String)
    requires
        d < 10,
    ensures
        r@ == seq![digit(d as nat)],
{
    let r = if d == 0 {
        String::from_str("0")
    } else if d == 1 {
        String::from_str("1")
    } else if d == 2 {
        String::from_str("2")
    } else if d == 3 {
        String::from_str("3")
    } else if d == 4 {
        String::from_str("4")
    } else if d == 5 {
        String::from_str("5")
    } else if d == 6 {
        String::from_str("6")
    } else if d == 7 {
        String::from_str("7")
    } else if d == 8 {
        String::from_str("8")
    } else {
        String::from_str("9")
    };
    proof {
        reveal_strlit("0");
        reveal_strlit("1");
        reveal_strlit("2");
        reveal_strlit("3");
        reveal_strlit("4");
        reveal_strlit("5");
        reveal_strlit("6");
        reveal_strlit("7");
        reveal_strlit("8");
        reveal_strlit("9");
    }
    assert(r@ =~= seq![digit(d as nat)]);
    r
}

/// The decimal notation of `n`, as a JSON number.
pub fn decimal_text(n: u64) -> (r: String)
    ensures
        r@ == decimal(n as nat),
    decreases n,
{
    if n < 10 {
        digit_text(n)
    } else {
        let mut r = decimal_text(n / 10);
        let d = digit_text(n % 10);
        r.append(d.as_str());
        assert(r@ =~= decimal(n as nat));
        r
    }
}

/// The decimal notation of a signed integer, as a JSON number.
pub fn signed_decimal_text(n: i32) -> (r: String)
    ensures
        r@ == signed_decimal(n as int),
{
    if n < 0 {
        let m: i64 = n as i64;
        let mut r = String::from_str("-");
        let digits = decimal_text((-m) as u64);
        r.append(digits.as_str());
        proof {
            reveal_strlit("-");
        }
        assert(r@ =~= signed_decimal(n as int));
        r
    } else {
        decimal_text(n as u64)
    }
}

}
