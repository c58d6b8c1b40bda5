//! The textual form of a tag list in the store: a JSON array of strings
//! in one column. Encoding and decoding are defined here character by
//! character, and decoding an encoded list gives the list back.

use vstd::prelude::*;

use crate::strutil::{push_char, str_to_chars, chars_to_string};

verus! {

/// Whether `c` is a hexadecimal digit.
pub open spec fn is_hex_char(c: char) -> bool {
    (48 <= c as int && c as int <= 57) || (97 <= c as int && c as int <= 102) || (65 <= c as int
        && c as int <= 70)
}

/// The numeric value of a hexadecimal digit.
pub open spec fn hex_val(c: char) -> int {
    if 48 <= c as int && c as int <= 57 {
        c as int - 48
    } else if 97 <= c as int && c as int <= 102 {
        c as int - 87
    } else {
        c as int - 55
    }
}

/// The lowercase hexadecimal digit for a value below sixteen.
pub open spec fn hex_char(d: int) -> char {
    if d == 0 {
        '0'
    } else if d == 1 {
        '1'
    } else if d == 2 {
        '2'
    } else if d == 3 {
        '3'
    } else if d == 4 {
        '4'
    } else if d == 5 {
        '5'
    } else if d == 6 {
        '6'
    } else if d == 7 {
        '7'
    } else if d == 8 {
        '8'
    } else if d == 9 {
        '9'
    } else if d == 10 {
        'a'
    } else if d == 11 {
        'b'
    } else if d == 12 {
        'c'
    } else if d == 13 {
        'd'
    } else if d == 14 {
        'e'
    } else {
        'f'
    }
}

/// How one character appears inside a JSON string: quotes and backslashes
/// get a backslash, control characters a four-digit escape, and everything
/// else stands for itself.
pub open spec fn escape_char(c: char) -> Seq<char> {
    if c == '"' {
        seq!['\\', '"']
    } else if c == '\\' {
        seq!['\\', '\\']
    } else if (c as u32) < 32 {
        seq!['\\', 'u', '0', '0', hex_char((c as u32 / 16) as int), hex_char((c as u32 % 16) as int)]
    } else {
        seq![c]
    }
}

/// The body of a JSON string: each character escaped, in order.
pub open spec fn encode_body(t: Seq<char>) -> Seq<char>
    decreases t.len(),
{
    if t.len() == 0 {
        Seq::empty()
    } else {
        escape_char(t[0]).add(encode_body(t.skip(1)))
    }
}

/// A whole JSON string, quotes included.
pub open spec fn encode_string(t: Seq<char>) -> Seq<char> {
    seq!['"'].add(encode_body(t)).add(seq!['"'])
}

/// The elements of a JSON array, comma separated, brackets not included.
pub open spec fn encode_list(l: Seq<Seq<char>>) -> Seq<char>
    decreases l.len(),
{
    if l.len() == 0 {
        Seq::empty()
    } else if l.len() == 1 {
        encode_string(l[0])
    } else {
        encode_string(l[0]).add(seq![',']).add(encode_list(l.skip(1)))
    }
}

/// The JSON form of a tag list.
pub open spec fn encode_tags_spec(l: Seq<Seq<char>>) -> Seq<char> {
    seq!['['].add(encode_list(l)).add(seq![']'])
}

/// The character an escape letter stands for, where one letter suffices.
pub open spec fn unescape_char(e: char) -> Option<char> {
    if e == '"' {
        Some('"')
    } else if e == '\\' {
        Some('\\')
    } else if e == '/' {
        Some('/')
    } else if e == 'b' {
        Some('\u{8}')
    } else if e == 'f' {
        Some('\u{C}')
    } else if e == 'n' {
        Some('\n')
    } else if e == 'r' {
        Some('\r')
    } else if e == 't' {
        Some('\t')
    } else {
        None
    }
}

/// Reads a JSON string from just after its opening quote: the decoded
/// characters, and what follows the closing quote. Surrogate escapes and
/// unknown escapes are rejected.
pub open spec fn parse_string(s: Seq<char>) -> Option<(Seq<char>, Seq<char>)>
    decreases s.len(),
{
    if s.len() == 0 {
        None
    } else if s[0] == '"' {
        Some((Seq::empty(), s.skip(1)))
    } else if s[0] == '\\' {
        if s.len() < 2 {
            None
        } else if s[1] == 'u' {
            if s.len() < 6 {
                None
            } else if !(is_hex_char(s[2]) && is_hex_char(s[3]) && is_hex_char(s[4]) && is_hex_char(
                s[5],
            )) {
                None
            } else {
                let code: u32 = (hex_val(s[2]) * 4096 + hex_val(s[3]) * 256 + hex_val(s[4]) * 16
                    + hex_val(s[5])) as u32;
                if 0xD800 <= code && code < 0xE000 {
                    None
                } else {
                    match parse_string(s.skip(6)) {
                        Some((c, rest)) => Some((seq![code as char].add(c), rest)),
                        None => None,
                    }
                }
            }
        } else {
            match unescape_char(s[1]) {
                Some(c0) => match parse_string(s.skip(2)) {
                    Some((c, rest)) => Some((seq![c0].add(c), rest)),
                    None => None,
                },
                None => None,
            }
        }
    } else {
        match parse_string(s.skip(1)) {
            Some((c, rest)) => Some((seq![s[0]].add(c), rest)),
            None => None,
        }
    }
}

/// A parsed string always ends strictly inside its input.
pub proof fn lemma_parse_string_shrinks(s: Seq<char>)
    ensures
        match parse_string(s) {
            Some((c, rest)) => rest.len() < s.len(),
            None => true,
        },
    decreases s.len(),
{
    if s.len() == 0 {
    } else if s[0] == '"' {
    } else if s[0] == '\\' {
        if s.len() >= 6 {
            lemma_parse_string_shrinks(s.skip(6));
        }
        if s.len() >= 2 {
            lemma_parse_string_shrinks(s.skip(2));
        }
    } else {
        lemma_parse_string_shrinks(s.skip(1));
    }
}

/// Reads the elements of a JSON array from the opening quote of the next
/// element up to, and including, the closing bracket, which must end the
/// input.
pub open spec fn parse_list(s: Seq<char>) -> Option<Seq<Seq<char>>>
    decreases s.len(),
    via parse_list_dec
{
    if s.len() == 0 || s[0] != '"' {
        None
    } else {
        match parse_string(s.skip(1)) {
            None => None,
            Some((c, rest)) => if rest.len() >= 1 && rest[0] == ',' {
                match parse_list(rest.skip(1)) {
                    Some(l) => Some(seq![c].add(l)),
                    None => None,
                }
            } else if rest.len() == 1 && rest[0] == ']' {
                Some(seq![c])
            } else {
                None
            },
        }
    }
}

#[via_fn]
proof fn parse_list_dec(s: Seq<char>) {
    if s.len() > 0 && s[0] == '"' {
        lemma_parse_string_shrinks(s.skip(1));
    }
}

/// The tag list a stored column value denotes, if it is well formed:
/// a JSON array of strings and nothing else.
pub open spec fn parse_tags_spec(s: Seq<char>) -> Option<Seq<Seq<char>>> {
    if s.len() < 2 || s[0] != '[' {
        None
    } else if s.len() == 2 && s[1] == ']' {
        Some(Seq::empty())
    } else {
        parse_list(s.skip(1))
    }
}

proof fn lemma_hex_val_of_hex_char(d: int)
    requires
        0 <= d < 16,
    ensures
        is_hex_char(hex_char(d)),
        hex_val(hex_char(d)) == d,
{
}

/// Decoding a string body, with anything after the closing quote, gives
/// back the characters and the trailing part.
proof fn lemma_parse_encoded_string(t: Seq<char>, tail: Seq<char>)
    ensures
        parse_string(encode_body(t).add(seq!['"']).add(tail)) == Some((t, tail)),
    decreases t.len(),
{
    let s = encode_body(t).add(seq!['"']).add(tail);
    if t.len() == 0 {
        assert(s =~= seq!['"'].add(tail));
        assert(s.skip(1) =~= tail);
    } else {
        let c = t[0];
        let e = escape_char(c);
        let s2 = encode_body(t.skip(1)).add(seq!['"']).add(tail);
        assert(s =~= e.add(s2));
        lemma_parse_encoded_string(t.skip(1), tail);
        if c == '"' || c == '\\' {
            assert(s[0] == '\\' && s.len() >= 2);
            assert(s[1] == c);
            assert(unescape_char(s[1]) == Some(c));
            assert(s.skip(2) =~= s2);
            assert(seq![c].add(t.skip(1)) =~= t);
        } else if (c as u32) < 32 {
            let cu = c as u32;
            assert(s[0] == '\\' && s[1] == 'u');
            assert(s.len() >= 6);
            assert(s[2] == '0' && s[3] == '0');
            assert(s[4] == hex_char((cu / 16) as int) && s[5] == hex_char((cu % 16) as int));
            lemma_hex_val_of_hex_char((cu / 16) as int);
            lemma_hex_val_of_hex_char((cu % 16) as int);
            assert(is_hex_char(s[2]) && is_hex_char(s[3]));
            assert(hex_val(s[2]) == 0 && hex_val(s[3]) == 0);
            let code: u32 = (hex_val(s[2]) * 4096 + hex_val(s[3]) * 256 + hex_val(s[4]) * 16
                + hex_val(s[5])) as u32;
            assert(code == c as u32);
            vstd::utf8::char_u32_cast(c, code);
            assert(code as char == c);
            assert(s.skip(6) =~= s2);
            assert(seq![c].add(t.skip(1)) =~= t);
        } else {
            assert(s[0] == c);
            assert(c != '"' && c != '\\');
            assert(s.skip(1) =~= s2);
            assert(seq![c].add(t.skip(1)) =~= t);
        }
    }
}

/// Decoding an encoded nonempty element list, closed by the bracket,
/// gives back the list.
proof fn lemma_parse_encoded_list(l: Seq<Seq<char>>)
    requires
        l.len() >= 1,
    ensures
        parse_list(encode_list(l).add(seq![']'])) == Some(l),
    decreases l.len(),
{
    let s = encode_list(l).add(seq![']']);
    if l.len() == 1 {
        assert(s =~= seq!['"'].add(encode_body(l[0]).add(seq!['"']).add(seq![']'])));
        assert(s[0] == '"');
        assert(s.skip(1) =~= encode_body(l[0]).add(seq!['"']).add(seq![']']));
        lemma_parse_encoded_string(l[0], seq![']']);
        assert(parse_string(s.skip(1)) == Some((l[0], seq![']'])));
        assert(seq![l[0]] =~= l);
    } else {
        let tail = seq![','].add(encode_list(l.skip(1))).add(seq![']']);
        assert(s =~= seq!['"'].add(encode_body(l[0]).add(seq!['"']).add(tail)));
        assert(s[0] == '"');
        assert(s.skip(1) =~= encode_body(l[0]).add(seq!['"']).add(tail));
        lemma_parse_encoded_string(l[0], tail);
        assert(parse_string(s.skip(1)) == Some((l[0], tail)));
        assert(tail[0] == ',');
        assert(tail.skip(1) =~= encode_list(l.skip(1)).add(seq![']']));
        lemma_parse_encoded_list(l.skip(1));
        assert(seq![l[0]].add(l.skip(1)) =~= l);
    }
}

/// Decoding is a left inverse of encoding: the stored column text written
/// for a tag list always reads back as exactly that list.
pub proof fn lemma_tags_round_trip(l: Seq<Seq<char>>)
    ensures
        parse_tags_spec(encode_tags_spec(l)) == Some(l),
{
    let s = encode_tags_spec(l);
    if l.len() == 0 {
        assert(s =~= seq!['[', ']']);
        assert(Some(Seq::<Seq<char>>::empty()) == Some(l));
    } else {
        assert(s[0] == '[');
        assert(encode_list(l).len() >= 2) by {
            assert(encode_list(l)[0] == '"');
            assert(encode_string(l[0]).len() >= 2);
        }
        assert(s.len() > 2);
        assert(s.skip(1) =~= encode_list(l).add(seq![']']));
        lemma_parse_encoded_list(l);
    }
}

fn hex_char_exec(d: u32) -> (c: char)
    requires
        d < 16,
    ensures
        c == hex_char(d as int),
{
    if d == 0 {
        '0'
    } else if d == 1 {
        '1'
    } else if d == 2 {
        '2'
    } else if d == 3 {
        '3'
    } else if d == 4 {
        '4'
    } else if d == 5 {
        '5'
    } else if d == 6 {
        '6'
    } else if d == 7 {
        '7'
    } else if d == 8 {
        '8'
    } else if d == 9 {
        '9'
    } else if d == 10 {
        'a'
    } else if d == 11 {
        'b'
    } else if d == 12 {
        'c'
    } else if d == 13 {
        'd'
    } else if d == 14 {
        'e'
    } else {
        'f'
    }
}

fn hex_val_exec(c: char) -> (d: u32)
    requires
        is_hex_char(c),
    ensures
        d == hex_val(c),
        d < 16,
{
    proof {
        vstd::utf8::char_is_scalar(c);
    }
    let u = c as u32;
    if u >= 97 {
        u - 87
    } else if u >= 65 {
        u - 55
    } else {
        u - 48
    }
}

fn is_hex_exec(c: char) -> (r: bool)
    ensures
        r == is_hex_char(c),
{
    ('0' <= c && c <= '9') || ('a' <= c && c <= 'f') || ('A' <= c && c <= 'F')
}

/// Relies on `char::from_u32`: a Unicode scalar value is a character.
#[verifier::external_body]
fn char_from_u32(code: u32) -> (r: char)
    requires
        code < 0xD800 || (0xE000 <= code && code <= 0x10FFFF),
    ensures
        r as u32 == code,
{
    char::from_u32(code).unwrap()
}

/// Appends the escaped body of one string.
fn push_escaped(out: &mut String, t: &String)
    ensures
        final(out)@ == old(out)@.add(encode_body(t@)),
{
    let v = str_to_chars(t.as_str());
    let mut j: usize = 0;
    proof {
        assert(t@.skip(0) =~= t@);
        assert(old(out)@.add(encode_body(t@)) =~= out@.add(encode_body(t@.skip(0))));
    }
    while j < v.len()
        invariant
            v@ == t@,
            j <= v@.len(),
            old(out)@.add(encode_body(t@)) == out@.add(encode_body(t@.skip(j as int))),
        decreases v@.len() - j,
    {
        let c = v[j];
        proof {
            assert(t@.skip(j as int)[0] == t@[j as int]);
            assert(t@.skip(j as int).skip(1) =~= t@.skip(j + 1));
            assert(encode_body(t@.skip(j as int)) == escape_char(c).add(encode_body(t@.skip(j + 1))));
        }
        if c == '"' {
            push_char(out, '\\');
            push_char(out, '"');
        } else if c == '\\' {
            push_char(out, '\\');
            push_char(out, '\\');
        } else {
            proof {
                vstd::utf8::char_is_scalar(c);
            }
            let u = c as u32;
            if u < 32 {
                push_char(out, '\\');
                push_char(out, 'u');
                push_char(out, '0');
                push_char(out, '0');
                push_char(out, hex_char_exec(u / 16));
                push_char(out, hex_char_exec(u % 16));
            } else {
                push_char(out, c);
            }
        }
        proof {
            assert(out@.add(encode_body(t@.skip(j + 1))) =~= old(out)@.add(encode_body(t@)));
        }
        j = j + 1;
    }
    proof {
        assert(t@.skip(v@.len() as int) =~= Seq::<char>::empty());
        assert(out@.add(Seq::<char>::empty()) =~= out@);
    }
}

/// Writes the stored column text for a tag list.
pub fn encode_tags(tags: &Vec<String>) -> (r: String)
    ensures
        r@ == encode_tags_spec(tags.deep_view()),
{
    let ghost l = tags.deep_view();
    let mut out = String::new();
    push_char(&mut out, '[');
    proof {
        assert(l.skip(0) =~= l);
        assert(out@.add(encode_list(l)).add(seq![']']) =~= encode_tags_spec(l));
    }
    let mut i: usize = 0;
    while i < tags.len()
        invariant
            l == tags.deep_view(),
            l.len() == tags@.len(),
            i <= tags@.len(),
            out@.add(encode_list(l.skip(i as int))).add(seq![']']) == encode_tags_spec(l),
        decreases tags@.len() - i,
    {
        proof {
            assert(l.skip(i as int)[0] == l[i as int]);
            assert(l.skip(i as int).skip(1) =~= l.skip(i + 1));
            assert(l[i as int] == tags@[i as int]@);
        }
        let ghost before = out@;
        push_char(&mut out, '"');
        push_escaped(&mut out, &tags[i]);
        push_char(&mut out, '"');
        if i + 1 < tags.len() {
            push_char(&mut out, ',');
            proof {
                assert(l.skip(i as int).len() >= 2);
                assert(encode_list(l.skip(i as int)) =~= encode_string(l[i as int]).add(
                    seq![','],
                ).add(encode_list(l.skip(i + 1))));
                assert(out@ =~= before.add(encode_string(l[i as int])).add(seq![',']));
                assert(out@.add(encode_list(l.skip(i + 1))).add(seq![']']) =~= before.add(
                    encode_list(l.skip(i as int)),
                ).add(seq![']']));
            }
        } else {
            proof {
                assert(l.skip(i as int).len() == 1);
                assert(encode_list(l.skip(i as int)) =~= encode_string(l[i as int]));
                assert(l.skip(i + 1).len() == 0);
                assert(encode_list(l.skip(i + 1)) =~= Seq::<char>::empty());
                assert(out@ =~= before.add(encode_string(l[i as int])));
                assert(out@.add(encode_list(l.skip(i + 1))).add(seq![']']) =~= before.add(
                    encode_list(l.skip(i as int)),
                ).add(seq![']']));
            }
        }
        i = i + 1;
    }
    proof {
        assert(l.skip(l.len() as int).len() == 0);
        assert(out@.add(encode_list(l.skip(l.len() as int))).add(seq![']']) =~= out@.add(
            seq![']'],
        ));
    }
    push_char(&mut out, ']');
    proof {
        assert(out@ =~= encode_tags_spec(l));
    }
    out
}

/// Reads one JSON string starting just after its opening quote; gives the
/// content and the position just after the closing quote.
fn parse_string_exec(v: &Vec<char>, start: usize) -> (r: Option<(Vec<char>, usize)>)
    requires
        start <= v@.len(),
    ensures
        match r {
            Some(p) => p.1 <= v@.len() && parse_string(v@.skip(start as int)) == Some(
                (p.0@, v@.skip(p.1 as int)),
            ),
            None => parse_string(v@.skip(start as int)) is None,
        },
{
    let mut acc: Vec<char> = Vec::new();
    let mut p: usize = start;
    proof {
        assert(acc@ =~= Seq::<char>::empty());
    }
    loop
        invariant
            start <= p <= v@.len(),
            match parse_string(v@.skip(p as int)) {
                Some(cr) => parse_string(v@.skip(start as int)) == Some(
                    (acc@.add(cr.0), cr.1),
                ),
                None => parse_string(v@.skip(start as int)) is None,
            },
        decreases v@.len() - p,
    {
        let ghost s = v@.skip(p as int);
        if p >= v.len() {
            proof {
                assert(s.len() == 0);
            }
            return None;
        }
        let c = v[p];
        proof {
            assert(s.len() == v@.len() - p);
            assert(s[0] == v@[p as int]);
            assert(s.skip(1) =~= v@.skip(p + 1));
        }
        if c == '"' {
            proof {
                assert(parse_string(s) == Some((Seq::<char>::empty(), v@.skip(p + 1))));
                assert(acc@.add(Seq::<char>::empty()) =~= acc@);
            }
            return Some((acc, p + 1));
        } else if c == '\\' {
            if p + 1 >= v.len() {
                proof {
                    assert(s.len() < 2);
                }
                return None;
            }
            let e = v[p + 1];
            proof {
                assert(s[1] == v@[p + 1]);
            }
            if e == 'u' {
                if v.len() - p < 6 {
                    proof {
                        assert(s.len() < 6);
                    }
                    return None;
                }
                proof {
                    assert(s[2] == v@[p + 2] && s[3] == v@[p + 3] && s[4] == v@[p + 4] && s[5]
                        == v@[p + 5]);
                    assert(s.skip(6) =~= v@.skip(p + 6));
                }
                let h1 = v[p + 2];
                let h2 = v[p + 3];
                let h3 = v[p + 4];
                let h4 = v[p + 5];
                if !(is_hex_exec(h1) && is_hex_exec(h2) && is_hex_exec(h3) && is_hex_exec(h4)) {
                    return None;
                }
                let code: u32 = hex_val_exec(h1) * 4096 + hex_val_exec(h2) * 256 + hex_val_exec(
                    h3,
                ) * 16 + hex_val_exec(h4);
                if 0xD800 <= code && code < 0xE000 {
                    return None;
                }
                let ch = char_from_u32(code);
                proof {
                    vstd::utf8::char_u32_cast(ch, code);
                    assert(code as char == ch);
                }
                acc.push(ch);
                p = p + 6;
            } else {
                let ch: char;
                if e == '"' {
                    ch = '"';
                } else if e == '\\' {
                    ch = '\\';
                } else if e == '/' {
                    ch = '/';
                } else if e == 'b' {
                    ch = '\u{8}';
                } else if e == 'f' {
                    ch = '\u{C}';
                } else if e == 'n' {
                    ch = '\n';
                } else if e == 'r' {
                    ch = '\r';
                } else if e == 't' {
                    ch = '\t';
                } else {
                    proof {
                        assert(unescape_char(e) is None);
                    }
                    return None;
                }
                proof {
                    assert(unescape_char(e) == Some(ch));
                    assert(s.skip(2) =~= v@.skip(p + 2));
                }
                acc.push(ch);
                p = p + 2;
            }
        } else {
            acc.push(c);
            p = p + 1;
        }
        proof {
            // one decoded character moved from the input to the accumulator
            match parse_string(v@.skip(p as int)) {
                Some(cr) => {
                    assert(acc@.drop_last().add(seq![acc@.last()].add(cr.0)) =~= acc@.add(cr.0));
                },
                None => {},
            }
        }
    }
}

/// Reads a stored column value back into a tag list, if it is well
/// formed; reports nothing otherwise.
pub fn decode_tags(s: &str) -> (r: Option<Vec<String>>)
    ensures
        match r {
            Some(l) => parse_tags_spec(s@) == Some(l.deep_view()),
            None => parse_tags_spec(s@) is None,
        },
{
    let v = str_to_chars(s);
    if v.len() < 2 {
        return None;
    }
    if v[0] != '[' {
        return None;
    }
    if v.len() == 2 && v[1] == ']' {
        let empty: Vec<String> = Vec::new();
        proof {
            assert(empty.deep_view() =~= Seq::<Seq<char>>::empty());
        }
        return Some(empty);
    }
    let mut out: Vec<String> = Vec::new();
    let mut cur: usize = 1;
    proof {
        assert(parse_tags_spec(s@) == parse_list(v@.skip(1)));
        assert(out.deep_view() =~= Seq::<Seq<char>>::empty());
    }
    loop
        invariant
            v@ == s@,
            v@.len() >= 2,
            1 <= cur <= v@.len(),
            parse_tags_spec(s@) == parse_list(v@.skip(1)),
            match parse_list(v@.skip(cur as int)) {
                Some(l2) => parse_list(v@.skip(1)) == Some(out.deep_view().add(l2)),
                None => parse_list(v@.skip(1)) is None,
            },
        decreases v@.len() - cur,
    {
        let ghost w = v@.skip(cur as int);
        if cur >= v.len() || v[cur] != '"' {
            proof {
                if w.len() > 0 {
                    assert(w[0] == v@[cur as int]);
                }
            }
            return None;
        }
        proof {
            assert(w[0] == v@[cur as int]);
            assert(w.skip(1) =~= v@.skip(cur + 1));
        }
        match parse_string_exec(&v, cur + 1) {
            None => {
                return None;
            },
            Some(cj) => {
                let (content, j) = cj;
                proof {
                    lemma_parse_string_shrinks(v@.skip(cur + 1));
                }
                let text = chars_to_string(&content);
                if j < v.len() && v[j] == ',' {
                    proof {
                        assert(v@.skip(j as int)[0] == v@[j as int]);
                        assert(v@.skip(j as int).skip(1) =~= v@.skip(j + 1));
                    }
                    out.push(text);
                    proof {
                        match parse_list(v@.skip(j + 1)) {
                            Some(l2) => {
                                assert(parse_list(w) == Some(seq![content@].add(l2)));
                                assert(out.deep_view() =~= out.deep_view().drop_last().push(
                                    content@,
                                ));
                                assert(out.deep_view().drop_last().add(seq![content@].add(l2))
                                    =~= out.deep_view().add(l2));
                            },
                            None => {
                                assert(parse_list(w) is None);
                            },
                        }
                    }
                    cur = j + 1;
                } else if j == v.len() - 1 && v[j] == ']' {
                    proof {
                        assert(v@.skip(j as int).len() == 1);
                        assert(v@.skip(j as int)[0] == v@[j as int]);
                        assert(parse_list(w) == Some(seq![content@]));
                    }
                    out.push(text);
                    proof {
                        assert(out.deep_view() =~= out.deep_view().drop_last().push(content@));
                        assert(out.deep_view().drop_last().add(seq![content@]) =~= out.deep_view());
                    }
                    return Some(out);
                } else {
                    proof {
                        assert(v@.skip(j as int).len() == v@.len() - j);
                        if v@.len() - j >= 1 {
                            assert(v@.skip(j as int)[0] == v@[j as int]);
                        }
                        assert(parse_list(w) is None);
                    }
                    return None;
                }
            },
        }
    }
}

/// The tag list a stored column denotes; a malformed column reads as no
/// tags at all.
pub fn decode_tags_or_empty(s: &str) -> (r: Vec<String>)
    ensures
        r.deep_view() == match parse_tags_spec(s@) {
            Some(l) => l,
            None => Seq::<Seq<char>>::empty(),
        },
{
    match decode_tags(s) {
        Some(l) => l,
        None => {
            let empty: Vec<String> = Vec::new();
            proof {
                assert(empty.deep_view() =~= Seq::<Seq<char>>::empty());
            }
            empty
        },
    }
}

} // verus!
