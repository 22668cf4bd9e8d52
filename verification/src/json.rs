//! JSON encoding of the strings the backend puts on the wire.
//!
//! Comment text and room names are unvalidated, so quote, backslash and
//! control characters must be escaped before they are interpolated into a
//! payload; everything here states exactly which characters come out.

use vstd::prelude::*;
use vstd::string::StrSliceExecFns;
use vstd::string::StringExecFns;

verus! {

/// The lower-case hexadecimal digit for a value below sixteen.
pub open spec fn hex_digit(n: int) -> char {
    if n == 0 {
        '0'
    } else if n == 1 {
        '1'
    } else if n == 2 {
        '2'
    } else if n == 3 {
        '3'
    } else if n == 4 {
        '4'
    } else if n == 5 {
        '5'
    } else if n == 6 {
        '6'
    } else if n == 7 {
        '7'
    } else if n == 8 {
        '8'
    } else if n == 9 {
        '9'
    } else if n == 10 {
        'a'
    } else if n == 11 {
        'b'
    } else if n == 12 {
        'c'
    } else if n == 13 {
        'd'
    } else if n == 14 {
        'e'
    } else {
        'f'
    }
}

/// How one character appears inside a JSON string literal: quote and
/// backslash get a backslash escape, control characters use the `\u00XX`
/// form, and every other character stands as itself.
pub open spec fn escaped_char(c: char) -> Seq<char> {
    let n = c as u32;
    if c == '"' {
        seq!['\\', '"']
    } else if c == '\\' {
        seq!['\\', '\\']
    } else if n < 32 {
        seq!['\\', 'u', '0', '0', hex_digit(n as int / 16), hex_digit(n as int % 16)]
    } else {
        seq![c]
    }
}

/// The body of the JSON string literal for `s`: each character escaped,
/// in order.
pub open spec fn escaped(s: Seq<char>) -> Seq<char>
    decreases s.len(),
{
    if s.len() == 0 {
        Seq::empty()
    } else {
        escaped(s.drop_last()) + escaped_char(s.last())
    }
}

/// The JSON string literal for `s`: the escaped text between double quotes.
pub open spec fn json_string(s: Seq<char>) -> Seq<char> {
    seq!['"'] + escaped(s) + seq!['"']
}

/// The items joined by commas, with no separator before the first item and
/// none after the last.
pub open spec fn comma_joined(items: Seq<Seq<char>>) -> Seq<char>
    decreases items.len(),
{
    if items.len() == 0 {
        Seq::empty()
    } else if items.len() == 1 {
        items[0]
    } else {
        comma_joined(items.drop_last()) + seq![','] + items.last()
    }
}

/// A JSON array: the items joined by commas between brackets; `[]` when
/// there are no items.
pub open spec fn json_array(items: Seq<Seq<char>>) -> Seq<char> {
    seq!['['] + comma_joined(items) + seq![']']
}

/// A JSON array whose items are the string literals for `strings`.
pub open spec fn json_string_array(strings: Seq<Seq<char>>) -> Seq<char> {
    json_array(strings.map_values(|s: Seq<char>| json_string(s)))
}

/// The event pushed to each member connection when a comment arrives:
/// an object with the fixed topic `comment`, the room name and the comment
/// text, both as properly escaped JSON strings.
pub open spec fn comment_event(room: Seq<char>, comment: Seq<char>) -> Seq<char> {
    "{\"topic\":\"comment\",\"room\":"@ + json_string(room) + ",\"comment\":"@ + json_string(
        comment,
    ) + "}"@
}

/// One room on the room-list endpoint: its name and its members, but none
/// of its internal state.
pub open spec fn room_summary_json(name: Seq<char>, members: Seq<Seq<char>>) -> Seq<char> {
    "{\"name\":"@ + json_string(name) + ",\"members\":"@ + json_string_array(members) + "}"@
}

/// One room on the room endpoint: name, members and the full comment log.
pub open spec fn room_detail_json(
    name: Seq<char>,
    members: Seq<Seq<char>>,
    comments: Seq<Seq<char>>,
) -> Seq<char> {
    "{\"name\":"@ + json_string(name) + ",\"members\":"@ + json_string_array(members)
        + ",\"comments\":"@ + json_string_array(comments) + "}"@
}

/// Relies on `String::push`: appends the given character to the end of
/// the string.
#[verifier::external_body]
fn push_char(s: &mut String, c: char)
    ensures
        final(s)@ == old(s)@ + seq![c],
{
    s.push(c);
}

fn hex_digit_char(n: u32) -> (c: char)
    requires
        n < 16,
    ensures
        c == hex_digit(n as int),
{
    if n == 0 {
        '0'
    } else if n == 1 {
        '1'
    } else if n == 2 {
        '2'
    } else if n == 3 {
        '3'
    } else if n == 4 {
        '4'
    } else if n == 5 {
        '5'
    } else if n == 6 {
        '6'
    } else if n == 7 {
        '7'
    } else if n == 8 {
        '8'
    } else if n == 9 {
        '9'
    } else if n == 10 {
        'a'
    } else if n == 11 {
        'b'
    } else if n == 12 {
        'c'
    } else if n == 13 {
        'd'
    } else if n == 14 {
        'e'
    } else {
        'f'
    }
}

fn push_escaped_char(out: &mut String, c: char)
    ensures
        final(out)@ == old(out)@ + escaped_char(c),
{
    let n = c as u32;
    if c == '"' {
        out.append("\\\"");
        proof {
            reveal_strlit("\\\"");
            assert(out@ =~= old(out)@ + escaped_char(c));
        }
    } else if c == '\\' {
        out.append("\\\\");
        proof {
            reveal_strlit("\\\\");
            assert(out@ =~= old(out)@ + escaped_char(c));
        }
    } else if n < 32 {
        push_char(out, '\\');
        push_char(out, 'u');
        push_char(out, '0');
        push_char(out, '0');
        push_char(out, hex_digit_char(n / 16));
        push_char(out, hex_digit_char(n % 16));
        proof {
            assert(out@ =~= old(out)@ + escaped_char(c));
        }
    } else {
        push_char(out, c);
        proof {
            assert(out@ =~= old(out)@ + escaped_char(c));
        }
    }
}

/// Appends the JSON string literal for `s` to `out`.
pub fn push_json_string(out: &mut String, s: &str)
    ensures
        final(out)@ == old(out)@ + json_string(s@),
{
    push_char(out, '"');
    let n = s.unicode_len();
    let mut i: usize = 0;
    while i < n
        invariant
            n == s@.len(),
            i <= n,
            out@ == old(out)@ + seq!['"'] + escaped(s@.subrange(0, i as int)),
        decreases n - i,
    {
        let c = s.get_char(i);
        push_escaped_char(out, c);
        proof {
            assert(s@.subrange(0, i as int + 1).drop_last() =~= s@.subrange(0, i as int));
            assert(s@.subrange(0, i as int + 1).last() == c);
            assert(out@ =~= old(out)@ + seq!['"'] + escaped(s@.subrange(0, i as int + 1)));
        }
        i = i + 1;
    }
    push_char(out, '"');
    proof {
        assert(s@.subrange(0, n as int) =~= s@);
        assert(out@ =~= old(out)@ + json_string(s@));
    }
}

/// The JSON string literal for one string.
pub fn json_string_of(s: &str) -> (r: String)
    ensures
        r@ == json_string(s@),
{
    let mut out = String::new();
    push_json_string(&mut out, s);
    proof {
        assert(out@ =~= json_string(s@));
    }
    out
}

/// Appends the JSON array of string literals for `items` to `out`.
pub fn push_json_string_array(out: &mut String, items: &Vec<String>)
    ensures
        final(out)@ == old(out)@ + json_string_array(items.deep_view()),
{
    let ghost lits = items.deep_view().map_values(|s: Seq<char>| json_string(s));
    push_char(out, '[');
    let n = items.len();
    let mut i: usize = 0;
    while i < n
        invariant
            n == items@.len(),
            i <= n,
            lits == items.deep_view().map_values(|s: Seq<char>| json_string(s)),
            lits.len() == n,
            out@ == old(out)@ + seq!['['] + comma_joined(lits.subrange(0, i as int)),
        decreases n - i,
    {
        if i > 0 {
            out.append(",");
            proof {
                reveal_strlit(",");
            }
        }
        push_json_string(out, items[i].as_str());
        proof {
            assert(items.deep_view()[i as int] == items@[i as int]@);
            assert(lits[i as int] == json_string(items@[i as int]@));
            if i == 0 {
                assert(lits.subrange(0, 1) =~= seq![lits[0]]);
                assert(comma_joined(seq![lits[0]]) == lits[0]);
                assert(out@ =~= old(out)@ + seq!['['] + comma_joined(lits.subrange(0, 1)));
            } else {
                assert(lits.subrange(0, i as int + 1).drop_last() =~= lits.subrange(0, i as int));
                assert(lits.subrange(0, i as int + 1).last() == lits[i as int]);
                assert(out@ =~= old(out)@ + seq!['['] + comma_joined(lits.subrange(0, i as int + 1)));
            }
        }
        i = i + 1;
    }
    push_char(out, ']');
    proof {
        assert(lits.subrange(0, n as int) =~= lits);
        assert(out@ =~= old(out)@ + json_string_array(items.deep_view()));
    }
}

/// The JSON array of string literals for `items`; `[]` when `items` is empty.
pub fn json_string_array_of(items: &Vec<String>) -> (r: String)
    ensures
        r@ == json_string_array(items.deep_view()),
        items@.len() == 0 ==> r@ == "[]"@,
{
    let mut out = String::new();
    push_json_string_array(&mut out, items);
    proof {
        assert(out@ =~= json_string_array(items.deep_view()));
        if items@.len() == 0 {
            reveal_strlit("[]");
            assert(items.deep_view().map_values(|s: Seq<char>| json_string(s)).len() == 0);
            assert(out@ =~= "[]"@);
        }
    }
    out
}

/// The comment event payload for a comment posted to a room.
pub fn comment_event_of(room: &str, comment: &str) -> (r: String)
    ensures
        r@ == comment_event(room@, comment@),
{
    let mut out = String::from_str("{\"topic\":\"comment\",\"room\":");
    push_json_string(&mut out, room);
    out.append(",\"comment\":");
    push_json_string(&mut out, comment);
    out.append("}");
    proof {
        assert(out@ =~= comment_event(room@, comment@));
    }
    out
}

/// Appends the room-list entry for one room to `out`.
pub fn push_room_summary(out: &mut String, name: &str, members: &Vec<String>)
    ensures
        final(out)@ == old(out)@ + room_summary_json(name@, members.deep_view()),
{
    out.append("{\"name\":");
    push_json_string(out, name);
    out.append(",\"members\":");
    push_json_string_array(out, members);
    out.append("}");
    proof {
        assert(out@ =~= old(out)@ + room_summary_json(name@, members.deep_view()));
    }
}

/// The room-detail object: name, members and the full comment log.
pub fn room_detail_json_of(name: &str, members: &Vec<String>, comments: &Vec<String>) -> (r:
    String)
    ensures
        r@ == room_detail_json(name@, members.deep_view(), comments.deep_view()),
{
    let mut out = String::from_str("{\"name\":");
    push_json_string(&mut out, name);
    out.append(",\"members\":");
    push_json_string_array(&mut out, members);
    out.append(",\"comments\":");
    push_json_string_array(&mut out, comments);
    out.append("}");
    proof {
        assert(out@ =~= room_detail_json(name@, members.deep_view(), comments.deep_view()));
    }
    out
}

} // verus!
