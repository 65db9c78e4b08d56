//! The catalog listing: the whole ordered catalog rendered as one line of
//! JSON, an array of objects with `name` and `command` fields, in the
//! catalog's order. The encoder is written here, character by character,
//! against an exact statement of the text it produces.

use crate::structs::{MazeRunner, MazeRunners, RunnerView};
use vstd::prelude::*;
use vstd::string::{StrSliceExecFns, StringExecFns};

verus! {

/// Relies on `String::push`: it appends exactly the one character.
pub assume_specification[ String::push ](s: &mut String, c: char)
    ensures
        final(s)@ == old(s)@.push(c),
;

/// The lower-case hexadecimal digit of a value below sixteen.
pub open spec fn hex_char(d: u32) -> char {
    if d == 0 {
        '0'
    } else if d == 1 {
        '1'
    } else if d == 2 {
        '2'
    } else if d == 3 {
        '3'
    } else if d == 4 {
        '4'
    } else if d == 5 {
        '5'
    } else if d == 6 {
        '6'
    } else if d == 7 {
        '7'
    } else if d == 8 {
        '8'
    } else if d == 9 {
        '9'
    } else if d == 10 {
        'a'
    } else if d == 11 {
        'b'
    } else if d == 12 {
        'c'
    } else if d == 13 {
        'd'
    } else if d == 14 {
        'e'
    } else {
        'f'
    }
}

/// How one character is written inside a JSON string: quote and backslash
/// are escaped, the named control characters get their short escapes, any
/// other control character is written as a `\u00` escape, and every other
/// character stands as itself.
pub open spec fn json_escaped_char(c: char) -> Seq<char> {
    if c == '"' {
        "\\\""@
    } else if c == '\\' {
        "\\\\"@
    } else if c == '\u{8}' {
        "\\b"@
    } else if c == '\t' {
        "\\t"@
    } else if c == '\n' {
        "\\n"@
    } else if c == '\u{c}' {
        "\\f"@
    } else if c == '\r' {
        "\\r"@
    } else if (c as u32) < 32 {
        "\\u00"@ + seq![hex_char((c as u32) / 16), hex_char((c as u32) % 16)]
    } else {
        seq![c]
    }
}

/// The characters between the quotes of a JSON string: each source
/// character escaped, in order.
pub open spec fn json_string_body(s: Seq<char>) -> Seq<char>
    decreases s.len(),
{
    if s.len() == 0 {
        Seq::empty()
    } else {
        json_string_body(s.drop_last()) + json_escaped_char(s.last())
    }
}

/// A JSON string: the escaped characters between quotes.
pub open spec fn json_string(s: Seq<char>) -> Seq<char> {
    "\""@ + json_string_body(s) + "\""@
}

/// The comma-separated JSON strings of a list, in order.
pub open spec fn json_string_list(items: Seq<Seq<char>>) -> Seq<char>
    decreases items.len(),
{
    if items.len() == 0 {
        Seq::empty()
    } else if items.len() == 1 {
        json_string(items[0])
    } else {
        json_string_list(items.drop_last()) + ","@ + json_string(items.last())
    }
}

/// A JSON array of strings.
pub open spec fn json_string_array(items: Seq<Seq<char>>) -> Seq<char> {
    "["@ + json_string_list(items) + "]"@
}

/// One catalog entry as a JSON object with its `name` and `command`.
pub open spec fn json_runner(r: RunnerView) -> Seq<char> {
    "{\"name\":"@ + json_string(r.name) + ",\"command\":"@ + json_string_array(r.command)
        + "}"@
}

/// The comma-separated JSON objects of the catalog's entries, in order.
pub open spec fn json_runner_list(rs: Seq<RunnerView>) -> Seq<char>
    decreases rs.len(),
{
    if rs.len() == 0 {
        Seq::empty()
    } else if rs.len() == 1 {
        json_runner(rs[0])
    } else {
        json_runner_list(rs.drop_last()) + ","@ + json_runner(rs.last())
    }
}

/// The whole catalog as one JSON array, entries in catalog order.
pub open spec fn json_catalog(rs: Seq<RunnerView>) -> Seq<char> {
    "["@ + json_runner_list(rs) + "]"@
}

/// The lower-case hexadecimal digit of a value below sixteen, exactly as
/// `hex_char` states it.
fn hex_char_exec(d: u32) -> (r: char)
    requires
        d < 16,
    ensures
        r == hex_char(d),
{
    if d == 0 {
        '0'
    } else if d == 1 {
        '1'
    } else if d == 2 {
        '2'
    } else if d == 3 {
        '3'
    } else if d == 4 {
        '4'
    } else if d == 5 {
        '5'
    } else if d == 6 {
        '6'
    } else if d == 7 {
        '7'
    } else if d == 8 {
        '8'
    } else if d == 9 {
        '9'
    } else if d == 10 {
        'a'
    } else if d == 11 {
        'b'
    } else if d == 12 {
        'c'
    } else if d == 13 {
        'd'
    } else if d == 14 {
        'e'
    } else {
        'f'
    }
}

/// Appends one character in its JSON-escaped form.
fn push_escaped(out: &mut String, c: char)
    ensures
        final(out)@ == old(out)@ + json_escaped_char(c),
{
    if c == '"' {
        out.append("\\\"");
    } else if c == '\\' {
        out.append("\\\\");
    } else if c == '\u{8}' {
        out.append("\\b");
    } else if c == '\t' {
        out.append("\\t");
    } else if c == '\n' {
        out.append("\\n");
    } else if c == '\u{c}' {
        out.append("\\f");
    } else if c == '\r' {
        out.append("\\r");
    } else if (c as u32) < 32 {
        out.append("\\u00");
        out.push(hex_char_exec((c as u32) / 16));
        out.push(hex_char_exec((c as u32) % 16));
        proof {
            assert(out@ =~= old(out)@ + json_escaped_char(c));
        }
    } else {
        out.push(c);
        proof {
            assert(out@ =~= old(out)@ + seq![c]);
        }
    }
}

/// Appends a JSON string holding the given text, escaped.
fn append_json_string(out: &mut String, s: &str)
    ensures
        final(out)@ == old(out)@ + json_string(s@),
{
    out.append("\"");
    let len: usize = s.unicode_len();
    let mut j: usize = 0;
    while j < len
        invariant
            j <= len,
            len == s@.len(),
            out@ == old(out)@ + "\""@ + json_string_body(s@.take(j as int)),
        decreases len - j,
    {
        let c = s.get_char(j);
        let ghost prefix = s@.take(j as int);
        proof {
            assert(s@.take(j as int + 1).drop_last() =~= prefix);
            assert(s@.take(j as int + 1).last() == s@[j as int]);
        }
        push_escaped(out, c);
        j += 1;
    }
    proof {
        assert(s@.take(len as int) =~= s@);
    }
    out.append("\"");
    proof {
        assert(out@ =~= old(out)@ + json_string(s@));
    }
}

/// Appends a JSON array holding the given strings, in order.
fn append_string_array(out: &mut String, items: &Vec<String>)
    ensures
        final(out)@ == old(out)@ + json_string_array(items.deep_view()),
{
    out.append("[");
    let ghost full = items.deep_view();
    let mut j: usize = 0;
    while j < items.len()
        invariant
            j <= items.len(),
            full == items.deep_view(),
            full.len() == items@.len(),
            forall|i: int| 0 <= i < items@.len() ==> full[i] == #[trigger] items@[i]@,
            out@ == old(out)@ + "["@ + json_string_list(full.take(j as int)),
        decreases items.len() - j,
    {
        let ghost prefix = full.take(j as int);
        proof {
            assert(full.take(j as int + 1).drop_last() =~= prefix);
            assert(full.take(j as int + 1).last() == full[j as int]);
        }
        if j > 0 {
            out.append(",");
        }
        append_json_string(out, items[j].as_str());
        proof {
            assert(out@ =~= old(out)@ + "["@ + json_string_list(full.take(j as int + 1)));
        }
        j += 1;
    }
    proof {
        assert(full.take(items@.len() as int) =~= full);
    }
    out.append("]");
    proof {
        assert(out@ =~= old(out)@ + json_string_array(items.deep_view()));
    }
}

/// Appends one catalog entry as its JSON object.
fn append_runner(out: &mut String, runner: &MazeRunner)
    ensures
        final(out)@ == old(out)@ + json_runner(runner@),
{
    out.append("{\"name\":");
    append_json_string(out, runner.name());
    out.append(",\"command\":");
    append_string_array(out, runner.command());
    out.append("}");
    proof {
        assert(out@ =~= old(out)@ + json_runner(runner@));
    }
}

/// Renders the whole catalog as one line of JSON: an array of objects
/// with `name` and `command` fields, in catalog order, exactly the text
/// that `json_catalog` states. Encoding cannot fail.
pub fn list_runners(runners: &MazeRunners) -> (r: String)
    ensures
        r@ == json_catalog(runners@),
{
    let mut out: String = "[".to_owned();
    let ghost full = runners@;
    let mut j: usize = 0;
    while j < runners.runners.len()
        invariant
            j <= runners.runners.len(),
            full == runners@,
            full.len() == runners.runners@.len(),
            forall|i: int| 0 <= i < runners.runners@.len() ==> full[i]
                == #[trigger] runners.runners@[i]@,
            out@ == "["@ + json_runner_list(full.take(j as int)),
        decreases runners.runners.len() - j,
    {
        let ghost prefix = full.take(j as int);
        proof {
            assert(full.take(j as int + 1).drop_last() =~= prefix);
            assert(full.take(j as int + 1).last() == full[j as int]);
        }
        if j > 0 {
            out.append(",");
        }
        append_runner(&mut out, &runners.runners[j]);
        proof {
            assert(out@ =~= "["@ + json_runner_list(full.take(j as int + 1)));
        }
        j += 1;
    }
    proof {
        assert(full.take(runners.runners@.len() as int) =~= full);
    }
    out.append("]");
    proof {
        assert(out@ =~= json_catalog(runners@));
    }
    out
}

} // verus!
