//! Format emitter: serializes an adapted record set into one of the three
//! structured text formats.
//!
//! All three forms quote every name and every text value in double quotes,
//! escaping quotes, backslashes, and control characters; numeric values are
//! written bare. The JSON form is a pretty-printed array of objects with a
//! two-space indent. The YAML form is a block-style sequence of mappings.
//! The TOML form wraps the rows in a named top-level array of tables, since
//! that format has no syntax for a bare top-level sequence.

use vstd::prelude::*;

use crate::schema::SpecTyped;
use crate::schema::SpecValue;
use crate::schema::TypedRecordSet;
use crate::schema::Value;

verus! {

/// The character of one digit value, up to base sixteen.
pub open spec fn digit_char(n: int) -> char {
    if n == 0 {
        '0'
    } else if n == 1 {
        '1'
    } else if n == 2 {
        '2'
    } else if n == 3 {
        '3'
    } else if n == 4 {
        '4'
    } else if n == 5 {
        '5'
    } else if n == 6 {
        '6'
    } else if n == 7 {
        '7'
    } else if n == 8 {
        '8'
    } else if n == 9 {
        '9'
    } else if n == 10 {
        'a'
    } else if n == 11 {
        'b'
    } else if n == 12 {
        'c'
    } else if n == 13 {
        'd'
    } else if n == 14 {
        'e'
    } else {
        'f'
    }
}

/// The escape of one character inside a double-quoted string: quote,
/// backslash and the named control characters by a backslash pair, any
/// other control character by a four-digit hexadecimal escape, everything
/// else by itself.
pub open spec fn escape_char(c: char) -> Seq<char> {
    if c == '"' {
        seq!['\\', '"']
    } else if c == '\\' {
        seq!['\\', '\\']
    } else if c == '\n' {
        seq!['\\', 'n']
    } else if c == '\r' {
        seq!['\\', 'r']
    } else if c == '\t' {
        seq!['\\', 't']
    } else if (c as u32) < 32 {
        seq!['\\', 'u', '0', '0', digit_char((c as u32 / 16) as int), digit_char((c as u32 % 16) as int)]
    } else {
        seq![c]
    }
}

/// The escaped form of a whole string.
pub open spec fn escape_str(s: Seq<char>) -> Seq<char>
    decreases s.len(),
{
    if s.len() == 0 {
        Seq::empty()
    } else {
        escape_str(s.drop_last()) + escape_char(s.last())
    }
}

/// A double-quoted, escaped string.
pub open spec fn quoted(s: Seq<char>) -> Seq<char> {
    seq!['"'] + escape_str(s) + seq!['"']
}

/// The decimal digits of an 8-bit number, without leading zeroes.
pub open spec fn dec_u8(n: u8) -> Seq<char> {
    if n < 10 {
        seq![digit_char(n as int)]
    } else if n < 100 {
        seq![digit_char(n as int / 10), digit_char(n as int % 10)]
    } else {
        seq![
            digit_char(n as int / 100),
            digit_char((n as int / 10) % 10),
            digit_char(n as int % 10),
        ]
    }
}

/// A rendered scalar: quoted text, or bare decimal digits.
pub open spec fn render_value(v: SpecValue) -> Seq<char> {
    match v {
        SpecValue::Text(t) => quoted(t),
        SpecValue::Number(n) => dec_u8(n),
    }
}

/// One member of a JSON object, on its own indented line.
pub open spec fn json_member(name: Seq<char>, v: SpecValue) -> Seq<char> {
    seq![' ', ' ', ' ', ' '] + quoted(name) + seq![':', ' '] + render_value(v)
}

/// The members of a JSON object, separated by a comma and a line break.
pub open spec fn json_members(h: Seq<Seq<char>>, row: Seq<SpecValue>) -> Seq<char>
    decreases row.len(),
{
    if row.len() == 0 {
        Seq::empty()
    } else if row.len() == 1 {
        json_member(h[0], row[0])
    } else {
        json_members(h.drop_last(), row.drop_last()) + seq![',', '\n'] + json_member(
            h[row.len() - 1],
            row[row.len() - 1],
        )
    }
}

/// One JSON object over a row, in the pretty-printed two-space style.
pub open spec fn json_object(h: Seq<Seq<char>>, row: Seq<SpecValue>) -> Seq<char> {
    if row.len() == 0 {
        seq![' ', ' ', '{', '}']
    } else {
        seq![' ', ' ', '{', '\n'] + json_members(h, row) + seq!['\n', ' ', ' ', '}']
    }
}

/// The objects of the JSON array, separated by a comma and a line break.
pub open spec fn json_items(h: Seq<Seq<char>>, rows: Seq<Seq<SpecValue>>) -> Seq<char>
    decreases rows.len(),
{
    if rows.len() == 0 {
        Seq::empty()
    } else if rows.len() == 1 {
        json_object(h, rows[0])
    } else {
        json_items(h, rows.drop_last()) + seq![',', '\n'] + json_object(h, rows.last())
    }
}

/// The whole JSON document: a pretty-printed array of one object per row,
/// members in header order; no rows give the empty array.
pub open spec fn json_doc(t: SpecTyped) -> Seq<char> {
    if t.rows.len() == 0 {
        seq!['[', ']']
    } else {
        seq!['[', '\n'] + json_items(t.header, t.rows) + seq!['\n', ']']
    }
}

/// One member of a YAML mapping.
pub open spec fn yaml_member(name: Seq<char>, v: SpecValue) -> Seq<char> {
    quoted(name) + seq![':', ' '] + render_value(v)
}

/// The lines of one YAML mapping: the first member opens the sequence
/// entry with a dash, the rest align under it.
pub open spec fn yaml_row(h: Seq<Seq<char>>, row: Seq<SpecValue>) -> Seq<char>
    decreases row.len(),
{
    if row.len() == 0 {
        Seq::empty()
    } else {
        yaml_row(h.drop_last(), row.drop_last()) + (if row.len() == 1 {
            seq!['-', ' ']
        } else {
            seq![' ', ' ']
        }) + yaml_member(h[row.len() - 1], row[row.len() - 1]) + seq!['\n']
    }
}

/// The entries of the YAML sequence, one block per row.
pub open spec fn yaml_items(h: Seq<Seq<char>>, rows: Seq<Seq<SpecValue>>) -> Seq<char>
    decreases rows.len(),
{
    if rows.len() == 0 {
        Seq::empty()
    } else {
        yaml_items(h, rows.drop_last()) + yaml_row(h, rows.last())
    }
}

/// The whole YAML document: a block-style sequence of mappings, members in
/// header order; no rows give the empty flow sequence.
pub open spec fn yaml_doc(t: SpecTyped) -> Seq<char> {
    if t.rows.len() == 0 {
        seq!['[', ']', '\n']
    } else {
        yaml_items(t.header, t.rows)
    }
}

/// One member of a TOML table, on its own line.
pub open spec fn toml_member(name: Seq<char>, v: SpecValue) -> Seq<char> {
    quoted(name) + seq![' ', '=', ' '] + render_value(v) + seq!['\n']
}

/// The members of one TOML table.
pub open spec fn toml_members(h: Seq<Seq<char>>, row: Seq<SpecValue>) -> Seq<char>
    decreases row.len(),
{
    if row.len() == 0 {
        Seq::empty()
    } else {
        toml_members(h.drop_last(), row.drop_last()) + toml_member(
            h[row.len() - 1],
            row[row.len() - 1],
        )
    }
}

/// One TOML table under the named array of tables.
pub open spec fn toml_table(root: Seq<char>, h: Seq<Seq<char>>, row: Seq<SpecValue>) -> Seq<char> {
    seq!['[', '['] + quoted(root) + seq![']', ']', '\n'] + toml_members(h, row)
}

/// The tables of the TOML document, separated by a blank line.
pub open spec fn toml_items(root: Seq<char>, h: Seq<Seq<char>>, rows: Seq<Seq<SpecValue>>) -> Seq<
    char,
>
    decreases rows.len(),
{
    if rows.len() == 0 {
        Seq::empty()
    } else if rows.len() == 1 {
        toml_table(root, h, rows[0])
    } else {
        toml_items(root, h, rows.drop_last()) + seq!['\n'] + toml_table(root, h, rows.last())
    }
}

/// The whole TOML document: the rows wrapped in one named top-level array
/// of tables; no rows give an empty array assignment to the same name.
pub open spec fn toml_doc(root: Seq<char>, t: SpecTyped) -> Seq<char> {
    if t.rows.len() == 0 {
        quoted(root) + seq![' ', '=', ' ', '[', ']', '\n']
    } else {
        toml_items(root, t.header, t.rows)
    }
}

/// Law: a record set with a header but no data rows serializes to an empty
/// sequence in every format, never an error: the empty array in the JSON
/// and YAML forms, and an empty array-of-tables assignment in the TOML
/// form.
pub proof fn lemma_empty_rows(t: SpecTyped, root: Seq<char>)
    requires
        t.rows.len() == 0,
    ensures
        json_doc(t) == seq!['[', ']'],
        yaml_doc(t) == seq!['[', ']', '\n'],
        toml_doc(root, t) == quoted(root) + seq![' ', '=', ' ', '[', ']', '\n'],
{
}

/// The character of one digit value, up to base sixteen.
fn digit_char_exec(n: u32) -> (c: char)
    requires
        n < 16,
    ensures
        c == digit_char(n as int),
{
    if n == 0 {
        '0'
    } else if n == 1 {
        '1'
    } else if n == 2 {
        '2'
    } else if n == 3 {
        '3'
    } else if n == 4 {
        '4'
    } else if n == 5 {
        '5'
    } else if n == 6 {
        '6'
    } else if n == 7 {
        '7'
    } else if n == 8 {
        '8'
    } else if n == 9 {
        '9'
    } else if n == 10 {
        'a'
    } else if n == 11 {
        'b'
    } else if n == 12 {
        'c'
    } else if n == 13 {
        'd'
    } else if n == 14 {
        'e'
    } else {
        'f'
    }
}

/// Appends a double-quoted, escaped string.
#[verifier::loop_isolation(false)]
fn push_quoted(out: &mut Vec<char>, s: &Vec<char>)
    ensures
        final(out)@ == old(out)@ + quoted(s@),
{
    out.push('"');
    for i in 0..s.len()
        invariant
            out@ == old(out)@ + seq!['"'] + escape_str(s@.take(i as int)),
    {
        let c = s[i];
        let u = c as u32;
        proof {
            assert(s@.take(i as int + 1).drop_last() =~= s@.take(i as int));
            assert(s@.take(i as int + 1).last() == s@[i as int]);
        }
        if c == '"' {
            out.push('\\');
            out.push('"');
        } else if c == '\\' {
            out.push('\\');
            out.push('\\');
        } else if c == '\n' {
            out.push('\\');
            out.push('n');
        } else if c == '\r' {
            out.push('\\');
            out.push('r');
        } else if c == '\t' {
            out.push('\\');
            out.push('t');
        } else if u < 32 {
            out.push('\\');
            out.push('u');
            out.push('0');
            out.push('0');
            out.push(digit_char_exec(u / 16));
            out.push(digit_char_exec(u % 16));
        } else {
            out.push(c);
        }
        proof {
            assert(out@ =~= old(out)@ + seq!['"'] + escape_str(s@.take(i as int + 1)));
        }
    }
    proof {
        assert(s@.take(s@.len() as int) =~= s@);
    }
    out.push('"');
    proof {
        assert(out@ =~= old(out)@ + quoted(s@));
    }
}

/// Appends the decimal digits of an 8-bit number.
fn push_num(out: &mut Vec<char>, n: u8)
    ensures
        final(out)@ == old(out)@ + dec_u8(n),
{
    let u = n as u32;
    if n < 10 {
        out.push(digit_char_exec(u));
    } else if n < 100 {
        out.push(digit_char_exec(u / 10));
        out.push(digit_char_exec(u % 10));
    } else {
        out.push(digit_char_exec(u / 100));
        out.push(digit_char_exec((u / 10) % 10));
        out.push(digit_char_exec(u % 10));
    }
    proof {
        assert(out@ =~= old(out)@ + dec_u8(n));
    }
}

/// Appends a rendered scalar.
fn push_value(out: &mut Vec<char>, v: &Value)
    ensures
        final(out)@ == old(out)@ + render_value(v@),
{
    match v {
        Value::Text(t) => push_quoted(out, t),
        Value::Number(n) => push_num(out, *n),
    }
}

/// Appends one JSON object member line, without the separator.
fn push_json_member(out: &mut Vec<char>, name: &Vec<char>, v: &Value)
    ensures
        final(out)@ == old(out)@ + json_member(name@, v@),
{
    out.push(' ');
    out.push(' ');
    out.push(' ');
    out.push(' ');
    push_quoted(out, name);
    out.push(':');
    out.push(' ');
    push_value(out, v);
    proof {
        assert(out@ =~= old(out)@ + json_member(name@, v@));
    }
}

/// Appends one TOML member line.
fn push_toml_member(out: &mut Vec<char>, name: &Vec<char>, v: &Value)
    ensures
        final(out)@ == old(out)@ + toml_member(name@, v@),
{
    push_quoted(out, name);
    out.push(' ');
    out.push('=');
    out.push(' ');
    push_value(out, v);
    out.push('\n');
    proof {
        assert(out@ =~= old(out)@ + toml_member(name@, v@));
    }
}

/// Appends one pretty-printed JSON object over a row.
#[verifier::loop_isolation(false)]
#[verifier::rlimit(60)]
fn push_json_object(out: &mut Vec<char>, header: &Vec<Vec<char>>, row: &Vec<Value>)
    requires
        header.deep_view().len() == row.deep_view().len(),
    ensures
        final(out)@ == old(out)@ + json_object(header.deep_view(), row.deep_view()),
{
    out.push(' ');
    out.push(' ');
    out.push('{');
    if row.len() == 0 {
        out.push('}');
        proof {
            assert(out@ =~= old(out)@ + json_object(header.deep_view(), row.deep_view()));
        }
        return ;
    }
    out.push('\n');
    let ghost opre = out@;
    proof {
        assert(header.deep_view().take(0) =~= Seq::<Seq<char>>::empty());
        assert(row.deep_view().take(0) =~= Seq::<SpecValue>::empty());
    }
    for j in 0..row.len()
        invariant
            out@ == opre + json_members(
                header.deep_view().take(j as int),
                row.deep_view().take(j as int),
            ),
    {
        if j > 0 {
            out.push(',');
            out.push('\n');
        }
        proof {
            assert(header@[j as int].deep_view() =~= header@[j as int]@);
            assert(header.deep_view()[j as int] == header@[j as int]@);
            assert(row.deep_view()[j as int] == row@[j as int]@);
        }
        push_json_member(out, &header[j], &row[j]);
        proof {
            assert(header.deep_view().take(j as int + 1).drop_last() =~= header.deep_view().take(
                j as int,
            ));
            assert(row.deep_view().take(j as int + 1).drop_last() =~= row.deep_view().take(
                j as int,
            ));
            assert(out@ =~= opre + json_members(
                header.deep_view().take(j as int + 1),
                row.deep_view().take(j as int + 1),
            ));
        }
    }
    proof {
        assert(header.deep_view().take(row@.len() as int) =~= header.deep_view());
        assert(row.deep_view().take(row@.len() as int) =~= row.deep_view());
    }
    out.push('\n');
    out.push(' ');
    out.push(' ');
    out.push('}');
    proof {
        assert(out@ =~= old(out)@ + json_object(header.deep_view(), row.deep_view()));
    }
}

/// Serializes a record set as a pretty-printed JSON array of objects,
/// members in header order, numbers bare.
#[verifier::loop_isolation(false)]
#[verifier::rlimit(60)]
pub fn emit_json(t: &TypedRecordSet) -> (out: Vec<char>)
    requires
        t@.wf(),
    ensures
        out@ == json_doc(t@),
{
    let mut out: Vec<char> = Vec::new();
    if t.rows.len() == 0 {
        out.push('[');
        out.push(']');
        proof {
            assert(out@ =~= json_doc(t@));
        }
        return out;
    }
    out.push('[');
    out.push('\n');
    proof {
        assert(t@.rows.take(0) =~= Seq::<Seq<SpecValue>>::empty());
        assert(out@ =~= seq!['[', '\n'] + json_items(t@.header, t@.rows.take(0)));
    }
    for i in 0..t.rows.len()
        invariant
            out@ == seq!['[', '\n'] + json_items(t@.header, t@.rows.take(i as int)),
    {
        if i > 0 {
            out.push(',');
            out.push('\n');
        }
        let ghost pre = out@;
        let row = &t.rows[i];
        proof {
            assert(row.deep_view() == t@.rows[i as int]);
        }
        push_json_object(&mut out, &t.header, row);
        proof {
            assert(out@ == pre + json_object(t@.header, t@.rows[i as int]));
        }
        proof {
            assert(t@.rows.take(i as int + 1).drop_last() =~= t@.rows.take(i as int));
            assert(t@.rows.take(i as int + 1).last() == t@.rows[i as int]);
            assert(out@ =~= seq!['[', '\n'] + json_items(t@.header, t@.rows.take(i as int + 1)));
        }
    }
    proof {
        assert(t@.rows.take(t.rows@.len() as int) =~= t@.rows);
    }
    out.push('\n');
    out.push(']');
    proof {
        assert(out@ =~= json_doc(t@));
    }
    out
}

/// Serializes a record set as a block-style YAML sequence of mappings,
/// members in header order, numbers bare.
#[verifier::loop_isolation(false)]
#[verifier::rlimit(60)]
pub fn emit_yaml(t: &TypedRecordSet) -> (out: Vec<char>)
    requires
        t@.wf(),
    ensures
        out@ == yaml_doc(t@),
{
    let mut out: Vec<char> = Vec::new();
    if t.rows.len() == 0 {
        out.push('[');
        out.push(']');
        out.push('\n');
        proof {
            assert(out@ =~= yaml_doc(t@));
        }
        return out;
    }
    proof {
        assert(t@.rows.take(0) =~= Seq::<Seq<SpecValue>>::empty());
        assert(out@ =~= yaml_items(t@.header, t@.rows.take(0)));
    }
    for i in 0..t.rows.len()
        invariant
            out@ == yaml_items(t@.header, t@.rows.take(i as int)),
    {
        let ghost pre = out@;
        let row = &t.rows[i];
        proof {
            assert(row.deep_view() == t@.rows[i as int]);
            assert(t@.header.take(0) =~= Seq::<Seq<char>>::empty());
            assert(t@.rows[i as int].take(0) =~= Seq::<SpecValue>::empty());
            assert(out@ =~= pre + yaml_row(t@.header.take(0), t@.rows[i as int].take(0)));
        }
        for j in 0..row.len()
            invariant
                out@ == pre + yaml_row(t@.header.take(j as int), t@.rows[i as int].take(j as int)),
        {
            if j == 0 {
                out.push('-');
                out.push(' ');
            } else {
                out.push(' ');
                out.push(' ');
            }
            proof {
                assert(t.header@[j as int].deep_view() =~= t.header@[j as int]@);
                assert(t@.header[j as int] == t.header@[j as int]@);
            }
            push_quoted(&mut out, &t.header[j]);
            out.push(':');
            out.push(' ');
            proof {
                assert(row@[j as int]@ == t@.rows[i as int][j as int]);
            }
            push_value(&mut out, &row[j]);
            out.push('\n');
            proof {
                assert(t@.header.take(j as int + 1).drop_last() =~= t@.header.take(j as int));
                assert(t@.rows[i as int].take(j as int + 1).drop_last() =~= t@.rows[i as int].take(
                    j as int,
                ));
                assert(out@ =~= pre + yaml_row(
                    t@.header.take(j as int + 1),
                    t@.rows[i as int].take(j as int + 1),
                ));
            }
        }
        proof {
            assert(t@.header.take(row@.len() as int) =~= t@.header);
            assert(t@.rows[i as int].take(row@.len() as int) =~= t@.rows[i as int]);
            assert(t@.rows.take(i as int + 1).drop_last() =~= t@.rows.take(i as int));
            assert(t@.rows.take(i as int + 1).last() == t@.rows[i as int]);
            assert(out@ =~= yaml_items(t@.header, t@.rows.take(i as int + 1)));
        }
    }
    proof {
        assert(t@.rows.take(t.rows@.len() as int) =~= t@.rows);
    }
    out
}

/// Serializes a record set as a TOML document: the rows as one top-level
/// array of tables under the given name, members in header order.
#[verifier::loop_isolation(false)]
#[verifier::rlimit(60)]
pub fn emit_toml(t: &TypedRecordSet, root: &Vec<char>) -> (out: Vec<char>)
    requires
        t@.wf(),
    ensures
        out@ == toml_doc(root@, t@),
{
    let mut out: Vec<char> = Vec::new();
    if t.rows.len() == 0 {
        push_quoted(&mut out, root);
        out.push(' ');
        out.push('=');
        out.push(' ');
        out.push('[');
        out.push(']');
        out.push('\n');
        proof {
            assert(out@ =~= toml_doc(root@, t@));
        }
        return out;
    }
    proof {
        assert(t@.rows.take(0) =~= Seq::<Seq<SpecValue>>::empty());
        assert(out@ =~= toml_items(root@, t@.header, t@.rows.take(0)));
    }
    for i in 0..t.rows.len()
        invariant
            out@ == toml_items(root@, t@.header, t@.rows.take(i as int)),
    {
        if i > 0 {
            out.push('\n');
        }
        let ghost pre = out@;
        let row = &t.rows[i];
        proof {
            assert(row.deep_view() == t@.rows[i as int]);
        }
        out.push('[');
        out.push('[');
        push_quoted(&mut out, root);
        out.push(']');
        out.push(']');
        out.push('\n');
        let ghost tpre = out@;
        proof {
            assert(tpre =~= pre + (seq!['[', '['] + quoted(root@) + seq![']', ']', '\n']));
            assert(t@.header.take(0) =~= Seq::<Seq<char>>::empty());
            assert(t@.rows[i as int].take(0) =~= Seq::<SpecValue>::empty());
        }
        for j in 0..row.len()
            invariant
                out@ == tpre + toml_members(
                    t@.header.take(j as int),
                    t@.rows[i as int].take(j as int),
                ),
        {
            proof {
                assert(t.header@[j as int].deep_view() =~= t.header@[j as int]@);
                assert(t@.header[j as int] == t.header@[j as int]@);
                assert(row@[j as int]@ == t@.rows[i as int][j as int]);
            }
            push_toml_member(&mut out, &t.header[j], &row[j]);
            proof {
                assert(t@.header.take(j as int + 1).drop_last() =~= t@.header.take(j as int));
                assert(t@.rows[i as int].take(j as int + 1).drop_last() =~= t@.rows[i as int].take(
                    j as int,
                ));
                assert(out@ =~= tpre + toml_members(
                    t@.header.take(j as int + 1),
                    t@.rows[i as int].take(j as int + 1),
                ));
            }
        }
        proof {
            assert(t@.header.take(row@.len() as int) =~= t@.header);
            assert(t@.rows[i as int].take(row@.len() as int) =~= t@.rows[i as int]);
            assert(out@ =~= pre + toml_table(root@, t@.header, t@.rows[i as int]));
            assert(t@.rows.take(i as int + 1).drop_last() =~= t@.rows.take(i as int));
            assert(t@.rows.take(i as int + 1).last() == t@.rows[i as int]);
            assert(out@ =~= toml_items(root@, t@.header, t@.rows.take(i as int + 1)));
        }
    }
    proof {
        assert(t@.rows.take(t.rows@.len() as int) =~= t@.rows);
    }
    out
}

} // verus!
