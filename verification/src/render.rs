use vstd::prelude::*;

use crate::value::JsonValue;

verus! {

/// The lower-case hexadecimal digit of a value below sixteen.
pub open spec fn hex_digit(n: nat) -> char {
    if n == 0 {
        '0'
    } else if n == 1 {
        '1'
    } else if n == 2 {
        '2'
    } else if n == 3 {
        '3'
    } else if n == 4 {
        '4'
    } else if n == 5 {
        '5'
    } else if n == 6 {
        '6'
    } else if n == 7 {
        '7'
    } else if n == 8 {
        '8'
    } else if n == 9 {
        '9'
    } else if n == 10 {
        'a'
    } else if n == 11 {
        'b'
    } else if n == 12 {
        'c'
    } else if n == 13 {
        'd'
    } else if n == 14 {
        'e'
    } else {
        'f'
    }
}

/// How one character appears inside a JSON string literal: quote and
/// backslash are escaped, the control characters with short escapes use
/// them, the remaining control characters use a `\u00..` escape with
/// lower-case hexadecimal digits, and every other character stands as
/// itself.
pub open spec fn escape_char(c: char) -> Seq<char> {
    if c == '"' {
        seq!['\\', '"']
    } else if c == '\\' {
        seq!['\\', '\\']
    } else if c == '\u{8}' {
        seq!['\\', 'b']
    } else if c == '\t' {
        seq!['\\', 't']
    } else if c == '\n' {
        seq!['\\', 'n']
    } else if c == '\u{c}' {
        seq!['\\', 'f']
    } else if c == '\r' {
        seq!['\\', 'r']
    } else if (c as u32) < 0x20 {
        seq!['\\', 'u', '0', '0', hex_digit((c as u32 / 16) as nat), hex_digit(
            (c as u32 % 16) as nat,
        )]
    } else {
        seq![c]
    }
}

/// A character sequence with every character escaped as JSON requires.
pub open spec fn escape_seq(s: Seq<char>) -> Seq<char>
    decreases s.len(),
{
    if s.len() == 0 {
        Seq::empty()
    } else {
        escape_char(s[0]) + escape_seq(s.drop_first())
    }
}

/// A JSON string literal: the escaped characters between double quotes.
pub open spec fn quoted(s: Seq<char>) -> Seq<char> {
    seq!['"'] + escape_seq(s) + seq!['"']
}

/// The indentation in front of a pretty-printed line: two spaces per level.
pub open spec fn indent_str(n: nat) -> Seq<char>
    decreases n,
{
    if n == 0 {
        Seq::empty()
    } else {
        indent_str((n - 1) as nat) + seq![' ', ' ']
    }
}

/// The compact JSON text of a value: no insignificant whitespace anywhere.
pub open spec fn render_compact(v: JsonValue) -> Seq<char>
    decreases v,
{
    match v {
        JsonValue::Null => seq!['n', 'u', 'l', 'l'],
        JsonValue::Bool(b) => if b {
            seq!['t', 'r', 'u', 'e']
        } else {
            seq!['f', 'a', 'l', 's', 'e']
        },
        JsonValue::Num(s) => s@,
        JsonValue::Str(s) => quoted(s@),
        JsonValue::Arr(items) => seq!['['] + render_items(items@) + seq![']'],
        JsonValue::Obj(entries) => seq!['{'] + render_members(entries@) + seq!['}'],
    }
}

/// The elements of a compact array, joined by commas.
pub open spec fn render_items(items: Seq<JsonValue>) -> Seq<char>
    decreases items,
{
    if items.len() == 0 {
        Seq::empty()
    } else if items.len() == 1 {
        render_compact(items[0])
    } else {
        render_compact(items[0]) + seq![','] + render_items(items.drop_first())
    }
}

/// The members of a compact object: quoted key, colon, value, joined by
/// commas.
pub open spec fn render_members(entries: Seq<(String, JsonValue)>) -> Seq<char>
    decreases entries,
{
    if entries.len() == 0 {
        Seq::empty()
    } else {
        let first = quoted(entries[0].0@) + seq![':'] + render_compact(entries[0].1);
        if entries.len() == 1 {
            first
        } else {
            first + seq![','] + render_members(entries.drop_first())
        }
    }
}

/// The pretty JSON text of a value at indentation depth `d`: scalars as in
/// the compact form; an empty array or object on one line; any other array
/// or object with one element or member per line, indented one level
/// deeper, and the closing bracket back at depth `d`.
pub open spec fn render_pretty(v: JsonValue, d: nat) -> Seq<char>
    decreases v,
{
    match v {
        JsonValue::Arr(items) => if items.len() == 0 {
            seq!['[', ']']
        } else {
            seq!['[', '\n'] + pretty_items(items@, d + 1) + seq!['\n'] + indent_str(d) + seq![']']
        },
        JsonValue::Obj(entries) => if entries.len() == 0 {
            seq!['{', '}']
        } else {
            seq!['{', '\n'] + pretty_members(entries@, d + 1) + seq!['\n'] + indent_str(d)
                + seq!['}']
        },
        _ => render_compact(v),
    }
}

/// The lines of a pretty array: each element indented to depth `d`, with a
/// comma and line break between elements.
pub open spec fn pretty_items(items: Seq<JsonValue>, d: nat) -> Seq<char>
    decreases items,
{
    if items.len() == 0 {
        Seq::empty()
    } else {
        let first = indent_str(d) + render_pretty(items[0], d);
        if items.len() == 1 {
            first
        } else {
            first + seq![',', '\n'] + pretty_items(items.drop_first(), d)
        }
    }
}

/// The lines of a pretty object: each member as quoted key, colon, space and
/// value, indented to depth `d`, with a comma and line break between
/// members.
pub open spec fn pretty_members(entries: Seq<(String, JsonValue)>, d: nat) -> Seq<char>
    decreases entries,
{
    if entries.len() == 0 {
        Seq::empty()
    } else {
        let first = indent_str(d) + quoted(entries[0].0@) + seq![':', ' '] + render_pretty(
            entries[0].1,
            d,
        );
        if entries.len() == 1 {
            first
        } else {
            first + seq![',', '\n'] + pretty_members(entries.drop_first(), d)
        }
    }
}

/// The JSON text of a value in the chosen mode, at indentation depth `d`.
pub open spec fn render_at(v: JsonValue, pretty: bool, d: nat) -> Seq<char> {
    if pretty {
        render_pretty(v, d)
    } else {
        render_compact(v)
    }
}

/// The JSON text of a whole document or element in the chosen mode.
pub open spec fn render(v: JsonValue, pretty: bool) -> Seq<char> {
    render_at(v, pretty, 0)
}

/// Escaping one more character appends its escape.
pub proof fn lemma_escape_push(s: Seq<char>, c: char)
    ensures
        escape_seq(s.push(c)) == escape_seq(s) + escape_char(c),
    decreases s.len(),
{
    if s.len() == 0 {
        assert(s.push(c)[0] == c);
        assert(s.push(c).drop_first() =~= Seq::<char>::empty());
        assert(escape_seq(Seq::<char>::empty()) =~= Seq::<char>::empty());
        assert(escape_seq(s.push(c)) =~= escape_seq(s) + escape_char(c));
    } else {
        assert(s.push(c)[0] == s[0]);
        assert(s.push(c).drop_first() =~= s.drop_first().push(c));
        lemma_escape_push(s.drop_first(), c);
        assert(escape_seq(s.push(c)) =~= escape_seq(s) + escape_char(c));
    }
}

/// Rendering one more array element appends a comma (after a predecessor)
/// and the element.
pub proof fn lemma_render_items_push(items: Seq<JsonValue>, x: JsonValue)
    ensures
        render_items(items.push(x)) == if items.len() == 0 {
            render_compact(x)
        } else {
            render_items(items) + seq![','] + render_compact(x)
        },
    decreases items.len(),
{
    if items.len() == 0 {
        assert(items.push(x)[0] == x);
        assert(render_items(items.push(x)) =~= render_compact(x));
    } else {
        assert(items.push(x)[0] == items[0]);
        assert(items.push(x).drop_first() =~= items.drop_first().push(x));
        lemma_render_items_push(items.drop_first(), x);
        assert(render_items(items.push(x)) =~= render_items(items) + seq![','] + render_compact(
            x,
        ));
    }
}

/// Rendering one more object member appends a comma (after a predecessor)
/// and the member.
pub proof fn lemma_render_members_push(entries: Seq<(String, JsonValue)>, p: (String, JsonValue))
    ensures
        render_members(entries.push(p)) == if entries.len() == 0 {
            quoted(p.0@) + seq![':'] + render_compact(p.1)
        } else {
            render_members(entries) + seq![','] + quoted(p.0@) + seq![':'] + render_compact(p.1)
        },
    decreases entries.len(),
{
    if entries.len() == 0 {
        assert(entries.push(p)[0] == p);
        assert(render_members(entries.push(p)) =~= quoted(p.0@) + seq![':'] + render_compact(p.1));
    } else {
        assert(entries.push(p)[0] == entries[0]);
        assert(entries.push(p).drop_first() =~= entries.drop_first().push(p));
        lemma_render_members_push(entries.drop_first(), p);
        assert(render_members(entries.push(p)) =~= render_members(entries) + seq![','] + quoted(
            p.0@,
        ) + seq![':'] + render_compact(p.1));
    }
}

/// Pretty-rendering one more array element appends a separator (after a
/// predecessor), the indentation and the element.
pub proof fn lemma_pretty_items_push(items: Seq<JsonValue>, x: JsonValue, d: nat)
    ensures
        pretty_items(items.push(x), d) == if items.len() == 0 {
            indent_str(d) + render_pretty(x, d)
        } else {
            pretty_items(items, d) + seq![',', '\n'] + indent_str(d) + render_pretty(x, d)
        },
    decreases items.len(),
{
    if items.len() == 0 {
        assert(items.push(x)[0] == x);
        assert(pretty_items(items.push(x), d) =~= indent_str(d) + render_pretty(x, d));
    } else {
        assert(items.push(x)[0] == items[0]);
        assert(items.push(x).drop_first() =~= items.drop_first().push(x));
        lemma_pretty_items_push(items.drop_first(), x, d);
        assert(pretty_items(items.push(x), d) =~= pretty_items(items, d) + seq![',', '\n']
            + indent_str(d) + render_pretty(x, d));
    }
}

/// Pretty-rendering one more object member appends a separator (after a
/// predecessor), the indentation and the member.
pub proof fn lemma_pretty_members_push(
    entries: Seq<(String, JsonValue)>,
    p: (String, JsonValue),
    d: nat,
)
    ensures
        pretty_members(entries.push(p), d) == if entries.len() == 0 {
            indent_str(d) + quoted(p.0@) + seq![':', ' '] + render_pretty(p.1, d)
        } else {
            pretty_members(entries, d) + seq![',', '\n'] + indent_str(d) + quoted(p.0@) + seq![
                ':',
                ' ',
            ] + render_pretty(p.1, d)
        },
    decreases entries.len(),
{
    if entries.len() == 0 {
        assert(entries.push(p)[0] == p);
        assert(pretty_members(entries.push(p), d) =~= indent_str(d) + quoted(p.0@) + seq![':', ' ']
            + render_pretty(p.1, d));
    } else {
        assert(entries.push(p)[0] == entries[0]);
        assert(entries.push(p).drop_first() =~= entries.drop_first().push(p));
        lemma_pretty_members_push(entries.drop_first(), p, d);
        assert(pretty_members(entries.push(p), d) =~= pretty_members(entries, d) + seq![',', '\n']
            + indent_str(d) + quoted(p.0@) + seq![':', ' '] + render_pretty(p.1, d));
    }
}

/// Relies on String::push: appends exactly one character.
#[verifier::external_body]
pub(crate) fn push_char(s: &mut String, c: char)
    ensures
        final(s)@ == old(s)@ + seq![c],
{
    s.push(c);
}

/// Picks the lower-case hexadecimal digit of a value below sixteen.
fn hex_digit_exec(n: u32) -> (r: char)
    requires
        n < 16,
    ensures
        r == hex_digit(n as nat),
{
    if n == 0 {
        '0'
    } else if n == 1 {
        '1'
    } else if n == 2 {
        '2'
    } else if n == 3 {
        '3'
    } else if n == 4 {
        '4'
    } else if n == 5 {
        '5'
    } else if n == 6 {
        '6'
    } else if n == 7 {
        '7'
    } else if n == 8 {
        '8'
    } else if n == 9 {
        '9'
    } else if n == 10 {
        'a'
    } else if n == 11 {
        'b'
    } else if n == 12 {
        'c'
    } else if n == 13 {
        'd'
    } else if n == 14 {
        'e'
    } else {
        'f'
    }
}

/// Appends `s` to `out` with every character escaped as JSON requires.
fn push_escaped(s: &str, out: &mut String)
    ensures
        final(out)@ == old(out)@ + escape_seq(s@),
{
    let len = s.unicode_len();
    let mut i: usize = 0;
    proof {
        assert(s@.take(0) =~= Seq::<char>::empty());
        assert(escape_seq(Seq::<char>::empty()) =~= Seq::<char>::empty());
        assert(out@ =~= old(out)@ + escape_seq(s@.take(0)));
    }
    while i < len
        invariant
            0 <= i <= len,
            len == s@.len(),
            out@ == old(out)@ + escape_seq(s@.take(i as int)),
        decreases len - i,
    {
        let c = s.get_char(i);
        if c == '"' {
            push_char(out, '\\');
            push_char(out, '"');
        } else if c == '\\' {
            push_char(out, '\\');
            push_char(out, '\\');
        } else if c == '\u{8}' {
            push_char(out, '\\');
            push_char(out, 'b');
        } else if c == '\t' {
            push_char(out, '\\');
            push_char(out, 't');
        } else if c == '\n' {
            push_char(out, '\\');
            push_char(out, 'n');
        } else if c == '\u{c}' {
            push_char(out, '\\');
            push_char(out, 'f');
        } else if c == '\r' {
            push_char(out, '\\');
            push_char(out, 'r');
        } else if (c as u32) < 0x20 {
            push_char(out, '\\');
            push_char(out, 'u');
            push_char(out, '0');
            push_char(out, '0');
            push_char(out, hex_digit_exec(c as u32 / 16));
            push_char(out, hex_digit_exec(c as u32 % 16));
        } else {
            push_char(out, c);
        }
        proof {
            assert(out@ =~= old(out)@ + escape_seq(s@.take(i as int)) + escape_char(c));
            lemma_escape_push(s@.take(i as int), c);
            assert(s@.take(i as int).push(c) =~= s@.take(i as int + 1));
            assert(out@ =~= old(out)@ + escape_seq(s@.take(i as int + 1)));
        }
        i += 1;
    }
    proof {
        assert(s@.take(len as int) =~= s@);
    }
}

/// Appends the JSON text of `*v` in the chosen mode to `out`, with `ind`
/// carrying the indentation of the current depth.
fn render_into(v: &JsonValue, pretty: bool, ind: &String, Ghost(depth): Ghost<nat>, out: &mut String)
    requires
        ind@ == indent_str(depth),
    ensures
        final(out)@ == old(out)@ + render_at(*v, pretty, depth),
    decreases *v,
{
    match v {
        JsonValue::Null => {
            out.append("null");
            proof {
                reveal_strlit("null");
                assert("null"@ =~= seq!['n', 'u', 'l', 'l']);
            }
        },
        JsonValue::Bool(b) => {
            if *b {
                out.append("true");
                proof {
                    reveal_strlit("true");
                    assert("true"@ =~= seq!['t', 'r', 'u', 'e']);
                }
            } else {
                out.append("false");
                proof {
                    reveal_strlit("false");
                    assert("false"@ =~= seq!['f', 'a', 'l', 's', 'e']);
                }
            }
        },
        JsonValue::Num(s) => {
            out.append(s.as_str());
        },
        JsonValue::Str(s) => {
            push_char(out, '"');
            push_escaped(s.as_str(), out);
            push_char(out, '"');
            proof {
                assert(out@ =~= old(out)@ + quoted(s@));
            }
        },
        JsonValue::Arr(items) => {
            if items.len() == 0 {
                push_char(out, '[');
                push_char(out, ']');
                proof {
                    assert(out@ =~= old(out)@ + render_at(*v, pretty, depth));
                }
            } else if pretty {
                push_char(out, '[');
                push_char(out, '\n');
                let mut child_ind = ind.clone();
                child_ind.append("  ");
                proof {
                    reveal_strlit("  ");
                    assert(child_ind@ =~= indent_str(depth + 1));
                    assert(pretty_items(items@.take(0), depth + 1) =~= Seq::<char>::empty());
                    assert(out@ =~= old(out)@ + seq!['[', '\n'] + pretty_items(
                        items@.take(0),
                        depth + 1,
                    ));
                }
                let mut i: usize = 0;
                while i < items.len()
                    invariant
                        0 <= i <= items.len(),
                        ind@ == indent_str(depth),
                        child_ind@ == indent_str(depth + 1),
                        out@ == old(out)@ + seq!['[', '\n'] + pretty_items(
                            items@.take(i as int),
                            depth + 1,
                        ),
                        *v == JsonValue::Arr(*items),
                    decreases items.len() - i,
                {
                    if i > 0 {
                        push_char(out, ',');
                        push_char(out, '\n');
                    }
                    out.append(child_ind.as_str());
                    proof {
                        assert(decreases_to!(*v => v->Arr_0));
                        assert(v->Arr_0 == *items);
                        assert(decreases_to!(*items => items@[i as int]));
                        assert(decreases_to!(*v => items@[i as int]));
                    }
                    render_into(&items[i], true, &child_ind, Ghost((depth + 1) as nat), out);
                    proof {
                        lemma_pretty_items_push(items@.take(i as int), items@[i as int], depth + 1);
                        assert(items@.take(i as int).push(items@[i as int]) =~= items@.take(
                            i as int + 1,
                        ));
                        assert(out@ =~= old(out)@ + seq!['[', '\n'] + pretty_items(
                            items@.take(i as int + 1),
                            depth + 1,
                        ));
                    }
                    i += 1;
                }
                push_char(out, '\n');
                out.append(ind.as_str());
                push_char(out, ']');
                proof {
                    assert(items@.take(items@.len() as int) =~= items@);
                    assert(out@ =~= old(out)@ + render_pretty(*v, depth));
                }
            } else {
                push_char(out, '[');
                proof {
                    assert(render_items(items@.take(0)) =~= Seq::<char>::empty());
                    assert(out@ =~= old(out)@ + seq!['['] + render_items(items@.take(0)));
                }
                let mut i: usize = 0;
                while i < items.len()
                    invariant
                        0 <= i <= items.len(),
                        ind@ == indent_str(depth),
                        out@ == old(out)@ + seq!['['] + render_items(items@.take(i as int)),
                        *v == JsonValue::Arr(*items),
                    decreases items.len() - i,
                {
                    if i > 0 {
                        push_char(out, ',');
                    }
                    proof {
                        assert(decreases_to!(*v => v->Arr_0));
                        assert(v->Arr_0 == *items);
                        assert(decreases_to!(*items => items@[i as int]));
                        assert(decreases_to!(*v => items@[i as int]));
                    }
                    render_into(&items[i], false, ind, Ghost(depth), out);
                    proof {
                        lemma_render_items_push(items@.take(i as int), items@[i as int]);
                        assert(items@.take(i as int).push(items@[i as int]) =~= items@.take(
                            i as int + 1,
                        ));
                        assert(out@ =~= old(out)@ + seq!['['] + render_items(
                            items@.take(i as int + 1),
                        ));
                    }
                    i += 1;
                }
                push_char(out, ']');
                proof {
                    assert(items@.take(items@.len() as int) =~= items@);
                    assert(out@ =~= old(out)@ + render_compact(*v));
                }
            }
        },
        JsonValue::Obj(entries) => {
            if entries.len() == 0 {
                push_char(out, '{');
                push_char(out, '}');
                proof {
                    assert(out@ =~= old(out)@ + render_at(*v, pretty, depth));
                }
            } else if pretty {
                push_char(out, '{');
                push_char(out, '\n');
                let mut child_ind = ind.clone();
                child_ind.append("  ");
                proof {
                    reveal_strlit("  ");
                    assert(child_ind@ =~= indent_str(depth + 1));
                    assert(pretty_members(entries@.take(0), depth + 1) =~= Seq::<char>::empty());
                    assert(out@ =~= old(out)@ + seq!['{', '\n'] + pretty_members(
                        entries@.take(0),
                        depth + 1,
                    ));
                }
                let mut i: usize = 0;
                while i < entries.len()
                    invariant
                        0 <= i <= entries.len(),
                        ind@ == indent_str(depth),
                        child_ind@ == indent_str(depth + 1),
                        out@ == old(out)@ + seq!['{', '\n'] + pretty_members(
                            entries@.take(i as int),
                            depth + 1,
                        ),
                        *v == JsonValue::Obj(*entries),
                    decreases entries.len() - i,
                {
                    if i > 0 {
                        push_char(out, ',');
                        push_char(out, '\n');
                    }
                    out.append(child_ind.as_str());
                    let pair = &entries[i];
                    push_char(out, '"');
                    push_escaped(pair.0.as_str(), out);
                    push_char(out, '"');
                    push_char(out, ':');
                    push_char(out, ' ');
                    proof {
                        assert(decreases_to!(*v => v->Obj_0));
                        assert(v->Obj_0 == *entries);
                        assert(decreases_to!(*entries => entries@[i as int]));
                        assert(decreases_to!(entries@[i as int] => entries@[i as int].1));
                        assert(decreases_to!(*v => entries@[i as int].1));
                    }
                    render_into(&pair.1, true, &child_ind, Ghost((depth + 1) as nat), out);
                    proof {
                        lemma_pretty_members_push(
                            entries@.take(i as int),
                            entries@[i as int],
                            depth + 1,
                        );
                        assert(entries@.take(i as int).push(entries@[i as int]) =~= entries@.take(
                            i as int + 1,
                        ));
                        assert(out@ =~= old(out)@ + seq!['{', '\n'] + pretty_members(
                            entries@.take(i as int + 1),
                            depth + 1,
                        ));
                    }
                    i += 1;
                }
                push_char(out, '\n');
                out.append(ind.as_str());
                push_char(out, '}');
                proof {
                    assert(entries@.take(entries@.len() as int) =~= entries@);
                    assert(out@ =~= old(out)@ + render_pretty(*v, depth));
                }
            } else {
                push_char(out, '{');
                proof {
                    assert(render_members(entries@.take(0)) =~= Seq::<char>::empty());
                    assert(out@ =~= old(out)@ + seq!['{'] + render_members(entries@.take(0)));
                }
                let mut i: usize = 0;
                while i < entries.len()
                    invariant
                        0 <= i <= entries.len(),
                        ind@ == indent_str(depth),
                        out@ == old(out)@ + seq!['{'] + render_members(entries@.take(i as int)),
                        *v == JsonValue::Obj(*entries),
                    decreases entries.len() - i,
                {
                    if i > 0 {
                        push_char(out, ',');
                    }
                    let pair = &entries[i];
                    push_char(out, '"');
                    push_escaped(pair.0.as_str(), out);
                    push_char(out, '"');
                    push_char(out, ':');
                    proof {
                        assert(decreases_to!(*v => v->Obj_0));
                        assert(v->Obj_0 == *entries);
                        assert(decreases_to!(*entries => entries@[i as int]));
                        assert(decreases_to!(entries@[i as int] => entries@[i as int].1));
                        assert(decreases_to!(*v => entries@[i as int].1));
                    }
                    render_into(&pair.1, false, ind, Ghost(depth), out);
                    proof {
                        lemma_render_members_push(entries@.take(i as int), entries@[i as int]);
                        assert(entries@.take(i as int).push(entries@[i as int]) =~= entries@.take(
                            i as int + 1,
                        ));
                        assert(out@ =~= old(out)@ + seq!['{'] + render_members(
                            entries@.take(i as int + 1),
                        ));
                    }
                    i += 1;
                }
                push_char(out, '}');
                proof {
                    assert(entries@.take(entries@.len() as int) =~= entries@);
                    assert(out@ =~= old(out)@ + render_compact(*v));
                }
            }
        },
    }
}

/// Serializes a JSON value to text, compact or pretty, exactly as
/// [`render`] describes it.
pub fn json(v: &JsonValue, pretty: bool) -> (r: String)
    ensures
        r@ == render(*v, pretty),
{
    let mut out = String::new();
    let ind = String::new();
    render_into(v, pretty, &ind, Ghost(0nat), &mut out);
    proof {
        assert(out@ =~= render(*v, pretty));
    }
    out
}

} // verus!
