//! Why the canonical text of arguments stands for the arguments: different arguments have
//! different texts.

use vstd::prelude::*;

#[allow(unused_imports)]
use crate::hex::hex_digit;
#[allow(unused_imports)]
use crate::json::{array_text, escaped, escaped_text, field_texts, json_string, object_text};
#[allow(unused_imports)]
use crate::text::{
    ascii_digit, decimal, joined, law_signed_decimal_reads_back, lemma_decimal_digits,
    parse_integer, signed_decimal,
};
#[allow(unused_imports)]
use crate::tool_values::{
    Arguments, ToolModel, argument_fields, arguments_json, value_json, value_jsons,
};

verus! {

// ---------------------------------------------------------------------------
// Texts
// ---------------------------------------------------------------------------

proof fn lemma_digits_apart(a: int, b: int)
    requires
        0 <= a < 16,
        0 <= b < 16,
        hex_digit(a) == hex_digit(b),
    ensures
        a == b,
{
    assert(hex_digit(a) as int == if a < 10 { 48 + a } else { 87 + a });
    assert(hex_digit(b) as int == if b < 10 { 48 + b } else { 87 + b });
}

proof fn lemma_escape_shape(c: char)
    ensures
        escaped(c).len() == 1 || escaped(c).len() == 2 || escaped(c).len() == 6,
        escaped(c).len() == 1 <==> escaped(c)[0] != '\\',
        escaped(c).len() == 1 ==> escaped(c)[0] == c,
        escaped(c)[0] != '"',
        escaped(c).len() == 6 <==> escaped(c).len() > 1 && escaped(c)[1] == 'u',
{
}

proof fn lemma_escapes_apart(c: char, d: char, x: Seq<char>, y: Seq<char>)
    requires
        escaped(c) + x == escaped(d) + y,
    ensures
        c == d,
        x == y,
{
    let e = escaped(c);
    let f = escaped(d);
    let whole = e + x;
    lemma_escape_shape(c);
    lemma_escape_shape(d);
    assert(whole[0] == e[0]);
    assert(whole[0] == f[0]);
    if e.len() > 1 {
        assert(whole[1] == e[1]);
        assert(whole[1] == f[1]);
        if e.len() == 6 {
            assert(whole[4] == e[4] && whole[5] == e[5]);
            assert(whole[4] == f[4] && whole[5] == f[5]);
            lemma_digits_apart(c as int / 16, d as int / 16);
            lemma_digits_apart(c as int % 16, d as int % 16);
            assert(c as int == d as int);
        }
    }
    assert(c == d);
    assert(x =~= whole.skip(e.len() as int));
    assert(y =~= whole.skip(e.len() as int));
}

proof fn lemma_texts_apart(s: Seq<char>, t: Seq<char>, x: Seq<char>, y: Seq<char>)
    requires
        escaped_text(s) + seq!['"'] + x == escaped_text(t) + seq!['"'] + y,
    ensures
        s == t,
        x == y,
    decreases s.len(),
{
    let whole = escaped_text(s) + seq!['"'] + x;
    if s.len() == 0 || t.len() == 0 {
        if s.len() > 0 {
            lemma_escape_shape(s[0]);
            assert(whole[0] == escaped(s[0])[0]);
            assert(whole[0] == '"');
        }
        if t.len() > 0 {
            lemma_escape_shape(t[0]);
            assert(whole[0] == escaped(t[0])[0]);
            assert(whole[0] == '"');
        }
        assert(s =~= t);
        assert(x =~= whole.skip(1));
        assert(y =~= whole.skip(1));
    } else {
        let u = escaped_text(s.skip(1)) + seq!['"'] + x;
        let v = escaped_text(t.skip(1)) + seq!['"'] + y;
        assert(whole =~= escaped(s[0]) + u);
        assert(whole =~= escaped(t[0]) + v);
        lemma_escapes_apart(s[0], t[0], u, v);
        lemma_texts_apart(s.skip(1), t.skip(1), x, y);
        assert(s =~= seq![s[0]] + s.skip(1));
        assert(t =~= seq![t[0]] + t.skip(1));
    }
}

proof fn lemma_strings_apart(s: Seq<char>, t: Seq<char>, x: Seq<char>, y: Seq<char>)
    requires
        json_string(s) + x == json_string(t) + y,
    ensures
        s == t,
        x == y,
{
    reveal(json_string);
    let whole = json_string(s) + x;
    assert(whole.skip(1) =~= escaped_text(s) + seq!['"'] + x);
    assert(whole.skip(1) =~= escaped_text(t) + seq!['"'] + y);
    lemma_texts_apart(s, t, x, y);
}

// ---------------------------------------------------------------------------
// Numbers
// ---------------------------------------------------------------------------

/// Whether a value ends where `x` begins.
spec fn ends_value(x: Seq<char>) -> bool {
    x.len() == 0 || x[0] == ',' || x[0] == ']' || x[0] == '}'
}

/// Whether a character stands in numbers.
spec fn numeric(c: char) -> bool {
    ascii_digit(c) || c == '-'
}

proof fn lemma_number_shape(i: int)
    ensures
        signed_decimal(i).len() > 0,
        forall|k: int| 0 <= k < signed_decimal(i).len() ==> numeric(#[trigger] signed_decimal(i)[k]),
{
    let s = signed_decimal(i);
    if i < 0 {
        lemma_decimal_digits((-i) as nat);
        assert forall|k: int| 0 <= k < s.len() implies numeric(#[trigger] s[k]) by {
            if k > 0 {
                assert(ascii_digit(decimal((-i) as nat)[k - 1]));
            }
        }
    } else {
        lemma_decimal_digits(i as nat);
    }
}

proof fn lemma_numbers_apart(a: i32, b: i32, x: Seq<char>, y: Seq<char>)
    requires
        signed_decimal(a as int) + x == signed_decimal(b as int) + y,
        ends_value(x),
        ends_value(y),
    ensures
        a == b,
        x == y,
{
    let s = signed_decimal(a as int);
    let t = signed_decimal(b as int);
    let whole = s + x;
    lemma_number_shape(a as int);
    lemma_number_shape(b as int);
    if s.len() < t.len() {
        assert(whole[s.len() as int] == t[s.len() as int]);
        assert(numeric(t[s.len() as int]));
        assert(x.len() > 0);
        assert(whole[s.len() as int] == x[0]);
    }
    if t.len() < s.len() {
        assert(whole[t.len() as int] == s[t.len() as int]);
        assert(numeric(s[t.len() as int]));
        assert(y.len() > 0);
        assert(whole[t.len() as int] == y[0]);
    }
    assert(s =~= whole.take(s.len() as int));
    assert(t =~= whole.take(s.len() as int));
    assert(x =~= whole.skip(s.len() as int));
    assert(y =~= whole.skip(s.len() as int));
    law_signed_decimal_reads_back(a as int);
    law_signed_decimal_reads_back(b as int);
}

// ---------------------------------------------------------------------------
// Lists
// ---------------------------------------------------------------------------

/// The parts from the one at `index` on, as they stand in a list, up to the end of the list.
spec fn run(parts: Seq<Seq<char>>, index: int, close: char) -> Seq<char>
    decreases parts.len() - index,
{
    if !(0 <= index < parts.len()) {
        seq![close]
    } else if index == 0 {
        parts[0] + run(parts, 1, close)
    } else {
        seq![','] + parts[index] + run(parts, index + 1, close)
    }
}

proof fn lemma_run_is_joined(parts: Seq<Seq<char>>, index: int, close: char)
    requires
        0 <= index <= parts.len(),
    ensures
        joined(parts, seq![',']) + seq![close] == joined(parts.take(index), seq![',']) + run(
            parts,
            index,
            close,
        ),
    decreases parts.len() - index,
{
    let sep = seq![','];
    if index == parts.len() {
        assert(parts.take(index) =~= parts);
    } else {
        lemma_run_is_joined(parts, index + 1, close);
        let next = parts.take(index + 1);
        assert(next.drop_last() =~= parts.take(index));
        assert(next.last() == parts[index]);
        if index == 0 {
            assert(joined(parts.take(0), sep) =~= Seq::<char>::empty());
            assert(next[0] == parts[0]);
            assert(joined(next, sep) == parts[0]);
            assert(joined(parts.take(0), sep) + run(parts, 0, close) =~= joined(next, sep) + run(
                parts,
                1,
                close,
            ));
        } else {
            assert(joined(next, sep) == joined(parts.take(index), sep) + sep + parts[index]);
            assert(joined(parts.take(index), sep) + run(parts, index, close) =~= joined(next, sep)
                + run(parts, index + 1, close));
        }
    }
}

proof fn lemma_run_begins(parts: Seq<Seq<char>>, index: int, close: char)
    requires
        0 < index <= parts.len(),
        close == ']' || close == '}',
    ensures
        run(parts, index, close).len() > 0,
        run(parts, index, close)[0] == (if index < parts.len() {
            ','
        } else {
            close
        }),
{
}

proof fn lemma_value_begins(m: ToolModel)
    ensures
        value_json(m).len() > 0,
        value_json(m)[0] == (match m {
            ToolModel::Text(_) => '"',
            ToolModel::Integer(_) => value_json(m)[0],
            ToolModel::List(_) => '[',
            ToolModel::Boolean(flag) => if flag {
                't'
            } else {
                'f'
            },
        }),
        m is Integer ==> numeric(value_json(m)[0]),
{
    reveal(json_string);
    reveal_strlit("true");
    reveal_strlit("false");
    reveal_strlit("[");
    if let ToolModel::Integer(number) = m {
        lemma_number_shape(number as int);
    }
}

proof fn lemma_values_apart(a: ToolModel, b: ToolModel, x: Seq<char>, y: Seq<char>)
    requires
        value_json(a) + x == value_json(b) + y,
        ends_value(x),
        ends_value(y),
    ensures
        a == b,
        x == y,
    decreases a, 0int,
{
    let whole = value_json(a) + x;
    lemma_value_begins(a);
    lemma_value_begins(b);
    assert(whole[0] == value_json(a)[0]);
    assert(whole[0] == value_json(b)[0]);
    match (a, b) {
        (ToolModel::Text(s), ToolModel::Text(t)) => {
            lemma_strings_apart(s, t, x, y);
        },
        (ToolModel::Integer(m), ToolModel::Integer(n)) => {
            lemma_numbers_apart(m, n, x, y);
        },
        (ToolModel::Boolean(p), ToolModel::Boolean(q)) => {
            assert(p == q);
            let n = value_json(a).len() as int;
            assert(x =~= whole.skip(n));
            assert(y =~= whole.skip(n));
        },
        (ToolModel::List(ours), ToolModel::List(theirs)) => {
            reveal_strlit("[");
            reveal_strlit("]");
            reveal_strlit(",");
            let p = value_jsons(ours);
            let q = value_jsons(theirs);
            assert(","@ =~= seq![',']);
            lemma_run_is_joined(p, 0, ']');
            lemma_run_is_joined(q, 0, ']');
            assert(joined(p.take(0), seq![',']) =~= Seq::<char>::empty());
            assert(joined(q.take(0), seq![',']) =~= Seq::<char>::empty());
            assert(whole.skip(1) =~= run(p, 0, ']') + x);
            assert(whole.skip(1) =~= run(q, 0, ']') + y);
            lemma_lists_apart(ours, theirs, 0, x, y);
            assert(ours =~= theirs);
        },
        _ => {
            assert(false);
        },
    }
}

proof fn lemma_lists_apart(
    ours: Seq<ToolModel>,
    theirs: Seq<ToolModel>,
    index: int,
    x: Seq<char>,
    y: Seq<char>,
)
    requires
        0 <= index <= ours.len(),
        index <= theirs.len(),
        run(value_jsons(ours), index, ']') + x == run(value_jsons(theirs), index, ']') + y,
        ends_value(x),
        ends_value(y),
    ensures
        ours.len() == theirs.len(),
        forall|i: int| index <= i < ours.len() ==> #[trigger] ours[i] == theirs[i],
        x == y,
    decreases ours, ours.len() - index,
{
    let p = value_jsons(ours);
    let q = value_jsons(theirs);
    let whole = run(p, index, ']') + x;
    let skipped: int = if index == 0 {
        0
    } else {
        1
    };
    if index < ours.len() {
        assert(p[index] == value_json(ours[index]));
        lemma_value_begins(ours[index]);
    }
    if index < theirs.len() {
        assert(q[index] == value_json(theirs[index]));
        lemma_value_begins(theirs[index]);
    }
    if index < ours.len() && index < theirs.len() {
        let u = run(p, index + 1, ']') + x;
        let v = run(q, index + 1, ']') + y;
        lemma_run_begins(p, index + 1, ']');
        lemma_run_begins(q, index + 1, ']');
        assert(u[0] == run(p, index + 1, ']')[0]);
        assert(v[0] == run(q, index + 1, ']')[0]);
        assert(whole.skip(skipped) =~= p[index] + u);
        assert(whole.skip(skipped) =~= q[index] + v);
        lemma_values_apart(ours[index], theirs[index], u, v);
        lemma_lists_apart(ours, theirs, index + 1, x, y);
    } else {
        if index < ours.len() {
            assert(whole[0] == (if index == 0 {
                p[index][0]
            } else {
                ','
            }));
            assert(whole[0] == ']');
        }
        if index < theirs.len() {
            assert(whole[0] == (if index == 0 {
                q[index][0]
            } else {
                ','
            }));
            assert(whole[0] == ']');
        }
        assert(x =~= whole.skip(1));
        assert(y =~= whole.skip(1));
    }
}

// ---------------------------------------------------------------------------
// Arguments
// ---------------------------------------------------------------------------

proof fn lemma_fields_apart(
    ours: Arguments,
    theirs: Arguments,
    index: int,
)
    requires
        0 <= index <= ours.len(),
        index <= theirs.len(),
        run(field_texts(argument_fields(ours)), index, '}') == run(
            field_texts(argument_fields(theirs)),
            index,
            '}',
        ),
    ensures
        ours.len() == theirs.len(),
        forall|i: int| index <= i < ours.len() ==> #[trigger] ours[i] == theirs[i],
    decreases ours.len() - index,
{
    reveal_strlit(":");
    let p = field_texts(argument_fields(ours));
    let q = field_texts(argument_fields(theirs));
    let whole = run(p, index, '}');
    let skipped: int = if index == 0 {
        0
    } else {
        1
    };
    if index < ours.len() && index < theirs.len() {
        let (our_name, our_value) = ours[index];
        let (their_name, their_value) = theirs[index];
        let u = run(p, index + 1, '}');
        let v = run(q, index + 1, '}');
        lemma_run_begins(p, index + 1, '}');
        lemma_run_begins(q, index + 1, '}');
        let our_rest = ":"@ + value_json(our_value) + u;
        let their_rest = ":"@ + value_json(their_value) + v;
        assert(p[index] == json_string(our_name) + ":"@ + value_json(our_value));
        assert(q[index] == json_string(their_name) + ":"@ + value_json(their_value));
        assert(whole.skip(skipped) =~= json_string(our_name) + our_rest);
        assert(whole.skip(skipped) =~= json_string(their_name) + their_rest);
        lemma_strings_apart(our_name, their_name, our_rest, their_rest);
        assert(our_rest.skip(1) =~= value_json(our_value) + u);
        assert(our_rest.skip(1) =~= value_json(their_value) + v);
        lemma_values_apart(our_value, their_value, u, v);
        lemma_fields_apart(ours, theirs, index + 1);
    } else {
        reveal(json_string);
        if index < ours.len() {
            assert(p[index][0] == '"');
            assert(whole[0] != '}');
            assert(run(q, index, '}')[0] == '}');
        }
        if index < theirs.len() {
            assert(q[index][0] == '"');
            assert(run(q, index, '}')[0] != '}');
            assert(whole[0] == '}');
        }
    }
}

/// Arguments with the same canonical text are the same.
pub proof fn law_canonical_texts_tell_arguments_apart(a: Arguments, b: Arguments)
    ensures
        arguments_json(a) == arguments_json(b) <==> a == b,
{
    if arguments_json(a) == arguments_json(b) {
        reveal_strlit("{");
        reveal_strlit("}");
        reveal_strlit(",");
        let p = field_texts(argument_fields(a));
        let q = field_texts(argument_fields(b));
        assert(","@ =~= seq![',']);
        lemma_run_is_joined(p, 0, '}');
        lemma_run_is_joined(q, 0, '}');
        assert(joined(p.take(0), seq![',']) =~= Seq::<char>::empty());
        assert(joined(q.take(0), seq![',']) =~= Seq::<char>::empty());
        let whole = arguments_json(a);
        assert(whole.skip(1) =~= run(p, 0, '}'));
        assert(whole.skip(1) =~= run(q, 0, '}'));
        lemma_fields_apart(a, b, 0);
        assert(a =~= b);
    }
}

// ---------------------------------------------------------------------------
// Names before arguments
// ---------------------------------------------------------------------------

/// Where a character leads in a JSON text: 0 outside of strings, 1 inside of one, 2 behind the
/// backslash of an escape.
spec fn led(place: int, c: char) -> int {
    if place == 0 {
        if c == '"' {
            1
        } else {
            0
        }
    } else if place == 1 {
        if c == '\\' {
            2
        } else if c == '"' {
            0
        } else {
            1
        }
    } else {
        1
    }
}

/// Where a text leads.
spec fn scanned(place: int, s: Seq<char>) -> int
    decreases s.len(),
{
    if s.len() == 0 {
        place
    } else {
        led(scanned(place, s.drop_last()), s.last())
    }
}

proof fn lemma_scanned_parts(place: int, x: Seq<char>, y: Seq<char>)
    ensures
        scanned(place, x + y) == scanned(scanned(place, x), y),
    decreases y.len(),
{
    if y.len() == 0 {
        assert(x + y =~= x);
    } else {
        assert((x + y).drop_last() =~= x + y.drop_last());
        assert((x + y).last() == y.last());
        lemma_scanned_parts(place, x, y.drop_last());
    }
}

/// Whether a text has its spaces and backslashes inside of strings, and ends outside of them.
spec fn tidy(s: Seq<char>) -> bool {
    &&& scanned(0, s) == 0
    &&& forall|i: int|
        0 <= i < s.len() && scanned(0, #[trigger] s.take(i)) == 0 ==> s[i] != '\\' && s[i] != ' '
}

proof fn lemma_tidy_parts(x: Seq<char>, y: Seq<char>)
    requires
        tidy(x),
        tidy(y),
    ensures
        tidy(x + y),
{
    let whole = x + y;
    lemma_scanned_parts(0, x, y);
    assert forall|i: int| 0 <= i < whole.len() && scanned(0, #[trigger] whole.take(i)) == 0 implies
        whole[i] != '\\' && whole[i] != ' ' by {
        if i < x.len() {
            assert(whole.take(i) =~= x.take(i));
        } else {
            let k = i - x.len();
            assert(whole.take(i) =~= x + y.take(k));
            lemma_scanned_parts(0, x, y.take(k));
            assert(whole[i] == y[k]);
        }
    }
}

proof fn lemma_plain_is_tidy(s: Seq<char>)
    requires
        forall|i: int| 0 <= i < s.len() ==> (#[trigger] s[i]) != '"' && s[i] != '\\' && s[i] != ' ',
    ensures
        tidy(s),
    decreases s.len(),
{
    if s.len() > 0 {
        let front = s.drop_last();
        assert forall|i: int| 0 <= i < front.len() implies (#[trigger] front[i]) != '"' && front[i]
            != '\\' && front[i] != ' ' by {
            assert(front[i] == s[i]);
        }
        lemma_plain_is_tidy(front);
    }
}

proof fn lemma_scanned_one(place: int, c: char)
    ensures
        scanned(place, seq![c]) == led(place, c),
{
    assert(seq![c].drop_last() =~= Seq::<char>::empty());
    reveal_with_fuel(scanned, 2);
}

/// What is escaped stays inside of its string.
proof fn lemma_escaped_inside(c: char, i: int)
    requires
        0 <= i <= escaped(c).len(),
    ensures
        scanned(1, escaped(c)) == 1,
        scanned(1, escaped(c).take(i)) != 0,
{
    let e = escaped(c);
    lemma_escape_shape(c);
    assert(e.take(e.len() as int) =~= e);
    assert(e.take(0) =~= Seq::<char>::empty());
    assert(scanned(1, e.take(0)) == 1);
    assert(e.take(1).drop_last() =~= e.take(0));
    assert(e.take(1).last() == e[0]);
    assert(scanned(1, e.take(1)) == led(1, e[0]));
    if e.len() >= 2 {
        assert(e[0] == '\\');
        assert(e.take(2).drop_last() =~= e.take(1));
        assert(e.take(2).last() == e[1]);
        assert(scanned(1, e.take(2)) == 1);
    }
    if e.len() == 6 {
        assert(e[2] == '0' && e[3] == '0');
        assert(e[4] != '"' && e[4] != '\\');
        assert(e[5] != '"' && e[5] != '\\');
        assert(e.take(3).drop_last() =~= e.take(2));
        assert(scanned(1, e.take(3)) == 1);
        assert(e.take(4).drop_last() =~= e.take(3));
        assert(scanned(1, e.take(4)) == 1);
        assert(e.take(5).drop_last() =~= e.take(4));
        assert(scanned(1, e.take(5)) == 1);
        assert(e.take(6).drop_last() =~= e.take(5));
        assert(scanned(1, e.take(6)) == 1);
    }
}

proof fn lemma_escaped_text_inside(s: Seq<char>, i: int)
    requires
        0 <= i <= escaped_text(s).len(),
    ensures
        scanned(1, escaped_text(s)) == 1,
        scanned(1, escaped_text(s).take(i)) != 0,
    decreases s.len(),
{
    let whole = escaped_text(s);
    if s.len() == 0 {
        assert(whole.take(i) =~= Seq::<char>::empty());
    } else {
        let first = escaped(s[0]);
        let rest = escaped_text(s.skip(1));
        lemma_escaped_inside(s[0], 0);
        lemma_escaped_text_inside(s.skip(1), 0);
        lemma_scanned_parts(1, first, rest);
        if i <= first.len() {
            assert(whole.take(i) =~= first.take(i));
            lemma_escaped_inside(s[0], i);
        } else {
            let k = i - first.len();
            assert(whole.take(i) =~= first + rest.take(k));
            lemma_scanned_parts(1, first, rest.take(k));
            lemma_escaped_text_inside(s.skip(1), k);
        }
    }
}

proof fn lemma_string_is_tidy(s: Seq<char>)
    ensures
        tidy(json_string(s)),
{
    reveal(json_string);
    let open = seq!['"'];
    let text = escaped_text(s);
    let whole = json_string(s);
    assert(whole =~= open + (text + open));
    lemma_scanned_one(0, '"');
    lemma_scanned_one(1, '"');
    lemma_escaped_text_inside(s, 0);
    lemma_scanned_parts(0, open, text + open);
    lemma_scanned_parts(1, text, open);
    assert forall|i: int| 0 <= i < whole.len() && scanned(0, #[trigger] whole.take(i)) == 0 implies
        whole[i] != '\\' && whole[i] != ' ' by {
        if i > 0 {
            let k = i - 1;
            assert(whole.take(i) =~= open + text.take(k));
            lemma_scanned_parts(0, open, text.take(k));
            lemma_escaped_text_inside(s, k);
        }
    }
}

proof fn lemma_joined_is_tidy(parts: Seq<Seq<char>>)
    requires
        forall|i: int| 0 <= i < parts.len() ==> tidy(#[trigger] parts[i]),
    ensures
        tidy(joined(parts, ","@)),
    decreases parts.len(),
{
    reveal_strlit(",");
    if parts.len() == 0 {
        lemma_plain_is_tidy(Seq::empty());
    } else if parts.len() > 1 {
        let front = parts.drop_last();
        assert forall|i: int| 0 <= i < front.len() implies tidy(#[trigger] front[i]) by {
            assert(front[i] == parts[i]);
        }
        lemma_joined_is_tidy(front);
        lemma_plain_is_tidy(","@);
        lemma_tidy_parts(joined(front, ","@), ","@);
        assert(tidy(parts[parts.len() - 1]));
        lemma_tidy_parts(joined(front, ","@) + ","@, parts.last());
    } else {
        assert(tidy(parts[0]));
    }
}

proof fn lemma_value_is_tidy(m: ToolModel)
    ensures
        tidy(value_json(m)),
    decreases m,
{
    match m {
        ToolModel::Text(text) => lemma_string_is_tidy(text),
        ToolModel::Integer(number) => {
            lemma_number_shape(number as int);
            let s = signed_decimal(number as int);
            assert forall|i: int| 0 <= i < s.len() implies (#[trigger] s[i]) != '"' && s[i] != '\\'
                && s[i] != ' ' by {
                assert(numeric(s[i]));
            }
            lemma_plain_is_tidy(s);
        },
        ToolModel::Boolean(flag) => {
            reveal_strlit("true");
            reveal_strlit("false");
            lemma_plain_is_tidy(value_json(m));
        },
        ToolModel::List(items) => {
            reveal_strlit("[");
            reveal_strlit("]");
            let parts = value_jsons(items);
            assert forall|i: int| 0 <= i < parts.len() implies tidy(#[trigger] parts[i]) by {
                assert(parts[i] == value_json(items[i]));
                lemma_value_is_tidy(items[i]);
            }
            lemma_joined_is_tidy(parts);
            lemma_plain_is_tidy("["@);
            lemma_plain_is_tidy("]"@);
            lemma_tidy_parts("["@, joined(parts, ","@));
            lemma_tidy_parts("["@ + joined(parts, ","@), "]"@);
        },
    }
}

proof fn lemma_arguments_are_tidy(a: Arguments)
    ensures
        tidy(arguments_json(a)),
{
    reveal_strlit("{");
    reveal_strlit("}");
    reveal_strlit(":");
    let fields = argument_fields(a);
    let parts = field_texts(fields);
    lemma_plain_is_tidy(":"@);
    assert forall|i: int| 0 <= i < parts.len() implies tidy(#[trigger] parts[i]) by {
        assert(parts[i] == json_string(a[i].0) + ":"@ + value_json(a[i].1));
        lemma_string_is_tidy(a[i].0);
        lemma_value_is_tidy(a[i].1);
        lemma_tidy_parts(json_string(a[i].0), ":"@);
        lemma_tidy_parts(json_string(a[i].0) + ":"@, value_json(a[i].1));
    }
    lemma_joined_is_tidy(parts);
    lemma_plain_is_tidy("{"@);
    lemma_plain_is_tidy("}"@);
    lemma_tidy_parts("{"@, joined(parts, ","@));
    lemma_tidy_parts("{"@ + joined(parts, ","@), "}"@);
}

/// Two tidy texts, one of which ends in the other behind a space, would be inside of strings where
/// the other is outside.
proof fn lemma_never_out_of_step(whole: Seq<char>, d: int, i: int)
    requires
        0 < d <= whole.len(),
        tidy(whole),
        tidy(whole.skip(d)),
        whole[d - 1] == ' ',
        0 <= i <= whole.len() - d,
    ensures
        scanned(0, whole.take(d + i)) == 1 - scanned(0, whole.skip(d).take(i)),
        0 <= scanned(0, whole.skip(d).take(i)) <= 1,
    decreases i,
{
    let tail = whole.skip(d);
    if i == 0 {
        assert(tail.take(0) =~= Seq::<char>::empty());
        assert(whole.take(d).drop_last() =~= whole.take(d - 1));
        assert(whole.take(d).last() == ' ');
        assert(scanned(0, whole.take(d - 1)) != 0);
    } else {
        lemma_never_out_of_step(whole, d, i - 1);
        assert(whole.take(d + i).drop_last() =~= whole.take(d + i - 1));
        assert(tail.take(i).drop_last() =~= tail.take(i - 1));
        assert(whole.take(d + i).last() == whole[d + i - 1]);
        assert(tail.take(i).last() == tail[i - 1]);
        assert(tail[i - 1] == whole[d + i - 1]);
    }
}

proof fn lemma_no_longer_name(
    name: Seq<char>,
    arguments: Arguments,
    other: Seq<char>,
    others: Arguments,
)
    requires
        name + " "@ + arguments_json(arguments) == other + " "@ + arguments_json(others),
    ensures
        name.len() <= other.len(),
{
    reveal_strlit(" ");
    if name.len() > other.len() {
        let whole = name + " "@ + arguments_json(arguments);
        let j = arguments_json(others);
        let d = name.len() - other.len();
        assert(j =~= whole.skip(other.len() as int + 1));
        assert(whole[name.len() as int] == ' ');
        assert(j[d - 1] == whole[name.len() as int]);
        assert(j.skip(d) =~= arguments_json(arguments));
        lemma_arguments_are_tidy(arguments);
        lemma_arguments_are_tidy(others);
        let n = j.len() - d;
        lemma_never_out_of_step(j, d, n);
        assert(j.take(d + n) =~= j);
        assert(j.skip(d).take(n) =~= j.skip(d));
    }
}

/// A name and arguments behind a space tell calls apart, whatever the name holds: two of them are
/// the same text exactly where both the names and the arguments are the same.
pub proof fn law_names_and_arguments_tell_calls_apart(
    name: Seq<char>,
    arguments: Arguments,
    other: Seq<char>,
    others: Arguments,
)
    ensures
        name + " "@ + arguments_json(arguments) == other + " "@ + arguments_json(others) <==> name
            == other && arguments == others,
{
    if name + " "@ + arguments_json(arguments) == other + " "@ + arguments_json(others) {
        reveal_strlit(" ");
        lemma_no_longer_name(name, arguments, other, others);
        lemma_no_longer_name(other, others, name, arguments);
        let whole = name + " "@ + arguments_json(arguments);
        let n = name.len() as int;
        assert(name =~= whole.take(n));
        assert(other =~= whole.take(n));
        assert(arguments_json(arguments) =~= whole.skip(n + 1));
        assert(arguments_json(others) =~= whole.skip(n + 1));
        law_canonical_texts_tell_arguments_apart(arguments, others);
    }
}

} // verus!
