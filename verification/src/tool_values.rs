//! The values that cross the boundary between a model and its tools.

use vstd::prelude::*;

use crate::json::{quoted, write_array, write_object};
#[allow(unused_imports)]
use crate::json::{
    array_text, field_models, json_string, law_json_texts_are_single_lines,
    lemma_array_on_one_line, lemma_object_on_one_line, object_text,
};
use crate::ordered::OrderedMap;
#[allow(unused_imports)]
use crate::ordered::{OrderedKey, lemma_put_at_end, sorted};
#[allow(unused_imports)]
use crate::text::{lacks, lemma_numbers_on_one_line, signed_decimal, texts};
use crate::text::signed_text;

verus! {

/// A value that can cross the model-to-tool boundary without requiring a JSON
/// dependency in the VM crate.
#[derive(Debug, PartialEq, Eq)]
pub enum ToolValue {
    Text(String),
    Integer(i32),
    List(Vec<ToolValue>),
    Boolean(bool),
}

/// What a [`ToolValue`] says.
pub enum ToolModel {
    Text(Seq<char>),
    Integer(i32),
    List(Seq<ToolModel>),
    Boolean(bool),
}

pub open spec fn value_model(v: ToolValue) -> ToolModel
    decreases v,
{
    match v {
        ToolValue::Text(text) => ToolModel::Text(text@),
        ToolValue::Integer(number) => ToolModel::Integer(number),
        ToolValue::List(items) => ToolModel::List(value_models(items@)),
        ToolValue::Boolean(flag) => ToolModel::Boolean(flag),
    }
}

pub open spec fn value_models(items: Seq<ToolValue>) -> Seq<ToolModel>
    decreases items,
{
    Seq::new(
        items.len(),
        |i: int|
            if 0 <= i < items.len() {
                value_model(items[i])
            } else {
                arbitrary()
            },
    )
}

pub open spec fn value_json(m: ToolModel) -> Seq<char>
    decreases m,
{
    match m {
        ToolModel::Text(text) => json_string(text),
        ToolModel::Integer(number) => signed_decimal(number as int),
        ToolModel::List(items) => array_text(value_jsons(items)),
        ToolModel::Boolean(flag) => if flag {
            "true"@
        } else {
            "false"@
        },
    }
}

pub open spec fn value_jsons(items: Seq<ToolModel>) -> Seq<Seq<char>>
    decreases items,
{
    Seq::new(
        items.len(),
        |i: int|
            if 0 <= i < items.len() {
                value_json(items[i])
            } else {
                arbitrary()
            },
    )
}

/// A value as JSON.
pub fn write_value(v: &ToolValue) -> (r: String)
    ensures
        r@ == value_json(value_model(*v)),
    decreases v,
{
    match v {
        ToolValue::Text(text) => quoted(text.as_str()),
        ToolValue::Integer(number) => signed_text(*number as i64),
        ToolValue::Boolean(flag) => if *flag {
            "true".to_owned()
        } else {
            "false".to_owned()
        },
        ToolValue::List(items) => {
            let ghost all = value_models(items@);
            let ghost wanted = value_jsons(all);
            let mut parts: Vec<String> = Vec::new();
            let mut i: usize = 0;
            while i < items.len()
                invariant
                    i <= items@.len(),
                    *v == ToolValue::List(*items),
                    all == value_models(items@),
                    wanted == value_jsons(all),
                    texts(parts@) == wanted.take(i as int),
                decreases items@.len() - i,
            {
                assert(decreases_to!(v => v->List_0@[i as int]));
                let part = write_value(&items[i]);
                assert(all[i as int] == value_model(items@[i as int]));
                assert(wanted[i as int] == value_json(all[i as int]));
                let ghost before = parts@;
                parts.push(part);
                assert(texts(parts@) =~= texts(before).push(part@));
                assert(wanted.take(i + 1) =~= wanted.take(i as int).push(wanted[i as int]));
                i += 1;
            }
            assert(wanted.take(wanted.len() as int) =~= wanted);
            write_array(&parts)
        },
    }
}

/// A value in JSON stands on one line.
pub proof fn lemma_values_on_one_line(m: ToolModel)
    ensures
        lacks(value_json(m), '\n'),
    decreases m,
{
    match m {
        ToolModel::Text(text) => law_json_texts_are_single_lines(text),
        ToolModel::Integer(number) => lemma_numbers_on_one_line(number as int),
        ToolModel::Boolean(_) => {
            reveal_strlit("true");
            reveal_strlit("false");
        },
        ToolModel::List(items) => {
            let parts = value_jsons(items);
            assert forall|i: int| 0 <= i < parts.len() implies lacks(#[trigger] parts[i], '\n') by {
                assert(decreases_to!(m => m->List_0[i]));
                lemma_values_on_one_line(items[i]);
            }
            lemma_array_on_one_line(parts);
        },
    }
}

/// A copy of a value.
pub fn copy_value(v: &ToolValue) -> (r: ToolValue)
    ensures
        value_model(r) == value_model(*v),
    decreases v,
{
    match v {
        ToolValue::Text(text) => ToolValue::Text(text.clone()),
        ToolValue::Integer(number) => ToolValue::Integer(*number),
        ToolValue::Boolean(flag) => ToolValue::Boolean(*flag),
        ToolValue::List(items) => {
            let mut r: Vec<ToolValue> = Vec::new();
            let mut i: usize = 0;
            while i < items.len()
                invariant
                    i <= items@.len(),
                    *v == ToolValue::List(*items),
                    r@.len() == i,
                    forall|k: int|
                        0 <= k < i ==> value_model(#[trigger] r@[k]) == value_model(items@[k]),
                decreases items@.len() - i,
            {
                assert(decreases_to!(v => v->List_0@[i as int]));
                r.push(copy_value(&items[i]));
                i += 1;
            }
            assert(value_models(r@) =~= value_models(items@));
            ToolValue::List(r)
        },
    }
}

impl Clone for ToolValue {
    fn clone(&self) -> (r: Self)
        ensures
            value_model(r) == value_model(*self),
    {
        copy_value(self)
    }
}

// ---------------------------------------------------------------------------
// Arguments and calls
// ---------------------------------------------------------------------------

/// Arguments supplied to a tool call.
pub type ToolArguments = OrderedMap<String, ToolValue>;

/// The arguments of a call, in the order of their names.
pub type Arguments = Seq<(Seq<char>, ToolModel)>;

pub open spec fn arguments_model(entries: Seq<(Seq<char>, ToolValue)>) -> Arguments {
    Seq::new(entries.len(), |i: int| (entries[i].0, value_model(entries[i].1)))
}

/// The fields of arguments as JSON.
pub open spec fn argument_fields(a: Arguments) -> Seq<(Seq<char>, Seq<char>)> {
    Seq::new(a.len(), |i: int| (a[i].0, value_json(a[i].1)))
}

/// Arguments as compact JSON, with the names in order.
pub open spec fn arguments_json(a: Arguments) -> Seq<char> {
    object_text(argument_fields(a))
}

/// Arguments in JSON stand on one line.
pub proof fn lemma_arguments_on_one_line(a: Arguments)
    ensures
        lacks(arguments_json(a), '\n'),
{
    let fields = argument_fields(a);
    assert forall|i: int| 0 <= i < fields.len() implies lacks((#[trigger] fields[i]).1, '\n') by {
        lemma_values_on_one_line(a[i].1);
    }
    lemma_object_on_one_line(fields);
}

/// Arguments as compact JSON, with the names in order.
pub fn canonical_arguments(arguments: &ToolArguments) -> (r: String)
    ensures
        r@ == arguments_json(arguments_model(arguments@)),
{
    let ghost all = argument_fields(arguments_model(arguments@));
    let n: usize = arguments.len();
    let mut fields: Vec<(String, String)> = Vec::new();
    let mut i: usize = 0;
    while i < n
        invariant
            i <= n,
            n == arguments@.len(),
            all == argument_fields(arguments_model(arguments@)),
            field_models(fields@) == all.take(i as int),
        decreases n - i,
    {
        let name = arguments.key(i).clone();
        let value = write_value(arguments.value(i));
        let ghost before = fields@;
        let ghost added = (name@, value@);
        fields.push((name, value));
        assert(added == all[i as int]);
        assert(field_models(fields@) =~= field_models(before).push(added));
        assert(all.take(i + 1) =~= all.take(i as int).push(all[i as int]));
        i += 1;
    }
    assert(all.take(all.len() as int) =~= all);
    write_object(&fields)
}

/// A copy of arguments.
pub fn copy_arguments(arguments: &ToolArguments) -> (r: ToolArguments)
    ensures
        arguments_model(r@) == arguments_model(arguments@),
{
    let ghost all = arguments@;
    let n: usize = arguments.len();
    let mut r: ToolArguments = OrderedMap::new();
    let mut i: usize = 0;
    arguments.in_order();
    assert(arguments_model(r@) =~= arguments_model(all).take(0));
    while i < n
        invariant
            i <= n,
            n == arguments@.len(),
            all == arguments@,
            sorted::<String, ToolValue>(all),
            r@.len() == i,
            forall|k: int|
                0 <= k < i ==> (#[trigger] r@[k]).0 == all[k].0 && value_model(r@[k].1)
                    == value_model(all[k].1),
        decreases n - i,
    {
        let name = arguments.key(i).clone();
        let value = copy_value(arguments.value(i));
        let ghost before = r@;
        proof {
            assert forall|k: int| 0 <= k < before.len() implies <String as OrderedKey>::before(
                (#[trigger] before[k]).0,
                name@,
            ) by {
                assert(before[k].0 == all[k].0);
                assert(all[i as int].0 == name@);
            }
            lemma_put_at_end::<String, ToolValue>(before, name@, value);
        }
        r.insert(name, value);
        i += 1;
    }
    assert(arguments_model(r@) =~= arguments_model(all));
    r
}

} // verus!
