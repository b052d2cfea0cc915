//! Reading the arguments of a tool call.

use vstd::prelude::*;

use crate::agent_messages::{ToolArguments, ToolError, ToolValue};
#[allow(unused_imports)]
use crate::text::{all_white, blank, law_blank_texts_are_white, texts};
use crate::text::{is_blank, same_text};
#[allow(unused_imports)]
use crate::tool_values::{Arguments, ToolModel, arguments_model, value_model, value_models};

verus! {

/// The argument with this name, from `index` on.
pub open spec fn argument_from(a: Arguments, name: Seq<char>, index: int) -> Option<ToolModel>
    decreases a.len() - index,
{
    if !(0 <= index < a.len()) {
        None
    } else if a[index].0 == name {
        Some(a[index].1)
    } else {
        argument_from(a, name, index + 1)
    }
}

/// The argument with this name.
pub open spec fn argument(a: Arguments, name: Seq<char>) -> Option<ToolModel> {
    argument_from(a, name, 0)
}

/// The first argument from `index` on whose name is not among `allowed`.
pub open spec fn unexpected_from(a: Arguments, allowed: Seq<Seq<char>>, index: int) -> Option<
    Seq<char>,
>
    decreases a.len() - index,
{
    if !(0 <= index < a.len()) {
        None
    } else if !allowed.contains(a[index].0) {
        Some(a[index].0)
    } else {
        unexpected_from(a, allowed, index + 1)
    }
}

/// What is wrong with the names of arguments.
pub open spec fn names_trouble(a: Arguments, allowed: Seq<Seq<char>>) -> Option<Seq<char>> {
    match unexpected_from(a, allowed, 0) {
        Some(name) => Some("unexpected argument: "@ + name),
        None => None,
    }
}

/// The message for an argument that should be something else.
pub open spec fn must_be(name: Seq<char>, what: Seq<char>) -> Seq<char> {
    "argument '"@ + name + "' must "@ + what
}

/// The message for an argument that is not there.
pub open spec fn missing(name: Seq<char>) -> Seq<char> {
    "missing required argument: "@ + name
}

/// A text argument that shows something.
pub open spec fn text_argument(a: Arguments, name: Seq<char>) -> Result<Seq<char>, Seq<char>> {
    match argument(a, name) {
        Some(ToolModel::Text(text)) => if blank(text) {
            Err(must_be(name, "be non-empty text"@))
        } else {
            Ok(text)
        },
        Some(_) => Err(must_be(name, "be non-empty text"@)),
        None => Err(missing(name)),
    }
}

/// A text argument, perhaps an empty one.
pub open spec fn any_text_argument(a: Arguments, name: Seq<char>) -> Result<Seq<char>, Seq<char>> {
    match argument(a, name) {
        Some(ToolModel::Text(text)) => Ok(text),
        Some(_) => Err(must_be(name, "be text"@)),
        None => Err(missing(name)),
    }
}

/// A text argument that shows something, if there is one.
pub open spec fn maybe_text(a: Arguments, name: Seq<char>) -> Option<Seq<char>> {
    match argument(a, name) {
        Some(ToolModel::Text(text)) => if blank(text) {
            None
        } else {
            Some(text)
        },
        _ => None,
    }
}

/// A Boolean argument, if there is one.
pub open spec fn maybe_bool(a: Arguments, name: Seq<char>) -> Option<bool> {
    match argument(a, name) {
        Some(ToolModel::Boolean(flag)) => Some(flag),
        _ => None,
    }
}

/// An integer argument, if there is one.
pub open spec fn maybe_integer(a: Arguments, name: Seq<char>) -> Option<i32> {
    match argument(a, name) {
        Some(ToolModel::Integer(number)) => Some(number),
        _ => None,
    }
}

/// A positive integer argument.
pub open spec fn positive_argument(a: Arguments, name: Seq<char>) -> Result<u32, Seq<char>> {
    match argument(a, name) {
        Some(ToolModel::Integer(number)) => if number > 0 {
            Ok(number as u32)
        } else {
            Err(must_be(name, "be a positive integer"@))
        },
        Some(_) => Err(must_be(name, "be an integer"@)),
        None => Err(missing(name)),
    }
}

/// The texts of the first `n` values, when each of them is a text.
pub open spec fn listed_texts(items: Seq<ToolModel>, n: int) -> Option<Seq<Seq<char>>>
    decreases n,
{
    if n <= 0 {
        Some(Seq::empty())
    } else {
        match (listed_texts(items, n - 1), items[n - 1]) {
            (Some(before), ToolModel::Text(text)) => Some(before.push(text)),
            _ => None,
        }
    }
}

/// A list of texts, empty where there is none.
pub open spec fn texts_argument(a: Arguments, name: Seq<char>) -> Result<Seq<Seq<char>>, Seq<char>> {
    match argument(a, name) {
        None => Ok(Seq::empty()),
        Some(ToolModel::List(items)) => match listed_texts(items, items.len() as int) {
            Some(list) => Ok(list),
            None => Err(must_be(name, "contain only strings"@)),
        },
        Some(_) => Err(must_be(name, "be a string list"@)),
    }
}

/// The names in a list.
pub open spec fn names_in(names: Seq<&'static str>) -> Seq<Seq<char>> {
    Seq::new(names.len(), |i: int| names[i]@)
}

fn not_as_it_must_be(name: &str, what: &str) -> (r: ToolError)
    ensures
        r@ == must_be(name@, what@),
{
    let mut message = "argument '".to_owned();
    message.push_str(name);
    message.push_str("' must ");
    message.push_str(what);
    ToolError { message }
}

fn not_there(name: &str) -> (r: ToolError)
    ensures
        r@ == missing(name@),
{
    let mut message = "missing required argument: ".to_owned();
    message.push_str(name);
    ToolError { message }
}

/// The argument with this name.
pub fn find_argument<'a>(arguments: &'a ToolArguments, name: &str) -> (r: Option<&'a ToolValue>)
    ensures
        match r {
            Some(value) => argument(arguments_model(arguments@), name@) == Some(
                value_model(*value),
            ),
            None => argument(arguments_model(arguments@), name@) is None,
        },
{
    let ghost all = arguments_model(arguments@);
    let n: usize = arguments.len();
    let mut i: usize = 0;
    while i < n
        invariant
            i <= n,
            n == arguments@.len(),
            all == arguments_model(arguments@),
            argument(all, name@) == argument_from(all, name@, i as int),
        decreases n - i,
    {
        assert(all[i as int] == (arguments@[i as int].0, value_model(arguments@[i as int].1)));
        if same_text(arguments.key(i).as_str(), name) {
            return Some(arguments.value(i));
        }
        i += 1;
    }
    None
}

/// Checks that every argument is expected.
pub fn ensure_arguments(arguments: &ToolArguments, allowed: Vec<&'static str>) -> (r: Result<
    (),
    ToolError,
>)
    ensures
        match r {
            Ok(_) => names_trouble(arguments_model(arguments@), names_in(allowed@)) is None,
            Err(error) => names_trouble(arguments_model(arguments@), names_in(allowed@)) == Some(
                error@,
            ),
        },
{
    let ghost all = arguments_model(arguments@);
    let ghost names = names_in(allowed@);
    let n: usize = arguments.len();
    let mut i: usize = 0;
    while i < n
        invariant
            i <= n,
            n == arguments@.len(),
            all == arguments_model(arguments@),
            names == names_in(allowed@),
            unexpected_from(all, names, 0) == unexpected_from(all, names, i as int),
        decreases n - i,
    {
        let name = arguments.key(i);
        assert(all[i as int].0 == name@);
        let mut known = false;
        let mut k: usize = 0;
        while k < allowed.len()
            invariant
                k <= allowed@.len(),
                names == names_in(allowed@),
                known == exists|x: int| 0 <= x < k && #[trigger] names[x] == name@,
            decreases allowed@.len() - k,
        {
            assert(names[k as int] == allowed@[k as int]@);
            if same_text(allowed[k], name.as_str()) {
                known = true;
            }
            k += 1;
        }
        assert(known == names.contains(name@));
        if !known {
            let mut message = "unexpected argument: ".to_owned();
            message.push_str(name.as_str());
            return Err(ToolError { message });
        }
        i += 1;
    }
    Ok(())
}

pub fn required_text(arguments: &ToolArguments, name: &str) -> (r: Result<String, ToolError>)
    ensures
        match r {
            Ok(text) => text_argument(arguments_model(arguments@), name@) == Ok::<
                Seq<char>,
                Seq<char>,
            >(text@),
            Err(error) => text_argument(arguments_model(arguments@), name@) == Err::<
                Seq<char>,
                Seq<char>,
            >(error@),
        },
{
    match find_argument(arguments, name) {
        Some(ToolValue::Text(text)) => if is_blank(text.as_str()) {
            Err(not_as_it_must_be(name, "be non-empty text"))
        } else {
            Ok(text.clone())
        },
        Some(_) => Err(not_as_it_must_be(name, "be non-empty text")),
        None => Err(not_there(name)),
    }
}

pub fn required_text_allow_empty(arguments: &ToolArguments, name: &str) -> (r: Result<
    String,
    ToolError,
>)
    ensures
        match r {
            Ok(text) => any_text_argument(arguments_model(arguments@), name@) == Ok::<
                Seq<char>,
                Seq<char>,
            >(text@),
            Err(error) => any_text_argument(arguments_model(arguments@), name@) == Err::<
                Seq<char>,
                Seq<char>,
            >(error@),
        },
{
    match find_argument(arguments, name) {
        Some(ToolValue::Text(text)) => Ok(text.clone()),
        Some(_) => Err(not_as_it_must_be(name, "be text")),
        None => Err(not_there(name)),
    }
}

pub fn optional_text(arguments: &ToolArguments, name: &str) -> (r: Option<String>)
    ensures
        match r {
            Some(text) => maybe_text(arguments_model(arguments@), name@) == Some(text@),
            None => maybe_text(arguments_model(arguments@), name@) is None,
        },
{
    match find_argument(arguments, name) {
        Some(ToolValue::Text(text)) => if is_blank(text.as_str()) {
            None
        } else {
            Some(text.clone())
        },
        _ => None,
    }
}

pub fn optional_bool(arguments: &ToolArguments, name: &str) -> (r: Option<bool>)
    ensures
        r == maybe_bool(arguments_model(arguments@), name@),
{
    match find_argument(arguments, name) {
        Some(ToolValue::Boolean(flag)) => Some(*flag),
        _ => None,
    }
}

pub fn optional_integer(arguments: &ToolArguments, name: &str) -> (r: Option<i32>)
    ensures
        r == maybe_integer(arguments_model(arguments@), name@),
{
    match find_argument(arguments, name) {
        Some(ToolValue::Integer(number)) => Some(*number),
        _ => None,
    }
}

pub fn required_pid(arguments: &ToolArguments, name: &str) -> (r: Result<u32, ToolError>)
    ensures
        match r {
            Ok(number) => positive_argument(arguments_model(arguments@), name@) == Ok::<
                u32,
                Seq<char>,
            >(number),
            Err(error) => positive_argument(arguments_model(arguments@), name@) == Err::<
                u32,
                Seq<char>,
            >(error@),
        },
{
    match find_argument(arguments, name) {
        Some(ToolValue::Integer(number)) => if *number > 0 {
            Ok(*number as u32)
        } else {
            Err(not_as_it_must_be(name, "be a positive integer"))
        },
        Some(_) => Err(not_as_it_must_be(name, "be an integer")),
        None => Err(not_there(name)),
    }
}

proof fn lemma_listed_texts_fail(items: Seq<ToolModel>, i: int, n: int)
    requires
        0 <= i <= n,
        listed_texts(items, i) is None,
    ensures
        listed_texts(items, n) is None,
    decreases n - i,
{
    if i < n {
        lemma_listed_texts_fail(items, i, n - 1);
    }
}

pub fn optional_string_list(arguments: &ToolArguments, name: &str) -> (r: Result<
    Vec<String>,
    ToolError,
>)
    ensures
        match r {
            Ok(list) => texts_argument(arguments_model(arguments@), name@) == Ok::<
                Seq<Seq<char>>,
                Seq<char>,
            >(texts(list@)),
            Err(error) => texts_argument(arguments_model(arguments@), name@) == Err::<
                Seq<Seq<char>>,
                Seq<char>,
            >(error@),
        },
{
    let mut r: Vec<String> = Vec::new();
    assert(texts(r@) =~= Seq::<Seq<char>>::empty());
    match find_argument(arguments, name) {
        None => Ok(r),
        Some(ToolValue::List(values)) => {
            let ghost all = value_models(values@);
            let mut i: usize = 0;
            while i < values.len()
                invariant
                    i <= values@.len(),
                    all == value_models(values@),
                    argument(arguments_model(arguments@), name@) == Some(ToolModel::List(all)),
                    listed_texts(all, i as int) == Some(texts(r@)),
                decreases values@.len() - i,
            {
                assert(all[i as int] == value_model(values@[i as int]));
                match &values[i] {
                    ToolValue::Text(text) => {
                        let ghost before = r@;
                        r.push(text.clone());
                        assert(texts(r@) =~= texts(before).push(text@));
                    },
                    _ => {
                        proof {
                            lemma_listed_texts_fail(all, i + 1, all.len() as int);
                        }
                        return Err(not_as_it_must_be(name, "contain only strings"));
                    },
                }
                i += 1;
            }
            Ok(r)
        },
        Some(_) => Err(not_as_it_must_be(name, "be a string list")),
    }
}

/// An argument is the value of the first entry with its name, and is missing where there is none.
pub proof fn law_arguments_are_found_by_name(a: Arguments, name: Seq<char>, k: int)
    requires
        0 <= k <= a.len(),
        k < a.len() ==> a[k].0 == name,
        forall|i: int| 0 <= i < k ==> (#[trigger] a[i]).0 != name,
    ensures
        k < a.len() ==> argument(a, name) == Some(a[k].1),
        k == a.len() ==> argument(a, name) is None,
{
    lemma_argument_from(a, name, k, 0);
}

proof fn lemma_argument_from(a: Arguments, name: Seq<char>, k: int, index: int)
    requires
        0 <= index <= k <= a.len(),
        k < a.len() ==> a[k].0 == name,
        forall|i: int| 0 <= i < k ==> (#[trigger] a[i]).0 != name,
    ensures
        k < a.len() ==> argument_from(a, name, index) == Some(a[k].1),
        k == a.len() ==> argument_from(a, name, index) is None,
    decreases k - index,
{
    if index < k {
        assert(a[index].0 != name);
        lemma_argument_from(a, name, k, index + 1);
    }
}

/// What each kind of argument takes: a text that shows something, any text, a flag, a number, a
/// positive number, or a list of texts; another value is refused or passed over, and so is one that
/// is missing.
pub proof fn law_arguments_have_their_kind(a: Arguments, name: Seq<char>, text: Seq<char>, number: i32)
    ensures
        argument(a, name) == Some(ToolModel::Text(text)) ==> {
            &&& any_text_argument(a, name) == Ok::<Seq<char>, Seq<char>>(text)
            &&& !all_white(text) ==> text_argument(a, name) == Ok::<Seq<char>, Seq<char>>(text)
                && maybe_text(a, name) == Some(text)
            &&& all_white(text) ==> text_argument(a, name) is Err && maybe_text(a, name) is None
        },
        !(argument(a, name) matches Some(ToolModel::Text(_))) ==> text_argument(a, name) is Err
            && any_text_argument(a, name) is Err && maybe_text(a, name) is None,
        argument(a, name) == Some(ToolModel::Integer(number)) ==> {
            &&& maybe_integer(a, name) == Some(number)
            &&& number > 0 ==> (positive_argument(a, name) matches Ok(n) && n == number)
            &&& number <= 0 ==> positive_argument(a, name) is Err
        },
        !(argument(a, name) matches Some(ToolModel::Integer(_))) ==> maybe_integer(a, name) is None
            && positive_argument(a, name) is Err,
        maybe_bool(a, name) == Some(true) <==> argument(a, name) == Some(ToolModel::Boolean(true)),
        maybe_bool(a, name) == Some(false) <==> argument(a, name) == Some(ToolModel::Boolean(false)),
        argument(a, name) is None ==> texts_argument(a, name) == Ok::<Seq<Seq<char>>, Seq<char>>(
            Seq::empty(),
        ),
{
    law_blank_texts_are_white(text, ' ');
}

/// A list of texts is taken as it stands, and refused where one of its values is no text.
pub proof fn law_lists_of_texts(a: Arguments, name: Seq<char>, items: Seq<ToolModel>)
    requires
        argument(a, name) == Some(ToolModel::List(items)),
    ensures
        texts_argument(a, name) is Ok <==> forall|i: int|
            0 <= i < items.len() ==> (#[trigger] items[i]) is Text,
        texts_argument(a, name) matches Ok(list) ==> list.len() == items.len() && forall|i: int|
            #![trigger list[i]]
            0 <= i < items.len() ==> items[i] == ToolModel::Text(list[i]),
{
    lemma_listed_texts(items, items.len() as int);
}

proof fn lemma_listed_texts(items: Seq<ToolModel>, n: int)
    requires
        0 <= n <= items.len(),
    ensures
        listed_texts(items, n) is Some <==> forall|i: int|
            0 <= i < n ==> (#[trigger] items[i]) is Text,
        listed_texts(items, n) matches Some(list) ==> list.len() == n && forall|i: int|
            #![trigger list[i]]
            0 <= i < n ==> items[i] == ToolModel::Text(list[i]),
    decreases n,
{
    if n > 0 {
        lemma_listed_texts(items, n - 1);
        assert(items[n - 1] is Text || !(items[n - 1] is Text));
    }
}

/// Arguments are refused for a name that is not among those allowed, and the first such name is
/// told; otherwise they are accepted.
pub proof fn law_unexpected_arguments_are_refused(a: Arguments, allowed: Seq<Seq<char>>, k: int)
    requires
        0 <= k <= a.len(),
        k < a.len() ==> !allowed.contains(a[k].0),
        forall|i: int| 0 <= i < k ==> allowed.contains((#[trigger] a[i]).0),
    ensures
        k < a.len() ==> names_trouble(a, allowed) == Some("unexpected argument: "@ + a[k].0),
        k == a.len() ==> names_trouble(a, allowed) is None,
{
    lemma_unexpected_from(a, allowed, k, 0);
}

proof fn lemma_unexpected_from(a: Arguments, allowed: Seq<Seq<char>>, k: int, index: int)
    requires
        0 <= index <= k <= a.len(),
        k < a.len() ==> !allowed.contains(a[k].0),
        forall|i: int| 0 <= i < k ==> allowed.contains((#[trigger] a[i]).0),
    ensures
        k < a.len() ==> unexpected_from(a, allowed, index) == Some(a[k].0),
        k == a.len() ==> unexpected_from(a, allowed, index) is None,
    decreases k - index,
{
    if index < k {
        assert(allowed.contains(a[index].0));
        lemma_unexpected_from(a, allowed, k, index + 1);
    }
}

} // verus!
