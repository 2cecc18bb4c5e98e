//! Looking up functions and tuple fields in a contract interface.

use crate::outcome;
use crate::sol;
use crate::sol::{AbiFunction, AbiParam, JsonAbi, SolType, StateMutability};
use crate::text;
use vstd::prelude::*;

verus! {

/// Why a function or one of its outputs cannot be used. `S` is the type of texts.
#[derive(Debug)]
pub enum AbiErrorOf<S> {
    /// The interface has no function of that name.
    FunctionMissing { name: S },
    /// The function may change the chain's state.
    NotViewOrPure { name: S, state_mutability: StateMutability },
    /// The function has no output of that index.
    OutputOutOfRange { index: usize },
    /// A field is selected in an output that is no tuple.
    NotATuple { field: S, index: usize, function: S, ty: S },
    /// The tuple has no field of that name; `available` lists the names it has.
    FieldMissing { field: S, index: usize, function: S, available: S },
}

/// Why a function or one of its outputs cannot be used.
pub type AbiError = AbiErrorOf<String>;

impl View for AbiError {
    type V = AbiErrorOf<Seq<char>>;

    open spec fn view(&self) -> AbiErrorOf<Seq<char>> {
        match *self {
            AbiErrorOf::FunctionMissing { name } => AbiErrorOf::FunctionMissing { name: name@ },
            AbiErrorOf::NotViewOrPure { name, state_mutability } => AbiErrorOf::NotViewOrPure {
                name: name@,
                state_mutability,
            },
            AbiErrorOf::OutputOutOfRange { index } => AbiErrorOf::OutputOutOfRange { index },
            AbiErrorOf::NotATuple { field, index, function, ty } => AbiErrorOf::NotATuple {
                field: field@,
                index,
                function: function@,
                ty: ty@,
            },
            AbiErrorOf::FieldMissing { field, index, function, available } =>
                AbiErrorOf::FieldMissing {
                    field: field@,
                    index,
                    function: function@,
                    available: available@,
                },
        }
    }
}

/// The word for a state mutability.
pub open spec fn mutability_word(m: StateMutability) -> Seq<char> {
    match m {
        StateMutability::Pure => "Pure"@,
        StateMutability::View => "View"@,
        StateMutability::NonPayable => "NonPayable"@,
        StateMutability::Payable => "Payable"@,
    }
}

/// The message of an [`AbiError`].
pub open spec fn abi_message(e: AbiErrorOf<Seq<char>>) -> Seq<char> {
    match e {
        AbiErrorOf::FunctionMissing { name } => "function "@ + text::debug_form(name)
            + " not found in ABI"@,
        AbiErrorOf::NotViewOrPure { name, state_mutability } => "function "@ + text::debug_form(
            name,
        ) + " must be view or pure (got "@ + mutability_word(state_mutability) + ")"@,
        AbiErrorOf::OutputOutOfRange { index } => "output index "@ + text::decimal(index as nat)
            + " out of range"@,
        AbiErrorOf::NotATuple { field, index, function, ty } => "field "@ + text::debug_form(field)
            + " selected but output "@ + text::decimal(index as nat) + " of "@ + text::debug_form(
            function,
        ) + " is "@ + ty + ", not a tuple"@,
        AbiErrorOf::FieldMissing { field, index, function, available } => "tuple field "@
            + text::debug_form(field) + " not found in output "@ + text::decimal(index as nat)
            + " of "@ + text::debug_form(function) + "; available: "@ + available,
    }
}

impl AbiErrorOf<String> {
    /// The error as a text for people.
    pub fn message(&self) -> (r: String)
        ensures
            r@ == abi_message(self@),
    {
        match self {
            AbiErrorOf::FunctionMissing { name } => {
                let mut s = "function ".to_string();
                s.append(text::quoted(name).as_str());
                s.append(" not found in ABI");
                s
            },
            AbiErrorOf::NotViewOrPure { name, state_mutability } => {
                let mut s = "function ".to_string();
                s.append(text::quoted(name).as_str());
                s.append(" must be view or pure (got ");
                match state_mutability {
                    StateMutability::Pure => s.append("Pure"),
                    StateMutability::View => s.append("View"),
                    StateMutability::NonPayable => s.append("NonPayable"),
                    StateMutability::Payable => s.append("Payable"),
                }
                s.append(")");
                s
            },
            AbiErrorOf::OutputOutOfRange { index } => {
                let mut s = "output index ".to_string();
                s.append(text::count_text(*index).as_str());
                s.append(" out of range");
                s
            },
            AbiErrorOf::NotATuple { field, index, function, ty } => {
                let mut s = "field ".to_string();
                s.append(text::quoted(field).as_str());
                s.append(" selected but output ");
                s.append(text::count_text(*index).as_str());
                s.append(" of ");
                s.append(text::quoted(function).as_str());
                s.append(" is ");
                s.append(ty);
                s.append(", not a tuple");
                s
            },
            AbiErrorOf::FieldMissing { field, index, function, available } => {
                let mut s = "tuple field ".to_string();
                s.append(text::quoted(field).as_str());
                s.append(" not found in output ");
                s.append(text::count_text(*index).as_str());
                s.append(" of ");
                s.append(text::quoted(function).as_str());
                s.append("; available: ");
                s.append(available);
                s
            },
        }
    }
}

/// The index of the first function of the given name.
pub open spec fn named_function(fs: Seq<sol::FunctionView>, name: Seq<char>) -> Option<int> {
    outcome::first_index(fs.len(), |i: int| fs[i].name == name)
}

/// The index of the function to call by the given name: the first of that name, if it is view or
/// pure.
pub open spec fn resolved_function(fs: Seq<sol::FunctionView>, name: Seq<char>) -> Result<
    int,
    AbiErrorOf<Seq<char>>,
> {
    match named_function(fs, name) {
        None => Err(AbiErrorOf::FunctionMissing { name }),
        Some(i) => match fs[i].state_mutability {
            StateMutability::Pure | StateMutability::View => Ok(i),
            state_mutability => Err(AbiErrorOf::NotViewOrPure { name, state_mutability }),
        },
    }
}

/// Looks up the first function of the given name.
pub fn find_function<'a>(abi: &'a JsonAbi, name: &str) -> (r: Option<&'a AbiFunction>)
    ensures
        match r {
            Some(f) => named_function(abi@, name@) matches Some(i) && 0 <= i
                < abi.functions@.len() && *f == abi.functions@[i],
            None => named_function(abi@, name@) is None,
        },
{
    let ghost at = |i: int| abi@[i].name == name@;
    let mut i: usize = 0;
    while i < abi.functions.len()
        invariant
            i <= abi.functions@.len(),
            at == (|i: int| abi@[i].name == name@),
            forall|j: int| 0 <= j < i ==> !#[trigger] at(j),
        decreases abi.functions@.len() - i,
    {
        if text::same(abi.functions[i].name.as_str(), name) {
            proof {
                outcome::lemma_is_first_index(abi@.len(), at, i as int);
            }
            return Some(&abi.functions[i]);
        }
        i = i + 1;
    }
    proof {
        outcome::lemma_first_index(abi@.len(), at);
    }
    None
}

/// Looks up the function of the given name and enforces that it is view or pure. Of several
/// functions of that name the first is taken.
pub fn resolve_function<'a>(abi: &'a JsonAbi, name: &str) -> (r: Result<&'a AbiFunction, AbiError>)
    ensures
        match r {
            Ok(f) => resolved_function(abi@, name@) matches Ok(i) && 0 <= i < abi.functions@.len()
                && *f == abi.functions@[i],
            Err(e) => resolved_function(abi@, name@) == Err::<int, AbiErrorOf<Seq<char>>>(e@),
        },
{
    match find_function(abi, name) {
        None => Err(AbiErrorOf::FunctionMissing { name: name.to_string() }),
        Some(f) => match f.state_mutability {
            StateMutability::Pure | StateMutability::View => Ok(f),
            state_mutability => Err(
                AbiErrorOf::NotViewOrPure { name: name.to_string(), state_mutability },
            ),
        },
    }
}

/// The names of a list of parameters.
pub open spec fn param_names(ps: Seq<sol::ParamView>) -> Seq<Seq<char>> {
    Seq::new(ps.len(), |i: int| ps[i].name)
}

/// Whether a parameter is a tuple, or an array of tuples.
pub open spec fn is_tuple(p: sol::ParamView) -> bool {
    text::begins_with(p.ty, "tuple"@) && p.components.len() > 0
}

/// The index of the first component of the given name.
pub open spec fn component_index(p: sol::ParamView, field: Seq<char>) -> Option<int> {
    outcome::first_index(p.components.len(), |i: int| p.components[i].name == field)
}

/// The index of the tuple field of the given name in the output at `index`.
pub open spec fn tuple_field(f: sol::FunctionView, index: usize, field: Seq<char>) -> Result<
    int,
    AbiErrorOf<Seq<char>>,
> {
    if index >= f.outputs.len() {
        Err(AbiErrorOf::OutputOutOfRange { index })
    } else {
        let p = f.outputs[index as int];
        if !is_tuple(p) {
            Err(AbiErrorOf::NotATuple { field, index, function: f.name, ty: p.ty })
        } else {
            match component_index(p, field) {
                Some(i) => Ok(i),
                None => Err(
                    AbiErrorOf::FieldMissing {
                        field,
                        index,
                        function: f.name,
                        available: text::listing(param_names(p.components)),
                    },
                ),
            }
        }
    }
}

/// Lists the names of the given parameters.
fn list_names(ps: &Vec<AbiParam>) -> (r: String)
    ensures
        r@ == text::listing(param_names(sol::params_view(ps@))),
{
    let ghost names = param_names(sol::params_view(ps@));
    let mut s = "[".to_string();
    assert(s@ =~= "["@ + text::listed(names.take(0)));
    for i in 0..ps.len()
        invariant
            names == param_names(sol::params_view(ps@)),
            s@ == "["@ + text::listed(names.take(i as int)),
    {
        let ghost before = s@;
        if i > 0 {
            s.append(", ");
        }
        s.append(text::quoted(ps[i].name.as_str()).as_str());
        proof {
            let items = names.take(i + 1);
            assert(items.drop_last() =~= names.take(i as int));
            assert(items.last() == ps@[i as int].name@);
            assert(s@ =~= "["@ + text::listed(items));
        }
    }
    assert(names.take(ps@.len() as int) =~= names);
    s.append("]");
    s
}

/// Looks up a field by its name in the tuple output at `output_index`. Gives the field's index and
/// its name.
pub fn resolve_tuple_field(f: &AbiFunction, output_index: usize, field: &str) -> (r: Result<
    (usize, String),
    AbiError,
>)
    ensures
        match r {
            Ok((i, name)) => tuple_field(f@, output_index, field@) == Ok::<
                int,
                AbiErrorOf<Seq<char>>,
            >(i as int) && i < f.outputs@[output_index as int].components@.len() && name@ == field@,
            Err(e) => tuple_field(f@, output_index, field@) == Err::<int, AbiErrorOf<Seq<char>>>(e@),
        },
{
    if output_index >= f.outputs.len() {
        return Err(AbiErrorOf::OutputOutOfRange { index: output_index });
    }
    let p = &f.outputs[output_index];
    if !text::has_prefix(p.ty.as_str(), "tuple") || p.components.len() == 0 {
        return Err(
            AbiErrorOf::NotATuple {
                field: field.to_string(),
                index: output_index,
                function: f.name.clone(),
                ty: p.ty.clone(),
            },
        );
    }
    let ghost at = |i: int| p@.components[i].name == field@;
    let mut i: usize = 0;
    while i < p.components.len()
        invariant
            i <= p.components@.len(),
            at == (|i: int| p@.components[i].name == field@),
            forall|j: int| 0 <= j < i ==> !#[trigger] at(j),
            output_index < f.outputs@.len(),
            p == f.outputs@[output_index as int],
            is_tuple(p@),
        decreases p.components@.len() - i,
    {
        let c = &p.components[i];
        assert(p@.components[i as int] == c@);
        if text::same(c.name.as_str(), field) {
            proof {
                outcome::lemma_is_first_index(p@.components.len(), at, i as int);
            }
            return Ok((i, c.name.clone()));
        }
        i = i + 1;
    }
    proof {
        outcome::lemma_first_index(p@.components.len(), at);
        assert(sol::params_view(p.components@) =~= p@.components);
    }
    Err(
        AbiErrorOf::FieldMissing {
            field: field.to_string(),
            index: output_index,
            function: f.name.clone(),
            available: list_names(&p.components),
        },
    )
}

/// Whether a type is a number or a truth value.
pub open spec fn is_numeric(ty: SolType) -> bool {
    ty is Uint || ty is Int || ty is Bool
}

/// Whether a type is a number or a truth value, so that a gauge can show it.
pub fn output_scalar_is_numeric(ty: &SolType) -> (r: bool)
    ensures
        r == is_numeric(*ty),
{
    match ty {
        SolType::Uint(_) | SolType::Int(_) | SolType::Bool => true,
        _ => false,
    }
}

/// A function is found by its name exactly if there is one, and the first of that name is.
pub proof fn functions_are_found_by_name(fs: Seq<sol::FunctionView>, name: Seq<char>)
    ensures
        match named_function(fs, name) {
            Some(i) => 0 <= i < fs.len() && fs[i].name == name && forall|j: int|
                0 <= j < i ==> (#[trigger] fs[j]).name != name,
            None => forall|j: int| 0 <= j < fs.len() ==> (#[trigger] fs[j]).name != name,
        },
{
    let at = |i: int| fs[i].name == name;
    outcome::lemma_first_index(fs.len(), at);
    match named_function(fs, name) {
        Some(i) => {
            assert forall|j: int| 0 <= j < i implies (#[trigger] fs[j]).name != name by {
                assert(!at(j));
            }
        },
        None => {
            assert forall|j: int| 0 <= j < fs.len() implies (#[trigger] fs[j]).name != name by {
                assert(!at(j));
            }
        },
    }
}

/// A function may be called exactly if the first of its name neither changes the chain's state nor
/// takes a payment.
pub proof fn only_reading_functions_are_called(fs: Seq<sol::FunctionView>, name: Seq<char>, i: int)
    requires
        0 <= i < fs.len(),
        fs[i].name == name,
        forall|j: int| 0 <= j < i ==> (#[trigger] fs[j]).name != name,
    ensures
        fs[i].state_mutability == StateMutability::View || fs[i].state_mutability
            == StateMutability::Pure ==> resolved_function(fs, name) == Ok::<
            int,
            AbiErrorOf<Seq<char>>,
        >(i),
        fs[i].state_mutability == StateMutability::NonPayable || fs[i].state_mutability
            == StateMutability::Payable ==> resolved_function(fs, name) == Err::<
            int,
            AbiErrorOf<Seq<char>>,
        >(
            AbiErrorOf::NotViewOrPure { name, state_mutability: fs[i].state_mutability },
        ),
{
    let at = |k: int| fs[k].name == name;
    outcome::lemma_is_first_index(fs.len(), at, i);
}

/// A name that no function has is refused.
pub proof fn unknown_functions_are_refused(fs: Seq<sol::FunctionView>, name: Seq<char>)
    requires
        forall|j: int| 0 <= j < fs.len() ==> (#[trigger] fs[j]).name != name,
    ensures
        resolved_function(fs, name) == Err::<int, AbiErrorOf<Seq<char>>>(
            AbiErrorOf::FunctionMissing { name },
        ),
{
    functions_are_found_by_name(fs, name);
}

/// A field is found by its name exactly if its output exists, is a tuple and has a component of
/// that name, and the first of that name is.
pub proof fn fields_are_found_by_name(f: sol::FunctionView, index: usize, field: Seq<char>)
    ensures
        tuple_field(f, index, field) is Ok <==> index < f.outputs.len() && text::begins_with(
            f.outputs[index as int].ty,
            "tuple"@,
        ) && exists|q: int|
            0 <= q < f.outputs[index as int].components.len() && (
            #[trigger] f.outputs[index as int].components[q]).name == field,
        tuple_field(f, index, field) matches Ok(k) ==> 0 <= k
            < f.outputs[index as int].components.len() && f.outputs[index as int].components[k].name
            == field && forall|q: int|
            0 <= q < k ==> (#[trigger] f.outputs[index as int].components[q]).name != field,
{
    if index < f.outputs.len() {
        let p = f.outputs[index as int];
        let at = |i: int| p.components[i].name == field;
        outcome::lemma_first_index(p.components.len(), at);
        match component_index(p, field) {
            Some(k) => {
                assert forall|q: int| 0 <= q < k implies (#[trigger] p.components[q]).name
                    != field by {
                    assert(!at(q));
                }
            },
            None => {
                assert forall|q: int| 0 <= q < p.components.len() implies (
                #[trigger] p.components[q]).name != field by {
                    assert(!at(q));
                }
            },
        }
    }
}

/// A gauge can show integers of either kind and truth values, and nothing else.
pub proof fn numbers_and_truth_values_are_numeric(bits: usize)
    ensures
        is_numeric(SolType::Uint(bits)),
        is_numeric(SolType::Int(bits)),
        is_numeric(SolType::Bool),
        !is_numeric(SolType::Address),
        !is_numeric(SolType::FixedBytes(bits)),
        !is_numeric(SolType::String),
        !is_numeric(SolType::Bytes),
        !is_numeric(SolType::Function),
        !is_numeric(SolType::Array),
        !is_numeric(SolType::FixedArray),
        !is_numeric(SolType::Tuple),
{
}

/// A field that is not found is refused for its output, which does not exist or is no tuple, or for
/// its name, with the names that there are.
pub proof fn missing_fields_are_refused(f: sol::FunctionView, index: usize, field: Seq<char>)
    ensures
        index >= f.outputs.len() ==> tuple_field(f, index, field) == Err::<
            int,
            AbiErrorOf<Seq<char>>,
        >(AbiErrorOf::OutputOutOfRange { index }),
        index < f.outputs.len() && (!text::begins_with(f.outputs[index as int].ty, "tuple"@)
            || f.outputs[index as int].components.len() == 0) ==> tuple_field(f, index, field)
            == Err::<int, AbiErrorOf<Seq<char>>>(
            AbiErrorOf::NotATuple {
                field,
                index,
                function: f.name,
                ty: f.outputs[index as int].ty,
            },
        ),
        index < f.outputs.len() && text::begins_with(f.outputs[index as int].ty, "tuple"@)
            && f.outputs[index as int].components.len() > 0 && tuple_field(f, index, field) is Err
            ==> tuple_field(f, index, field) == Err::<int, AbiErrorOf<Seq<char>>>(
            AbiErrorOf::FieldMissing {
                field,
                index,
                function: f.name,
                available: text::listing(
                    Seq::new(
                        f.outputs[index as int].components.len(),
                        |i: int| f.outputs[index as int].components[i].name,
                    ),
                ),
            },
        ),
{
    if index < f.outputs.len() {
        let p = f.outputs[index as int];
        assert(param_names(p.components) =~= Seq::new(
            p.components.len(),
            |i: int| f.outputs[index as int].components[i].name,
        ));
    }
}

} // verus!
