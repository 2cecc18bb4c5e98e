//! From the return data of a call to the value of a metric.

use crate::config;
use crate::sol;
use crate::sol::{AbiFunction, Decoded, Shape};
use crate::text;
use crate::words;
use vstd::prelude::*;

verus! {

/// Where a metric's value stands in the return data of a call: the function that was called, the
/// output, the field if the output is a tuple, and the divisor as the bits of an IEEE 754
/// double.
#[derive(Debug)]
pub struct DecodeTarget {
    pub function: AbiFunction,
    pub output_index: usize,
    pub field_index: Option<usize>,
    pub scale_bits: u64,
}

/// What a [`DecodeTarget`] says.
#[verifier::ext_equal]
pub struct DecodeTargetView {
    pub function: sol::FunctionView,
    pub output_index: usize,
    pub field_index: Option<usize>,
    pub scale_bits: u64,
}

impl View for DecodeTarget {
    type V = DecodeTargetView;

    open spec fn view(&self) -> DecodeTargetView {
        DecodeTargetView {
            function: self.function@,
            output_index: self.output_index,
            field_index: self.field_index,
            scale_bits: self.scale_bits,
        }
    }
}

/// A returned value that is neither a number nor a truth value, by the text that shows it.
#[derive(Debug)]
pub struct UnsupportedTypeOf<S>(pub S);

/// A returned value that is neither a number nor a truth value, by the text that shows it.
pub type UnsupportedType = UnsupportedTypeOf<String>;

/// Why return data gives no value. `S` is the type of texts.
#[derive(Debug)]
pub enum DecodeErrorOf<S> {
    /// The function returns nothing.
    NoOutputs { function: S },
    /// The function has no output of that index.
    OutputOutOfRange { index: usize, function: S, count: usize },
    /// The data does not encode the function's outputs.
    Unpack { function: S, reason: S },
    /// The data holds fewer values than the function has outputs.
    TooFewValues { got: usize, index: usize },
    /// The tuple has no field of that index.
    FieldOutOfRange { index: usize, function: S },
    /// A field is selected in a value that is no tuple.
    NotATuple { output: usize, function: S, form: S },
    /// The value is neither a number nor a truth value.
    Unsupported(UnsupportedTypeOf<S>),
}

/// Why return data gives no value.
pub type DecodeError = DecodeErrorOf<String>;

impl View for DecodeError {
    type V = DecodeErrorOf<Seq<char>>;

    open spec fn view(&self) -> DecodeErrorOf<Seq<char>> {
        match *self {
            DecodeErrorOf::NoOutputs { function } => DecodeErrorOf::NoOutputs {
                function: function@,
            },
            DecodeErrorOf::OutputOutOfRange { index, function, count } =>
                DecodeErrorOf::OutputOutOfRange { index, function: function@, count },
            DecodeErrorOf::Unpack { function, reason } => DecodeErrorOf::Unpack {
                function: function@,
                reason: reason@,
            },
            DecodeErrorOf::TooFewValues { got, index } => DecodeErrorOf::TooFewValues {
                got,
                index,
            },
            DecodeErrorOf::FieldOutOfRange { index, function } => DecodeErrorOf::FieldOutOfRange {
                index,
                function: function@,
            },
            DecodeErrorOf::NotATuple { output, function, form } => DecodeErrorOf::NotATuple {
                output,
                function: function@,
                form: form@,
            },
            DecodeErrorOf::Unsupported(ty) => DecodeErrorOf::Unsupported(UnsupportedTypeOf(ty.0@)),
        }
    }
}

/// The message of a [`DecodeError`].
pub open spec fn decode_message(e: DecodeErrorOf<Seq<char>>) -> Seq<char> {
    match e {
        DecodeErrorOf::NoOutputs { function } => "decoder: method "@ + text::debug_form(function)
            + " has no outputs"@,
        DecodeErrorOf::OutputOutOfRange { index, function, count } => "decoder: output index "@
            + text::decimal(index as nat) + " out of range for "@ + text::debug_form(function)
            + " ("@ + text::decimal(count as nat) + " outputs)"@,
        DecodeErrorOf::Unpack { function, reason } => "decoder: unpack "@ + text::debug_form(
            function,
        ) + ": "@ + reason,
        DecodeErrorOf::TooFewValues { got, index } => "decoder: unpacked "@ + text::decimal(
            got as nat,
        ) + " values, need index "@ + text::decimal(index as nat),
        DecodeErrorOf::FieldOutOfRange { index, function } => "decoder: tuple field index "@
            + text::decimal(index as nat) + " out of range for "@ + text::debug_form(function),
        DecodeErrorOf::NotATuple { output, function, form } => "decoder: field set but output "@
            + text::decimal(output as nat) + " of "@ + text::debug_form(function)
            + " is not a tuple ("@ + form + ")"@,
        DecodeErrorOf::Unsupported(ty) =>
            "decoder: unsupported return type for numeric metric: "@ + ty.0,
    }
}

impl DecodeErrorOf<String> {
    /// The error as a text for people.
    pub fn message(&self) -> (r: String)
        ensures
            r@ == decode_message(self@),
    {
        match self {
            DecodeErrorOf::NoOutputs { function } => {
                let mut s = "decoder: method ".to_string();
                s.append(text::quoted(function).as_str());
                s.append(" has no outputs");
                s
            },
            DecodeErrorOf::OutputOutOfRange { index, function, count } => {
                let mut s = "decoder: output index ".to_string();
                s.append(text::count_text(*index).as_str());
                s.append(" out of range for ");
                s.append(text::quoted(function).as_str());
                s.append(" (");
                s.append(text::count_text(*count).as_str());
                s.append(" outputs)");
                s
            },
            DecodeErrorOf::Unpack { function, reason } => {
                let mut s = "decoder: unpack ".to_string();
                s.append(text::quoted(function).as_str());
                s.append(": ");
                s.append(reason);
                s
            },
            DecodeErrorOf::TooFewValues { got, index } => {
                let mut s = "decoder: unpacked ".to_string();
                s.append(text::count_text(*got).as_str());
                s.append(" values, need index ");
                s.append(text::count_text(*index).as_str());
                s
            },
            DecodeErrorOf::FieldOutOfRange { index, function } => {
                let mut s = "decoder: tuple field index ".to_string();
                s.append(text::count_text(*index).as_str());
                s.append(" out of range for ");
                s.append(text::quoted(function).as_str());
                s
            },
            DecodeErrorOf::NotATuple { output, function, form } => {
                let mut s = "decoder: field set but output ".to_string();
                s.append(text::count_text(*output).as_str());
                s.append(" of ");
                s.append(text::quoted(function).as_str());
                s.append(" is not a tuple (");
                s.append(form);
                s.append(")");
                s
            },
            DecodeErrorOf::Unsupported(ty) => {
                let mut s = "decoder: unsupported return type for numeric metric: ".to_string();
                s.append(ty.0.as_str());
                s
            },
        }
    }
}

/// The value of a metric before it becomes a floating point number: an integer by its decimal
/// numeral, to be divided by the scale, or a truth value. `S` is the type of texts.
#[derive(Debug)]
pub enum ReadingOf<S> {
    Number { digits: S, scale_bits: u64 },
    Flag(bool),
}

/// The value of a metric before it becomes a floating point number.
pub type Reading = ReadingOf<String>;

impl View for Reading {
    type V = ReadingOf<Seq<char>>;

    open spec fn view(&self) -> ReadingOf<Seq<char>> {
        match *self {
            ReadingOf::Number { digits, scale_bits } => ReadingOf::Number {
                digits: digits@,
                scale_bits,
            },
            ReadingOf::Flag(b) => ReadingOf::Flag(b),
        }
    }
}

/// What a returned value says of a metric.
pub open spec fn value_reading(v: sol::DecodedView, scale_bits: u64) -> Result<
    ReadingOf<Seq<char>>,
    DecodeErrorOf<Seq<char>>,
> {
    match v.shape {
        sol::ShapeView::Uint(w) => Ok(
            ReadingOf::Number { digits: words::unsigned_decimal(w), scale_bits },
        ),
        sol::ShapeView::Int(w) => Ok(
            ReadingOf::Number { digits: words::signed_decimal(w), scale_bits },
        ),
        sol::ShapeView::Bool(b) => Ok(ReadingOf::Flag(b)),
        _ => Err(DecodeErrorOf::Unsupported(UnsupportedTypeOf(v.form))),
    }
}

/// What the returned values say of the metric that `target` selects.
pub open spec fn selected_reading(values: Seq<sol::DecodedView>, target: DecodeTargetView) -> Result<
    ReadingOf<Seq<char>>,
    DecodeErrorOf<Seq<char>>,
> {
    let scale = config::effective_bits(target.scale_bits);
    if target.output_index >= values.len() {
        Err(
            DecodeErrorOf::TooFewValues {
                got: values.len() as usize,
                index: target.output_index,
            },
        )
    } else {
        let v = values[target.output_index as int];
        match target.field_index {
            None => value_reading(v, scale),
            Some(k) => match v.shape {
                sol::ShapeView::Tuple(fields) => if k < fields.len() {
                    value_reading(fields[k as int], scale)
                } else {
                    Err(
                        DecodeErrorOf::FieldOutOfRange {
                            index: k,
                            function: target.function.name,
                        },
                    )
                },
                _ => Err(
                    DecodeErrorOf::NotATuple {
                        output: target.output_index,
                        function: target.function.name,
                        form: v.form,
                    },
                ),
            },
        }
    }
}

/// What return data says of the metric that `target` selects.
pub open spec fn data_reading(data: Seq<u8>, target: DecodeTargetView) -> Result<
    ReadingOf<Seq<char>>,
    DecodeErrorOf<Seq<char>>,
> {
    let f = target.function;
    if f.outputs.len() == 0 {
        Err(DecodeErrorOf::NoOutputs { function: f.name })
    } else if target.output_index >= f.outputs.len() {
        Err(
            DecodeErrorOf::OutputOutOfRange {
                index: target.output_index,
                function: f.name,
                count: f.outputs.len() as usize,
            },
        )
    } else {
        match sol::decoded_return(f.outputs, data) {
            Err(reason) => Err(DecodeErrorOf::Unpack { function: f.name, reason }),
            Ok(values) => selected_reading(values, target),
        }
    }
}

/// Reads one returned value.
pub fn convert_value(v: &Decoded, scale_bits: u64) -> (r: Result<Reading, DecodeError>)
    ensures
        match r {
            Ok(reading) => value_reading(v@, scale_bits) == Ok::<
                ReadingOf<Seq<char>>,
                DecodeErrorOf<Seq<char>>,
            >(reading@),
            Err(e) => value_reading(v@, scale_bits) == Err::<
                ReadingOf<Seq<char>>,
                DecodeErrorOf<Seq<char>>,
            >(e@),
        },
{
    match &v.shape {
        Shape::Uint(w) => Ok(ReadingOf::Number { digits: words::unsigned_text(w), scale_bits }),
        Shape::Int(w) => Ok(ReadingOf::Number { digits: words::signed_text(w), scale_bits }),
        Shape::Bool(b) => Ok(ReadingOf::Flag(*b)),
        _ => Err(DecodeErrorOf::Unsupported(UnsupportedTypeOf(v.form.clone()))),
    }
}

/// Selects a metric's value among the returned values and reads it.
pub fn read_value(values: &Vec<Decoded>, target: &DecodeTarget) -> (r: Result<Reading, DecodeError>)
    ensures
        match r {
            Ok(reading) => selected_reading(sol::decoded_list_view(values@), target@) == Ok::<
                ReadingOf<Seq<char>>,
                DecodeErrorOf<Seq<char>>,
            >(reading@),
            Err(e) => selected_reading(sol::decoded_list_view(values@), target@) == Err::<
                ReadingOf<Seq<char>>,
                DecodeErrorOf<Seq<char>>,
            >(e@),
        },
{
    let scale: u64 = config::effective_divisor(target.scale_bits);
    if target.output_index >= values.len() {
        return Err(
            DecodeErrorOf::TooFewValues { got: values.len(), index: target.output_index },
        );
    }
    let v = &values[target.output_index];
    assert(sol::decoded_list_view(values@)[target.output_index as int] == v@);
    match target.field_index {
        None => convert_value(v, scale),
        Some(k) => match &v.shape {
            Shape::Tuple(fields) => {
                if k < fields.len() {
                    assert(v@.shape->Tuple_0[k as int] == fields@[k as int]@);
                    convert_value(&fields[k], scale)
                } else {
                    Err(
                        DecodeErrorOf::FieldOutOfRange {
                            index: k,
                            function: target.function.name.clone(),
                        },
                    )
                }
            },
            _ => Err(
                DecodeErrorOf::NotATuple {
                    output: target.output_index,
                    function: target.function.name.clone(),
                    form: v.form.clone(),
                },
            ),
        },
    }
}

/// Reads a metric's value from the return data of a call.
pub fn decode(return_data: &[u8], target: &DecodeTarget) -> (r: Result<Reading, DecodeError>)
    ensures
        match r {
            Ok(reading) => data_reading(return_data@, target@) == Ok::<
                ReadingOf<Seq<char>>,
                DecodeErrorOf<Seq<char>>,
            >(reading@),
            Err(e) => data_reading(return_data@, target@) == Err::<
                ReadingOf<Seq<char>>,
                DecodeErrorOf<Seq<char>>,
            >(e@),
        },
{
    let f = &target.function;
    if f.outputs.len() == 0 {
        return Err(DecodeErrorOf::NoOutputs { function: f.name.clone() });
    }
    if target.output_index >= f.outputs.len() {
        return Err(
            DecodeErrorOf::OutputOutOfRange {
                index: target.output_index,
                function: f.name.clone(),
                count: f.outputs.len(),
            },
        );
    }
    match sol::decode_output(f, return_data) {
        Err(reason) => Err(DecodeErrorOf::Unpack { function: f.name.clone(), reason }),
        Ok(values) => read_value(&values, target),
    }
}

/// A scale that is not set, or is zero, divides by one.
pub proof fn unset_scales_are_one(data: Seq<u8>, target: DecodeTargetView)
    requires
        target.scale_bits == 0 || target.scale_bits == config::NEGATIVE_ZERO_BITS,
    ensures
        data_reading(data, target) == data_reading(
            data,
            DecodeTargetView { scale_bits: config::ONE_BITS, ..target },
        ),
{
}

/// A truth value is read as such whatever the scale.
pub proof fn flags_are_not_scaled(v: sol::DecodedView, scale: u64, other: u64)
    requires
        v.shape is Bool,
    ensures
        value_reading(v, scale) == value_reading(v, other),
{
}

/// A metric without a field shows the value at its output's place, whatever the other values are:
/// an unsigned or signed integer by its numeral, to be divided by the scale, which is one where none
/// is set, and a truth value as such. Any other value is refused by the text that shows it.
pub proof fn readings_are_of_the_selected_output(
    values: Seq<sol::DecodedView>,
    target: DecodeTargetView,
    n: nat,
    v: int,
)
    requires
        target.output_index < values.len(),
        target.field_index is None,
        n < words::word_limit(),
        -words::sign_limit() <= v < words::sign_limit(),
    ensures
        ({
            let value = values[target.output_index as int];
            let reading = selected_reading(values, target);
            let divisor = if target.scale_bits == 0 || target.scale_bits
                == 0x8000_0000_0000_0000 {
                0x3ff0_0000_0000_0000u64
            } else {
                target.scale_bits
            };
            &&& value.shape == sol::ShapeView::Uint(words::be_bytes(n, 32)) ==> reading
                == Ok::<ReadingOf<Seq<char>>, DecodeErrorOf<Seq<char>>>(ReadingOf::Number { digits: text::decimal(n), scale_bits: divisor })
            &&& value.shape == sol::ShapeView::Int(words::be_bytes(words::complement(v), 32))
                ==> reading == Ok::<ReadingOf<Seq<char>>, DecodeErrorOf<Seq<char>>>(
                ReadingOf::Number { digits: words::integer_text(v), scale_bits: divisor },
            )
            &&& value.shape == sol::ShapeView::Bool(true) ==> reading
                == Ok::<ReadingOf<Seq<char>>, DecodeErrorOf<Seq<char>>>(ReadingOf::Flag(true))
            &&& value.shape == sol::ShapeView::Bool(false) ==> reading
                == Ok::<ReadingOf<Seq<char>>, DecodeErrorOf<Seq<char>>>(ReadingOf::Flag(false))
            &&& !(value.shape is Uint || value.shape is Int || value.shape is Bool) ==> reading
                == Err::<ReadingOf<Seq<char>>, DecodeErrorOf<Seq<char>>>(DecodeErrorOf::Unsupported(UnsupportedTypeOf(value.form)))
        }),
{
    words::words_denote(n);
    words::signed_words_read_back(v);
}

/// A metric of a tuple field shows the field at its place in the tuple at its output's place. A
/// field of what is no tuple, or beyond its end, is refused.
pub proof fn readings_are_of_the_selected_field(
    values: Seq<sol::DecodedView>,
    target: DecodeTargetView,
    fields: Seq<sol::DecodedView>,
    k: usize,
    n: nat,
    v: int,
)
    requires
        target.output_index < values.len(),
        target.field_index == Some(k),
        n < words::word_limit(),
        -words::sign_limit() <= v < words::sign_limit(),
    ensures
        ({
            let output = values[target.output_index as int];
            let value = fields[k as int];
            let reading = selected_reading(values, target);
            let divisor = if target.scale_bits == 0 || target.scale_bits
                == 0x8000_0000_0000_0000 {
                0x3ff0_0000_0000_0000u64
            } else {
                target.scale_bits
            };
            &&& output.shape == sol::ShapeView::Tuple(fields) && k < fields.len() ==> {
                &&& value.shape == sol::ShapeView::Uint(words::be_bytes(n, 32)) ==> reading
                    == Ok::<ReadingOf<Seq<char>>, DecodeErrorOf<Seq<char>>>(ReadingOf::Number { digits: text::decimal(n), scale_bits: divisor })
                &&& value.shape == sol::ShapeView::Int(words::be_bytes(words::complement(v), 32))
                    ==> reading == Ok::<ReadingOf<Seq<char>>, DecodeErrorOf<Seq<char>>>(
                    ReadingOf::Number { digits: words::integer_text(v), scale_bits: divisor },
                )
                &&& value.shape == sol::ShapeView::Bool(true) ==> reading
                    == Ok::<ReadingOf<Seq<char>>, DecodeErrorOf<Seq<char>>>(ReadingOf::Flag(true))
                &&& value.shape == sol::ShapeView::Bool(false) ==> reading
                    == Ok::<ReadingOf<Seq<char>>, DecodeErrorOf<Seq<char>>>(ReadingOf::Flag(false))
                &&& !(value.shape is Uint || value.shape is Int || value.shape is Bool) ==> reading
                    == Err::<ReadingOf<Seq<char>>, DecodeErrorOf<Seq<char>>>(DecodeErrorOf::Unsupported(UnsupportedTypeOf(value.form)))
            }
            &&& output.shape == sol::ShapeView::Tuple(fields) && k >= fields.len() ==> reading
                == Err::<ReadingOf<Seq<char>>, DecodeErrorOf<Seq<char>>>(
                DecodeErrorOf::FieldOutOfRange { index: k, function: target.function.name },
            )
            &&& !(output.shape is Tuple) ==> reading == Err::<ReadingOf<Seq<char>>, DecodeErrorOf<Seq<char>>>(
                DecodeErrorOf::NotATuple {
                    output: target.output_index,
                    function: target.function.name,
                    form: output.form,
                },
            )
        }),
{
    words::words_denote(n);
    words::signed_words_read_back(v);
}

/// What a metric shows depends on the value at its output's place alone.
pub proof fn other_values_do_not_matter(
    values: Seq<sol::DecodedView>,
    others: Seq<sol::DecodedView>,
    target: DecodeTargetView,
)
    requires
        target.output_index < values.len(),
        target.output_index < others.len(),
        values[target.output_index as int] == others[target.output_index as int],
    ensures
        selected_reading(values, target) == selected_reading(others, target),
{
}

/// Return data is read as the values that its function's outputs decode to. A function without
/// outputs, an output that the function does not have, and data that does not decode are refused,
/// each with what was asked for.
pub proof fn data_is_read_by_its_function(data: Seq<u8>, target: DecodeTargetView)
    ensures
        ({
            let f = target.function;
            let reading = data_reading(data, target);
            &&& f.outputs.len() == 0 ==> reading == Err::<ReadingOf<Seq<char>>, DecodeErrorOf<Seq<char>>>(
                DecodeErrorOf::NoOutputs { function: f.name },
            )
            &&& 0 < f.outputs.len() <= target.output_index ==> reading == Err::<ReadingOf<Seq<char>>, DecodeErrorOf<Seq<char>>>(
                DecodeErrorOf::OutputOutOfRange {
                    index: target.output_index,
                    function: f.name,
                    count: f.outputs.len() as usize,
                },
            )
            &&& target.output_index < f.outputs.len() ==> match sol::decoded_return(
                f.outputs,
                data,
            ) {
                Err(reason) => reading == Err::<ReadingOf<Seq<char>>, DecodeErrorOf<Seq<char>>>(
                    DecodeErrorOf::Unpack { function: f.name, reason },
                ),
                Ok(values) => reading == selected_reading(values, target),
            }
        }),
{
}

/// A value that is not there is never read.
pub proof fn missing_values_are_refused(values: Seq<sol::DecodedView>, target: DecodeTargetView)
    requires
        values.len() <= target.output_index,
    ensures
        selected_reading(values, target) == Err::<ReadingOf<Seq<char>>, DecodeErrorOf<Seq<char>>>(
            DecodeErrorOf::TooFewValues {
                got: values.len() as usize,
                index: target.output_index,
            },
        ),
{
}

/// A target says its function, output, field and divisor.
pub proof fn targets_say_what_they_hold(target: DecodeTarget)
    ensures
        target@.function == target.function@,
        target@.output_index == target.output_index,
        target@.field_index == target.field_index,
        target@.scale_bits == target.scale_bits,
{
}

} // verus!
