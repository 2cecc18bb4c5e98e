//! The arguments of calls: from values of the configuration to values of the function's types.

use crate::outcome;
use crate::sol;
use crate::sol::{AbiFunction, ParamType, SolType, SolValue, SolValueView};
use crate::text;
use crate::words;
use crate::yaml;
use crate::yaml::YamlValue;
use vstd::prelude::*;

verus! {

/// Why a value is no argument of a type. `S` is the type of texts; a `reason` is the message of
/// the parser that refused the text.
#[derive(Debug)]
pub enum ArgFaultOf<S> {
    /// A truth value is wanted.
    NotABool { value: S },
    /// A text, a number or a truth value is wanted.
    NotAScalar { value: S },
    /// A number or a text is wanted for an unsigned integer.
    NotAUint { value: S },
    /// A number or a text is wanted for a signed integer.
    NotAnInt { value: S },
    /// The text is no address.
    Address { value: S, reason: S },
    /// The number is no unsigned integer.
    UintNumber { value: S, reason: S },
    /// The text is no decimal unsigned integer.
    UintText { value: S, reason: S },
    /// The text is no hexadecimal unsigned integer.
    HexUint { value: S, reason: S },
    /// The number or text is no signed integer.
    Int { value: S, reason: S },
    /// The text is no hexadecimal byte string.
    Bytes { value: S, reason: S },
    /// The byte string has the wrong length.
    Width { expected: usize, got: usize },
    /// The number is no unsigned integer of the width.
    UintRange { value: S, bits: usize },
    /// The number is no signed integer of the width.
    IntRange { value: S, bits: usize },
    /// Arguments of the type cannot be written in the configuration.
    Unsupported { ty: S },
}

/// Why a value is no argument of a type.
pub type ArgFault = ArgFaultOf<String>;

/// Why the arguments of a call do not fit its function. `S` is the type of texts.
#[derive(Debug)]
pub enum ArgErrorOf<S> {
    /// There are more or fewer arguments than parameters.
    Count { function: S, expected: usize, got: usize },
    /// The type of a parameter is not known.
    Type { index: usize, ty: S, reason: S },
    /// An argument does not have its parameter's type.
    Argument { index: usize, ty: S, fault: ArgFaultOf<S> },
}

/// Why the arguments of a call do not fit its function.
pub type ArgError = ArgErrorOf<String>;

impl View for ArgFault {
    type V = ArgFaultOf<Seq<char>>;

    open spec fn view(&self) -> ArgFaultOf<Seq<char>> {
        match *self {
            ArgFaultOf::NotABool { value } => ArgFaultOf::NotABool { value: value@ },
            ArgFaultOf::NotAScalar { value } => ArgFaultOf::NotAScalar { value: value@ },
            ArgFaultOf::NotAUint { value } => ArgFaultOf::NotAUint { value: value@ },
            ArgFaultOf::NotAnInt { value } => ArgFaultOf::NotAnInt { value: value@ },
            ArgFaultOf::Address { value, reason } => ArgFaultOf::Address {
                value: value@,
                reason: reason@,
            },
            ArgFaultOf::UintNumber { value, reason } => ArgFaultOf::UintNumber {
                value: value@,
                reason: reason@,
            },
            ArgFaultOf::UintText { value, reason } => ArgFaultOf::UintText {
                value: value@,
                reason: reason@,
            },
            ArgFaultOf::HexUint { value, reason } => ArgFaultOf::HexUint {
                value: value@,
                reason: reason@,
            },
            ArgFaultOf::Int { value, reason } => ArgFaultOf::Int {
                value: value@,
                reason: reason@,
            },
            ArgFaultOf::Bytes { value, reason } => ArgFaultOf::Bytes {
                value: value@,
                reason: reason@,
            },
            ArgFaultOf::Width { expected, got } => ArgFaultOf::Width { expected, got },
            ArgFaultOf::UintRange { value, bits } => ArgFaultOf::UintRange { value: value@, bits },
            ArgFaultOf::IntRange { value, bits } => ArgFaultOf::IntRange { value: value@, bits },
            ArgFaultOf::Unsupported { ty } => ArgFaultOf::Unsupported { ty: ty@ },
        }
    }
}

impl View for ArgError {
    type V = ArgErrorOf<Seq<char>>;

    open spec fn view(&self) -> ArgErrorOf<Seq<char>> {
        match *self {
            ArgErrorOf::Count { function, expected, got } => ArgErrorOf::Count {
                function: function@,
                expected,
                got,
            },
            ArgErrorOf::Type { index, ty, reason } => ArgErrorOf::Type {
                index,
                ty: ty@,
                reason: reason@,
            },
            ArgErrorOf::Argument { index, ty, fault } => ArgErrorOf::Argument {
                index,
                ty: ty@,
                fault: fault@,
            },
        }
    }
}

/// The message of an [`ArgFault`].
pub open spec fn fault_message(e: ArgFaultOf<Seq<char>>) -> Seq<char> {
    match e {
        ArgFaultOf::NotABool { value } => "expected bool, got "@ + value,
        ArgFaultOf::NotAScalar { value } => "expected string scalar, got "@ + value,
        ArgFaultOf::NotAUint { value } => "expected uint scalar, got "@ + value,
        ArgFaultOf::NotAnInt { value } => "expected int scalar, got "@ + value,
        ArgFaultOf::Address { value, reason } => "invalid address "@ + text::debug_form(value)
            + ": "@ + reason,
        ArgFaultOf::UintNumber { value, reason } => "invalid uint "@ + value + ": "@ + reason,
        ArgFaultOf::UintText { value, reason } => "invalid uint "@ + text::debug_form(value)
            + ": "@ + reason,
        ArgFaultOf::HexUint { value, reason } => "invalid hex uint "@ + text::debug_form(value)
            + ": "@ + reason,
        ArgFaultOf::Int { value, reason } => "invalid int "@ + text::debug_form(value) + ": "@
            + reason,
        ArgFaultOf::Bytes { value, reason } => "invalid hex bytes "@ + text::debug_form(value)
            + ": "@ + reason,
        ArgFaultOf::Width { expected, got } => "bytes"@ + text::decimal(expected as nat)
            + " expects "@ + text::decimal(expected as nat) + " bytes, got "@ + text::decimal(
            got as nat,
        ),
        ArgFaultOf::UintRange { value, bits } => value + " does not fit in uint"@ + text::decimal(
            bits as nat,
        ),
        ArgFaultOf::IntRange { value, bits } => value + " does not fit in int"@ + text::decimal(
            bits as nat,
        ),
        ArgFaultOf::Unsupported { ty } => "unsupported argument type "@ + ty,
    }
}

/// The message of an [`ArgError`].
pub open spec fn arg_message(e: ArgErrorOf<Seq<char>>) -> Seq<char> {
    match e {
        ArgErrorOf::Count { function, expected, got } => "function "@ + text::debug_form(function)
            + " expects "@ + text::decimal(expected as nat) + " argument(s), got "@ + text::decimal(
            got as nat,
        ),
        ArgErrorOf::Type { index, ty, reason } => "resolve type of args["@ + text::decimal(
            index as nat,
        ) + "] ("@ + ty + "): "@ + reason,
        ArgErrorOf::Argument { index, ty, fault } => "args["@ + text::decimal(index as nat)
            + "] ("@ + ty + "): "@ + fault_message(fault),
    }
}

/// A refused text with the reason for it.
fn refusal(what: &str, shown: String, reason: &str) -> (r: String)
    ensures
        r@ == what@ + shown@ + ": "@ + reason@,
{
    let mut s = what.to_string();
    s.append(shown.as_str());
    s.append(": ");
    s.append(reason);
    s
}

/// A complaint with what it is about.
fn shown(what: &str, it: &str) -> (r: String)
    ensures
        r@ == what@ + it@,
{
    let mut s = what.to_string();
    s.append(it);
    s
}

/// A number that is too large or too small for its width.
fn out_of_range(value: &str, what: &str, bits: usize) -> (r: String)
    ensures
        r@ == value@ + what@ + text::decimal(bits as nat),
{
    let mut s = value.to_string();
    s.append(what);
    s.append(text::count_text(bits).as_str());
    s
}

impl ArgFaultOf<String> {
    /// The fault as a text for people.
    pub fn message(&self) -> (r: String)
        ensures
            r@ == fault_message(self@),
    {
        match self {
            ArgFaultOf::NotABool { value } => shown("expected bool, got ", value),
            ArgFaultOf::NotAScalar { value } => shown("expected string scalar, got ", value),
            ArgFaultOf::NotAUint { value } => shown("expected uint scalar, got ", value),
            ArgFaultOf::NotAnInt { value } => shown("expected int scalar, got ", value),
            ArgFaultOf::Address { value, reason } => refusal(
                "invalid address ",
                text::quoted(value),
                reason,
            ),
            ArgFaultOf::UintNumber { value, reason } => refusal(
                "invalid uint ",
                value.clone(),
                reason,
            ),
            ArgFaultOf::UintText { value, reason } => refusal(
                "invalid uint ",
                text::quoted(value),
                reason,
            ),
            ArgFaultOf::HexUint { value, reason } => refusal(
                "invalid hex uint ",
                text::quoted(value),
                reason,
            ),
            ArgFaultOf::Int { value, reason } => refusal(
                "invalid int ",
                text::quoted(value),
                reason,
            ),
            ArgFaultOf::Bytes { value, reason } => refusal(
                "invalid hex bytes ",
                text::quoted(value),
                reason,
            ),
            ArgFaultOf::Width { expected, got } => {
                let mut s = "bytes".to_string();
                s.append(text::count_text(*expected).as_str());
                s.append(" expects ");
                s.append(text::count_text(*expected).as_str());
                s.append(" bytes, got ");
                s.append(text::count_text(*got).as_str());
                s
            },
            ArgFaultOf::UintRange { value, bits } => out_of_range(
                value,
                " does not fit in uint",
                *bits,
            ),
            ArgFaultOf::IntRange { value, bits } => out_of_range(
                value,
                " does not fit in int",
                *bits,
            ),
            ArgFaultOf::Unsupported { ty } => shown("unsupported argument type ", ty),
        }
    }
}

impl ArgErrorOf<String> {
    /// The error as a text for people.
    pub fn message(&self) -> (r: String)
        ensures
            r@ == arg_message(self@),
    {
        match self {
            ArgErrorOf::Count { function, expected, got } => {
                let mut s = "function ".to_string();
                s.append(text::quoted(function).as_str());
                s.append(" expects ");
                s.append(text::count_text(*expected).as_str());
                s.append(" argument(s), got ");
                s.append(text::count_text(*got).as_str());
                s
            },
            ArgErrorOf::Type { index, ty, reason } => {
                let mut s = "resolve type of args[".to_string();
                s.append(text::count_text(*index).as_str());
                s.append("] (");
                s.append(ty);
                s.append("): ");
                s.append(reason);
                s
            },
            ArgErrorOf::Argument { index, ty, fault } => {
                let mut s = "args[".to_string();
                s.append(text::count_text(*index).as_str());
                s.append("] (");
                s.append(ty);
                s.append("): ");
                s.append(fault.message().as_str());
                s
            },
        }
    }
}

/// A text without a leading `0x` or `0X`.
pub open spec fn without_0x(s: Seq<char>) -> Seq<char> {
    if has_0x(s) {
        s.skip(2)
    } else {
        s
    }
}

/// Whether a text begins with `0x` or `0X`.
pub open spec fn has_0x(s: Seq<char>) -> bool {
    text::begins_with(s, "0x"@) || text::begins_with(s, "0X"@)
}

/// The text of a scalar value.
pub open spec fn scalar_text(v: YamlValue) -> Result<Seq<char>, ArgFaultOf<Seq<char>>> {
    match v {
        YamlValue::String(s) => Ok(s@),
        YamlValue::Number(n) => Ok(n@),
        YamlValue::Bool(b) => Ok(if b { "true"@ } else { "false"@ }),
        _ => Err(ArgFaultOf::NotAScalar { value: yaml::value_form(v@) }),
    }
}

/// The address that a value stands for.
pub open spec fn address_argument(v: YamlValue) -> Result<Seq<u8>, ArgFaultOf<Seq<char>>> {
    match scalar_text(v) {
        Err(e) => Err(e),
        Ok(s) => match words::address_bytes(s) {
            Some(a) => Ok(a),
            None => Err(
                ArgFaultOf::Address { value: s, reason: words::address_refusal(s) },
            ),
        },
    }
}

/// The unsigned word that a value stands for.
pub open spec fn uint_argument(v: YamlValue) -> Result<Seq<u8>, ArgFaultOf<Seq<char>>> {
    match v {
        YamlValue::Number(n) => match words::unsigned_word(n@, 10) {
            Some(w) => Ok(words::be_bytes(w, 32)),
            None => Err(
                ArgFaultOf::UintNumber { value: n@, reason: words::unsigned_refusal(n@, 10) },
            ),
        },
        YamlValue::String(s) => {
            let t = text::trimmed(s@);
            if has_0x(t) {
                match words::unsigned_word(without_0x(t), 16) {
                    Some(w) => Ok(words::be_bytes(w, 32)),
                    None => Err(
                        ArgFaultOf::HexUint {
                            value: s@,
                            reason: words::unsigned_refusal(without_0x(t), 16),
                        },
                    ),
                }
            } else {
                match words::unsigned_word(t, 10) {
                    Some(w) => Ok(words::be_bytes(w, 32)),
                    None => Err(
                        ArgFaultOf::UintText { value: s@, reason: words::unsigned_refusal(t, 10) },
                    ),
                }
            }
        },
        _ => Err(ArgFaultOf::NotAUint { value: yaml::value_form(v@) }),
    }
}

/// The text of a number, or a text without the white space around it.
pub open spec fn int_text(v: YamlValue) -> Option<Seq<char>> {
    match v {
        YamlValue::Number(n) => Some(n@),
        YamlValue::String(s) => Some(text::trimmed(s@)),
        _ => None,
    }
}

/// The signed word that a value stands for.
pub open spec fn int_argument(v: YamlValue) -> Result<Seq<u8>, ArgFaultOf<Seq<char>>> {
    match int_text(v) {
        None => Err(ArgFaultOf::NotAnInt { value: yaml::value_form(v@) }),
        Some(s) => match words::signed_word(s) {
            Some(w) => Ok(words::be_bytes(w, 32)),
            None => Err(ArgFaultOf::Int { value: s, reason: words::signed_refusal(s) }),
        },
    }
}

/// The byte string that a value stands for.
pub open spec fn bytes_argument(v: YamlValue) -> Result<Seq<u8>, ArgFaultOf<Seq<char>>> {
    match scalar_text(v) {
        Err(e) => Err(e),
        Ok(s) => {
            let digits = without_0x(text::trimmed(s));
            match words::hex_bytes(digits) {
                Some(b) => Ok(b),
                None => Err(
                    ArgFaultOf::Bytes { value: s, reason: words::hex_refusal(digits) },
                ),
            }
        },
    }
}

/// A byte string filled up with zeros to the length of a word.
pub open spec fn padded(b: Seq<u8>) -> Seq<u8> {
    b + Seq::new((32 - b.len()) as nat, |i: int| 0u8)
}

/// The argument of a type that a value stands for.
pub open spec fn argument(ty: sol::ParamTypeView, v: YamlValue) -> Result<
    SolValueView,
    ArgFaultOf<Seq<char>>,
> {
    match ty.kind {
        SolType::Address => match address_argument(v) {
            Ok(a) => Ok(SolValueView::Address(a)),
            Err(e) => Err(e),
        },
        SolType::Bool => match v {
            YamlValue::Bool(b) => Ok(SolValueView::Bool(b)),
            _ => Err(ArgFaultOf::NotABool { value: yaml::value_form(v@) }),
        },
        SolType::Uint(bits) => match uint_argument(v) {
            Ok(w) => if words::fits_unsigned(w, bits as nat) {
                Ok(SolValueView::Uint(w, bits))
            } else {
                Err(ArgFaultOf::UintRange { value: words::unsigned_decimal(w), bits })
            },
            Err(e) => Err(e),
        },
        SolType::Int(bits) => match int_argument(v) {
            Ok(w) => if words::fits_signed(w, bits as nat) {
                Ok(SolValueView::Int(w, bits))
            } else {
                Err(ArgFaultOf::IntRange { value: words::signed_decimal(w), bits })
            },
            Err(e) => Err(e),
        },
        SolType::String => match scalar_text(v) {
            Ok(s) => Ok(SolValueView::String(s)),
            Err(e) => Err(e),
        },
        SolType::Bytes => match bytes_argument(v) {
            Ok(b) => Ok(SolValueView::Bytes(b)),
            Err(e) => Err(e),
        },
        SolType::FixedBytes(n) => match bytes_argument(v) {
            Ok(b) => if b.len() == n {
                Ok(SolValueView::FixedBytes(padded(b), n))
            } else {
                Err(ArgFaultOf::Width { expected: n, got: b.len() as usize })
            },
            Err(e) => Err(e),
        },
        _ => Err(ArgFaultOf::Unsupported { ty: ty.form }),
    }
}

/// The argument for the parameter at an index.
pub open spec fn argument_at(inputs: Seq<sol::ParamView>, args: Seq<YamlValue>, i: int) -> Result<
    SolValueView,
    ArgErrorOf<Seq<char>>,
> {
    match sol::param_type(inputs[i]) {
        Err(reason) => Err(ArgErrorOf::Type { index: i as usize, ty: inputs[i].ty, reason }),
        Ok(ty) => match argument(ty, args[i]) {
            Ok(v) => Ok(v),
            Err(fault) => Err(
                ArgErrorOf::Argument { index: i as usize, ty: inputs[i].ty, fault },
            ),
        },
    }
}

/// The arguments that a list of values gives for a function's parameters, or the first failure.
pub open spec fn converted(f: sol::FunctionView, args: Seq<YamlValue>) -> Result<
    Seq<SolValueView>,
    ArgErrorOf<Seq<char>>,
> {
    if args.len() != f.inputs.len() {
        Err(
            ArgErrorOf::Count {
                function: f.name,
                expected: f.inputs.len() as usize,
                got: args.len() as usize,
            },
        )
    } else {
        outcome::gathered(f.inputs.len(), |i: int| argument_at(f.inputs, args, i))
    }
}

/// Takes a leading `0x` or `0X` off a text.
pub fn strip_0x(s: &str) -> (r: String)
    ensures
        r@ == without_0x(s@),
{
    proof {
        reveal_strlit("0x");
        reveal_strlit("0X");
    }
    if text::has_prefix(s, "0x") || text::has_prefix(s, "0X") {
        let chars = text::to_chars(s);
        let n: usize = chars.len();
        let r = text::slice_text(&chars, 2, n);
        assert(r@ =~= s@.skip(2));
        r
    } else {
        s.to_string()
    }
}

/// The text of a scalar value.
fn as_string(v: &YamlValue) -> (r: Result<String, ArgFault>)
    ensures
        match r {
            Ok(s) => scalar_text(*v) == Ok::<Seq<char>, ArgFaultOf<Seq<char>>>(s@),
            Err(e) => scalar_text(*v) == Err::<Seq<char>, ArgFaultOf<Seq<char>>>(e@),
        },
{
    match v {
        YamlValue::String(s) => Ok(s.clone()),
        YamlValue::Number(n) => Ok(n.clone()),
        YamlValue::Bool(b) => Ok(if *b { "true".to_string() } else { "false".to_string() }),
        _ => Err(ArgFaultOf::NotAScalar { value: yaml::show_value(v) }),
    }
}

/// Reads an address.
fn parse_address(v: &YamlValue) -> (r: Result<[u8; 20], ArgFault>)
    ensures
        match r {
            Ok(a) => address_argument(*v) == Ok::<Seq<u8>, ArgFaultOf<Seq<char>>>(a@),
            Err(e) => address_argument(*v) == Err::<Seq<u8>, ArgFaultOf<Seq<char>>>(e@),
        },
{
    match as_string(v) {
        Err(e) => Err(e),
        Ok(s) => match words::parse_address_text(s.as_str()) {
            Ok(a) => Ok(a),
            Err(reason) => Err(ArgFaultOf::Address { value: s, reason }),
        },
    }
}

/// Reads an unsigned integer.
fn as_u256(v: &YamlValue) -> (r: Result<[u8; 32], ArgFault>)
    ensures
        match r {
            Ok(w) => uint_argument(*v) == Ok::<Seq<u8>, ArgFaultOf<Seq<char>>>(w@),
            Err(e) => uint_argument(*v) == Err::<Seq<u8>, ArgFaultOf<Seq<char>>>(e@),
        },
{
    match v {
        YamlValue::Number(n) => match words::parse_unsigned(n.as_str(), 10) {
            Ok(w) => Ok(w),
            Err(reason) => Err(ArgFaultOf::UintNumber { value: n.clone(), reason }),
        },
        YamlValue::String(s) => {
            let t = s.as_str().trim();
            if text::has_prefix(t, "0x") || text::has_prefix(t, "0X") {
                match words::parse_unsigned(strip_0x(t).as_str(), 16) {
                    Ok(w) => Ok(w),
                    Err(reason) => Err(ArgFaultOf::HexUint { value: s.clone(), reason }),
                }
            } else {
                match words::parse_unsigned(t, 10) {
                    Ok(w) => Ok(w),
                    Err(reason) => Err(ArgFaultOf::UintText { value: s.clone(), reason }),
                }
            }
        },
        _ => Err(ArgFaultOf::NotAUint { value: yaml::show_value(v) }),
    }
}

/// Reads a signed integer.
fn as_i256(v: &YamlValue) -> (r: Result<[u8; 32], ArgFault>)
    ensures
        match r {
            Ok(w) => int_argument(*v) == Ok::<Seq<u8>, ArgFaultOf<Seq<char>>>(w@),
            Err(e) => int_argument(*v) == Err::<Seq<u8>, ArgFaultOf<Seq<char>>>(e@),
        },
{
    let s = match v {
        YamlValue::Number(n) => n.clone(),
        YamlValue::String(s) => s.as_str().trim().to_string(),
        _ => {
            return Err(ArgFaultOf::NotAnInt { value: yaml::show_value(v) });
        },
    };
    match words::parse_signed(s.as_str()) {
        Ok(w) => Ok(w),
        Err(reason) => Err(ArgFaultOf::Int { value: s, reason }),
    }
}

/// Reads a byte string.
fn as_bytes(v: &YamlValue) -> (r: Result<Vec<u8>, ArgFault>)
    ensures
        match r {
            Ok(b) => bytes_argument(*v) == Ok::<Seq<u8>, ArgFaultOf<Seq<char>>>(b@),
            Err(e) => bytes_argument(*v) == Err::<Seq<u8>, ArgFaultOf<Seq<char>>>(e@),
        },
{
    match as_string(v) {
        Err(e) => Err(e),
        Ok(s) => match words::decode_hex(strip_0x(s.as_str().trim()).as_str()) {
            Ok(b) => Ok(b),
            Err(reason) => Err(ArgFaultOf::Bytes { value: s, reason }),
        },
    }
}

/// Fills a byte string up with zeros to a word.
fn pad(b: &Vec<u8>) -> (r: [u8; 32])
    requires
        b@.len() <= 32,
    ensures
        r@ == padded(b@),
{
    let mut word = [0u8; 32];
    for i in 0..b.len()
        invariant
            b@.len() <= 32,
            word@.len() == 32,
            forall|j: int| 0 <= j < i ==> word@[j] == b@[j],
            forall|j: int| i <= j < 32 ==> word@[j] == 0u8,
    {
        word[i] = b[i];
    }
    assert(word@ =~= padded(b@));
    word
}

/// Reads an argument of the given type.
pub fn convert_one(ty: &ParamType, v: &YamlValue) -> (r: Result<SolValue, ArgFault>)
    requires
        ty.kind matches SolType::FixedBytes(n) ==> n <= 32,
    ensures
        match r {
            Ok(a) => argument(ty@, *v) == Ok::<SolValueView, ArgFaultOf<Seq<char>>>(a@),
            Err(e) => argument(ty@, *v) == Err::<SolValueView, ArgFaultOf<Seq<char>>>(e@),
        },
{
    match &ty.kind {
        SolType::Address => match parse_address(v) {
            Ok(a) => Ok(SolValue::Address(a)),
            Err(e) => Err(e),
        },
        SolType::Bool => match v {
            YamlValue::Bool(b) => Ok(SolValue::Bool(*b)),
            _ => Err(ArgFaultOf::NotABool { value: yaml::show_value(v) }),
        },
        SolType::Uint(bits) => match as_u256(v) {
            Ok(w) => if words::is_uint(&w, *bits) {
                Ok(SolValue::Uint(w, *bits))
            } else {
                Err(ArgFaultOf::UintRange { value: words::unsigned_text(&w), bits: *bits })
            },
            Err(e) => Err(e),
        },
        SolType::Int(bits) => match as_i256(v) {
            Ok(w) => if words::is_int(&w, *bits) {
                Ok(SolValue::Int(w, *bits))
            } else {
                Err(ArgFaultOf::IntRange { value: words::signed_text(&w), bits: *bits })
            },
            Err(e) => Err(e),
        },
        SolType::String => match as_string(v) {
            Ok(s) => Ok(SolValue::String(s)),
            Err(e) => Err(e),
        },
        SolType::Bytes => match as_bytes(v) {
            Ok(b) => Ok(SolValue::Bytes(b)),
            Err(e) => Err(e),
        },
        SolType::FixedBytes(n) => match as_bytes(v) {
            Ok(b) => {
                if b.len() != *n {
                    return Err(ArgFaultOf::Width { expected: *n, got: b.len() });
                }
                Ok(SolValue::FixedBytes(pad(&b), *n))
            },
            Err(e) => Err(e),
        },
        _ => Err(ArgFaultOf::Unsupported { ty: ty.form.clone() }),
    }
}

/// Turns values of the configuration into arguments of the function's parameter types: address,
/// bool, integers, string and byte strings.
pub fn convert_args(f: &AbiFunction, args: &Vec<YamlValue>) -> (r: Result<Vec<SolValue>, ArgError>)
    ensures
        match r {
            Ok(vs) => converted(f@, args@) == Ok::<Seq<SolValueView>, ArgErrorOf<Seq<char>>>(
                sol::values_view(vs@),
            ),
            Err(e) => converted(f@, args@) == Err::<Seq<SolValueView>, ArgErrorOf<Seq<char>>>(e@),
        },
{
    if args.len() != f.inputs.len() {
        return Err(
            ArgErrorOf::Count {
                function: f.name.clone(),
                expected: f.inputs.len(),
                got: args.len(),
            },
        );
    }
    let ghost at = |i: int| argument_at(f@.inputs, args@, i);
    let mut out: Vec<SolValue> = Vec::new();
    assert(sol::values_view(out@) =~= seq![]);
    for i in 0..f.inputs.len()
        invariant
            args@.len() == f.inputs@.len(),
            at == (|i: int| argument_at(f@.inputs, args@, i)),
            outcome::gathered(i as nat, at) == Ok::<Seq<SolValueView>, ArgErrorOf<Seq<char>>>(
                sol::values_view(out@),
            ),
    {
        let p = &f.inputs[i];
        assert(f@.inputs[i as int] == p@);
        let one: Result<SolValue, ArgError> = match sol::resolve_type(p) {
            Err(reason) => Err(ArgErrorOf::Type { index: i, ty: p.ty.clone(), reason }),
            Ok(ty) => match convert_one(&ty, &args[i]) {
                Ok(v) => Ok(v),
                Err(fault) => Err(ArgErrorOf::Argument { index: i, ty: p.ty.clone(), fault }),
            },
        };
        match one {
            Ok(v) => {
                let ghost before = sol::values_view(out@);
                out.push(v);
                assert(sol::values_view(out@) =~= before.push(v@));
            },
            Err(e) => {
                proof {
                    assert(outcome::gathered((i + 1) as nat, at) is Err);
                    outcome::lemma_gathered_failure_stays((i + 1) as nat, f@.inputs.len(), at);
                }
                return Err(e);
            },
        }
    }
    Ok(out)
}

/// Arguments that could be converted fit the function's parameters, so that they can be encoded,
/// and each integer among them lies in the range of its type.
pub proof fn converted_arguments_fit(f: sol::FunctionView, args: Seq<YamlValue>)
    ensures
        converted(f, args) matches Ok(values) ==> sol::fits_parameters(f.inputs, values) && forall|
            i: int,
        |
            0 <= i < values.len() ==> sol::in_range(#[trigger] values[i]),
{
    if let Ok(values) = converted(f, args) {
        let at = |i: int| argument_at(f.inputs, args, i);
        outcome::lemma_gathered(f.inputs.len(), at);
        assert forall|i: int| 0 <= i < f.inputs.len() implies (match #[trigger] sol::param_type(
            f.inputs[i],
        ) {
            Ok(ty) => sol::has_type(values[i], ty.kind),
            Err(_) => false,
        }) by {
            assert(at(i) == Ok::<SolValueView, ArgErrorOf<Seq<char>>>(values[i]));
        }
        assert forall|i: int| 0 <= i < values.len() implies sol::in_range(#[trigger] values[i]) by {
            assert(at(i) == Ok::<SolValueView, ArgErrorOf<Seq<char>>>(values[i]));
        }
    }
}

/// An unsigned integer is the same argument whether it is written as a number or as a text, with
/// or without white space around it.
pub proof fn numbers_and_texts_agree(n: nat, number: String, digits: String)
    requires
        n < words::word_limit(),
        number@ == text::decimal(n),
        text::trimmed(digits@) == text::decimal(n),
    ensures
        uint_argument(YamlValue::Number(number)) == Ok::<Seq<u8>, ArgFaultOf<Seq<char>>>(
            words::be_bytes(n, 32),
        ),
        uint_argument(YamlValue::String(digits)) == Ok::<Seq<u8>, ArgFaultOf<Seq<char>>>(
            words::be_bytes(n, 32),
        ),
{
    words::unsigned_words_read_back(n);
    text::decimal_is_digits(n);
    reveal_strlit("0x");
    reveal_strlit("0X");
    let t = text::decimal(n);
    assert(!has_0x(t)) by {
        if text::begins_with(t, "0x"@) {
            assert(t.take(2)[1] == t[1]);
        }
        if text::begins_with(t, "0X"@) {
            assert(t.take(2)[1] == t[1]);
        }
    }
}

/// A number is an argument of an unsigned integer type exactly if it is one of the type's width.
pub proof fn unsigned_arguments_fit_their_width(
    n: nat,
    ty: sol::ParamTypeView,
    bits: usize,
    number: String,
)
    requires
        n < words::word_limit(),
        ty.kind == SolType::Uint(bits),
        number@ == text::decimal(n),
    ensures
        argument(ty, YamlValue::Number(number)) == (if n < vstd::arithmetic::power2::pow2(
            bits as nat,
        ) {
            Ok::<SolValueView, ArgFaultOf<Seq<char>>>(
                SolValueView::Uint(words::be_bytes(n, 32), bits),
            )
        } else {
            Err(ArgFaultOf::UintRange { value: text::decimal(n), bits })
        }),
{
    words::unsigned_words_read_back(n);
    words::words_denote(n);
}

/// A number is an argument of a signed integer type exactly if it is one of the type's width; the
/// argument is its word in two's complement.
pub proof fn signed_arguments_fit_their_width(
    v: int,
    ty: sol::ParamTypeView,
    bits: usize,
    number: String,
)
    requires
        -words::sign_limit() <= v < words::sign_limit(),
        ty.kind == SolType::Int(bits),
        number@ == words::integer_text(v),
    ensures
        argument(ty, YamlValue::Number(number)) == (if bits > 0
            && -vstd::arithmetic::power2::pow2((bits - 1) as nat) <= v
            < vstd::arithmetic::power2::pow2((bits - 1) as nat) {
            Ok::<SolValueView, ArgFaultOf<Seq<char>>>(
                SolValueView::Int(words::be_bytes(words::complement(v), 32), bits),
            )
        } else {
            Err(ArgFaultOf::IntRange { value: words::integer_text(v), bits })
        }),
{
    words::signed_words_read_back(v);
    words::words_denote(words::complement(v));
}

proof fn lemma_value_at(inputs: Seq<sol::ParamView>, args: Seq<YamlValue>, i: int)
    requires
        argument_at(inputs, args, i) is Ok,
    ensures
        sol::param_type(inputs[i]) is Ok,
        argument(sol::param_type(inputs[i])->Ok_0, args[i]) == Ok::<
            SolValueView,
            ArgFaultOf<Seq<char>>,
        >(argument_at(inputs, args, i)->Ok_0),
{
}

/// Arguments are converted one by one: the value at every place is the one that the argument at
/// that place gives for the type of the parameter there.
pub proof fn values_come_from_their_own_arguments(
    f: sol::FunctionView,
    args: Seq<YamlValue>,
    values: Seq<SolValueView>,
    i: int,
)
    requires
        converted(f, args) == Ok::<Seq<SolValueView>, ArgErrorOf<Seq<char>>>(values),
    ensures
        values.len() == f.inputs.len(),
        values.len() == args.len(),
        0 <= i < values.len() ==> sol::param_type(f.inputs[i]) is Ok && argument(
            sol::param_type(f.inputs[i])->Ok_0,
            args[i],
        ) == Ok::<SolValueView, ArgFaultOf<Seq<char>>>(values[i]),
{
    let at = |i: int| argument_at(f.inputs, args, i);
    outcome::lemma_gathered(f.inputs.len(), at);
    if 0 <= i < values.len() {
        assert(at(i) == Ok::<SolValueView, ArgErrorOf<Seq<char>>>(values[i]));
        lemma_value_at(f.inputs, args, i);
    }
}

/// What an argument becomes does not depend on the other arguments.
pub proof fn other_arguments_do_not_matter(
    f: sol::FunctionView,
    args: Seq<YamlValue>,
    others: Seq<YamlValue>,
    i: int,
)
    requires
        converted(f, args) is Ok,
        converted(f, others) is Ok,
        0 <= i < args.len(),
        args[i] == others[i],
    ensures
        converted(f, args)->Ok_0[i] == converted(f, others)->Ok_0[i],
{
    values_come_from_their_own_arguments(f, args, converted(f, args)->Ok_0, i);
    values_come_from_their_own_arguments(f, others, converted(f, others)->Ok_0, i);
}

/// The conversion fails for the number of arguments, or for the first of them whose parameter's type
/// is not known or that does not have it, and for nothing else.
pub proof fn conversion_fails_at_the_first_fault(f: sol::FunctionView, args: Seq<YamlValue>)
    requires
        f.inputs.len() <= usize::MAX,
        args.len() <= usize::MAX,
    ensures
        args.len() != f.inputs.len() ==> converted(f, args) == Err::<
            Seq<SolValueView>,
            ArgErrorOf<Seq<char>>,
        >(
            ArgErrorOf::Count {
                function: f.name,
                expected: f.inputs.len() as usize,
                got: args.len() as usize,
            },
        ),
        args.len() == f.inputs.len() && (forall|i: int|
            0 <= i < args.len() ==> (#[trigger] sol::param_type(f.inputs[i])) is Ok && argument(
                sol::param_type(f.inputs[i])->Ok_0,
                args[i],
            ) is Ok) ==> converted(f, args) is Ok,
        converted(f, args) matches Err(e) ==> match e {
            ArgErrorOf::Count { .. } => args.len() != f.inputs.len(),
            ArgErrorOf::Type { index, ty, reason } => index < args.len() && ty
                == f.inputs[index as int].ty && sol::param_type(f.inputs[index as int]) == Err::<
                sol::ParamTypeView,
                Seq<char>,
            >(reason),
            ArgErrorOf::Argument { index, ty, fault } => index < args.len() && ty
                == f.inputs[index as int].ty && sol::param_type(f.inputs[index as int]) is Ok
                && argument(sol::param_type(f.inputs[index as int])->Ok_0, args[index as int])
                == Err::<SolValueView, ArgFaultOf<Seq<char>>>(fault),
        },
        converted(f, args) matches Err(e) ==> forall|j: int|
            0 <= j < (match e {
                ArgErrorOf::Count { .. } => 0int,
                ArgErrorOf::Type { index, .. } => index as int,
                ArgErrorOf::Argument { index, .. } => index as int,
            }) ==> (#[trigger] sol::param_type(f.inputs[j])) is Ok && argument(
                sol::param_type(f.inputs[j])->Ok_0,
                args[j],
            ) is Ok,
{
    let at = |i: int| argument_at(f.inputs, args, i);
    if args.len() == f.inputs.len() {
        outcome::lemma_gathered(f.inputs.len(), at);
        if forall|i: int|
            0 <= i < args.len() ==> (#[trigger] sol::param_type(f.inputs[i])) is Ok && argument(
                sol::param_type(f.inputs[i])->Ok_0,
                args[i],
            ) is Ok {
            assert forall|i: int| 0 <= i < f.inputs.len() implies (#[trigger] at(i)) is Ok by {
                assert(sol::param_type(f.inputs[i]) is Ok);
            }
        }
        if converted(f, args) is Err {
            let i = outcome::lemma_gathered_failure_at(f.inputs.len(), at);
            assert(at(i) is Err);
            assert forall|j: int| 0 <= j < i implies (#[trigger] sol::param_type(f.inputs[j])) is Ok
                && argument(sol::param_type(f.inputs[j])->Ok_0, args[j]) is Ok by {
                assert(at(j) is Ok);
            }
        }
    }
}

/// For an address parameter a text is the address whose 20 bytes its hexadecimal digits are, and
/// only such a text is one. So the text of an address is that address.
pub proof fn address_arguments_are_addresses(ty: sol::ParamTypeView, s: String, a: Seq<u8>)
    requires
        ty.kind == SolType::Address,
    ensures
        s@ == text::hex_text(a) && a.len() == 20 ==> argument(ty, YamlValue::String(s)) == Ok::<SolValueView, ArgFaultOf<Seq<char>>>(
            SolValueView::Address(a),
        ),
        argument(ty, YamlValue::String(s)) == Ok::<SolValueView, ArgFaultOf<Seq<char>>>(SolValueView::Address(a))
            <==> words::address_bytes(s@) == Some(a),
        words::address_bytes(s@) is None ==> argument(ty, YamlValue::String(s)) == Err::<SolValueView, ArgFaultOf<Seq<char>>>(
            ArgFaultOf::Address { value: s@, reason: words::address_refusal(s@) },
        ),
{
    words::hex_reads_back(a);
}

/// A truth value is itself for a boolean parameter, and nothing else is one.
pub proof fn only_truth_values_are_booleans(ty: sol::ParamTypeView, v: YamlValue)
    requires
        ty.kind == SolType::Bool,
    ensures
        v == YamlValue::Bool(true) ==> argument(ty, v) == Ok::<SolValueView, ArgFaultOf<Seq<char>>>(SolValueView::Bool(true)),
        v == YamlValue::Bool(false) ==> argument(ty, v) == Ok::<SolValueView, ArgFaultOf<Seq<char>>>(SolValueView::Bool(false)),
        !(v is Bool) ==> argument(ty, v) == Err::<SolValueView, ArgFaultOf<Seq<char>>>(
            ArgFaultOf::NotABool { value: yaml::value_form(v@) },
        ),
{
}

/// For a text parameter a text is itself, a number its text and a truth value its word.
pub proof fn texts_are_taken_as_they_are(ty: sol::ParamTypeView, s: String)
    requires
        ty.kind == SolType::String,
    ensures
        argument(ty, YamlValue::String(s)) == Ok::<SolValueView, ArgFaultOf<Seq<char>>>(SolValueView::String(s@)),
        argument(ty, YamlValue::Number(s)) == Ok::<SolValueView, ArgFaultOf<Seq<char>>>(SolValueView::String(s@)),
        argument(ty, YamlValue::Bool(true)) == Ok::<SolValueView, ArgFaultOf<Seq<char>>>(SolValueView::String("true"@)),
        argument(ty, YamlValue::Bool(false)) == Ok::<SolValueView, ArgFaultOf<Seq<char>>>(SolValueView::String("false"@)),
{
}

/// Whether a text is the hexadecimal digits of bytes, with or without `0x` or `0X` before them and
/// with or without white space around.
pub open spec fn writes(s: Seq<char>, b: Seq<u8>) -> bool {
    let t = text::trimmed(s);
    t == "0x"@ + text::lower_hex(b) || t == "0X"@ + text::lower_hex(b) || t == text::lower_hex(b)
}

proof fn lemma_written(s: Seq<char>, b: Seq<u8>)
    requires
        writes(s, b),
    ensures
        without_0x(text::trimmed(s)) == text::lower_hex(b),
        words::hex_bytes(text::lower_hex(b)) == Some(b),
        text::trimmed(s) != text::lower_hex(b) ==> has_0x(text::trimmed(s)),
{
    reveal_strlit("0x");
    reveal_strlit("0X");
    let t = text::trimmed(s);
    text::lower_hex_is_digits(b);
    words::lower_hex_reads_back(b);
    if t == "0x"@ + text::lower_hex(b) {
        assert(t.take(2) =~= "0x"@);
        assert(t.skip(2) =~= text::lower_hex(b));
    } else if t == "0X"@ + text::lower_hex(b) {
        assert(t.take(2) =~= "0X"@);
        assert(t.skip(2) =~= text::lower_hex(b));
    } else if t.len() >= 2 {
        assert('0' <= t[1] <= '9' || 'a' <= t[1] <= 'f');
        assert(t.take(2)[1] == t[1]);
    }
}

/// The hexadecimal text of bytes is a text of these bytes.
pub proof fn hexadecimal_texts_are_written(b: Seq<u8>)
    ensures
        writes(text::hex_text(b), b),
{
    reveal_strlit("0x");
    let s = text::hex_text(b);
    text::lower_hex_is_digits(b);
    assert(s.first() == '0');
    assert(!text::is_white_space(s.last())) by {
        if b.len() > 0 {
            assert(s.last() == text::lower_hex(b)[2 * b.len() - 1]);
        }
    }
}

/// For a byte string parameter the hexadecimal digits of bytes are those bytes; for one of a fixed
/// width they stand at the beginning of the word, before zeros, and must be as many.
pub proof fn byte_strings_are_their_bytes(ty: sol::ParamTypeView, s: String, b: Seq<u8>, n: usize)
    requires
        writes(s@, b),
        b.len() <= usize::MAX,
    ensures
        ty.kind == SolType::Bytes ==> argument(ty, YamlValue::String(s)) == Ok::<SolValueView, ArgFaultOf<Seq<char>>>(
            SolValueView::Bytes(b),
        ),
        ty.kind == SolType::FixedBytes(n) && n <= 32 && b.len() == n ==> ({
            &&& argument(ty, YamlValue::String(s)) matches Ok(SolValueView::FixedBytes(word, width))
            &&& width == n
            &&& word.len() == 32
            &&& word.take(n as int) == b
            &&& forall|i: int| n <= i < 32 ==> #[trigger] word[i] == 0
        }),
        ty.kind == SolType::FixedBytes(n) && b.len() != n ==> argument(ty, YamlValue::String(s))
            == Err::<SolValueView, ArgFaultOf<Seq<char>>>(ArgFaultOf::Width { expected: n, got: b.len() as usize }),
{
    lemma_written(s@, b);
    assert(padded(b).take(b.len() as int) =~= b);
}

/// Sequences, mappings, tags and the null value are no argument of any type.
pub proof fn only_scalars_are_arguments(ty: sol::ParamTypeView, v: YamlValue)
    requires
        !(v is Bool || v is Number || v is String),
    ensures
        argument(ty, v) is Err,
{
}

/// Arguments of functions, arrays and tuples cannot be written; the message shows the whole type.
pub proof fn compound_types_are_refused(ty: sol::ParamTypeView, v: YamlValue)
    requires
        ty.kind is Function || ty.kind is Array || ty.kind is FixedArray || ty.kind is Tuple,
    ensures
        argument(ty, v) == Err::<SolValueView, ArgFaultOf<Seq<char>>>(ArgFaultOf::Unsupported { ty: ty.form }),
{
}

/// For an integer parameter a text is the number that it is without the white space around it.
pub proof fn integer_texts_are_numbers(ty: sol::ParamTypeView, n: nat, v: int, number: String, digits: String)
    requires
        text::trimmed(digits@) == number@,
    ensures
        ty.kind is Uint && n < words::word_limit() && number@ == text::decimal(n) ==> argument(
            ty,
            YamlValue::String(digits),
        ) == argument(ty, YamlValue::Number(number)),
        ty.kind is Int && -words::sign_limit() <= v < words::sign_limit() && number@
            == words::integer_text(v) ==> argument(ty, YamlValue::String(digits)) == argument(
            ty,
            YamlValue::Number(number),
        ),
{
    if n < words::word_limit() && number@ == text::decimal(n) {
        numbers_and_texts_agree(n, number, digits);
    }
    if -words::sign_limit() <= v < words::sign_limit() && number@ == words::integer_text(v) {
        words::signed_words_read_back(v);
    }
}

/// For an unsigned integer parameter a text after `0x` or `0X` is the number of its hexadecimal
/// digits.
pub proof fn hexadecimal_texts_are_numbers(
    ty: sol::ParamTypeView,
    bits: usize,
    b: Seq<u8>,
    s: String,
)
    requires
        ty.kind == SolType::Uint(bits),
        writes(s@, b),
        text::trimmed(s@) != text::lower_hex(b),
        words::be_nat(b) < vstd::arithmetic::power2::pow2(bits as nat),
        words::be_nat(b) < words::word_limit(),
    ensures
        argument(ty, YamlValue::String(s)) == Ok::<SolValueView, ArgFaultOf<Seq<char>>>(
            SolValueView::Uint(words::be_bytes(words::be_nat(b), 32), bits),
        ),
{
    lemma_written(s@, b);
    words::hexadecimal_reads_back(b);
    words::words_denote(words::be_nat(b));
}

} // verus!
