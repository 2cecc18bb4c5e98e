//! Contract interfaces: the functions of a contract, the types of their parameters, and the
//! encoding of calls and return values.

use alloy_dyn_abi::{DynSolType, DynSolValue, FunctionExt, JsonAbiExt, Specifier};
use alloy_json_abi::StateMutability as Mutability;
use alloy_primitives::{Address, FixedBytes, I256, U256};
use vstd::prelude::*;

verus! {

/// How a function may touch the chain's state.
#[derive(Debug, Clone, Copy, PartialEq, Eq, Structural)]
pub enum StateMutability {
    Pure,
    View,
    NonPayable,
    Payable,
}

/// A parameter of a function: its name, its type as the interface writes it, and the components
/// of that type if it is a tuple or an array of tuples.
#[derive(Debug)]
pub struct AbiParam {
    pub name: String,
    pub ty: String,
    pub components: Vec<AbiParam>,
}

/// What an [`AbiParam`] says.
#[verifier::ext_equal]
pub struct ParamView {
    pub name: Seq<char>,
    pub ty: Seq<char>,
    pub components: Seq<ParamView>,
}

/// What a parameter says, its components included.
pub open spec fn param_view(p: AbiParam) -> ParamView
    decreases p,
{
    ParamView {
        name: p.name@,
        ty: p.ty@,
        components: Seq::new(
            p.components@.len(),
            |i: int|
                if 0 <= i < p.components@.len() {
                    param_view(p.components@[i])
                } else {
                    arbitrary()
                },
        ),
    }
}

impl View for AbiParam {
    type V = ParamView;

    open spec fn view(&self) -> ParamView {
        param_view(*self)
    }
}

/// What a list of parameters says.
pub open spec fn params_view(ps: Seq<AbiParam>) -> Seq<ParamView> {
    Seq::new(ps.len(), |i: int| ps[i]@)
}

impl AbiParam {
    /// A second copy of the parameter.
    pub fn duplicate(&self) -> (r: AbiParam)
        ensures
            r@ == self@,
        decreases self,
    {
        let mut components: Vec<AbiParam> = Vec::new();
        let n: usize = self.components.len();
        let mut i: usize = 0;
        while i < n
            invariant
                n == self.components@.len(),
                i <= n,
                components@.len() == i,
                forall|j: int| 0 <= j < i ==> (#[trigger] components@[j])@ == self.components@[j]@,
            decreases n - i,
        {
            let c = self.components[i].duplicate();
            components.push(c);
            i = i + 1;
        }
        let r = AbiParam { name: self.name.clone(), ty: self.ty.clone(), components };
        proof {
            assert(r@.components =~= self@.components) by {
                assert forall|j: int| 0 <= j < n implies r@.components[j]
                    == self@.components[j] by {
                    assert(components@[j]@ == self.components@[j]@);
                }
            }
        }
        r
    }
}

/// A copy of a list of parameters.
pub fn duplicate_params(ps: &Vec<AbiParam>) -> (r: Vec<AbiParam>)
    ensures
        params_view(r@) == params_view(ps@),
{
    let mut out: Vec<AbiParam> = Vec::new();
    for i in 0..ps.len()
        invariant
            out@.len() == i,
            forall|j: int| 0 <= j < i ==> (#[trigger] out@[j])@ == ps@[j]@,
    {
        let p = ps[i].duplicate();
        out.push(p);
    }
    assert(params_view(out@) =~= params_view(ps@));
    out
}

/// A function of a contract interface.
#[derive(Debug)]
pub struct AbiFunction {
    pub name: String,
    pub inputs: Vec<AbiParam>,
    pub outputs: Vec<AbiParam>,
    pub state_mutability: StateMutability,
}

/// What an [`AbiFunction`] says.
#[verifier::ext_equal]
pub struct FunctionView {
    pub name: Seq<char>,
    pub inputs: Seq<ParamView>,
    pub outputs: Seq<ParamView>,
    pub state_mutability: StateMutability,
}

impl View for AbiFunction {
    type V = FunctionView;

    open spec fn view(&self) -> FunctionView {
        FunctionView {
            name: self.name@,
            inputs: params_view(self.inputs@),
            outputs: params_view(self.outputs@),
            state_mutability: self.state_mutability,
        }
    }
}

impl AbiFunction {
    /// A second copy of the function.
    pub fn duplicate(&self) -> (r: AbiFunction)
        ensures
            r@ == self@,
    {
        AbiFunction {
            name: self.name.clone(),
            inputs: duplicate_params(&self.inputs),
            outputs: duplicate_params(&self.outputs),
            state_mutability: self.state_mutability,
        }
    }
}

/// A contract interface: its functions, those of one name next to each other in the order in
/// which the interface lists them.
#[derive(Debug)]
pub struct JsonAbi {
    pub functions: Vec<AbiFunction>,
}

/// What a list of functions says.
pub open spec fn functions_view(fs: Seq<AbiFunction>) -> Seq<FunctionView> {
    Seq::new(fs.len(), |i: int| fs[i]@)
}

impl View for JsonAbi {
    type V = Seq<FunctionView>;

    open spec fn view(&self) -> Seq<FunctionView> {
        functions_view(self.functions@)
    }
}

/// A parameter's type, as far as the exporter tells types apart. The numbers are widths: bits of
/// an integer, bytes of a byte string.
#[derive(Debug, Clone, Copy, PartialEq, Eq, Structural)]
pub enum SolType {
    Address,
    Bool,
    Uint(usize),
    Int(usize),
    FixedBytes(usize),
    String,
    Bytes,
    Function,
    Array,
    FixedArray,
    Tuple,
}

/// An argument of a call. A word is big-endian; a byte string shorter than a word stands at its
/// beginning. The numbers are the widths of [`SolType`].
#[derive(Debug)]
pub enum SolValue {
    Address([u8; 20]),
    Bool(bool),
    Uint([u8; 32], usize),
    Int([u8; 32], usize),
    FixedBytes([u8; 32], usize),
    String(String),
    Bytes(Vec<u8>),
}

/// What a [`SolValue`] says.
#[verifier::ext_equal]
pub enum SolValueView {
    Address(Seq<u8>),
    Bool(bool),
    Uint(Seq<u8>, usize),
    Int(Seq<u8>, usize),
    FixedBytes(Seq<u8>, usize),
    String(Seq<char>),
    Bytes(Seq<u8>),
}

impl View for SolValue {
    type V = SolValueView;

    open spec fn view(&self) -> SolValueView {
        match *self {
            SolValue::Address(a) => SolValueView::Address(a@),
            SolValue::Bool(b) => SolValueView::Bool(b),
            SolValue::Uint(w, n) => SolValueView::Uint(w@, n),
            SolValue::Int(w, n) => SolValueView::Int(w@, n),
            SolValue::FixedBytes(w, n) => SolValueView::FixedBytes(w@, n),
            SolValue::String(s) => SolValueView::String(s@),
            SolValue::Bytes(b) => SolValueView::Bytes(b@),
        }
    }
}

/// What a list of arguments says.
pub open spec fn values_view(vs: Seq<SolValue>) -> Seq<SolValueView> {
    Seq::new(vs.len(), |i: int| vs[i]@)
}

/// Whether an argument has the given type.
pub open spec fn has_type(v: SolValueView, ty: SolType) -> bool {
    match (v, ty) {
        (SolValueView::Address(_), SolType::Address) => true,
        (SolValueView::Bool(_), SolType::Bool) => true,
        (SolValueView::Uint(_, n), SolType::Uint(bits)) => n == bits,
        (SolValueView::Int(_, n), SolType::Int(bits)) => n == bits,
        (SolValueView::FixedBytes(_, n), SolType::FixedBytes(width)) => n == width,
        (SolValueView::String(_), SolType::String) => true,
        (SolValueView::Bytes(_), SolType::Bytes) => true,
        _ => false,
    }
}

/// A value that a function returned.
#[derive(Debug)]
pub enum Shape {
    Bool(bool),
    Int([u8; 32]),
    Uint([u8; 32]),
    FixedBytes,
    Address,
    Function,
    Bytes,
    String,
    Array,
    FixedArray,
    Tuple(Vec<Decoded>),
}

/// A value that a function returned, with the text by which messages show it.
#[derive(Debug)]
pub struct Decoded {
    pub shape: Shape,
    pub form: String,
}

/// What a [`Shape`] says.
#[verifier::ext_equal]
pub enum ShapeView {
    Bool(bool),
    Int(Seq<u8>),
    Uint(Seq<u8>),
    FixedBytes,
    Address,
    Function,
    Bytes,
    String,
    Array,
    FixedArray,
    Tuple(Seq<DecodedView>),
}

/// What a [`Decoded`] value says.
#[verifier::ext_equal]
pub struct DecodedView {
    pub shape: ShapeView,
    pub form: Seq<char>,
}

/// What a returned value says, the fields of a tuple included.
pub open spec fn decoded_view(d: Decoded) -> DecodedView
    decreases d,
{
    DecodedView {
        shape: match d.shape {
            Shape::Bool(b) => ShapeView::Bool(b),
            Shape::Int(w) => ShapeView::Int(w@),
            Shape::Uint(w) => ShapeView::Uint(w@),
            Shape::FixedBytes => ShapeView::FixedBytes,
            Shape::Address => ShapeView::Address,
            Shape::Function => ShapeView::Function,
            Shape::Bytes => ShapeView::Bytes,
            Shape::String => ShapeView::String,
            Shape::Array => ShapeView::Array,
            Shape::FixedArray => ShapeView::FixedArray,
            Shape::Tuple(fields) => ShapeView::Tuple(
                Seq::new(
                    fields@.len(),
                    |i: int|
                        if 0 <= i < fields@.len() {
                            decoded_view(fields@[i])
                        } else {
                            arbitrary()
                        },
                ),
            ),
        },
        form: d.form@,
    }
}

impl View for Decoded {
    type V = DecodedView;

    open spec fn view(&self) -> DecodedView {
        decoded_view(*self)
    }
}

/// What a list of returned values says.
pub open spec fn decoded_list_view(ds: Seq<Decoded>) -> Seq<DecodedView> {
    Seq::new(ds.len(), |i: int| ds[i]@)
}

/// `alloy_json_abi::Param`, carried from the interface's text and to the type resolution.
#[verifier::external_type_specification]
#[verifier::external_body]
pub struct ExAbiParam(alloy_json_abi::Param);

/// `alloy_dyn_abi::DynSolValue`, carried to the encoder and from the decoder.
#[verifier::external_type_specification]
#[verifier::external_body]
pub struct ExDynSolValue(DynSolValue);

/// Takes over an `alloy_json_abi::Param`, field by field. Nothing is claimed of it.
#[verifier::external_body]
fn param_in(p: &alloy_json_abi::Param) -> AbiParam {
    AbiParam {
        name: p.name.clone(),
        ty: p.ty.clone(),
        components: p.components.iter().map(param_in).collect(),
    }
}

/// Hands a parameter out as an `alloy_json_abi::Param`, field by field. Nothing is claimed of it.
#[verifier::external_body]
fn param_out(p: &AbiParam) -> alloy_json_abi::Param {
    alloy_json_abi::Param {
        name: p.name.clone(),
        ty: p.ty.clone(),
        components: p.components.iter().map(param_out).collect(),
        internal_type: None,
    }
}

/// Hands an argument out as an `alloy_dyn_abi::DynSolValue` of the same variant. Nothing is
/// claimed of it.
#[verifier::external_body]
fn value_out(v: &SolValue) -> DynSolValue {
    match v {
        SolValue::Address(a) => DynSolValue::Address(Address::from(*a)),
        SolValue::Bool(b) => DynSolValue::Bool(*b),
        SolValue::Uint(w, n) => DynSolValue::Uint(U256::from_be_bytes::<32>(*w), *n),
        SolValue::Int(w, n) => DynSolValue::Int(I256::from_be_bytes::<32>(*w), *n),
        SolValue::FixedBytes(w, n) => DynSolValue::FixedBytes(FixedBytes::<32>::from(*w), *n),
        SolValue::String(s) => DynSolValue::String(s.clone()),
        SolValue::Bytes(b) => DynSolValue::Bytes(b.clone()),
    }
}

/// Takes over an `alloy_dyn_abi::DynSolValue`: its variant, an integer's word and a tuple's
/// fields, with its `Debug` text. Nothing is claimed of it.
#[verifier::external_body]
fn decoded_in(v: &DynSolValue) -> Decoded {
    let shape = match v {
        DynSolValue::Bool(b) => Shape::Bool(*b),
        DynSolValue::Int(i, _) => Shape::Int(i.to_be_bytes::<32>()),
        DynSolValue::Uint(u, _) => Shape::Uint(u.to_be_bytes::<32>()),
        DynSolValue::FixedBytes(..) => Shape::FixedBytes,
        DynSolValue::Address(_) => Shape::Address,
        DynSolValue::Function(_) => Shape::Function,
        DynSolValue::Bytes(_) => Shape::Bytes,
        DynSolValue::String(_) => Shape::String,
        DynSolValue::Array(_) => Shape::Array,
        DynSolValue::FixedArray(_) => Shape::FixedArray,
        DynSolValue::Tuple(fields) => Shape::Tuple(fields.iter().map(decoded_in).collect()),
    };
    Decoded { shape, form: format!("{v:?}") }
}

/// What `serde_json::from_str` reads as an `alloy_json_abi::JsonAbi`: the functions in the order
/// of `JsonAbi::functions`, or the message of its error.
pub uninterp spec fn json_functions(raw: Seq<char>) -> Result<Seq<FunctionView>, Seq<char>>;

/// `serde_json::from_str::<alloy_json_abi::JsonAbi>`, and the functions of the interface in the
/// order of `alloy_json_abi::JsonAbi::functions`. The outcome is named and depends on the text
/// alone.
#[verifier::external_body]
fn read_functions(raw: &str) -> (r: Result<Vec<AbiFunction>, String>)
    ensures
        match r {
            Ok(fs) => json_functions(raw@) == Ok::<Seq<FunctionView>, Seq<char>>(
                functions_view(fs@),
            ),
            Err(e) => json_functions(raw@) == Err::<Seq<FunctionView>, Seq<char>>(e@),
        },
{
    let abi = serde_json::from_str::<alloy_json_abi::JsonAbi>(raw).map_err(|e| e.to_string())?;
    let functions = abi.functions().map(|f| AbiFunction {
        name: f.name.clone(),
        inputs: f.inputs.iter().map(param_in).collect(),
        outputs: f.outputs.iter().map(param_in).collect(),
        state_mutability: match f.state_mutability {
            Mutability::Pure => StateMutability::Pure,
            Mutability::View => StateMutability::View,
            Mutability::NonPayable => StateMutability::NonPayable,
            Mutability::Payable => StateMutability::Payable,
        },
    });
    Ok(functions.collect())
}

/// Reads a contract interface from its JSON text.
pub fn parse_abi(raw: &str) -> (r: Result<JsonAbi, String>)
    ensures
        match r {
            Ok(abi) => json_functions(raw@) == Ok::<Seq<FunctionView>, Seq<char>>(abi@),
            Err(e) => json_functions(raw@) == Err::<Seq<FunctionView>, Seq<char>>(e@),
        },
{
    match read_functions(raw) {
        Ok(functions) => Ok(JsonAbi { functions }),
        Err(e) => Err(e),
    }
}

/// The type of a parameter, and the type in full as a text for people.
#[derive(Debug)]
pub struct ParamType {
    pub kind: SolType,
    pub form: String,
}

/// What a [`ParamType`] says.
#[verifier::ext_equal]
pub struct ParamTypeView {
    pub kind: SolType,
    pub form: Seq<char>,
}

impl View for ParamType {
    type V = ParamTypeView;

    open spec fn view(&self) -> ParamTypeView {
        ParamTypeView { kind: self.kind, form: self.form@ }
    }
}

/// The type that `alloy_dyn_abi::Specifier::resolve` gives a parameter, with its `Debug` form, or
/// the message of its error.
pub uninterp spec fn param_type(p: ParamView) -> Result<ParamTypeView, Seq<char>>;

/// `<alloy_json_abi::Param as alloy_dyn_abi::Specifier>::resolve`. The outcome is named and
/// depends on the parameter alone; a byte string type is 1 to 32 bytes wide.
#[verifier::external_body]
pub(crate) fn resolve_type(p: &AbiParam) -> (r: Result<ParamType, String>)
    ensures
        match r {
            Ok(ty) => param_type(p@) == Ok::<ParamTypeView, Seq<char>>(ty@),
            Err(e) => param_type(p@) == Err::<ParamTypeView, Seq<char>>(e@),
        },
        r matches Ok(ty) ==> (ty.kind matches SolType::FixedBytes(n) ==> 1 <= n <= 32),
{
    let ty = param_out(p).resolve().map_err(|e: alloy_dyn_abi::Error| e.to_string())?;
    Ok(ParamType { form: format!("{ty:?}"), kind: match ty {
        DynSolType::Address => SolType::Address,
        DynSolType::Bool => SolType::Bool,
        DynSolType::Uint(n) => SolType::Uint(n),
        DynSolType::Int(n) => SolType::Int(n),
        DynSolType::FixedBytes(n) => SolType::FixedBytes(n),
        DynSolType::String => SolType::String,
        DynSolType::Bytes => SolType::Bytes,
        DynSolType::Function => SolType::Function,
        DynSolType::Array(_) => SolType::Array,
        DynSolType::FixedArray(..) => SolType::FixedArray,
        DynSolType::Tuple(_) => SolType::Tuple,
    } })
}

/// Whether the arguments are as many as the parameters and each has its parameter's type.
pub open spec fn fits_parameters(params: Seq<ParamView>, values: Seq<SolValueView>) -> bool {
    &&& params.len() == values.len()
    &&& forall|i: int|
        0 <= i < params.len() ==> (match #[trigger] param_type(params[i]) {
            Ok(ty) => has_type(values[i], ty.kind),
            Err(_) => false,
        })
}

/// Whether an integer lies in the range of its width; every other value does.
pub open spec fn in_range(value: SolValueView) -> bool {
    match value {
        SolValueView::Uint(word, bits) => crate::words::fits_unsigned(word, bits as nat),
        SolValueView::Int(word, bits) => crate::words::fits_signed(word, bits as nat),
        _ => true,
    }
}

/// The call data that `alloy_dyn_abi::JsonAbiExt::abi_encode_input` makes for a function of the
/// given name and parameters and its arguments, or the message of its error.
pub uninterp spec fn encoded_call(
    name: Seq<char>,
    inputs: Seq<ParamView>,
    values: Seq<SolValueView>,
) -> Result<Seq<u8>, Seq<char>>;

/// The call data of a function and its arguments if they fit its inputs, else the message of the
/// encoder.
pub open spec fn packed(f: FunctionView, values: Seq<SolValueView>) -> Result<
    Seq<u8>,
    Seq<char>,
> {
    if fits_parameters(f.inputs, values) {
        Ok(encoded_call(f.name, f.inputs, values)->Ok_0)
    } else {
        Err(encoded_call(f.name, f.inputs, values)->Err_0)
    }
}

/// `<alloy_json_abi::Function as alloy_dyn_abi::JsonAbiExt>::abi_encode_input`. The outcome is
/// named and depends on the function's name, its inputs and the arguments alone. The arguments
/// are encoded exactly if they fit the inputs; four bytes of selector come first.
#[verifier::external_body]
pub(crate) fn encode_input(f: &AbiFunction, values: &Vec<SolValue>) -> (r: Result<Vec<u8>, String>)
    ensures
        match r {
            Ok(data) => encoded_call(f@.name, f@.inputs, values_view(values@)) == Ok::<
                Seq<u8>,
                Seq<char>,
            >(data@),
            Err(e) => encoded_call(f@.name, f@.inputs, values_view(values@)) == Err::<
                Seq<u8>,
                Seq<char>,
            >(e@),
        },
        r is Ok <==> fits_parameters(f@.inputs, values_view(values@)),
        r matches Ok(data) ==> data@.len() >= 4,
{
    let converted: Vec<DynSolValue> = values.iter().map(value_out).collect();
    let inputs = f.inputs.iter().map(param_out).collect();
    let (name, outputs, state_mutability) = (f.name.clone(), Vec::new(), Mutability::View);
    let function = alloy_json_abi::Function { name, inputs, outputs, state_mutability };
    function.abi_encode_input(&converted).map_err(|e| e.to_string())
}

/// The values that `alloy_dyn_abi::FunctionExt::abi_decode_output` reads from the return data of
/// a function with the given outputs, or the message of its error.
pub uninterp spec fn decoded_return(
    outputs: Seq<ParamView>,
    data: Seq<u8>,
) -> Result<Seq<DecodedView>, Seq<char>>;

/// `<alloy_json_abi::Function as alloy_dyn_abi::FunctionExt>::abi_decode_output`. The outcome is
/// named and depends on the function's outputs and the data alone; there is one value per
/// output.
#[verifier::external_body]
pub(crate) fn decode_output(f: &AbiFunction, data: &[u8]) -> (r: Result<Vec<Decoded>, String>)
    ensures
        match r {
            Ok(vs) => decoded_return(f@.outputs, data@) == Ok::<Seq<DecodedView>, Seq<char>>(
                decoded_list_view(vs@),
            ),
            Err(e) => decoded_return(f@.outputs, data@) == Err::<Seq<DecodedView>, Seq<char>>(e@),
        },
        r matches Ok(vs) ==> vs@.len() == f.outputs@.len(),
{
    let outputs = f.outputs.iter().map(param_out).collect();
    let (name, inputs, state_mutability) = (f.name.clone(), Vec::new(), Mutability::View);
    let function = alloy_json_abi::Function { name, inputs, outputs, state_mutability };
    match function.abi_decode_output(data) {
        Ok(values) => Ok(values.iter().map(decoded_in).collect()),
        Err(e) => Err(e.to_string()),
    }
}

/// A function says its name, its inputs and outputs, each in its place, and how it touches the
/// state; a parameter says its name, its type and its components.
pub proof fn interfaces_say_what_they_hold(f: AbiFunction, i: int, k: int)
    ensures
        f@.name == f.name@,
        f@.state_mutability == f.state_mutability,
        f@.inputs.len() == f.inputs@.len(),
        f@.outputs.len() == f.outputs@.len(),
        0 <= i < f.inputs@.len() ==> f@.inputs[i].name == f.inputs@[i].name@ && f@.inputs[i].ty
            == f.inputs@[i].ty@,
        0 <= i < f.outputs@.len() ==> f@.outputs[i].name == f.outputs@[i].name@ && f@.outputs[i].ty
            == f.outputs@[i].ty@ && f@.outputs[i].components.len()
            == f.outputs@[i].components@.len(),
        0 <= i < f.outputs@.len() && 0 <= k < f.outputs@[i].components@.len()
            ==> f@.outputs[i].components[k] == f.outputs@[i].components@[k]@,
{
}

/// Arguments say what they hold, each in its place.
pub proof fn arguments_say_what_they_hold(values: Seq<SolValue>, i: int)
    requires
        0 <= i < values.len(),
    ensures
        values_view(values).len() == values.len(),
        match values[i] {
            SolValue::Address(a) => values_view(values)[i] == SolValueView::Address(a@),
            SolValue::Bool(b) => values_view(values)[i] == SolValueView::Bool(b),
            SolValue::Uint(w, n) => values_view(values)[i] == SolValueView::Uint(w@, n),
            SolValue::Int(w, n) => values_view(values)[i] == SolValueView::Int(w@, n),
            SolValue::FixedBytes(w, n) => values_view(values)[i] == SolValueView::FixedBytes(w@, n),
            SolValue::String(s) => values_view(values)[i] == SolValueView::String(s@),
            SolValue::Bytes(b) => values_view(values)[i] == SolValueView::Bytes(b@),
        },
{
}

/// Returned values say what they hold, each in its place, and so do the fields of tuples.
pub proof fn returned_values_say_what_they_hold(values: Seq<Decoded>, i: int, k: int)
    requires
        0 <= i < values.len(),
    ensures
        decoded_list_view(values).len() == values.len(),
        decoded_list_view(values)[i].form == values[i].form@,
        match values[i].shape {
            Shape::Uint(w) => decoded_list_view(values)[i].shape == ShapeView::Uint(w@),
            Shape::Int(w) => decoded_list_view(values)[i].shape == ShapeView::Int(w@),
            Shape::Bool(b) => decoded_list_view(values)[i].shape == ShapeView::Bool(b),
            Shape::Tuple(fields) => {
                &&& decoded_list_view(values)[i].shape is Tuple
                &&& decoded_list_view(values)[i].shape->Tuple_0.len() == fields@.len()
                &&& 0 <= k < fields@.len() ==> decoded_list_view(values)[i].shape->Tuple_0[k]
                    == fields@[k]@
            },
            _ => !(decoded_list_view(values)[i].shape is Uint || decoded_list_view(
                values,
            )[i].shape is Int || decoded_list_view(values)[i].shape is Bool || decoded_list_view(
                values,
            )[i].shape is Tuple),
        },
{
}

/// Arguments that fit a function's parameters are encoded as a call of that function with them.
pub proof fn fitting_arguments_are_encoded(f: FunctionView, values: Seq<SolValueView>)
    ensures
        packed(f, values) is Ok <==> fits_parameters(f.inputs, values),
        packed(f, values) matches Ok(data) ==> data == encoded_call(
            f.name,
            f.inputs,
            values,
        )->Ok_0,
{
}

/// An argument has one type, down to its width.
pub proof fn arguments_have_one_type(w: Seq<u8>, n: usize, s: Seq<char>, b: bool, ty: SolType)
    ensures
        has_type(SolValueView::Address(w), ty) <==> ty == SolType::Address,
        has_type(SolValueView::Bool(b), ty) <==> ty == SolType::Bool,
        has_type(SolValueView::Uint(w, n), ty) <==> ty == SolType::Uint(n),
        has_type(SolValueView::Int(w, n), ty) <==> ty == SolType::Int(n),
        has_type(SolValueView::FixedBytes(w, n), ty) <==> ty == SolType::FixedBytes(n),
        has_type(SolValueView::String(s), ty) <==> ty == SolType::String,
        has_type(SolValueView::Bytes(w), ty) <==> ty == SolType::Bytes,
{
}

} // verus!
