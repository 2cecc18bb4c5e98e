//! Values of a YAML document.

use serde_yaml_ng::value::{Tag, TaggedValue, Value};
use vstd::prelude::*;

verus! {

/// A value of a YAML document. A number is held as its text, a tag without the exclamation mark
/// before it.
#[derive(Debug)]
pub enum YamlValue {
    Null,
    Bool(bool),
    Number(String),
    String(String),
    Sequence(Vec<YamlValue>),
    Mapping(Vec<(YamlValue, YamlValue)>),
    Tagged(String, Box<YamlValue>),
}

/// What a [`YamlValue`] says.
#[verifier::ext_equal]
pub enum ValueView {
    Null,
    Bool(bool),
    Number(Seq<char>),
    String(Seq<char>),
    Sequence(Seq<ValueView>),
    Mapping(Seq<(ValueView, ValueView)>),
    Tagged(Seq<char>, Box<ValueView>),
}

/// What a value says, at every depth.
pub open spec fn value_view(v: YamlValue) -> ValueView
    decreases v,
{
    match v {
        YamlValue::Null => ValueView::Null,
        YamlValue::Bool(b) => ValueView::Bool(b),
        YamlValue::Number(n) => ValueView::Number(n@),
        YamlValue::String(s) => ValueView::String(s@),
        YamlValue::Sequence(items) => ValueView::Sequence(
            Seq::new(
                items@.len(),
                |i: int|
                    if 0 <= i < items@.len() {
                        value_view(items@[i])
                    } else {
                        arbitrary()
                    },
            ),
        ),
        YamlValue::Mapping(pairs) => ValueView::Mapping(
            Seq::new(
                pairs@.len(),
                |i: int|
                    if 0 <= i < pairs@.len() {
                        (value_view(pairs@[i].0), value_view(pairs@[i].1))
                    } else {
                        arbitrary()
                    },
            ),
        ),
        YamlValue::Tagged(tag, inner) => ValueView::Tagged(tag@, Box::new(value_view(*inner))),
    }
}

impl View for YamlValue {
    type V = ValueView;

    open spec fn view(&self) -> ValueView {
        value_view(*self)
    }
}

/// `serde_yaml_ng::Value`, carried from the parser.
#[verifier::external_type_specification]
#[verifier::external_body]
pub struct ExYamlValue(serde_yaml_ng::Value);

/// Takes over a `serde_yaml_ng::Value` of the same variant, a number by its text and a tag by its
/// text without the exclamation mark that its `Display` puts first. Nothing is claimed of it.
#[verifier::external_body]
fn value_in(v: &serde_yaml_ng::Value) -> YamlValue {
    match v {
        Value::Null => YamlValue::Null,
        Value::Bool(b) => YamlValue::Bool(*b),
        Value::Number(n) => YamlValue::Number(n.to_string()),
        Value::String(s) => YamlValue::String(s.clone()),
        Value::Sequence(q) => YamlValue::Sequence(q.iter().map(value_in).collect()),
        Value::Mapping(m) => {
            YamlValue::Mapping(m.iter().map(|(k, v)| (value_in(k), value_in(v))).collect())
        },
        Value::Tagged(t) => {
            YamlValue::Tagged(t.tag.to_string().split_off(1), Box::new(value_in(&t.value)))
        },
    }
}

/// What `serde_yaml_ng::from_str` reads as a document, or the message of its error.
pub uninterp spec fn yaml_document(raw: Seq<char>) -> Result<ValueView, Seq<char>>;

/// `serde_yaml_ng::from_str::<serde_yaml_ng::Value>`. The outcome is named and depends on the
/// text alone.
#[verifier::external_body]
pub(crate) fn parse_yaml(raw: &str) -> (r: Result<YamlValue, String>)
    ensures
        match r {
            Ok(v) => yaml_document(raw@) == Ok::<ValueView, Seq<char>>(v@),
            Err(e) => yaml_document(raw@) == Err::<ValueView, Seq<char>>(e@),
        },
{
    match serde_yaml_ng::from_str::<serde_yaml_ng::Value>(raw) {
        Ok(v) => Ok(value_in(&v)),
        Err(e) => Err(e.to_string()),
    }
}

/// Hands a value to `serde_yaml_ng`: the `Value` of the same variant. A text that is no number,
/// held as a number, becomes a string. Nothing is claimed of it.
#[verifier::external_body]
fn value_out(v: &YamlValue) -> Value {
    match v {
        YamlValue::Null => Value::Null,
        YamlValue::Bool(b) => Value::Bool(*b),
        YamlValue::Number(n) => n.parse().map_or_else(|_| n.as_str().into(), Value::Number),
        YamlValue::String(s) => s.as_str().into(),
        YamlValue::Sequence(q) => q.iter().map(value_out).collect(),
        YamlValue::Mapping(m) => {
            Value::Mapping(m.iter().map(|(k, v)| (value_out(k), value_out(v))).collect())
        },
        YamlValue::Tagged(tag, v) => {
            let tag = Tag::new(format!("!{tag}"));
            Value::Tagged(Box::new(TaggedValue { tag, value: value_out(v) }))
        },
    }
}

/// The text in which `<serde_yaml_ng::Value as Debug>::fmt` shows a value.
pub uninterp spec fn value_form(v: ValueView) -> Seq<char>;

/// `<serde_yaml_ng::Value as Debug>::fmt`. The text is named and depends on the value alone.
#[verifier::external_body]
pub(crate) fn show_value(v: &YamlValue) -> (r: String)
    ensures
        r@ == value_form(v@),
{
    format!("{:?}", value_out(v))
}

/// A value says what it holds, the items of a sequence and the pairs of a mapping each in its
/// place.
pub proof fn values_say_what_they_hold(v: YamlValue, i: int)
    ensures
        match v {
            YamlValue::Null => v@ == ValueView::Null,
            YamlValue::Bool(b) => v@ == ValueView::Bool(b),
            YamlValue::Number(n) => v@ == ValueView::Number(n@),
            YamlValue::String(s) => v@ == ValueView::String(s@),
            YamlValue::Sequence(items) => v@ is Sequence && v@->Sequence_0.len() == items@.len()
                && (0 <= i < items@.len() ==> v@->Sequence_0[i] == items@[i]@),
            YamlValue::Mapping(pairs) => v@ is Mapping && v@->Mapping_0.len() == pairs@.len() && (0
                <= i < pairs@.len() ==> v@->Mapping_0[i].0 == pairs@[i].0@ && v@->Mapping_0[i].1
                == pairs@[i].1@),
            YamlValue::Tagged(tag, inner) => v@ == ValueView::Tagged(tag@, Box::new(inner@)),
        },
{
}

} // verus!
