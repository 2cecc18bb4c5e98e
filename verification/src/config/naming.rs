//! The names of metrics.

use crate::config::abi;
use crate::config::abi::{AbiError, AbiErrorOf};
use crate::config::{Metric, Output};
use crate::config;
use crate::outcome;
use crate::sol;
use crate::sol::AbiFunction;
use crate::text;
use vstd::prelude::*;

verus! {

/// Whether a character beyond ASCII has the Unicode property `Uppercase`.
pub uninterp spec fn upper_beyond_ascii(c: char) -> bool;

/// `char::is_uppercase` of the standard library: in ASCII the letters A to Z; beyond it the
/// outcome depends on the character alone and is given a name.
pub assume_specification[ char::is_uppercase ](c: char) -> (r: bool)
    ensures
        r == (if (c as u32) < 128 {
            'A' <= c <= 'Z'
        } else {
            upper_beyond_ascii(c)
        }),
;

/// Whether a character beyond ASCII has the Unicode property `Lowercase`.
pub uninterp spec fn lower_beyond_ascii(c: char) -> bool;

/// `char::is_lowercase` of the standard library: in ASCII the letters a to z; beyond it the
/// outcome depends on the character alone and is given a name.
pub assume_specification[ char::is_lowercase ](c: char) -> (r: bool)
    ensures
        r == (if (c as u32) < 128 {
            'a' <= c <= 'z'
        } else {
            lower_beyond_ascii(c)
        }),
;

/// The lowercase mapping of a character beyond ASCII.
pub uninterp spec fn lowered_beyond_ascii(c: char) -> Seq<char>;

/// `char::to_lowercase` of the standard library: in ASCII the letters A to Z become a to z and
/// nothing else changes; beyond it the outcome depends on the character alone and is given a
/// name.
#[verifier::external_body]
fn lowercase_of(c: char) -> (r: String)
    ensures
        r@ == (if (c as u32) < 128 {
            if 'A' <= c <= 'Z' {
                seq![(c as u32 + 32) as char]
            } else {
                seq![c]
            }
        } else {
            lowered_beyond_ascii(c)
        }),
{
    c.to_lowercase().to_string()
}

/// Whether a character is an uppercase letter.
pub open spec fn is_upper(c: char) -> bool {
    if (c as u32) < 128 {
        'A' <= c <= 'Z'
    } else {
        upper_beyond_ascii(c)
    }
}

/// Whether a character is a lowercase letter.
pub open spec fn is_lower(c: char) -> bool {
    if (c as u32) < 128 {
        'a' <= c <= 'z'
    } else {
        lower_beyond_ascii(c)
    }
}

/// The lowercase form of a character.
pub open spec fn lowered(c: char) -> Seq<char> {
    if (c as u32) < 128 {
        if 'A' <= c <= 'Z' {
            seq![(c as u32 + 32) as char]
        } else {
            seq![c]
        }
    } else {
        lowered_beyond_ascii(c)
    }
}

/// Whether a word begins at index `i`: at an uppercase letter after a lowercase letter or a
/// digit, and at the last uppercase letter of an acronym that a lowercase letter follows.
pub open spec fn word_begins(s: Seq<char>, i: int) -> bool {
    &&& 0 < i < s.len()
    &&& is_upper(s[i])
    &&& {
        ||| is_lower(s[i - 1])
        ||| '0' <= s[i - 1] <= '9'
        ||| is_upper(s[i - 1]) && i + 1 < s.len() && is_lower(s[i + 1])
    }
}

/// The first `n` characters of `s` in lowercase, with an underscore before each word but the
/// first.
pub open spec fn snake_prefix(s: Seq<char>, n: nat) -> Seq<char>
    decreases n,
{
    if n == 0 {
        seq![]
    } else {
        let head = snake_prefix(s, (n - 1) as nat);
        (if word_begins(s, n - 1) {
            head.push('_')
        } else {
            head
        }) + lowered(s[n - 1])
    }
}

/// The snake case form of an identifier.
pub open spec fn snake(s: Seq<char>) -> Seq<char> {
    snake_prefix(s, s.len())
}

/// Turns a camel case or Pascal case identifier into snake case. Acronyms stay together:
/// `APIKey` becomes `api_key`, and `feeAPR` becomes `fee_apr`.
pub fn camel_to_snake(s: &str) -> (r: String)
    ensures
        r@ == snake(s@),
{
    let runes = text::to_chars(s);
    let mut out = String::new();
    for i in 0..runes.len()
        invariant
            runes@ == s@,
            out@ == snake_prefix(s@, i as nat),
    {
        let c = runes[i];
        if i > 0 && c.is_uppercase() {
            let prev = runes[i - 1];
            let after_lower_or_digit = prev.is_lowercase() || ('0' <= prev && prev <= '9');
            let acronym_ends = prev.is_uppercase() && i + 1 < runes.len()
                && runes[i + 1].is_lowercase();
            if after_lower_or_digit || acronym_ends {
                out.push('_');
            }
        }
        out.append(lowercase_of(c).as_str());
    }
    out
}

/// Whether a text consists of ASCII characters.
pub open spec fn is_ascii(s: Seq<char>) -> bool {
    forall|i: int| 0 <= i < s.len() ==> (#[trigger] s[i] as u32) < 128
}

/// Whether a text holds none of the letters A to Z.
pub open spec fn has_no_capital(s: Seq<char>) -> bool {
    forall|i: int| 0 <= i < s.len() ==> !('A' <= #[trigger] s[i] <= 'Z')
}

proof fn lemma_snake_prefix_plain(s: Seq<char>, n: nat)
    requires
        is_ascii(s),
        has_no_capital(s),
        n <= s.len(),
    ensures
        snake_prefix(s, n) == s.take(n as int),
    decreases n,
{
    if n > 0 {
        lemma_snake_prefix_plain(s, (n - 1) as nat);
        assert(s.take(n as int) =~= s.take(n - 1).push(s[n - 1]));
        assert(snake_prefix(s, n) =~= s.take(n as int));
    } else {
        assert(s.take(0) =~= seq![]);
    }
}

proof fn lemma_snake_prefix_ascii(s: Seq<char>, n: nat)
    requires
        is_ascii(s),
        n <= s.len(),
    ensures
        is_ascii(snake_prefix(s, n)),
        has_no_capital(snake_prefix(s, n)),
    decreases n,
{
    if n > 0 {
        lemma_snake_prefix_ascii(s, (n - 1) as nat);
    }
}

/// An ASCII identifier without capitals is its own snake case form.
pub proof fn snake_keeps_lowercase(s: Seq<char>)
    requires
        is_ascii(s),
        has_no_capital(s),
    ensures
        snake(s) == s,
{
    lemma_snake_prefix_plain(s, s.len());
    assert(s.take(s.len() as int) =~= s);
}

/// The snake case form of an ASCII identifier is ASCII, has no capitals, and is its own snake
/// case form.
pub proof fn snake_is_idempotent(s: Seq<char>)
    requires
        is_ascii(s),
    ensures
        is_ascii(snake(s)),
        has_no_capital(snake(s)),
        snake(snake(s)) == snake(s),
{
    lemma_snake_prefix_ascii(s, s.len());
    snake_keeps_lowercase(snake(s));
}

/// The outputs to read: those that are selected, or all of the function's where none is.
pub open spec fn selected_outputs(outputs: Seq<config::OutputView>, f: sol::FunctionView) -> Seq<
    config::OutputView,
> {
    if outputs.len() == 0 {
        Seq::new(
            f.outputs.len(),
            |i: int|
                config::OutputView {
                    index: i as usize,
                    field: seq![],
                    name: seq![],
                    scale_bits: 0,
                },
        )
    } else {
        outputs
    }
}

/// The name on which the names of a metric's outputs build.
pub open spec fn base_name(name: Seq<char>, f: sol::FunctionView) -> Seq<char> {
    if name.len() == 0 {
        snake(f.name)
    } else {
        name
    }
}

/// The name of the metric that shows one output.
pub open spec fn output_name(
    base: Seq<char>,
    f: sol::FunctionView,
    o: config::OutputView,
) -> Result<Seq<char>, AbiErrorOf<Seq<char>>> {
    if o.index >= f.outputs.len() {
        Err(AbiErrorOf::OutputOutOfRange { index: o.index })
    } else if o.field.len() > 0 {
        if o.name.len() > 0 {
            Ok(base + "_"@ + snake(o.name))
        } else {
            match abi::tuple_field(f, o.index, o.field) {
                Ok(_) => Ok(base + "_"@ + snake(o.field)),
                Err(e) => Err(e),
            }
        }
    } else if f.outputs.len() == 1 {
        if o.name.len() > 0 {
            Ok(snake(o.name))
        } else {
            Ok(base)
        }
    } else if o.name.len() > 0 {
        Ok(base + "_"@ + snake(o.name))
    } else if f.outputs[o.index as int].name.len() > 0 {
        Ok(base + "_"@ + snake(f.outputs[o.index as int].name))
    } else {
        Ok(base + "_"@ + text::decimal(o.index as nat))
    }
}

/// The names of the metrics that a function's selected outputs give, in order.
pub open spec fn inferred_names(
    name: Seq<char>,
    outputs: Seq<config::OutputView>,
    f: sol::FunctionView,
) -> Result<Seq<Seq<char>>, AbiErrorOf<Seq<char>>> {
    let selected = selected_outputs(outputs, f);
    outcome::gathered(selected.len(), |i: int| output_name(base_name(name, f), f, selected[i]))
}

/// The outputs to read: those that are selected, or all of the function's where none is.
pub fn select_outputs(outputs: &Vec<Output>, f: &AbiFunction) -> (r: Vec<Output>)
    ensures
        config::outputs_view(r@) == selected_outputs(config::outputs_view(outputs@), f@),
{
    let mut out: Vec<Output> = Vec::new();
    if outputs.len() == 0 {
        for i in 0..f.outputs.len()
            invariant
                out@.len() == i,
                forall|j: int|
                    0 <= j < i ==> (#[trigger] out@[j])@ == (config::OutputView {
                        index: j as usize,
                        field: seq![],
                        name: seq![],
                        scale_bits: 0,
                    }),
        {
            out.push(Output::at(i));
        }
    } else {
        for i in 0..outputs.len()
            invariant
                out@.len() == i,
                forall|j: int| 0 <= j < i ==> (#[trigger] out@[j])@ == outputs@[j]@,
        {
            out.push(outputs[i].duplicate());
        }
    }
    assert(config::outputs_view(out@) =~= selected_outputs(config::outputs_view(outputs@), f@));
    out
}

/// Puts a base name and the snake case form of a suffix together.
fn suffixed(base: &str, suffix: &str) -> (r: String)
    ensures
        r@ == base@ + "_"@ + snake(suffix@),
{
    let mut s = base.to_string();
    s.append("_");
    s.append(camel_to_snake(suffix).as_str());
    s
}

/// The name of the metric that shows one output.
fn name_output(base: &str, f: &AbiFunction, o: &Output) -> (r: Result<String, AbiError>)
    ensures
        match r {
            Ok(name) => output_name(base@, f@, o@) == Ok::<Seq<char>, AbiErrorOf<Seq<char>>>(name@),
            Err(e) => output_name(base@, f@, o@) == Err::<Seq<char>, AbiErrorOf<Seq<char>>>(e@),
        },
{
    if o.index >= f.outputs.len() {
        return Err(AbiErrorOf::OutputOutOfRange { index: o.index });
    }
    if !o.field.as_str().is_empty() {
        if !o.name.as_str().is_empty() {
            return Ok(suffixed(base, o.name.as_str()));
        }
        return match abi::resolve_tuple_field(f, o.index, o.field.as_str()) {
            Ok((_, field)) => Ok(suffixed(base, field.as_str())),
            Err(e) => Err(e),
        };
    }
    if f.outputs.len() == 1 {
        if !o.name.as_str().is_empty() {
            return Ok(camel_to_snake(o.name.as_str()));
        }
        return Ok(base.to_string());
    }
    if !o.name.as_str().is_empty() {
        return Ok(suffixed(base, o.name.as_str()));
    }
    let out = &f.outputs[o.index];
    if !out.name.as_str().is_empty() {
        return Ok(suffixed(base, out.name.as_str()));
    }
    let mut s = base.to_string();
    s.append("_");
    s.append(text::count_text(o.index).as_str());
    Ok(s)
}

/// The names of the metrics that a function's selected outputs give, in order.
pub fn infer_names(name: &str, outputs: &Vec<Output>, f: &AbiFunction) -> (r: Result<
    Vec<String>,
    AbiError,
>)
    ensures
        match r {
            Ok(names) => inferred_names(name@, config::outputs_view(outputs@), f@) == Ok::<
                Seq<Seq<char>>,
                AbiErrorOf<Seq<char>>,
            >(text::texts(names@)),
            Err(e) => inferred_names(name@, config::outputs_view(outputs@), f@) == Err::<
                Seq<Seq<char>>,
                AbiErrorOf<Seq<char>>,
            >(e@),
        },
{
    let base = if name.is_empty() {
        camel_to_snake(f.name.as_str())
    } else {
        name.to_string()
    };
    let selected = select_outputs(outputs, f);
    let ghost want = selected_outputs(config::outputs_view(outputs@), f@);
    let ghost at = |i: int| output_name(base_name(name@, f@), f@, want[i]);
    let mut names: Vec<String> = Vec::new();
    assert(text::texts(names@) =~= seq![]);
    for i in 0..selected.len()
        invariant
            config::outputs_view(selected@) == want,
            base@ == base_name(name@, f@),
            at == (|i: int| output_name(base_name(name@, f@), f@, want[i])),
            outcome::gathered(i as nat, at) == Ok::<Seq<Seq<char>>, AbiErrorOf<Seq<char>>>(
                text::texts(names@),
            ),
            want == selected_outputs(config::outputs_view(outputs@), f@),
    {
        let o = &selected[i];
        assert(want[i as int] == o@);
        match name_output(base.as_str(), f, o) {
            Ok(n) => {
                let ghost before = text::texts(names@);
                names.push(n);
                assert(text::texts(names@) =~= before.push(n@));
            },
            Err(e) => {
                proof {
                    assert(outcome::gathered((i + 1) as nat, at) is Err);
                    outcome::lemma_gathered_failure_stays((i + 1) as nat, want.len(), at);
                }
                return Err(e);
            },
        }
    }
    Ok(names)
}

/// The names of the metrics that a metric of the configuration stands for, in the order of its
/// outputs.
pub fn infer_metric_names(m: &Metric, f: &AbiFunction) -> (r: Result<Vec<String>, AbiError>)
    ensures
        match r {
            Ok(names) => inferred_names(m.name@, config::outputs_view(m.outputs@), f@) == Ok::<
                Seq<Seq<char>>,
                AbiErrorOf<Seq<char>>,
            >(text::texts(names@)),
            Err(e) => inferred_names(m.name@, config::outputs_view(m.outputs@), f@) == Err::<
                Seq<Seq<char>>,
                AbiErrorOf<Seq<char>>,
            >(e@),
        },
{
    infer_names(m.name.as_str(), &m.outputs, f)
}

/// There are as many names as selected outputs.
pub proof fn one_name_per_output(
    name: Seq<char>,
    outputs: Seq<config::OutputView>,
    f: sol::FunctionView,
)
    ensures
        inferred_names(name, outputs, f) matches Ok(names) ==> names.len() == selected_outputs(
            outputs,
            f,
        ).len(),
{
    let selected = selected_outputs(outputs, f);
    outcome::lemma_gathered(
        selected.len(),
        |i: int| output_name(base_name(name, f), f, selected[i]),
    );
}

/// If no word of `s` begins elsewhere for what follows it, the snake case form of both together is
/// that of each, with an underscore between them exactly if a word begins with `t`.
proof fn lemma_snake_of_parts(s: Seq<char>, t: Seq<char>)
    requires
        forall|i: int| 0 <= i < s.len() ==> #[trigger] word_begins(s + t, i) == word_begins(s, i),
    ensures
        snake(s + t) == snake(s) + (if word_begins(s + t, s.len() as int) {
            seq!['_']
        } else {
            seq![]
        }) + snake(t),
{
    let gap = if word_begins(s + t, s.len() as int) {
        seq!['_']
    } else {
        seq![]
    };
    lemma_snake_head(s, t, s.len());
    lemma_snake_tail(s, t, gap, t.len());
    assert((s + t).len() == s.len() + t.len());
    if t.len() == 0 {
        assert(snake(s) + gap + snake(t) =~= snake(s));
        assert(s + t =~= s);
    }
}

proof fn lemma_snake_head(s: Seq<char>, t: Seq<char>, n: nat)
    requires
        n <= s.len(),
        forall|i: int| 0 <= i < s.len() ==> #[trigger] word_begins(s + t, i) == word_begins(s, i),
    ensures
        snake_prefix(s + t, n) == snake_prefix(s, n),
    decreases n,
{
    if n > 0 {
        lemma_snake_head(s, t, (n - 1) as nat);
        assert(word_begins(s + t, n - 1) == word_begins(s, n - 1));
        assert((s + t)[n - 1] == s[n - 1]);
    }
}

proof fn lemma_snake_tail(s: Seq<char>, t: Seq<char>, gap: Seq<char>, n: nat)
    requires
        n <= t.len(),
        gap == (if word_begins(s + t, s.len() as int) {
            seq!['_']
        } else {
            seq![]
        }),
        snake_prefix(s + t, s.len()) == snake(s),
    ensures
        n > 0 ==> snake_prefix(s + t, s.len() + n) == snake(s) + gap + snake_prefix(t, n),
    decreases n,
{
    let at = s.len() as int + n - 1;
    if n > 0 {
        lemma_snake_tail(s, t, gap, (n - 1) as nat);
        assert((s + t)[at] == t[n - 1]);
        if n == 1 {
            assert(snake_prefix(t, 0) == Seq::<char>::empty());
            assert(!word_begins(t, 0));
            assert(snake_prefix(t, 1) =~= lowered(t[0]));
            assert(snake_prefix(s + t, s.len() + n) =~= snake(s) + gap + snake_prefix(t, n));
        } else {
            assert((s + t)[at - 1] == t[n - 2]);
            if n < t.len() {
                assert((s + t)[at + 1] == t[n as int]);
            }
            assert(word_begins(s + t, at) == word_begins(t, n - 1));
            assert(snake_prefix(s + t, s.len() + n) =~= snake(s) + gap + snake_prefix(t, n));
        }
    }
}

/// A capital after a lowercase letter or a digit begins a word: an underscore comes before it.
pub proof fn capitals_begin_words(s: Seq<char>, t: Seq<char>)
    requires
        s.len() > 0,
        t.len() > 0,
        'a' <= s.last() <= 'z' || '0' <= s.last() <= '9',
        'A' <= t[0] <= 'Z',
    ensures
        snake(s + t) == snake(s) + seq!['_'] + snake(t),
{
    lemma_same_beginnings(s, t);
    assert((s + t)[s.len() as int] == t[0]);
    assert((s + t)[s.len() - 1] == s.last());
    lemma_snake_of_parts(s, t);
}

/// Unless a capital stands at their border, two parts of a text are turned into snake case each for
/// itself.
pub proof fn words_go_on_without_capitals(s: Seq<char>, t: Seq<char>)
    requires
        s.len() > 0,
        t.len() > 0,
        (s.last() as u32) < 128 && !('A' <= s.last() <= 'Z'),
        (t[0] as u32) < 128 && !('A' <= t[0] <= 'Z'),
    ensures
        snake(s + t) == snake(s) + snake(t),
{
    lemma_same_beginnings(s, t);
    assert((s + t)[s.len() as int] == t[0]);
    lemma_snake_of_parts(s, t);
    assert(snake(s) + seq![] + snake(t) =~= snake(s) + snake(t));
}

proof fn lemma_same_beginnings(s: Seq<char>, t: Seq<char>)
    requires
        s.len() > 0,
        (s.last() as u32) < 128 && !('A' <= s.last() <= 'Z'),
    ensures
        forall|i: int| 0 <= i < s.len() ==> #[trigger] word_begins(s + t, i) == word_begins(s, i),
{
    assert forall|i: int| 0 <= i < s.len() implies #[trigger] word_begins(s + t, i) == word_begins(
        s,
        i,
    ) by {
        assert((s + t)[i] == s[i]);
        if i > 0 {
            assert((s + t)[i - 1] == s[i - 1]);
        }
        if i + 1 < s.len() {
            assert((s + t)[i + 1] == s[i + 1]);
        } else {
            assert(s[i] == s.last());
        }
    }
}

/// Capitals in a row are one word: each becomes its lowercase letter, with no underscore.
pub proof fn acronyms_stay_together(s: Seq<char>)
    requires
        forall|i: int| 0 <= i < s.len() ==> 'A' <= #[trigger] s[i] <= 'Z',
    ensures
        snake(s).len() == s.len(),
        forall|i: int| 0 <= i < s.len() ==> #[trigger] snake(s)[i] == (s[i] as u32 + 32) as char,
{
    lemma_acronym(s, s.len());
}

proof fn lemma_acronym(s: Seq<char>, n: nat)
    requires
        n <= s.len(),
        forall|i: int| 0 <= i < s.len() ==> 'A' <= #[trigger] s[i] <= 'Z',
    ensures
        snake_prefix(s, n).len() == n,
        forall|i: int|
            0 <= i < n ==> #[trigger] snake_prefix(s, n)[i] == (s[i] as u32 + 32) as char,
    decreases n,
{
    if n > 0 {
        lemma_acronym(s, (n - 1) as nat);
        assert(!word_begins(s, n - 1)) by {
            if n > 1 {
                assert('A' <= s[n - 2] <= 'Z');
            }
            if n < s.len() {
                assert('A' <= s[n as int] <= 'Z');
            }
        }
    }
}

/// After capitals in a row a word that goes on in lowercase letters begins at its own capital.
pub proof fn words_end_acronyms(s: Seq<char>, t: Seq<char>)
    requires
        s.len() > 0,
        forall|i: int| 0 <= i < s.len() ==> 'A' <= #[trigger] s[i] <= 'Z',
        t.len() > 1,
        'A' <= t[0] <= 'Z',
        'a' <= t[1] <= 'z',
    ensures
        snake(s + t) == snake(s) + seq!['_'] + snake(t),
{
    assert forall|i: int| 0 <= i < s.len() implies #[trigger] word_begins(s + t, i) == word_begins(
        s,
        i,
    ) by {
        assert((s + t)[i] == s[i]);
        if i > 0 {
            assert((s + t)[i - 1] == s[i - 1]);
            assert('A' <= s[i - 1] <= 'Z');
        }
        if i + 1 < s.len() {
            assert((s + t)[i + 1] == s[i + 1]);
            assert('A' <= s[i + 1] <= 'Z');
        } else {
            assert((s + t)[i + 1] == t[0]);
        }
    }
    assert((s + t)[s.len() as int] == t[0]);
    assert((s + t)[s.len() - 1] == s.last());
    assert((s + t)[s.len() as int + 1] == t[1]);
    assert('A' <= s[s.len() - 1] <= 'Z');
    lemma_snake_of_parts(s, t);
}

/// There is one name per selected output, or one per output of the function where none is
/// selected, in their order. A name builds on the metric's own, or on the snake case form of the
/// function's where it has none. After it comes, in snake case, the name that the output is given,
/// else the selected field, else the name in the interface, else the index. An output that is the
/// function's only one needs no such suffix, and is called by the name that it is given alone.
pub proof fn names_follow_the_outputs(
    name: Seq<char>,
    outputs: Seq<config::OutputView>,
    f: sol::FunctionView,
    names: Seq<Seq<char>>,
    i: int,
)
    requires
        inferred_names(name, outputs, f) == Ok::<Seq<Seq<char>>, AbiErrorOf<Seq<char>>>(names),
        f.outputs.len() <= usize::MAX,
    ensures
        outputs.len() > 0 ==> names.len() == outputs.len(),
        outputs.len() == 0 ==> names.len() == f.outputs.len(),
        0 <= i < names.len() ==> ({
            let base = if name.len() > 0 {
                name
            } else {
                snake(f.name)
            };
            let index = if outputs.len() > 0 {
                outputs[i].index as int
            } else {
                i
            };
            let field = if outputs.len() > 0 {
                outputs[i].field
            } else {
                seq![]
            };
            let given = if outputs.len() > 0 {
                outputs[i].name
            } else {
                seq![]
            };
            &&& index < f.outputs.len()
            &&& field.len() > 0 && given.len() > 0 ==> names[i] == base + "_"@ + snake(given)
            &&& field.len() > 0 && given.len() == 0 ==> names[i] == base + "_"@ + snake(field)
            &&& field.len() == 0 && given.len() > 0 && f.outputs.len() == 1 ==> names[i] == snake(
                given,
            )
            &&& field.len() == 0 && given.len() > 0 && f.outputs.len() > 1 ==> names[i] == base
                + "_"@ + snake(given)
            &&& field.len() == 0 && given.len() == 0 && f.outputs.len() == 1 ==> names[i] == base
            &&& field.len() == 0 && given.len() == 0 && f.outputs.len() > 1
                && f.outputs[index].name.len() > 0 ==> names[i] == base + "_"@ + snake(
                f.outputs[index].name,
            )
            &&& field.len() == 0 && given.len() == 0 && f.outputs.len() > 1
                && f.outputs[index].name.len() == 0 ==> names[i] == base + "_"@ + text::decimal(
                index as nat,
            )
        }),
{
    let selected = selected_outputs(outputs, f);
    let at = |i: int| output_name(base_name(name, f), f, selected[i]);
    outcome::lemma_gathered(selected.len(), at);
    if 0 <= i < names.len() {
        assert(at(i) == Ok::<Seq<char>, AbiErrorOf<Seq<char>>>(names[i]));
    }
}

/// The configured name of a metric is where all its names begin, but for that of the only output
/// of a function which is given a name of its own.
pub proof fn configured_names_come_first(
    name: Seq<char>,
    outputs: Seq<config::OutputView>,
    f: sol::FunctionView,
    names: Seq<Seq<char>>,
    i: int,
)
    requires
        inferred_names(name, outputs, f) == Ok::<Seq<Seq<char>>, AbiErrorOf<Seq<char>>>(names),
        name.len() > 0,
        0 <= i < names.len(),
        f.outputs.len() != 1 || outputs.len() == 0 || outputs[i].field.len() > 0
            || outputs[i].name.len() == 0,
    ensures
        names[i].len() >= name.len(),
        names[i].take(name.len() as int) == name,
{
    let selected = selected_outputs(outputs, f);
    let at = |i: int| output_name(base_name(name, f), f, selected[i]);
    outcome::lemma_gathered(selected.len(), at);
    assert(at(i) == Ok::<Seq<char>, AbiErrorOf<Seq<char>>>(names[i]));
    assert(names[i].take(name.len() as int) =~= name);
}

/// Names can be inferred exactly if every selected output exists and every field that is to give
/// the name is a component of its tuple.
pub proof fn names_need_their_outputs(
    name: Seq<char>,
    outputs: Seq<config::OutputView>,
    f: sol::FunctionView,
)
    requires
        f.outputs.len() <= usize::MAX,
    ensures
        inferred_names(name, outputs, f) is Ok <==> forall|i: int|
            0 <= i < outputs.len() ==> (#[trigger] outputs[i]).index < f.outputs.len() && (
            outputs[i].field.len() == 0 || outputs[i].name.len() > 0 || (text::begins_with(
                f.outputs[outputs[i].index as int].ty,
                "tuple"@,
            ) && exists|q: int|
                0 <= q < f.outputs[outputs[i].index as int].components.len() && (
                #[trigger] f.outputs[outputs[i].index as int].components[q]).name
                    == outputs[i].field)),
{
    let selected = selected_outputs(outputs, f);
    let at = |i: int| output_name(base_name(name, f), f, selected[i]);
    outcome::lemma_gathered(selected.len(), at);
    if outputs.len() == 0 {
        assert forall|i: int| 0 <= i < selected.len() implies (#[trigger] at(i)) is Ok by {
            assert(selected[i].index == i);
        }
    } else {
        assert forall|i: int| 0 <= i < outputs.len() implies ((#[trigger] at(i)) is Ok <==> (
        outputs[i].index < f.outputs.len() && (outputs[i].field.len() == 0
            || outputs[i].name.len() > 0 || (text::begins_with(
            f.outputs[outputs[i].index as int].ty,
            "tuple"@,
        ) && exists|q: int|
            0 <= q < f.outputs[outputs[i].index as int].components.len() && (
            #[trigger] f.outputs[outputs[i].index as int].components[q]).name
                == outputs[i].field)))) by {
            abi::fields_are_found_by_name(f, outputs[i].index, outputs[i].field);
        }
        if inferred_names(name, outputs, f) is Ok {
            assert forall|i: int| 0 <= i < outputs.len() implies (#[trigger] outputs[i]).index
                < f.outputs.len() && (outputs[i].field.len() == 0 || outputs[i].name.len() > 0 || (
            text::begins_with(f.outputs[outputs[i].index as int].ty, "tuple"@) && exists|q: int|
                0 <= q < f.outputs[outputs[i].index as int].components.len() && (
                #[trigger] f.outputs[outputs[i].index as int].components[q]).name
                    == outputs[i].field)) by {
                assert(at(i) is Ok);
            }
        }
    }
}

/// Names are refused for the first output that does not exist or whose field is not found.
pub proof fn names_are_refused_at_the_first_fault(
    name: Seq<char>,
    outputs: Seq<config::OutputView>,
    f: sol::FunctionView,
    e: AbiErrorOf<Seq<char>>,
) -> (i: int)
    requires
        inferred_names(name, outputs, f) == Err::<Seq<Seq<char>>, AbiErrorOf<Seq<char>>>(e),
        f.outputs.len() <= usize::MAX,
    ensures
        0 <= i < outputs.len(),
        outputs[i].index >= f.outputs.len() ==> e == (AbiErrorOf::OutputOutOfRange::<Seq<char>> {
            index: outputs[i].index,
        }),
        outputs[i].index < f.outputs.len() ==> outputs[i].field.len() > 0 && abi::tuple_field(
            f,
            outputs[i].index,
            outputs[i].field,
        ) == Err::<int, AbiErrorOf<Seq<char>>>(e),
        forall|j: int| 0 <= j < i ==> (#[trigger] outputs[j]).index < f.outputs.len(),
{
    let selected = selected_outputs(outputs, f);
    let at = |i: int| output_name(base_name(name, f), f, selected[i]);
    let i = outcome::lemma_gathered_failure_at(selected.len(), at);
    assert(at(i) is Err);
    if outputs.len() == 0 {
        assert(selected[i].index == i);
    }
    assert forall|j: int| 0 <= j < i implies (#[trigger] outputs[j]).index < f.outputs.len() by {
        assert(at(j) is Ok);
    }
    i
}

} // verus!
