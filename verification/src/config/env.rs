//! Environment variables in the texts of the configuration.

use crate::outcome;
use crate::text;
use crate::yaml;
use crate::yaml::YamlValue;
use vstd::prelude::*;

verus! {

/// Whether a character can begin the name of a variable.
pub open spec fn begins_ident(c: char) -> bool {
    c == '_' || 'a' <= c <= 'z' || 'A' <= c <= 'Z'
}

/// Whether a text is the name of a variable.
pub open spec fn is_ident(s: Seq<char>) -> bool {
    &&& s.len() > 0
    &&& begins_ident(s[0])
    &&& forall|i: int| 0 <= i < s.len() ==> begins_ident(#[trigger] s[i]) || '0' <= s[i] <= '9'
}

/// Whether a text is the name of a variable: it matches `[a-zA-Z_][a-zA-Z0-9_]*`.
pub fn is_shell_ident(name: &str) -> (r: bool)
    ensures
        r == is_ident(name@),
{
    let chars = text::to_chars(name);
    if chars.len() == 0 {
        return false;
    }
    for i in 0..chars.len()
        invariant
            chars@ == name@,
            chars@.len() > 0,
            i > 0 ==> begins_ident(name@[0]),
            forall|j: int|
                0 <= j < i ==> begins_ident(#[trigger] name@[j]) || '0' <= name@[j] <= '9',
    {
        let c = chars[i];
        let letter = c == '_' || ('a' <= c && c <= 'z') || ('A' <= c && c <= 'Z');
        let digit = '0' <= c && c <= '9';
        assert(c == name@[i as int]);
        if !(letter || (i > 0 && digit)) {
            return false;
        }
    }
    true
}

/// Whether an entry of the environment is that of a variable.
pub open spec fn is_of(entry: (String, String), name: Seq<char>) -> bool {
    entry.0@ == name
}

/// The value of a variable, the first of its name; empty if it is not set.
pub open spec fn variable(env: Seq<(String, String)>, name: Seq<char>) -> Seq<char> {
    match outcome::first_index(env.len(), |i: int| is_of(env[i], name)) {
        Some(i) => env[i].1@,
        None => seq![],
    }
}

/// The index of the first closing brace at or after `from`.
pub open spec fn closing(s: Seq<char>, from: int) -> Option<int>
    decreases s.len() - from,
{
    if from >= s.len() {
        None
    } else if s[from] == '}' {
        Some(from)
    } else {
        closing(s, from + 1)
    }
}

/// The index of the brace that closes the reference to a variable that begins at `i`, if one
/// does: `${`, the name of a variable and `}`.
pub open spec fn reference_at(s: Seq<char>, i: int) -> Option<int> {
    if i + 1 < s.len() && s[i] == '$' && s[i + 1] == '{' {
        match closing(s, i + 2) {
            Some(close) => if is_ident(s.subrange(i + 2, close)) {
                Some(close)
            } else {
                None
            },
            None => None,
        }
    } else {
        None
    }
}

/// The text from `i` on, with the value of each variable in place of its reference.
pub open spec fn expanded_from(s: Seq<char>, env: Seq<(String, String)>, i: int) -> Seq<char>
    decreases s.len() - i,
    via expanded_from_decreases
{
    if i >= s.len() {
        seq![]
    } else {
        match reference_at(s, i) {
            Some(close) => variable(env, s.subrange(i + 2, close)) + expanded_from(
                s,
                env,
                close + 1,
            ),
            None => seq![s[i]] + expanded_from(s, env, i + 1),
        }
    }
}

#[via_fn]
proof fn expanded_from_decreases(s: Seq<char>, env: Seq<(String, String)>, i: int) {
    if i < s.len() {
        lemma_closing(s, i + 2);
    }
}

/// A closing brace stands at or after where it is looked for.
proof fn lemma_closing(s: Seq<char>, from: int)
    ensures
        closing(s, from) matches Some(close) ==> from <= close < s.len() && s[close] == '}',
    decreases s.len() - from,
{
    if from < s.len() && s[from] != '}' {
        lemma_closing(s, from + 1);
    }
}

/// A text with the value of each variable in place of its reference.
pub open spec fn expanded(s: Seq<char>, env: Seq<(String, String)>) -> Seq<char> {
    expanded_from(s, env, 0)
}

/// The value of a variable, empty if it is not set.
pub fn lookup(env: &Vec<(String, String)>, name: &str) -> (r: String)
    ensures
        r@ == variable(env@, name@),
{
    let ghost at = |i: int| is_of(env@[i], name@);
    for i in 0..env.len()
        invariant
            at == (|i: int| is_of(env@[i], name@)),
            forall|j: int| 0 <= j < i ==> !#[trigger] at(j),
    {
        if text::same(env[i].0.as_str(), name) {
            proof {
                outcome::lemma_is_first_index(env@.len(), at, i as int);
            }
            return env[i].1.clone();
        }
    }
    proof {
        outcome::lemma_first_index(env@.len(), at);
    }
    String::new()
}

/// Finds the first closing brace at or after `from`.
fn find_closing(chars: &Vec<char>, from: usize) -> (r: Option<usize>)
    requires
        from <= chars@.len(),
    ensures
        match r {
            Some(close) => closing(chars@, from as int) == Some(close as int) && from <= close
                < chars@.len(),
            None => closing(chars@, from as int) is None,
        },
{
    let mut i: usize = from;
    while i < chars.len()
        invariant
            from <= i <= chars@.len(),
            closing(chars@, from as int) == closing(chars@, i as int),
        decreases chars@.len() - i,
    {
        if chars[i] == '}' {
            return Some(i);
        }
        i = i + 1;
    }
    None
}

/// Puts the values of environment variables in place of their references `${NAME}`. A variable
/// that is not set is empty; a bare `$NAME` stays as it is.
pub fn expand_env(s: &str, env: &Vec<(String, String)>) -> (r: String)
    ensures
        r@ == expanded(s@, env@),
{
    let chars = text::to_chars(s);
    let n: usize = chars.len();
    let mut out = String::new();
    let mut i: usize = 0;
    assert(out@ + expanded_from(s@, env@, 0) =~= expanded(s@, env@));
    while i < n
        invariant
            n == chars@.len(),
            chars@ == s@,
            i <= n,
            out@ + expanded_from(s@, env@, i as int) == expanded(s@, env@),
        decreases n - i,
    {
        let ghost before = out@;
        let mut close: Option<usize> = None;
        if chars[i] == '$' && i + 1 < n && chars[i + 1] == '{' {
            match find_closing(&chars, i + 2) {
                Some(c) => {
                    let name = text::slice_text(&chars, i + 2, c);
                    if is_shell_ident(name.as_str()) {
                        close = Some(c);
                        out.append(lookup(env, name.as_str()).as_str());
                    }
                },
                None => {},
            }
        }
        match close {
            Some(c) => {
                assert(reference_at(s@, i as int) == Some(c as int));
                assert(out@ + expanded_from(s@, env@, c + 1) =~= before + expanded_from(
                    s@,
                    env@,
                    i as int,
                ));
                i = c + 1;
            },
            None => {
                assert(reference_at(s@, i as int) is None);
                out.push(chars[i]);
                assert(out@ + expanded_from(s@, env@, i + 1) =~= before + expanded_from(
                    s@,
                    env@,
                    i as int,
                ));
                i = i + 1;
            },
        }
    }
    assert(out@ + seq![] =~= out@);
    out
}

/// A text in which no reference begins stays as it is.
pub proof fn texts_without_references_stay(s: Seq<char>, env: Seq<(String, String)>)
    requires
        forall|i: int| 0 <= i < s.len() ==> (#[trigger] reference_at(s, i)) is None,
    ensures
        expanded(s, env) == s,
{
    lemma_stays_from(s, env, 0);
    assert(s.skip(0) =~= s);
}

proof fn lemma_stays_from(s: Seq<char>, env: Seq<(String, String)>, i: int)
    requires
        0 <= i <= s.len(),
        forall|j: int| 0 <= j < s.len() ==> (#[trigger] reference_at(s, j)) is None,
    ensures
        expanded_from(s, env, i) == s.skip(i),
    decreases s.len() - i,
{
    if i < s.len() {
        lemma_stays_from(s, env, i + 1);
        assert(reference_at(s, i) is None);
        assert(seq![s[i]] + s.skip(i + 1) =~= s.skip(i));
    } else {
        assert(s.skip(i) =~= seq![]);
    }
}

/// A text without a dollar sign stays as it is.
pub proof fn texts_without_dollar_stay(s: Seq<char>, env: Seq<(String, String)>)
    requires
        !s.contains('$'),
    ensures
        expanded(s, env) == s,
{
    assert forall|i: int| 0 <= i < s.len() implies (#[trigger] reference_at(s, i)) is None by {
        assert(s.contains(s[i]));
    }
    texts_without_references_stay(s, env);
}

proof fn lemma_closing_at(s: Seq<char>, from: int, close: int)
    requires
        0 <= from <= close < s.len(),
        s[close] == '}',
        forall|j: int| from <= j < close ==> s[j] != '}',
    ensures
        closing(s, from) == Some(close),
    decreases close - from,
{
    if from < close {
        lemma_closing_at(s, from + 1, close);
    }
}

/// The reference to a variable becomes its value, which is not looked at again.
pub proof fn references_become_values(name: Seq<char>, env: Seq<(String, String)>)
    requires
        is_ident(name),
    ensures
        expanded(seq!['$', '{'] + name + seq!['}'], env) == variable(env, name),
{
    let s = seq!['$', '{'] + name + seq!['}'];
    let close = s.len() - 1;
    assert forall|j: int| 2 <= j < close implies s[j] != '}' by {
        assert(s[j] == name[j - 2]);
    }
    lemma_closing_at(s, 2, close);
    assert(s.subrange(2, close) =~= name);
    assert(expanded_from(s, env, close + 1) == Seq::<char>::empty());
    assert(variable(env, name) + Seq::<char>::empty() =~= variable(env, name));
}

/// A value with the variables in its texts expanded: in the items of a sequence, in the values of a
/// mapping and under a tag, at any depth, but not in the keys of a mapping.
pub open spec fn expanded_value(v: yaml::ValueView, env: Seq<(String, String)>) -> yaml::ValueView
    decreases v,
{
    match v {
        yaml::ValueView::String(s) => yaml::ValueView::String(expanded(s, env)),
        yaml::ValueView::Sequence(items) => yaml::ValueView::Sequence(
            Seq::new(
                items.len(),
                |i: int|
                    if 0 <= i < items.len() {
                        expanded_value(items[i], env)
                    } else {
                        arbitrary()
                    },
            ),
        ),
        yaml::ValueView::Mapping(pairs) => yaml::ValueView::Mapping(
            Seq::new(
                pairs.len(),
                |i: int|
                    if 0 <= i < pairs.len() {
                        (pairs[i].0, expanded_value(pairs[i].1, env))
                    } else {
                        arbitrary()
                    },
            ),
        ),
        yaml::ValueView::Tagged(tag, inner) => yaml::ValueView::Tagged(
            tag,
            Box::new(expanded_value(*inner, env)),
        ),
        _ => v,
    }
}

/// Expands the variables in the items of a sequence.
fn expand_items(items: &mut Vec<YamlValue>, env: &Vec<(String, String)>)
    ensures
        final(items)@.len() == old(items)@.len(),
        forall|i: int|
            0 <= i < old(items)@.len() ==> (#[trigger] final(items)@[i])@ == expanded_value(
                old(items)@[i]@,
                env@,
            ),
    decreases *old(items),
{
    let n: usize = items.len();
    let mut i: usize = 0;
    while i < n
        invariant
            n == items@.len(),
            n == old(items)@.len(),
            i <= n,
            forall|j: int|
                0 <= j < i ==> (#[trigger] items@[j])@ == expanded_value(old(items)@[j]@, env@),
            forall|j: int| i <= j < n ==> #[trigger] items@[j] == old(items)@[j],
        decreases n - i,
    {
        assert(decreases_to!(*old(items) => old(items)@[i as int]));
        expand_env_value(&mut items[i], env);
        i = i + 1;
    }
}

/// Expands the variables in the values of a mapping.
fn expand_pairs(pairs: &mut Vec<(YamlValue, YamlValue)>, env: &Vec<(String, String)>)
    ensures
        final(pairs)@.len() == old(pairs)@.len(),
        forall|i: int|
            0 <= i < old(pairs)@.len() ==> (#[trigger] final(pairs)@[i]).0 == old(pairs)@[i].0
                && final(pairs)@[i].1@ == expanded_value(old(pairs)@[i].1@, env@),
    decreases *old(pairs),
{
    let n: usize = pairs.len();
    let mut i: usize = 0;
    while i < n
        invariant
            n == pairs@.len(),
            n == old(pairs)@.len(),
            i <= n,
            forall|j: int|
                0 <= j < i ==> (#[trigger] pairs@[j]).0 == old(pairs)@[j].0 && pairs@[j].1@
                    == expanded_value(old(pairs)@[j].1@, env@),
            forall|j: int| i <= j < n ==> #[trigger] pairs@[j] == old(pairs)@[j],
        decreases n - i,
    {
        assert(decreases_to!(*old(pairs) => old(pairs)@[i as int]));
        assert(decreases_to!(old(pairs)@[i as int] => old(pairs)@[i as int].1));
        expand_env_value(&mut pairs[i].1, env);
        i = i + 1;
    }
}

/// Expands the variables in the texts of a document.
pub fn expand_env_value(v: &mut YamlValue, env: &Vec<(String, String)>)
    ensures
        final(v)@ == expanded_value(old(v)@, env@),
    decreases *old(v),
{
    match v {
        YamlValue::String(s) => {
            let t = expand_env(s.as_str(), env);
            *s = t;
        },
        YamlValue::Sequence(items) => {
            expand_items(items, env);
        },
        YamlValue::Mapping(pairs) => {
            expand_pairs(pairs, env);
        },
        YamlValue::Tagged(_, inner) => {
            expand_env_value(inner, env);
        },
        _ => {},
    }
    proof {
        match old(v)@ {
            yaml::ValueView::Sequence(items) => {
                assert(v@->Sequence_0 =~= expanded_value(old(v)@, env@)->Sequence_0);
            },
            yaml::ValueView::Mapping(pairs) => {
                assert(v@->Mapping_0 =~= expanded_value(old(v)@, env@)->Mapping_0);
            },
            _ => {},
        }
    }
}

/// Reads a YAML document and expands the variables in its texts.
pub fn read_document(raw: &str, env: &Vec<(String, String)>) -> (r: Result<YamlValue, String>)
    ensures
        match r {
            Ok(v) => yaml::yaml_document(raw@) matches Ok(read) && v@ == expanded_value(read, env@),
            Err(e) => yaml::yaml_document(raw@) == Err::<yaml::ValueView, Seq<char>>(e@),
        },
{
    match yaml::parse_yaml(raw) {
        Ok(v) => {
            let mut v = v;
            expand_env_value(&mut v, env);
            Ok(v)
        },
        Err(e) => Err(e),
    }
}

proof fn lemma_closing_shifts(p: Seq<char>, s: Seq<char>, i: int)
    requires
        0 <= i,
    ensures
        closing(p + s, p.len() + i) == (match closing(s, i) {
            Some(close) => Some(p.len() + close),
            None => None,
        }),
    decreases s.len() - i,
{
    if i < s.len() {
        assert((p + s)[p.len() + i] == s[i]);
        lemma_closing_shifts(p, s, i + 1);
    }
}

/// What a text becomes from a place on does not depend on what stands before it.
proof fn lemma_expanded_shifts(p: Seq<char>, s: Seq<char>, env: Seq<(String, String)>, i: int)
    requires
        0 <= i,
    ensures
        expanded_from(p + s, env, p.len() + i) == expanded_from(s, env, i),
    decreases s.len() - i,
{
    if i < s.len() {
        assert((p + s)[p.len() + i] == s[i]);
        if i + 1 < s.len() {
            assert((p + s)[p.len() + i + 1] == s[i + 1]);
        }
        lemma_closing_shifts(p, s, i + 2);
        lemma_closing(s, i + 2);
        if let Some(close) = closing(s, i + 2) {
            assert((p + s).subrange(p.len() + i + 2, p.len() + close) =~= s.subrange(
                i + 2,
                close,
            ));
        }
        match reference_at(s, i) {
            Some(close) => {
                lemma_expanded_shifts(p, s, env, close + 1);
            },
            None => {
                lemma_expanded_shifts(p, s, env, i + 1);
            },
        }
    }
}

proof fn lemma_plain_head(p: Seq<char>, s: Seq<char>, env: Seq<(String, String)>, i: int)
    requires
        !p.contains('$'),
        0 <= i <= p.len(),
    ensures
        expanded_from(p + s, env, i) == p.skip(i) + expanded(s, env),
    decreases p.len() - i,
{
    if i < p.len() {
        assert((p + s)[i] == p[i]);
        assert(p.contains(p[i]));
        lemma_plain_head(p, s, env, i + 1);
        assert(p.skip(i) =~= seq![p[i]] + p.skip(i + 1));
        assert(expanded_from(p + s, env, i) =~= p.skip(i) + expanded(s, env));
    } else {
        lemma_expanded_shifts(p, s, env, 0);
        assert(p.skip(i) + expanded(s, env) =~= expanded(s, env));
    }
}

/// A text before which no dollar sign stands is expanded as if nothing did.
pub proof fn plain_beginnings_stay(p: Seq<char>, s: Seq<char>, env: Seq<(String, String)>)
    requires
        !p.contains('$'),
    ensures
        expanded(p + s, env) == p + expanded(s, env),
{
    lemma_plain_head(p, s, env, 0);
    assert(p.skip(0) =~= p);
}

/// A reference is replaced where it stands by the value of its variable, as it is; what comes
/// before and after stays or is expanded for itself.
pub proof fn references_are_replaced_in_place(
    before: Seq<char>,
    name: Seq<char>,
    after: Seq<char>,
    env: Seq<(String, String)>,
)
    requires
        is_ident(name),
        !before.contains('$'),
    ensures
        expanded(before + (seq!['$', '{'] + name + seq!['}'] + after), env) == before + variable(
            env,
            name,
        ) + expanded(after, env),
{
    let reference = seq!['$', '{'] + name + seq!['}'];
    let s = reference + after;
    plain_beginnings_stay(before, s, env);
    let close = reference.len() - 1;
    assert forall|j: int| 2 <= j < close implies s[j] != '}' by {
        assert(s[j] == name[j - 2]);
    }
    assert(s[0] == '$' && s[1] == '{' && s[close] == '}');
    lemma_closing_at(s, 2, close);
    assert(s.subrange(2, close) =~= name);
    lemma_expanded_shifts(reference, after, env, 0);
    assert(expanded(s, env) == variable(env, name) + expanded(after, env));
    assert(before + (variable(env, name) + expanded(after, env)) =~= before + variable(env, name)
        + expanded(after, env));
}

/// Braces after a dollar sign around what is no name of a variable stay as they are.
pub proof fn other_braces_stay(
    before: Seq<char>,
    inner: Seq<char>,
    after: Seq<char>,
    env: Seq<(String, String)>,
)
    requires
        !is_ident(inner),
        !inner.contains('$'),
        !inner.contains('}'),
        !before.contains('$'),
    ensures
        expanded(before + (seq!['$'] + (seq!['{'] + inner + seq!['}'] + after)), env) == before
            + seq!['$'] + (seq!['{'] + inner + seq!['}']) + expanded(after, env),
{
    let braced = seq!['{'] + inner + seq!['}'];
    let s = seq!['$'] + (braced + after);
    plain_beginnings_stay(before, s, env);
    let close = inner.len() as int + 2;
    assert forall|j: int| 2 <= j < close implies s[j] != '}' by {
        assert(s[j] == inner[j - 2]);
        assert(inner.contains(inner[j - 2]));
    }
    assert(s[0] == '$' && s[1] == '{' && s[close] == '}');
    lemma_closing_at(s, 2, close);
    assert(s.subrange(2, close) =~= inner);
    assert(reference_at(s, 0) is None);
    lemma_expanded_shifts(seq!['$'], braced + after, env, 0);
    assert forall|j: int| 0 <= j < braced.len() implies #[trigger] braced[j] != '$' by {
        if 0 < j < braced.len() - 1 {
            assert(braced[j] == inner[j - 1]);
            assert(inner.contains(inner[j - 1]));
        }
    }
    plain_beginnings_stay(braced, after, env);
    assert(expanded(s, env) == seq!['$'] + (braced + expanded(after, env)));
    assert(before + (seq!['$'] + (braced + expanded(after, env))) =~= before + seq!['$'] + braced
        + expanded(after, env));
}

/// A dollar sign that no brace follows stays as it is.
pub proof fn bare_dollars_stay(
    before: Seq<char>,
    after: Seq<char>,
    env: Seq<(String, String)>,
)
    requires
        !before.contains('$'),
        after.len() == 0 || after[0] != '{',
    ensures
        expanded(before + (seq!['$'] + after), env) == before + seq!['$'] + expanded(after, env),
{
    let s = seq!['$'] + after;
    plain_beginnings_stay(before, s, env);
    assert(reference_at(s, 0) is None) by {
        if s.len() > 1 {
            assert(s[1] == after[0]);
        }
    }
    lemma_expanded_shifts(seq!['$'], after, env, 0);
    assert(expanded(s, env) == seq!['$'] + expanded(after, env));
    assert(before + (seq!['$'] + expanded(after, env)) =~= before + seq!['$'] + expanded(
        after,
        env,
    ));
}

/// A reference that is not closed stays as it is.
pub proof fn open_references_stay(s: Seq<char>, env: Seq<(String, String)>)
    requires
        !s.contains('}'),
    ensures
        expanded(s, env) == s,
{
    assert forall|i: int| 0 <= i < s.len() implies (#[trigger] reference_at(s, i)) is None by {
        lemma_closing(s, i + 2);
        if let Some(close) = closing(s, i + 2) {
            assert(s.contains(s[close]));
        }
    }
    texts_without_references_stay(s, env);
}

/// A variable has the value of the first entry of its name, and is empty without one.
pub proof fn variables_have_their_values(env: Seq<(String, String)>, name: Seq<char>, k: int)
    ensures
        0 <= k < env.len() && env[k].0@ == name && (forall|j: int|
            0 <= j < k ==> (#[trigger] env[j]).0@ != name) ==> variable(env, name) == env[k].1@,
        (forall|j: int| 0 <= j < env.len() ==> (#[trigger] env[j]).0@ != name) ==> variable(
            env,
            name,
        ).len() == 0,
{
    let at = |i: int| is_of(env[i], name);
    outcome::lemma_first_index(env.len(), at);
    if 0 <= k < env.len() && env[k].0@ == name && (forall|j: int|
        0 <= j < k ==> (#[trigger] env[j]).0@ != name) {
        assert(at(k));
        outcome::lemma_is_first_index(env.len(), at, k);
    }
}

/// The name of a variable begins with a letter or an underscore and goes on with those and digits.
pub proof fn variable_names_are_identifiers(s: Seq<char>, c: char)
    ensures
        !is_ident(seq![]),
        is_ident(seq![c]) <==> c == '_' || 'a' <= c <= 'z' || 'A' <= c <= 'Z',
        s.len() > 0 ==> (is_ident(s.push(c)) <==> is_ident(s) && (c == '_' || 'a' <= c <= 'z' || 'A'
            <= c <= 'Z' || '0' <= c <= '9')),
{
    let one = seq![c];
    assert(one[0] == c);
    let more = s.push(c);
    if s.len() > 0 {
        assert(more[0] == s[0]);
        assert(more[s.len() as int] == c);
        assert forall|i: int| 0 <= i < s.len() implies #[trigger] more[i] == s[i] by {}
        if is_ident(more) {
            assert forall|i: int| 0 <= i < s.len() implies begins_ident(#[trigger] s[i]) || '0'
                <= s[i] <= '9' by {
                assert(more[i] == s[i]);
            }
        }
    }
}

/// Variables are expanded in every text of a document but the keys of its mappings; nothing else
/// changes.
pub proof fn documents_keep_their_shape(v: yaml::ValueView, env: Seq<(String, String)>, i: int)
    ensures
        match v {
            yaml::ValueView::Null => expanded_value(v, env) == v,
            yaml::ValueView::Bool(_) => expanded_value(v, env) == v,
            yaml::ValueView::Number(_) => expanded_value(v, env) == v,
            yaml::ValueView::String(s) => expanded_value(v, env) == yaml::ValueView::String(
                expanded(s, env),
            ),
            yaml::ValueView::Sequence(items) => {
                &&& expanded_value(v, env) is Sequence
                &&& expanded_value(v, env)->Sequence_0.len() == items.len()
                &&& 0 <= i < items.len() ==> expanded_value(v, env)->Sequence_0[i]
                    == expanded_value(items[i], env)
            },
            yaml::ValueView::Mapping(pairs) => {
                &&& expanded_value(v, env) is Mapping
                &&& expanded_value(v, env)->Mapping_0.len() == pairs.len()
                &&& 0 <= i < pairs.len() ==> expanded_value(v, env)->Mapping_0[i].0 == pairs[i].0
                    && expanded_value(v, env)->Mapping_0[i].1 == expanded_value(pairs[i].1, env)
            },
            yaml::ValueView::Tagged(tag, inner) => expanded_value(v, env)
                == yaml::ValueView::Tagged(tag, Box::new(expanded_value(*inner, env))),
        },
{
}

} // verus!
