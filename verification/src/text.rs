//! Text primitives: character sequences, ordering, decimal and hexadecimal rendering.

use vstd::prelude::*;

verus! {

/// `String::push` of the standard library: the character is appended to the text.
pub assume_specification[ std::string::String::push ](s: &mut String, c: char)
    ensures
        final(s)@ == old(s)@.push(c),
;

/// The code points with the Unicode property `White_Space`.
pub open spec fn is_white_space(c: char) -> bool {
    let u = c as u32;
    ||| 0x09 <= u <= 0x0d
    ||| u == 0x20
    ||| u == 0x85
    ||| u == 0xa0
    ||| u == 0x1680
    ||| 0x2000 <= u <= 0x200a
    ||| u == 0x2028
    ||| u == 0x2029
    ||| u == 0x202f
    ||| u == 0x205f
    ||| u == 0x3000
}

/// The text without its leading and trailing white space.
pub open spec fn trimmed(s: Seq<char>) -> Seq<char>
    decreases s.len(),
{
    if s.len() == 0 {
        s
    } else if is_white_space(s.first()) {
        trimmed(s.drop_first())
    } else if is_white_space(s.last()) {
        trimmed(s.drop_last())
    } else {
        s
    }
}

/// `str::trim` of the standard library: what is left when leading and trailing
/// characters with the Unicode property `White_Space` are taken off.
pub assume_specification[ str::trim ](s: &str) -> (r: &str)
    ensures
        r@ == trimmed(s@),
;

/// The quoted and escaped form that the standard library's `Debug` gives a text.
pub uninterp spec fn debug_form(s: Seq<char>) -> Seq<char>;

/// `<str as Debug>::fmt` of the standard library, through `format!("{:?}", s)`: the result
/// depends on the text alone and is given the name `debug_form`.
#[verifier::external_body]
pub(crate) fn quoted(s: &str) -> (r: String)
    ensures
        r@ == debug_form(s@),
{
    format!("{:?}", s)
}

/// The texts of a vector, as sequences of characters.
pub open spec fn texts(v: Seq<String>) -> Seq<Seq<char>> {
    Seq::new(v.len(), |i: int| v[i]@)
}

/// The characters of a text, one by one.
pub fn to_chars(s: &str) -> (r: Vec<char>)
    ensures
        r@ == s@,
{
    let mut out: Vec<char> = Vec::new();
    for c in it: s.chars()
        invariant
            it.seq() == s@,
            out@ == s@.take(it.index() as int),
    {
        out.push(c);
    }
    out
}

/// The text made of `chars[from..to]`.
pub fn slice_text(chars: &Vec<char>, from: usize, to: usize) -> (r: String)
    requires
        from <= to <= chars@.len(),
    ensures
        r@ == chars@.subrange(from as int, to as int),
{
    let mut out = String::new();
    let mut i: usize = from;
    while i < to
        invariant
            from <= i <= to <= chars@.len(),
            out@ == chars@.subrange(from as int, i as int),
        decreases to - i,
    {
        out.push(chars[i]);
        i = i + 1;
    }
    out
}

/// Whether two texts hold the same characters.
pub fn same(a: &str, b: &str) -> (r: bool)
    ensures
        r == (a@ == b@),
{
    let x = to_chars(a);
    let y = to_chars(b);
    if x.len() != y.len() {
        return false;
    }
    let mut i: usize = 0;
    while i < x.len()
        invariant
            i <= x@.len(),
            x@.len() == y@.len(),
            x@ == a@,
            y@ == b@,
            forall|j: int| 0 <= j < i ==> x@[j] == y@[j],
        decreases x@.len() - i,
    {
        if x[i] != y[i] {
            return false;
        }
        i = i + 1;
    }
    assert(x@ =~= y@);
    true
}

/// Whether `prefix` stands at the beginning of `s`.
pub open spec fn begins_with(s: Seq<char>, prefix: Seq<char>) -> bool {
    prefix.len() <= s.len() && s.take(prefix.len() as int) == prefix
}

/// Whether `prefix` stands at the beginning of `s`.
pub fn has_prefix(s: &str, prefix: &str) -> (r: bool)
    ensures
        r == begins_with(s@, prefix@),
{
    let x = to_chars(s);
    let p = to_chars(prefix);
    if p.len() > x.len() {
        return false;
    }
    let mut i: usize = 0;
    while i < p.len()
        invariant
            i <= p@.len() <= x@.len(),
            x@ == s@,
            p@ == prefix@,
            forall|j: int| 0 <= j < i ==> x@[j] == p@[j],
        decreases p@.len() - i,
    {
        if x[i] != p[i] {
            assert(s@.take(p@.len() as int)[i as int] == x@[i as int]);
            return false;
        }
        i = i + 1;
    }
    assert(s@.take(p@.len() as int) =~= prefix@);
    true
}

/// Lexicographic order by code points, which is also the order of the UTF-8 encodings.
pub open spec fn lex_less(a: Seq<char>, b: Seq<char>) -> bool
    decreases a.len(),
{
    if b.len() == 0 {
        false
    } else if a.len() == 0 {
        true
    } else if a[0] != b[0] {
        a[0] < b[0]
    } else {
        lex_less(a.drop_first(), b.drop_first())
    }
}

pub proof fn lemma_lex_irreflexive(a: Seq<char>)
    ensures
        !lex_less(a, a),
    decreases a.len(),
{
    if a.len() > 0 {
        lemma_lex_irreflexive(a.drop_first());
    }
}

pub proof fn lemma_lex_transitive(a: Seq<char>, b: Seq<char>, c: Seq<char>)
    requires
        lex_less(a, b),
        lex_less(b, c),
    ensures
        lex_less(a, c),
    decreases a.len(),
{
    if a.len() > 0 && b.len() > 0 && c.len() > 0 && a[0] == b[0] && b[0] == c[0] {
        lemma_lex_transitive(a.drop_first(), b.drop_first(), c.drop_first());
    }
}

pub proof fn lemma_lex_total(a: Seq<char>, b: Seq<char>)
    ensures
        a == b || lex_less(a, b) || lex_less(b, a),
    decreases a.len(),
{
    if a.len() == 0 || b.len() == 0 {
        if a.len() == 0 && b.len() == 0 {
            assert(a =~= b);
        }
    } else if a[0] == b[0] {
        lemma_lex_total(a.drop_first(), b.drop_first());
        if a.drop_first() == b.drop_first() {
            assert(a =~= seq![a[0]] + a.drop_first());
            assert(b =~= seq![b[0]] + b.drop_first());
        }
    }
}

/// Whether `a` comes before `b` in lexicographic order.
pub fn precedes(a: &str, b: &str) -> (r: bool)
    ensures
        r == lex_less(a@, b@),
{
    let x = to_chars(a);
    let y = to_chars(b);
    let mut i: usize = 0;
    proof {
        assert(x@.skip(0) =~= x@);
        assert(y@.skip(0) =~= y@);
    }
    while i < x.len() && i < y.len()
        invariant
            i <= x@.len(),
            i <= y@.len(),
            x@ == a@,
            y@ == b@,
            lex_less(x@, y@) == lex_less(x@.skip(i as int), y@.skip(i as int)),
        decreases x@.len() - i,
    {
        if x[i] != y[i] {
            return x[i] < y[i];
        }
        proof {
            assert(x@.skip(i as int).drop_first() =~= x@.skip(i + 1));
            assert(y@.skip(i as int).drop_first() =~= y@.skip(i + 1));
        }
        i = i + 1;
    }
    i < y.len()
}

/// The decimal digit with the given value.
pub open spec fn digit_char(d: nat) -> char {
    (0x30 + d) as char
}

/// The decimal numeral of `n`, without leading zeros.
pub open spec fn decimal(n: nat) -> Seq<char>
    decreases n,
{
    if n < 10 {
        seq![digit_char(n)]
    } else {
        decimal(n / 10).push(digit_char(n % 10))
    }
}

fn push_digit(out: &mut String, d: u8)
    requires
        d < 10,
    ensures
        final(out)@ == old(out)@.push(digit_char(d as nat)),
{
    out.push((0x30 + d) as char);
}

fn write_decimal(n: u64, out: &mut String)
    ensures
        final(out)@ == old(out)@ + decimal(n as nat),
    decreases n,
{
    if n >= 10 {
        write_decimal(n / 10, out);
        push_digit(out, (n % 10) as u8);
    } else {
        push_digit(out, n as u8);
    }
    assert(out@ =~= old(out)@ + decimal(n as nat));
}

/// The decimal numeral of `n`.
pub fn decimal_text(n: u64) -> (r: String)
    ensures
        r@ == decimal(n as nat),
{
    let mut out = String::new();
    write_decimal(n, &mut out);
    assert(out@ =~= decimal(n as nat));
    out
}

/// The decimal numeral of a length or an index.
pub fn count_text(n: usize) -> (r: String)
    ensures
        r@ == decimal(n as nat),
{
    decimal_text(n as u64)
}

/// The lower-case hexadecimal digit with the given value.
pub open spec fn hex_char(d: u8) -> char {
    if d < 10 {
        (0x30 + d) as char
    } else {
        (0x57 + d) as char
    }
}

/// Two lower-case hexadecimal digits per byte.
pub open spec fn lower_hex(bytes: Seq<u8>) -> Seq<char>
    decreases bytes.len(),
{
    if bytes.len() == 0 {
        seq![]
    } else {
        lower_hex(bytes.drop_last()).push(hex_char(bytes.last() / 16)).push(
            hex_char(bytes.last() % 16),
        )
    }
}

fn push_hex(out: &mut String, d: u8)
    requires
        d < 16,
    ensures
        final(out)@ == old(out)@.push(hex_char(d)),
{
    if d < 10 {
        out.push((0x30 + d) as char);
    } else {
        out.push((0x57 + d) as char);
    }
}

/// `0x` and two lower-case hexadecimal digits per byte.
pub open spec fn hex_text(bytes: Seq<u8>) -> Seq<char> {
    "0x"@ + lower_hex(bytes)
}

/// `0x` and two lower-case hexadecimal digits per byte.
pub fn prefixed_hex(bytes: &[u8]) -> (r: String)
    ensures
        r@ == hex_text(bytes@),
{
    let mut out = "0x".to_string();
    let mut i: usize = 0;
    assert(out@ =~= "0x"@ + lower_hex(bytes@.take(0)));
    while i < bytes.len()
        invariant
            i <= bytes@.len(),
            out@ == "0x"@ + lower_hex(bytes@.take(i as int)),
        decreases bytes@.len() - i,
    {
        push_hex(&mut out, bytes[i] / 16);
        push_hex(&mut out, bytes[i] % 16);
        i = i + 1;
        assert(bytes@.take(i as int).drop_last() =~= bytes@.take(i - 1));
        assert(out@ =~= "0x"@ + lower_hex(bytes@.take(i as int)));
    }
    assert(bytes@.take(i as int) =~= bytes@);
    out
}

/// Whether two byte strings are equal.
pub fn same_bytes(a: &[u8], b: &[u8]) -> (r: bool)
    ensures
        r == (a@ == b@),
{
    if a.len() != b.len() {
        return false;
    }
    let mut i: usize = 0;
    while i < a.len()
        invariant
            i <= a@.len(),
            a@.len() == b@.len(),
            forall|j: int| 0 <= j < i ==> a@[j] == b@[j],
        decreases a@.len() - i,
    {
        if a[i] != b[i] {
            return false;
        }
        i = i + 1;
    }
    assert(a@ =~= b@);
    true
}

/// The form that the standard library's `Debug` gives a list of texts.
pub open spec fn listing(items: Seq<Seq<char>>) -> Seq<char> {
    "["@ + listed(items) + "]"@
}

/// The quoted items of a list, separated by commas.
pub open spec fn listed(items: Seq<Seq<char>>) -> Seq<char>
    decreases items.len(),
{
    if items.len() == 0 {
        seq![]
    } else if items.len() == 1 {
        debug_form(items[0])
    } else {
        listed(items.drop_last()) + ", "@ + debug_form(items.last())
    }
}

/// A second copy of a byte string.
pub fn copy_bytes(b: &Vec<u8>) -> (r: Vec<u8>)
    ensures
        r@ == b@,
{
    let mut out: Vec<u8> = Vec::new();
    for i in 0..b.len()
        invariant
            out@ == b@.take(i as int),
    {
        out.push(b[i]);
        assert(out@ =~= b@.take(i + 1));
    }
    assert(b@.take(b@.len() as int) =~= b@);
    out
}

/// A second copy of a list of texts.
pub fn copy_texts(items: &Vec<String>) -> (r: Vec<String>)
    ensures
        texts(r@) == texts(items@),
{
    let mut out: Vec<String> = Vec::new();
    for i in 0..items.len()
        invariant
            out@.len() == i,
            forall|j: int| 0 <= j < i ==> (#[trigger] out@[j])@ == items@[j]@,
    {
        out.push(items[i].clone());
    }
    assert(texts(out@) =~= texts(items@));
    out
}

/// A decimal numeral is made of digits.
pub proof fn decimal_is_digits(n: nat)
    ensures
        decimal(n).len() > 0,
        forall|i: int| 0 <= i < decimal(n).len() ==> '0' <= #[trigger] decimal(n)[i] <= '9',
    decreases n,
{
    if n >= 10 {
        decimal_is_digits(n / 10);
    }
}

/// The hexadecimal text of bytes has two digits per byte, each of them `0` to `9` or `a` to `f`.
pub proof fn lower_hex_is_digits(b: Seq<u8>)
    ensures
        lower_hex(b).len() == 2 * b.len(),
        forall|i: int|
            0 <= i < lower_hex(b).len() ==> '0' <= #[trigger] lower_hex(b)[i] <= '9' || 'a'
                <= lower_hex(b)[i] <= 'f',
    decreases b.len(),
{
    if b.len() > 0 {
        lower_hex_is_digits(b.drop_last());
    }
}

/// Texts are ordered by the first character in which they differ; the beginning of a text comes
/// before it.
pub proof fn the_first_difference_decides(
    common: Seq<char>,
    c: char,
    d: char,
    s: Seq<char>,
    t: Seq<char>,
)
    ensures
        lex_less(common, common + seq![c] + s),
        c < d ==> lex_less(common + seq![c] + s, common + seq![d] + t),
        d < c ==> !lex_less(common + seq![c] + s, common + seq![d] + t),
    decreases common.len(),
{
    let a = common + seq![c] + s;
    let b = common + seq![d] + t;
    if common.len() > 0 {
        let rest = common.drop_first();
        the_first_difference_decides(rest, c, d, s, t);
        assert(a.drop_first() =~= rest + seq![c] + s);
        assert(b.drop_first() =~= rest + seq![d] + t);
        assert(a[0] == common[0] && b[0] == common[0]);
    } else {
        assert(a[0] == c && b[0] == d);
    }
}

} // verus!
