//! Machine words of the contract ABI: 256-bit integers and byte strings, and their texts.

use crate::text;
use vstd::prelude::*;

verus! {

/// The number that a big-endian byte string denotes.
pub open spec fn be_nat(bytes: Seq<u8>) -> nat
    decreases bytes.len(),
{
    if bytes.len() == 0 {
        0
    } else {
        be_nat(bytes.drop_last()) * 256 + bytes.last() as nat
    }
}

/// The big-endian byte string of length `width` that denotes `v` modulo `256^width`.
pub open spec fn be_bytes(v: nat, width: nat) -> Seq<u8>
    decreases width,
{
    if width == 0 {
        seq![]
    } else {
        be_bytes(v / 256, (width - 1) as nat).push((v % 256) as u8)
    }
}

/// Two to the power of 256: one more than the largest unsigned word.
pub open spec fn word_limit() -> nat {
    0x1_0000000000000000_0000000000000000_0000000000000000_0000000000000000nat
}

/// Two to the power of 255: one more than the largest signed word.
pub open spec fn sign_limit() -> nat {
    0x8000000000000000_0000000000000000_0000000000000000_0000000000000000nat
}

/// The value of a digit of the case-insensitive alphabet `0-9a-z` in the given radix.
pub open spec fn radix_digit(c: char, radix: nat) -> Option<nat> {
    let d = if '0' <= c <= '9' {
        (c as nat - '0' as nat) as nat
    } else if 'a' <= c <= 'z' {
        (c as nat - 'a' as nat + 10) as nat
    } else if 'A' <= c <= 'Z' {
        (c as nat - 'A' as nat + 10) as nat
    } else {
        radix
    };
    if d < radix {
        Some(d)
    } else {
        None
    }
}

/// The number that a numeral denotes; underscores are skipped and the empty numeral is zero.
pub open spec fn radix_value(s: Seq<char>, radix: nat) -> Option<nat>
    decreases s.len(),
{
    if s.len() == 0 {
        Some(0)
    } else {
        match radix_value(s.drop_last(), radix) {
            None => None,
            Some(v) => if s.last() == '_' {
                Some(v)
            } else {
                match radix_digit(s.last(), radix) {
                    Some(d) => Some(v * radix + d),
                    None => None,
                }
            },
        }
    }
}

/// The unsigned word that a numeral in the given radix denotes, if it is one and fits.
pub open spec fn unsigned_word(s: Seq<char>, radix: nat) -> Option<nat> {
    match radix_value(s, radix) {
        Some(v) => if v < word_limit() {
            Some(v)
        } else {
            None
        },
        None => None,
    }
}

/// The unsigned word that a numeral with an optional radix prefix (`0x`, `0o` or `0b`, in
/// either case) denotes.
pub open spec fn prefixed_word(s: Seq<char>) -> Option<nat> {
    let prefixed = s.len() >= 2 && s[0] == '0';
    if prefixed && (s[1] == 'x' || s[1] == 'X') {
        unsigned_word(s.skip(2), 16)
    } else if prefixed && (s[1] == 'o' || s[1] == 'O') {
        unsigned_word(s.skip(2), 8)
    } else if prefixed && (s[1] == 'b' || s[1] == 'B') {
        unsigned_word(s.skip(2), 2)
    } else {
        unsigned_word(s, 10)
    }
}

/// The signed word, in two's complement, that a numeral with an optional sign denotes.
pub open spec fn signed_word(s: Seq<char>) -> Option<nat> {
    let signed = s.len() >= 1 && (s[0] == '+' || s[0] == '-');
    let magnitude = prefixed_word(if signed { s.skip(1) } else { s });
    match magnitude {
        None => None,
        Some(v) => if signed && s[0] == '-' {
            if v == 0 {
                Some(0)
            } else if v <= sign_limit() {
                Some((word_limit() - v) as nat)
            } else {
                None
            }
        } else if v < sign_limit() {
            Some(v)
        } else {
            None
        },
    }
}

/// The decimal numeral of a word read as an unsigned integer.
pub open spec fn unsigned_decimal(word: Seq<u8>) -> Seq<char> {
    text::decimal(be_nat(word))
}

/// The decimal numeral of a word read as a two's complement integer.
pub open spec fn signed_decimal(word: Seq<u8>) -> Seq<char> {
    let v = be_nat(word);
    if v < sign_limit() {
        text::decimal(v)
    } else {
        "-"@ + text::decimal((word_limit() - v) as nat)
    }
}

/// The value of a hexadecimal digit of either case.
pub open spec fn nibble(c: char) -> Option<u8> {
    match radix_digit(c, 16) {
        Some(d) => Some(d as u8),
        None => None,
    }
}

/// The bytes that a string of hexadecimal digit pairs denotes.
pub open spec fn hex_pairs(s: Seq<char>) -> Option<Seq<u8>>
    decreases s.len(),
{
    if s.len() == 0 {
        Some(seq![])
    } else if s.len() == 1 {
        None
    } else {
        match (hex_pairs(s.take(s.len() - 2)), nibble(s[s.len() - 2]), nibble(s.last())) {
            (Some(head), Some(high), Some(low)) => Some(head.push((high * 16 + low) as u8)),
            _ => None,
        }
    }
}

/// The bytes that a hexadecimal string denotes; a leading `0x` or `0X` is skipped.
pub open spec fn hex_bytes(s: Seq<char>) -> Option<Seq<u8>> {
    if s.len() >= 2 && s[0] == '0' && (s[1] == 'x' || s[1] == 'X') {
        hex_pairs(s.skip(2))
    } else {
        hex_pairs(s)
    }
}

/// The message of the error with which `U256::from_str_radix` refuses a numeral.
pub uninterp spec fn unsigned_refusal(s: Seq<char>, radix: u64) -> Seq<char>;

/// `alloy_primitives::U256::from_str_radix`: digits of the case-insensitive alphabet `0-9a-z`
/// below the radix, underscores skipped, the empty text zero; refused where another character
/// occurs or the value does not fit in 256 bits. The value is handed out big-endian.
#[verifier::external_body]
pub(crate) fn parse_unsigned(s: &str, radix: u64) -> (r: Result<[u8; 32], String>)
    requires
        2 <= radix <= 36,
    ensures
        r is Ok <==> unsigned_word(s@, radix as nat) is Some,
        r matches Ok(w) ==> w@ == be_bytes(unsigned_word(s@, radix as nat)->0, 32),
        r matches Err(e) ==> e@ == unsigned_refusal(s@, radix),
{
    match alloy_primitives::U256::from_str_radix(s, radix) {
        Ok(v) => Ok(v.to_be_bytes::<32>()),
        Err(e) => Err(e.to_string()),
    }
}

/// The message of the error with which `I256::from_str` refuses a numeral.
pub uninterp spec fn signed_refusal(s: Seq<char>) -> Seq<char>;

/// `<alloy_primitives::I256 as FromStr>::from_str`: an optional sign, an optional radix prefix
/// (`0x`, `0o`, `0b`, either case; decimal without one) and the digits, as for the unsigned
/// parse; refused where a character is no digit or the value does not fit in 256 bits with a
/// sign. The value is handed out big-endian in two's complement.
#[verifier::external_body]
pub(crate) fn parse_signed(s: &str) -> (r: Result<[u8; 32], String>)
    ensures
        r is Ok <==> signed_word(s@) is Some,
        r matches Ok(w) ==> w@ == be_bytes(signed_word(s@)->0, 32),
        r matches Err(e) ==> e@ == signed_refusal(s@),
{
    match s.parse::<alloy_primitives::I256>() {
        Ok(v) => Ok(v.to_be_bytes::<32>()),
        Err(e) => Err(e.to_string()),
    }
}

/// `<alloy_primitives::U256 as Display>::fmt`: the decimal numeral of the number that the
/// big-endian word denotes.
#[verifier::external_body]
pub(crate) fn unsigned_text(word: &[u8; 32]) -> (r: String)
    ensures
        r@ == unsigned_decimal(word@),
{
    alloy_primitives::U256::from_be_bytes::<32>(*word).to_string()
}

/// `<alloy_primitives::I256 as Display>::fmt`: the decimal numeral, after a minus sign where it
/// is negative, of the number that the big-endian word denotes in two's complement.
#[verifier::external_body]
pub(crate) fn signed_text(word: &[u8; 32]) -> (r: String)
    ensures
        r@ == signed_decimal(word@),
{
    alloy_primitives::I256::from_be_bytes::<32>(*word).to_string()
}

/// The message of the error with which `alloy_primitives::hex::decode` refuses a text.
pub uninterp spec fn hex_refusal(s: Seq<char>) -> Seq<char>;

/// `alloy_primitives::hex::decode`: one byte per pair of hexadecimal digits, after a `0x` or
/// `0X` if the text begins with one; refused where the count is odd or a character is no
/// hexadecimal digit.
#[verifier::external_body]
pub(crate) fn decode_hex(s: &str) -> (r: Result<Vec<u8>, String>)
    ensures
        r is Ok <==> hex_bytes(s@) is Some,
        r matches Ok(v) ==> v@ == hex_bytes(s@)->0,
        r matches Err(e) ==> e@ == hex_refusal(s@),
{
    match alloy_primitives::hex::decode(s) {
        Ok(v) => Ok(v),
        Err(e) => Err(e.to_string()),
    }
}

/// The 20 bytes that an address text denotes.
pub open spec fn address_bytes(s: Seq<char>) -> Option<Seq<u8>> {
    match hex_bytes(s) {
        Some(b) => if b.len() == 20 {
            Some(b)
        } else {
            None
        },
        None => None,
    }
}

/// The message of the error with which `Address::from_str` refuses a text.
pub uninterp spec fn address_refusal(s: Seq<char>) -> Seq<char>;

/// `<alloy_primitives::Address as FromStr>::from_str`: the hexadecimal text of exactly 20 bytes,
/// after a `0x` or `0X` if the text begins with one. A mixed-case checksum is not looked at.
#[verifier::external_body]
pub(crate) fn parse_address_text(s: &str) -> (r: Result<[u8; 20], String>)
    ensures
        r is Ok <==> address_bytes(s@) is Some,
        r matches Ok(a) ==> a@ == address_bytes(s@)->0,
        r matches Err(e) ==> e@ == address_refusal(s@),
{
    match s.parse::<alloy_primitives::Address>() {
        Ok(a) => Ok(a.into_array()),
        Err(e) => Err(e.to_string()),
    }
}

proof fn lemma_be_length(v: nat, width: nat)
    ensures
        be_bytes(v, width).len() == width,
    decreases width,
{
    if width > 0 {
        lemma_be_length(v / 256, (width - 1) as nat);
    }
}

/// A big-endian byte string of `v` denotes `v` again, if `v` fits.
pub proof fn big_endian_round_trip(v: nat, width: nat)
    requires
        v < vstd::arithmetic::power::pow(256, width),
    ensures
        be_bytes(v, width).len() == width,
        be_nat(be_bytes(v, width)) == v,
    decreases width,
{
    vstd::arithmetic::power::lemma_pow0(256);
    lemma_be_length(v, width);
    if width > 0 {
        let w = (width - 1) as nat;
        vstd::arithmetic::power::lemma_pow1(256);
        vstd::arithmetic::power::lemma_pow_adds(256, w, 1);
        assert(vstd::arithmetic::power::pow(256, width) == vstd::arithmetic::power::pow(256, w) * 256);
        assert(v / 256 < vstd::arithmetic::power::pow(256, w)) by (nonlinear_arith)
            requires
                v < vstd::arithmetic::power::pow(256, w) * 256,
        ;
        big_endian_round_trip(v / 256, w);
        assert(be_bytes(v, width).drop_last() =~= be_bytes(v / 256, w));
    }
}

/// The decimal numeral of a number denotes that number.
pub proof fn decimal_reads_back(n: nat)
    ensures
        radix_value(text::decimal(n), 10) == Some(n),
    decreases n,
{
    reveal_with_fuel(radix_value, 2);
    let s = text::decimal(n);
    if n < 10 {
        assert(s.drop_last() =~= seq![]);
    } else {
        decimal_reads_back(n / 10);
        assert(s.drop_last() =~= text::decimal(n / 10));
    }
}

/// The decimal numeral of an unsigned word is read as that word, and the word that a numeral is
/// read as is shown as the number's numeral.
pub proof fn unsigned_words_read_back(n: nat)
    requires
        n < word_limit(),
    ensures
        unsigned_word(text::decimal(n), 10) == Some(n),
        unsigned_decimal(be_bytes(n, 32)) == text::decimal(n),
{
    decimal_reads_back(n);
    words_denote(n);
}

/// The word of a number denotes that number.
pub proof fn words_denote(n: nat)
    requires
        n < word_limit(),
    ensures
        be_bytes(n, 32).len() == 32,
        be_nat(be_bytes(n, 32)) == n,
{
    lemma_limits();
    big_endian_round_trip(n, 32);
}

/// The decimal numeral of an integer, after a minus sign where it is negative.
pub open spec fn integer_text(v: int) -> Seq<char> {
    if v < 0 {
        "-"@ + text::decimal((-v) as nat)
    } else {
        text::decimal(v as nat)
    }
}

/// The word of an integer in two's complement.
pub open spec fn complement(v: int) -> nat {
    if v < 0 {
        (word_limit() + v) as nat
    } else {
        v as nat
    }
}

/// The decimal numeral of a signed integer is read as its word in two's complement, which denotes
/// the integer and is shown as the numeral.
pub proof fn signed_words_read_back(v: int)
    requires
        -sign_limit() <= v < sign_limit(),
    ensures
        signed_word(integer_text(v)) == Some(complement(v)),
        signed_value(be_bytes(complement(v), 32)) == v,
        signed_decimal(be_bytes(complement(v), 32)) == integer_text(v),
{
    let m = (if v < 0 {
        -v
    } else {
        v
    }) as nat;
    let digits = text::decimal(m);
    words_denote(complement(v));
    unsigned_words_read_back(m);
    text::decimal_is_digits(m);
    reveal_strlit("-");
    assert(prefixed_word(digits) == Some(m)) by {
        if digits.len() >= 2 {
            assert('0' <= digits[1] <= '9');
        }
    }
    assert('0' <= digits[0] <= '9');
    if v < 0 {
        assert(integer_text(v)[0] == '-');
        assert(integer_text(v).skip(1) =~= digits);
    }
}

proof fn lemma_hex_digits(d: u8)
    requires
        d < 16,
    ensures
        nibble(text::hex_char(d)) == Some(d),
{
}

proof fn lemma_hex_pairs(b: Seq<u8>)
    ensures
        hex_pairs(text::lower_hex(b)) == Some(b),
        text::lower_hex(b).len() == 2 * b.len(),
    decreases b.len(),
{
    let s = text::lower_hex(b);
    if b.len() > 0 {
        lemma_hex_pairs(b.drop_last());
        assert(s.take(s.len() - 2) =~= text::lower_hex(b.drop_last()));
        lemma_hex_digits(b.last() / 16);
        lemma_hex_digits(b.last() % 16);
        assert(b.drop_last().push(b.last()) =~= b);
    }
}

/// The hexadecimal text of a byte string denotes that byte string; so the address in a label is
/// read as the address.
pub proof fn hex_reads_back(b: Seq<u8>)
    ensures
        hex_bytes(text::hex_text(b)) == Some(b),
        b.len() == 20 ==> address_bytes(text::hex_text(b)) == Some(b),
{
    reveal_strlit("0x");
    lemma_hex_pairs(b);
    assert(text::hex_text(b).skip(2) =~= text::lower_hex(b));
}

/// Whether a word, read as an unsigned integer, is one of the given number of bits.
pub open spec fn fits_unsigned(word: Seq<u8>, bits: nat) -> bool {
    be_nat(word) < vstd::arithmetic::power2::pow2(bits)
}

/// The number that a word denotes in two's complement.
pub open spec fn signed_value(word: Seq<u8>) -> int {
    if be_nat(word) < sign_limit() {
        be_nat(word) as int
    } else {
        be_nat(word) - word_limit()
    }
}

/// Whether a word, read in two's complement, is a signed integer of the given number of bits.
pub open spec fn fits_signed(word: Seq<u8>, bits: nat) -> bool {
    &&& bits > 0
    &&& -vstd::arithmetic::power2::pow2((bits - 1) as nat) <= signed_value(word)
        < vstd::arithmetic::power2::pow2((bits - 1) as nat)
}

/// Eight bits more make room for one byte more.
proof fn lemma_byte_more(head: nat, last: u8, bits: nat)
    requires
        bits >= 8,
    ensures
        head * 256 + last < vstd::arithmetic::power2::pow2(bits) <==> head
            < vstd::arithmetic::power2::pow2((bits - 8) as nat),
{
    let rest = (bits - 8) as nat;
    vstd::arithmetic::power2::lemma2_to64();
    vstd::arithmetic::power2::lemma_pow2_adds(rest, 8);
    assert(vstd::arithmetic::power2::pow2(bits) == vstd::arithmetic::power2::pow2(rest) * 256);
}

/// A byte string denotes zero exactly if all its bytes are zero.
proof fn lemma_be_zero(bytes: Seq<u8>)
    ensures
        be_nat(bytes) == 0 <==> (forall|i: int| 0 <= i < bytes.len() ==> #[trigger] bytes[i] == 0),
    decreases bytes.len(),
{
    if bytes.len() > 0 {
        let head = bytes.drop_last();
        lemma_be_zero(head);
        if forall|i: int| 0 <= i < bytes.len() ==> #[trigger] bytes[i] == 0 {
            assert forall|i: int| 0 <= i < head.len() implies #[trigger] head[i] == 0 by {
                assert(bytes[i] == 0);
            }
        }
        if be_nat(bytes) == 0 {
            assert(be_nat(head) == 0 && bytes.last() == 0);
            assert forall|i: int| 0 <= i < bytes.len() implies #[trigger] bytes[i] == 0 by {
                if i < head.len() {
                    assert(head[i] == 0);
                }
            }
        }
    }
}

/// Whether a word, read as an unsigned integer, is one of the given number of bits.
pub fn is_uint(word: &[u8; 32], bits: usize) -> (r: bool)
    ensures
        r == fits_unsigned(word@, bits as nat),
{
    let mut n: usize = 32;
    let mut left: usize = bits;
    assert(word@.take(32) =~= word@);
    while n > 0 && left >= 8
        invariant
            n <= 32,
            word@.len() == 32,
            fits_unsigned(word@, bits as nat) == fits_unsigned(word@.take(n as int), left as nat),
        decreases n,
    {
        proof {
            let now = word@.take(n as int);
            assert(now.drop_last() =~= word@.take(n - 1));
            lemma_byte_more(be_nat(now.drop_last()), now.last(), left as nat);
        }
        n = n - 1;
        left = left - 8;
    }
    if n == 0 {
        proof {
            vstd::arithmetic::power2::lemma_pow2_pos(left as nat);
        }
        return true;
    }
    let limit: u8 = match left {
        0 => 1,
        1 => 2,
        2 => 4,
        3 => 8,
        4 => 16,
        5 => 32,
        6 => 64,
        _ => 128,
    };
    let ghost now = word@.take(n as int);
    let ghost head = now.drop_last();
    proof {
        vstd::arithmetic::power2::lemma2_to64();
        assert(limit == vstd::arithmetic::power2::pow2(left as nat));
        lemma_be_zero(head);
        assert(now.last() == word@[n - 1]);
        assert(be_nat(now) == be_nat(head) * 256 + now.last());
    }
    let mut i: usize = 0;
    while i < n - 1
        invariant
            0 < n <= 32,
            i <= n - 1,
            word@.len() == 32,
            now == word@.take(n as int),
            head == now.drop_last(),
            limit <= 128,
            be_nat(head) == 0 <==> (forall|j: int| 0 <= j < head.len() ==> #[trigger] head[j] == 0),
            be_nat(now) == be_nat(head) * 256 + now.last(),
            limit == vstd::arithmetic::power2::pow2(left as nat),
            fits_unsigned(word@, bits as nat) == fits_unsigned(now, left as nat),
            forall|j: int| 0 <= j < i ==> #[trigger] head[j] == 0,
        decreases n - i,
    {
        if word[i] != 0 {
            assert(head[i as int] == word@[i as int]);
            return false;
        }
        i = i + 1;
    }
    word[n - 1] < limit
}

/// The word with every bit turned over.
spec fn turned(word: Seq<u8>) -> Seq<u8> {
    Seq::new(word.len(), |i: int| (255 - word[i]) as u8)
}

proof fn lemma_turned(word: Seq<u8>)
    ensures
        be_nat(turned(word)) + be_nat(word) + 1 == vstd::arithmetic::power::pow(256, word.len()),
    decreases word.len(),
{
    vstd::arithmetic::power::lemma_pow0(256);
    if word.len() > 0 {
        let head = word.drop_last();
        lemma_turned(head);
        assert(turned(word).drop_last() =~= turned(head));
        vstd::arithmetic::power::lemma_pow1(256);
        vstd::arithmetic::power::lemma_pow_adds(256, head.len(), 1);
    }
}

proof fn lemma_limits()
    ensures
        vstd::arithmetic::power::pow(256, 32) == word_limit(),
        vstd::arithmetic::power2::pow2(255) == sign_limit(),
{
    reveal_with_fuel(vstd::arithmetic::power::pow, 33);
    vstd::arithmetic::power2::lemma2_to64();
    vstd::arithmetic::power2::lemma2_to64_rest();
    vstd::arithmetic::power2::lemma_pow2_adds(64, 64);
    vstd::arithmetic::power2::lemma_pow2_adds(128, 64);
    vstd::arithmetic::power2::lemma_pow2_adds(192, 63);
}

/// Whether a word, read in two's complement, is a signed integer of the given number of bits.
pub fn is_int(word: &[u8; 32], bits: usize) -> (r: bool)
    ensures
        r == fits_signed(word@, bits as nat),
{
    if bits == 0 {
        return false;
    }
    proof {
        lemma_limits();
        lemma_turned(word@);
        vstd::arithmetic::power2::lemma_pow2_pos((bits - 1) as nat);
    }
    if is_uint(word, 255) {
        return is_uint(word, bits - 1);
    }
    let mut other = [0u8; 32];
    for i in 0..32
        invariant
            word@.len() == 32,
            other@.len() == 32,
            forall|j: int| 0 <= j < i ==> other@[j] == 255 - word@[j],
    {
        other[i] = 255 - word[i];
    }
    assert(other@ =~= turned(word@));
    is_uint(&other, bits - 1)
}

/// The hexadecimal digits of bytes, without a prefix, denote those bytes.
pub proof fn lower_hex_reads_back(b: Seq<u8>)
    ensures
        hex_bytes(text::lower_hex(b)) == Some(b),
{
    lemma_hex_pairs(b);
    text::lower_hex_is_digits(b);
    let s = text::lower_hex(b);
    if s.len() >= 2 {
        assert('0' <= s[1] <= '9' || 'a' <= s[1] <= 'f');
    }
}

proof fn lemma_hex_value(b: Seq<u8>)
    ensures
        radix_value(text::lower_hex(b), 16) == Some(be_nat(b)),
    decreases b.len(),
{
    reveal_with_fuel(radix_value, 3);
    let s = text::lower_hex(b);
    if b.len() > 0 {
        let head = text::lower_hex(b.drop_last());
        lemma_hex_value(b.drop_last());
        lemma_hex_digits(b.last() / 16);
        lemma_hex_digits(b.last() % 16);
        assert(s.drop_last() =~= head.push(text::hex_char(b.last() / 16)));
        assert(s.drop_last().drop_last() =~= head);
        let n = be_nat(b.drop_last());
        assert((n * 16 + b.last() / 16) * 16 + b.last() % 16 == n * 256 + b.last()) by (
        nonlinear_arith)
            requires
                b.last() as int == (b.last() / 16) * 16 + b.last() % 16,
        ;
    }
}

/// The hexadecimal digits of bytes are read as the number that the bytes denote.
pub proof fn hexadecimal_reads_back(b: Seq<u8>)
    requires
        be_nat(b) < word_limit(),
    ensures
        unsigned_word(text::lower_hex(b), 16) == Some(be_nat(b)),
{
    lemma_hex_value(b);
}

} // verus!
