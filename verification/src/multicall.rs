//! Calls of view functions, bundled for the Multicall3 contract.

use crate::text;
use crate::words;
use vstd::prelude::*;

verus! {

/// The address at which Multicall3 is deployed on most chains.
pub const CANONICAL_MULTICALL3: &'static str = "0xcA11bde05977b3631167028862bE2a173976CA11";

/// A planned call: the contract's address and the encoded function and arguments.
#[derive(Debug)]
pub struct CallRequest {
    pub target: [u8; 20],
    pub call_data: Vec<u8>,
}

/// What a [`CallRequest`] says.
#[verifier::ext_equal]
pub struct CallView {
    pub target: Seq<u8>,
    pub call_data: Seq<u8>,
}

impl View for CallRequest {
    type V = CallView;

    open spec fn view(&self) -> CallView {
        CallView { target: self.target@, call_data: self.call_data@ }
    }
}

/// What a list of calls says.
pub open spec fn calls_view(calls: Seq<CallRequest>) -> Seq<CallView> {
    Seq::new(calls.len(), |i: int| calls[i]@)
}

/// What became of a call.
#[derive(Debug)]
pub struct CallResult {
    pub success: bool,
    pub return_data: Vec<u8>,
}

/// One call of a Multicall3 request.
#[derive(Debug)]
pub struct Call3 {
    pub target: [u8; 20],
    pub allow_failure: bool,
    pub call_data: Vec<u8>,
}

/// The number of calls that go into one request: at most `max`, and all of them where `max` is
/// zero.
pub open spec fn chunk_size(len: int, max: int) -> int {
    if max == 0 || max > len {
        len
    } else {
        max
    }
}

/// The number of requests that `len` calls take.
pub open spec fn chunk_total(len: int, max: int) -> int {
    if len == 0 {
        0
    } else {
        (len + chunk_size(len, max) - 1) / chunk_size(len, max)
    }
}

/// The lesser of two numbers.
pub open spec fn lesser(a: int, b: int) -> int {
    if a <= b {
        a
    } else {
        b
    }
}

/// The calls that go into request `i`, from a first to before a last.
pub open spec fn range_at(len: int, max: int, i: int) -> (usize, usize) {
    (
        (i * chunk_size(len, max)) as usize,
        lesser((i + 1) * chunk_size(len, max), len) as usize,
    )
}

/// The calls that go into each request.
pub open spec fn ranges_of(len: int, max: int) -> Seq<(usize, usize)> {
    Seq::new(chunk_total(len, max) as nat, |i: int| range_at(len, max, i))
}

/// Splits `len` calls into requests of at most `max` calls, in order. A `max` of zero puts all
/// calls into one request.
pub fn chunk_ranges(len: usize, max: usize) -> (r: Vec<(usize, usize)>)
    ensures
        r@ == ranges_of(len as int, max as int),
{
    let mut ranges: Vec<(usize, usize)> = Vec::new();
    if len == 0 {
        assert(ranges@ =~= ranges_of(0, max as int));
        return ranges;
    }
    let chunk: usize = if max == 0 || max > len {
        len
    } else {
        max
    };
    let ghost c = chunk_size(len as int, max as int);
    let mut start: usize = 0;
    proof {
        assert(0 * c == 0);
    }
    while start < len
        invariant
            0 < c == chunk <= len,
            start == lesser(ranges@.len() * c, len as int),
            ranges@.len() > 0 ==> (ranges@.len() - 1) * c < len,
            c == chunk_size(len as int, max as int),
            forall|i: int|
                0 <= i < ranges@.len() ==> #[trigger] ranges@[i] == range_at(
                    len as int,
                    max as int,
                    i,
                ),
        decreases len - start,
    {
        let end: usize = if len - start <= chunk {
            len
        } else {
            start + chunk
        };
        let ghost k = ranges@.len() as int;
        proof {
            assert((k + 1) * c == k * c + c) by (nonlinear_arith);
            assert(0 <= k * c) by (nonlinear_arith)
                requires
                    0 <= k,
                    0 < c,
            ;
        }
        ranges.push((start, end));
        start = end;
    }
    proof {
        let k = ranges@.len() as int;
        assert(k > 0) by {
            if k == 0 {
                assert(0 * c == 0);
            }
        }
        assert((k - 1) * c == k * c - c) by (nonlinear_arith);
        let x = len + c - 1;
        let rem = x - k * c;
        vstd::arithmetic::div_mod::lemma_fundamental_div_mod_converse(x, c, k, rem);
        assert(ranges@ =~= ranges_of(len as int, max as int));
    }
    ranges
}

/// Where the calls of request `i` begin.
proof fn lemma_range_bounds(len: int, max: int, i: int)
    requires
        0 < len <= usize::MAX,
        0 <= max,
        0 <= i < chunk_total(len, max),
    ensures
        0 < chunk_size(len, max) <= len,
        0 <= i * chunk_size(len, max) < len,
        (i + 1) * chunk_size(len, max) == i * chunk_size(len, max) + chunk_size(len, max),
        i + 1 < chunk_total(len, max) ==> (i + 1) * chunk_size(len, max) < len,
        i + 1 == chunk_total(len, max) ==> (i + 1) * chunk_size(len, max) >= len,
{
    let c = chunk_size(len, max);
    let q = chunk_total(len, max);
    vstd::arithmetic::div_mod::lemma_fundamental_div_mod(len + c - 1, c);
    assert(c * q == q * c) by (nonlinear_arith);
    assert((i + 1) * c == i * c + c) by (nonlinear_arith);
    assert(0 <= i * c) by (nonlinear_arith)
        requires
            0 <= i,
            0 < c,
    ;
    assert(i + 1 <= q ==> (i + 1) * c <= q * c) by (nonlinear_arith)
        requires
            0 < c,
    ;
    assert(i + 2 <= q ==> (i + 2) * c <= q * c) by (nonlinear_arith)
        requires
            0 < c,
    ;
    assert((i + 2) * c == (i + 1) * c + c) by (nonlinear_arith);
}

/// The requests take all calls, each once and in order: the first begins at the first call, each
/// begins where the one before ends, the last ends after the last call. None is empty, none
/// holds more than `max` calls unless `max` is zero, and all but the last hold `max`. A `max` of
/// zero, or one that is not reached, puts all calls into one request.
pub proof fn requests_cover_all_calls(len: int, max: int, i: int)
    requires
        0 <= len <= usize::MAX,
        0 <= max,
    ensures
        len == 0 <==> ranges_of(len, max).len() == 0,
        0 <= i < ranges_of(len, max).len() ==> ({
            let range = ranges_of(len, max)[i];
            &&& range.0 < range.1 <= len
            &&& max > 0 ==> range.1 - range.0 <= max
            &&& i == 0 ==> range.0 == 0
            &&& i + 1 < ranges_of(len, max).len() ==> range.1 == ranges_of(len, max)[i + 1].0
                && max > 0 && range.1 - range.0 == max
            &&& i + 1 == ranges_of(len, max).len() ==> range.1 == len
            &&& max == 0 || len <= max ==> ranges_of(len, max).len() == 1
        }),
{
    if len > 0 {
        let c = chunk_size(len, max);
        vstd::arithmetic::div_mod::lemma_div_non_zero(len + c - 1, c);
        if c == len {
            vstd::arithmetic::div_mod::lemma_fundamental_div_mod_converse(
                2 * len - 1,
                len,
                1,
                len - 1,
            );
        }
        if 0 <= i < chunk_total(len, max) {
            lemma_range_bounds(len, max, i);
            if i + 1 < chunk_total(len, max) {
                lemma_range_bounds(len, max, i + 1);
            }
            assert(i == 0 ==> i * c == 0) by (nonlinear_arith);
        }
    }
}

/// The number of requests that `len` calls take.
pub fn chunk_count(len: usize, max: usize) -> (r: usize)
    ensures
        r == chunk_total(len as int, max as int),
{
    if len == 0 {
        return 0;
    }
    let chunk: usize = if max == 0 || max > len {
        len
    } else {
        max
    };
    proof {
        vstd::arithmetic::div_mod::lemma_hoist_over_denominator(
            len - 1,
            1,
            chunk as nat,
        );
        vstd::arithmetic::div_mod::lemma_div_is_ordered_by_denominator(
            len - 1,
            1,
            chunk as int,
        );
        assert((len - 1) / 1 == len - 1);
    }
    (len - 1) / chunk + 1
}

/// The address of the Multicall3 contract is missing.
#[derive(Debug, Clone, Copy, PartialEq, Eq, Structural)]
pub struct AddressRequired;

impl AddressRequired {
    /// The error as a text for people.
    pub fn message(&self) -> (r: String)
        ensures
            r@ == "multicall: multicall3 address is required"@,
    {
        "multicall: multicall3 address is required".to_string()
    }
}

/// Checks that the address of the Multicall3 contract is not zero.
pub fn check_multicall_address(address: &[u8; 20]) -> (r: Result<(), AddressRequired>)
    ensures
        r is Err <==> is_zero(address@),
{
    for i in 0..20
        invariant
            forall|j: int| 0 <= j < i ==> #[trigger] address@[j] == 0,
    {
        if address[i] != 0 {
            return Ok(());
        }
    }
    Err(AddressRequired)
}

/// Whether an address is the zero address.
pub open spec fn is_zero(address: Seq<u8>) -> bool {
    forall|i: int| 0 <= i < address.len() ==> #[trigger] address[i] == 0
}

/// Why a text is not the address of a Multicall3 contract.
#[derive(Debug)]
pub enum MulticallAddressError {
    /// The text is no address.
    Invalid { reason: String },
    /// The address is missing.
    Required(AddressRequired),
}

impl MulticallAddressError {
    /// The error as a text for people.
    pub fn message(&self) -> (r: String)
        ensures
            r@ == (match *self {
                MulticallAddressError::Invalid { reason } => "parse multicall3_address: "@ + reason@,
                MulticallAddressError::Required(_) => "multicall: multicall3 address is required"@,
            }),
    {
        match self {
            MulticallAddressError::Invalid { reason } => {
                let mut s = "parse multicall3_address: ".to_string();
                s.append(reason.as_str());
                s
            },
            MulticallAddressError::Required(e) => e.message(),
        }
    }
}

/// Reads the address of the Multicall3 contract.
pub fn multicall_address(text: &str) -> (r: Result<[u8; 20], MulticallAddressError>)
    ensures
        match words::address_bytes(text@) {
            None => r matches Err(MulticallAddressError::Invalid { reason }) && reason@
                == words::address_refusal(text@),
            Some(a) => if is_zero(a) {
                r == Err::<[u8; 20], MulticallAddressError>(
                    MulticallAddressError::Required(AddressRequired),
                )
            } else {
                r matches Ok(address) && address@ == a
            },
        },
{
    match words::parse_address_text(text) {
        Err(reason) => Err(MulticallAddressError::Invalid { reason }),
        Ok(address) => match check_multicall_address(&address) {
            Err(e) => Err(MulticallAddressError::Required(e)),
            Ok(()) => Ok(address),
        },
    }
}

/// The calls `start` to before `end` as a Multicall3 request, in which any call may fail without
/// the others.
pub fn request_calls(calls: &Vec<CallRequest>, start: usize, end: usize) -> (r: Vec<Call3>)
    requires
        start <= end <= calls@.len(),
    ensures
        r@.len() == end - start,
        forall|i: int|
            0 <= i < end - start ==> (#[trigger] r@[i]).target == calls@[start + i].target
                && r@[i].allow_failure && r@[i].call_data@ == calls@[start + i].call_data@,
{
    let mut out: Vec<Call3> = Vec::new();
    for i in start..end
        invariant
            start <= end <= calls@.len(),
            out@.len() == i - start,
            forall|j: int|
                0 <= j < i - start ==> (#[trigger] out@[j]).target == calls@[start + j].target
                    && out@[j].allow_failure && out@[j].call_data@ == calls@[start
                    + j].call_data@,
    {
        out.push(
            Call3 {
                target: calls[i].target,
                allow_failure: true,
                call_data: text::copy_bytes(&calls[i].call_data),
            },
        );
    }
    out
}

/// A request was answered with more or fewer results than it had calls.
#[derive(Debug, Clone, Copy, PartialEq, Eq, Structural)]
pub struct ChunkError {
    pub start: usize,
    pub end: usize,
    pub got: usize,
}

/// The message of a [`ChunkError`].
pub open spec fn chunk_message(e: ChunkError) -> Seq<char> {
    "multicall chunk ["@ + text::decimal(e.start as nat) + ":"@ + text::decimal(e.end as nat)
        + "]: expected "@ + text::decimal((e.end - e.start) as nat) + " results, got "@
        + text::decimal(e.got as nat)
}

impl ChunkError {
    /// The error as a text for people.
    pub fn message(&self) -> (r: String)
        requires
            self.start <= self.end,
        ensures
            r@ == chunk_message(*self),
    {
        let mut s = "multicall chunk [".to_string();
        s.append(text::count_text(self.start).as_str());
        s.append(":");
        s.append(text::count_text(self.end).as_str());
        s.append("]: expected ");
        s.append(text::count_text(self.end - self.start).as_str());
        s.append(" results, got ");
        s.append(text::count_text(self.got).as_str());
        s
    }
}

/// The requests for a number of calls, sent one after the other, and the results so far.
#[derive(Debug)]
pub struct Batches {
    ranges: Vec<(usize, usize)>,
    done: usize,
    results: Vec<CallResult>,
    len: usize,
    max: usize,
}

impl Batches {
    #[verifier::type_invariant]
    spec fn well_formed(self) -> bool {
        &&& self.ranges@ == ranges_of(self.len as int, self.max as int)
        &&& self.done <= self.ranges@.len()
        &&& self.results@.len() == (if self.done == 0 {
            0
        } else {
            self.ranges@[self.done - 1].1 as int
        })
    }

    /// The number of calls.
    pub closed spec fn calls(self) -> int {
        self.len as int
    }

    /// The ranges of calls of all requests.
    pub closed spec fn requests(self) -> Seq<(usize, usize)> {
        self.ranges@
    }

    /// The number of requests that have been answered.
    pub closed spec fn answered(self) -> int {
        self.done as int
    }

    /// The results so far.
    pub closed spec fn collected(self) -> Seq<CallResult> {
        self.results@
    }

    /// The requests for `len` calls of at most `max` each.
    pub fn new(len: usize, max: usize) -> (r: Batches)
        ensures
            r.calls() == len,
            r.requests() == ranges_of(len as int, max as int),
            r.answered() == 0,
            r.collected() == Seq::<CallResult>::empty(),
    {
        Batches {
            ranges: chunk_ranges(len, max),
            done: 0,
            results: Vec::new(),
            len,
            max,
        }
    }

    /// The calls of the next request, or none if all have been answered.
    pub fn next_range(&self) -> (r: Option<(usize, usize)>)
        ensures
            match r {
                Some(range) => self.answered() < self.requests().len() && range
                    == self.requests()[self.answered()] && range.0 <= range.1 <= self.calls()
                    && self.collected().len() == range.0,
                None => self.answered() == self.requests().len(),
            },
    {
        proof {
            use_type_invariant(self);
            requests_cover_all_calls(self.len as int, self.max as int, self.done as int);
            requests_cover_all_calls(self.len as int, self.max as int, self.done - 1);
        }
        if self.done < self.ranges.len() {
            Some(self.ranges[self.done])
        } else {
            None
        }
    }

    /// Takes up the results of the next request. Refuses them if they are more or fewer than its
    /// calls.
    pub fn accept(self, chunk: Vec<CallResult>) -> (r: Result<Batches, ChunkError>)
        requires
            self.answered() < self.requests().len(),
        ensures
            ({
                let range = self.requests()[self.answered()];
                match r {
                    Ok(next) => chunk@.len() == range.1 - range.0 && next.calls() == self.calls()
                        && next.requests() == self.requests() && next.answered()
                        == self.answered() + 1 && next.collected() == self.collected() + chunk@,
                    Err(e) => chunk@.len() != range.1 - range.0 && e == (ChunkError {
                        start: range.0,
                        end: range.1,
                        got: chunk@.len() as usize,
                    }) && range.0 <= range.1,
                }
            }),
    {
        proof {
            use_type_invariant(&self);
            requests_cover_all_calls(self.len as int, self.max as int, self.done as int);
            requests_cover_all_calls(self.len as int, self.max as int, self.done - 1);
        }
        let total: usize = self.ranges.len();
        assert(self.done < total);
        let (start, end) = self.ranges[self.done];
        if chunk.len() != end - start {
            return Err(ChunkError { start, end, got: chunk.len() });
        }
        let mut chunk = chunk;
        let mut results = self.results;
        results.append(&mut chunk);
        Ok(
            Batches {
                ranges: self.ranges,
                done: self.done + 1,
                results,
                len: self.len,
                max: self.max,
            },
        )
    }

    /// The results of all calls, in the order of the calls.
    pub fn finish(self) -> (r: Vec<CallResult>)
        requires
            self.answered() == self.requests().len(),
        ensures
            r@ == self.collected(),
            r@.len() == self.calls(),
    {
        proof {
            use_type_invariant(&self);
            requests_cover_all_calls(self.len as int, self.max as int, self.done - 1);
        }
        self.results
    }
}

/// There are as many requests as are needed, and no more: with one less not all calls would fit.
pub proof fn requests_are_as_few_as_possible(len: int, max: int)
    requires
        0 <= len <= usize::MAX,
        0 <= max,
    ensures
        ranges_of(len, max).len() == chunk_total(len, max),
        len == 0 ==> chunk_total(len, max) == 0,
        len > 0 && max == 0 ==> chunk_total(len, max) == 1,
        len > 0 && max > 0 ==> (chunk_total(len, max) - 1) * max < len <= chunk_total(len, max)
            * max,
{
    if len > 0 {
        let c = chunk_size(len, max);
        let q = chunk_total(len, max);
        vstd::arithmetic::div_mod::lemma_div_non_zero(len + c - 1, c);
        vstd::arithmetic::div_mod::lemma_fundamental_div_mod(len + c - 1, c);
        assert(c * q == q * c) by (nonlinear_arith);
        assert((q - 1) * c == q * c - c) by (nonlinear_arith);
        if c == len {
            vstd::arithmetic::div_mod::lemma_fundamental_div_mod_converse(
                2 * len - 1,
                len,
                1,
                len - 1,
            );
            assert(q == 1);
            assert((q - 1) * max == 0 && q * max == max) by (nonlinear_arith)
                requires
                    q == 1,
            ;
        }
    }
}

/// A call says its address and its data, and a list of calls says each in its place.
pub proof fn calls_say_what_they_hold(calls: Seq<CallRequest>, i: int)
    requires
        0 <= i < calls.len(),
    ensures
        calls_view(calls).len() == calls.len(),
        calls_view(calls)[i].target == calls[i].target@,
        calls_view(calls)[i].call_data == calls[i].call_data@,
{
}

/// There is one zero address of each length, and every byte of it is zero.
pub proof fn the_zero_address_is_zero(address: Seq<u8>)
    ensures
        is_zero(address) <==> address == Seq::new(address.len(), |i: int| 0u8),
{
    if is_zero(address) {
        assert(address =~= Seq::new(address.len(), |i: int| 0u8));
    }
}

} // verus!
