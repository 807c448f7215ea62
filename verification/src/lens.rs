//! The tick lens of concentrated-liquidity pools: a contract whose deployment
//! reverts with the custom error `Ticks(Tick[] ticks)` that lists the pool's
//! initialized ticks. This module turns the outcome of that deployment call
//! into the list of ticks.

use vstd::prelude::*;

use alloy::sol_types::sol_data::{Array, Int, Uint};
use alloy::sol_types::SolType;

use crate::primitives::{
    decode_hex, decoded_hex, hex_value, keccak256, lemma_decoded_hex_nibbles, nibble, spec_keccak256,
};
use vstd::string::StringSliceAdditionalSpecFns;

verus! {

/// An initialized tick and its liquidity, as the lens reports it.
#[derive(Clone, Copy, Debug, PartialEq, Eq, Structural)]
pub struct Tick {
    pub index: i32,
    pub liquidity_gross: u128,
    pub liquidity_net: i128,
}

/// How a call of the lens failed: the revert data that the node reported, if
/// any, and the raw `data` field of the node's error payload, if any.
#[derive(Debug)]
pub struct ContractFailure {
    pub revert_data: Option<Vec<u8>>,
    pub error_payload_data: Option<String>,
}

/// The parameters of the `Ticks` error, ABI-decoded as the sequence
/// `((int24,uint128,int128)[])`.
pub uninterp spec fn spec_decode_tick_params(data: Seq<u8>) -> Option<Seq<Tick>>;

/// Decodes the parameters of the `Ticks` error (the bytes after its selector).
///
/// Trusted: `SolType::abi_decode_sequence` of alloy-sol-types for the type
/// `(Array<(Int<24>, Uint<128>, Int<128>)>,)`; its result is a function of
/// the bytes alone and is named, not described.
#[verifier::external_body]
fn decode_tick_params(data: &[u8]) -> (ticks: Option<Vec<Tick>>)
    ensures
        ticks is Some <==> spec_decode_tick_params(data@) is Some,
        ticks matches Some(t) ==> t@ == spec_decode_tick_params(data@).unwrap(),
{
    <(Array<(Int<24>, Uint<128>, Int<128>)>,) as SolType>::abi_decode_sequence(data).ok().map(
        |(ticks,)| ticks.into_iter().map(|(index, liquidity_gross, liquidity_net)| Tick {
            index: index.as_i32(),
            liquidity_gross,
            liquidity_net,
        }).collect(),
    )
}

/// The signature of the lens's error.
pub const TICKS_ERROR_SIGNATURE: &'static str = "Ticks((int24,uint128,int128)[])";

/// The selector of the `Ticks` error: the first four bytes of the Keccak-256
/// hash of its signature.
pub open spec fn ticks_error_selector() -> Seq<u8> {
    spec_keccak256(TICKS_ERROR_SIGNATURE.spec_bytes()).take(4)
}

/// The ticks that revert data holds: the data must start with the selector of
/// the `Ticks` error and its parameters must decode.
pub open spec fn ticks_in_revert_data(data: Seq<u8>) -> Option<Seq<Tick>> {
    if data.len() >= 4 && data.take(4) == ticks_error_selector() {
        spec_decode_tick_params(data.skip(4))
    } else {
        None
    }
}

/// Decodes revert data as the `Ticks` error.
pub fn decode_ticks_error(data: &[u8]) -> (ticks: Option<Vec<Tick>>)
    ensures
        ticks is Some <==> ticks_in_revert_data(data@) is Some,
        ticks matches Some(t) ==> t@ == ticks_in_revert_data(data@).unwrap(),
        data@.len() >= 4 && data@.take(4) == spec_keccak256(TICKS_ERROR_SIGNATURE.spec_bytes()).take(4) ==> (ticks is Some
            <==> spec_decode_tick_params(data@.skip(4)) is Some),
        data@.len() >= 4 && data@.take(4) == spec_keccak256(TICKS_ERROR_SIGNATURE.spec_bytes()).take(4) ==> (ticks matches Some(t) ==> t@
            == spec_decode_tick_params(data@.skip(4)).unwrap()),
        !(data@.len() >= 4 && data@.take(4) == spec_keccak256(TICKS_ERROR_SIGNATURE.spec_bytes()).take(4)) ==> ticks is None,
{
    let digest = keccak256(TICKS_ERROR_SIGNATURE.as_bytes());
    if data.len() < 4 {
        return None;
    }
    let mut i: usize = 0;
    while i < 4
        invariant
            i <= 4,
            data@.len() >= 4,
            digest@ == spec_keccak256(TICKS_ERROR_SIGNATURE.spec_bytes()),
            forall|j: int| 0 <= j < i ==> data@[j] == digest@[j],
        decreases 4 - i,
    {
        if data[i] != digest[i] {
            proof {
                assert(data@.take(4)[i as int] != ticks_error_selector()[i as int]);
            }
            return None;
        }
        i = i + 1;
    }
    assert(data@.take(4) =~= ticks_error_selector());
    let params = vstd::slice::slice_subrange(data, 4, data.len());
    assert(params@ =~= data@.skip(4));
    decode_tick_params(params)
}

/// A character with the Unicode `White_Space` property, which
/// `char::is_whitespace` tests.
pub open spec fn is_white_space(c: char) -> bool {
    let v = c as int;
    (0x09 <= v <= 0x0D) || v == 0x20 || v == 0x85 || v == 0xA0 || v == 0x1680 || (0x2000 <= v
        <= 0x200A) || v == 0x2028 || v == 0x2029 || v == 0x202F || v == 0x205F || v == 0x3000
}

/// A character that trimming removes: a double quote when trimming quotes,
/// white space otherwise.
pub open spec fn is_trimmed(c: char, quotes: bool) -> bool {
    if quotes {
        c == '"'
    } else {
        is_white_space(c)
    }
}

/// The text without its leading trimmed characters.
pub open spec fn trim_start(s: Seq<char>, quotes: bool) -> Seq<char>
    decreases s.len(),
{
    if s.len() > 0 && is_trimmed(s[0], quotes) {
        trim_start(s.drop_first(), quotes)
    } else {
        s
    }
}

/// The text without its trailing trimmed characters.
pub open spec fn trim_end(s: Seq<char>, quotes: bool) -> Seq<char>
    decreases s.len(),
{
    if s.len() > 0 && is_trimmed(s.last(), quotes) {
        trim_end(s.drop_last(), quotes)
    } else {
        s
    }
}

/// The text without its leading and trailing trimmed characters, as
/// `str::trim_matches('"')` (quotes) and `str::trim` (white space) give it.
pub open spec fn trimmed(s: Seq<char>, quotes: bool) -> Seq<char> {
    trim_end(trim_start(s, quotes), quotes)
}

fn is_trimmed_char(c: char, quotes: bool) -> (b: bool)
    ensures
        b == is_trimmed(c, quotes),
{
    if quotes {
        c == '"'
    } else {
        let v = c as u32;
        (0x09 <= v && v <= 0x0D) || v == 0x20 || v == 0x85 || v == 0xA0 || v == 0x1680 || (0x2000
            <= v && v <= 0x200A) || v == 0x2028 || v == 0x2029 || v == 0x202F || v == 0x205F || v
            == 0x3000
    }
}

/// Trims double quotes (`quotes`) or white space from both ends of the text.
fn trim_text(text: &str, quotes: bool) -> (t: &str)
    ensures
        t@ == trimmed(text@, quotes),
{
    let n = text.unicode_len();
    let mut start: usize = 0;
    assert(text@.skip(0) =~= text@);
    loop
        invariant
            start <= n,
            n == text@.len(),
            trim_start(text@, quotes) == trim_start(text@.skip(start as int), quotes),
        ensures
            start <= n,
            trim_start(text@, quotes) == text@.skip(start as int),
        decreases n - start,
    {
        if start == n {
            break;
        }
        if !is_trimmed_char(text.get_char(start), quotes) {
            break;
        }
        assert(text@.skip(start as int).drop_first() =~= text@.skip(start + 1));
        start = start + 1;
    }
    let mut end: usize = n;
    assert(text@.skip(start as int) =~= text@.subrange(start as int, n as int));
    loop
        invariant
            start <= end <= n,
            n == text@.len(),
            trim_end(text@.skip(start as int), quotes) == trim_end(
                text@.subrange(start as int, end as int),
                quotes,
            ),
        ensures
            start <= end <= n,
            trim_end(text@.skip(start as int), quotes) == text@.subrange(start as int, end as int),
        decreases end - start,
    {
        if end == start {
            break;
        }
        if !is_trimmed_char(text.get_char(end - 1), quotes) {
            break;
        }
        assert(text@.subrange(start as int, end as int).drop_last() =~= text@.subrange(
            start as int,
            end - 1,
        ));
        end = end - 1;
    }
    assert(text@.skip(start as int) =~= text@.subrange(start as int, n as int));
    text.substring_char(start, end)
}

/// Text starts with the given prefix.
pub open spec fn has_prefix(s: Seq<char>, prefix: Seq<char>) -> bool {
    s.len() >= prefix.len() && s.take(prefix.len() as int) == prefix
}

fn starts_with(text: &str, prefix: &str) -> (b: bool)
    ensures
        b == has_prefix(text@, prefix@),
{
    let n = text.unicode_len();
    let m = prefix.unicode_len();
    if n < m {
        return false;
    }
    let mut i: usize = 0;
    while i < m
        invariant
            i <= m <= n,
            n == text@.len(),
            m == prefix@.len(),
            forall|j: int| 0 <= j < i ==> text@[j] == prefix@[j],
        decreases m - i,
    {
        if text.get_char(i) != prefix.get_char(i) {
            assert(text@.take(m as int)[i as int] != prefix@[i as int]);
            return false;
        }
        i = i + 1;
    }
    assert(text@.take(m as int) =~= prefix@);
    true
}

/// The hex digits of revert data written as `Reverted 0x...` or `0x...`.
pub open spec fn revert_hex_digits(s: Seq<char>) -> Option<Seq<char>> {
    if has_prefix(s, "Reverted 0x"@) {
        Some(s.skip(11))
    } else if has_prefix(s, "0x"@) {
        Some(s.skip(2))
    } else {
        None
    }
}

/// The revert data of a failed call: the data that the node reported as
/// such, or else the data spelt in hex in the `data` field of its error
/// payload, once quotes and white space are trimmed off.
pub open spec fn revert_data_of(revert_data: Option<Seq<u8>>, payload_data: Option<Seq<char>>) -> Option<Seq<u8>> {
    match revert_data {
        Some(d) => Some(d),
        None => match payload_data {
            None => None,
            Some(p) => match revert_hex_digits(trimmed(trimmed(p, true), false)) {
                Some(h) => decoded_hex(h),
                None => None,
            },
        },
    }
}

/// The revert data that a failure reports, as bytes.
pub open spec fn reported_revert_data(failure: &ContractFailure) -> Option<Seq<u8>> {
    match failure.revert_data {
        Some(d) => Some(d@),
        None => None,
    }
}

/// The `data` field of the failure's error payload, as text.
pub open spec fn reported_payload_data(failure: &ContractFailure) -> Option<Seq<char>> {
    match failure.error_payload_data {
        Some(p) => Some(p@),
        None => None,
    }
}

/// The revert data of a failed call. Some nodes do not report a revert as
/// such but answer with an error whose data reads `Reverted 0x...`; this
/// reads the data from there too.
pub fn revert_data_from_error(failure: &ContractFailure) -> (data: Option<Vec<u8>>)
    ensures
        data is Some <==> revert_data_of(reported_revert_data(failure), reported_payload_data(failure)) is Some,
        data matches Some(d) ==> d@ == revert_data_of(
            reported_revert_data(failure),
            reported_payload_data(failure),
        ).unwrap(),
        failure.revert_data matches Some(r) ==> (data matches Some(d) && d@ == r@),
        failure.revert_data is None && failure.error_payload_data is None ==> data is None,
        failure.revert_data is None && failure.error_payload_data is Some ==> ({
            let t = trimmed(trimmed(failure.error_payload_data.unwrap()@, true), false);
            let k: int = if t.len() >= 11 && t.take(11) == "Reverted 0x"@ { 11 } else { 2 };
            &&& data matches Some(d) ==> {
                &&& t.len() >= k
                &&& k == 11 || t.take(2) == "0x"@
                &&& t.len() == k + 2 * d@.len()
                &&& forall|i: int| 0 <= i < 2 * d@.len() ==> hex_value(#[trigger] t[k + i]) == nibble(d@, i)
            }
            &&& (t.len() >= k && (k == 11 || t.take(2) == "0x"@) && decoded_hex(t.skip(k)) is Some) ==> data is Some
        }),
{
    if let Some(d) = &failure.revert_data {
        return Some(vstd::slice::slice_to_vec(d.as_slice()));
    }
    let raw = match &failure.error_payload_data {
        Some(p) => p.as_str(),
        None => return None,
    };
    let s = trim_text(trim_text(raw, true), false);
    proof {
        reveal_strlit("Reverted 0x");
        reveal_strlit("0x");
        let t = s@;
        if has_prefix(t, "Reverted 0x"@) {
            assert(t.len() >= 11 && t.take(11) == "Reverted 0x"@);
        }
        if t.len() >= 11 && t.take(11) == "Reverted 0x"@ {
            assert(has_prefix(t, "Reverted 0x"@));
        }
        let k: int = if t.len() >= 11 && t.take(11) == "Reverted 0x"@ { 11 } else { 2 };
        if t.len() >= k && decoded_hex(t.skip(k)) is Some {
            lemma_decoded_hex_nibbles(t.skip(k));
        }
    }
    let digits = if starts_with(s, "Reverted 0x") {
        proof {
            reveal_strlit("Reverted 0x");
        }
        s.substring_char(11, s.unicode_len())
    } else if starts_with(s, "0x") {
        proof {
            reveal_strlit("0x");
        }
        s.substring_char(2, s.unicode_len())
    } else {
        return None;
    };
    decode_hex(digits)
}

/// The ticks that the lens's deployment call yields. A deployment that
/// succeeds yields none. One that fails yields the ticks of its reported
/// revert data; failing that, those of the revert data read from the error
/// payload; failing that, none.
pub open spec fn lens_call_ticks(outcome: &Result<Vec<u8>, ContractFailure>) -> Seq<Tick> {
    match outcome {
        Ok(_) => seq![],
        Err(f) => {
            let decoded = match reported_revert_data(f) {
                Some(d) => ticks_in_revert_data(d),
                None => None,
            };
            match decoded {
                Some(t) => t,
                None => match revert_data_of(reported_revert_data(f), reported_payload_data(f)) {
                    Some(d) => match ticks_in_revert_data(d) {
                        Some(t) => t,
                        None => seq![],
                    },
                    None => seq![],
                },
            }
        },
    }
}

/// The ticks that the outcome of the lens's deployment call yields.
pub fn ticks_from_lens_call(outcome: &Result<Vec<u8>, ContractFailure>) -> (ticks: Vec<Tick>)
    ensures
        ticks@ == lens_call_ticks(outcome),
        outcome is Ok ==> ticks@.len() == 0,
        outcome matches Err(f) ==> (f.revert_data matches Some(d) ==> (d@.len() >= 4 && d@.take(4)
            == spec_keccak256(TICKS_ERROR_SIGNATURE.spec_bytes()).take(4) && spec_decode_tick_params(d@.skip(4)) is Some ==> ticks@
            == spec_decode_tick_params(d@.skip(4)).unwrap())),
        outcome matches Err(f) ==> (f.revert_data matches Some(d) ==> (!(d@.len() >= 4 && d@.take(4)
            == spec_keccak256(TICKS_ERROR_SIGNATURE.spec_bytes()).take(4) && spec_decode_tick_params(d@.skip(4)) is Some) ==> ticks@.len() == 0)),
{
    let failure = match outcome {
        Ok(_) => return Vec::new(),
        Err(f) => f,
    };
    let decoded = match &failure.revert_data {
        Some(d) => decode_ticks_error(d.as_slice()),
        None => None,
    };
    if let Some(t) = decoded {
        return t;
    }
    match revert_data_from_error(failure) {
        Some(data) => match decode_ticks_error(data.as_slice()) {
            Some(t) => t,
            None => Vec::new(),
        },
        None => Vec::new(),
    }
}

/// The hex digits of revert data are all the text after its prefix:
/// `Reverted 0x` when it starts so, else `0x`.
pub proof fn lemma_revert_hex_digits_rest(s: Seq<char>)
    ensures
        s.len() >= 11 && s.take(11) == "Reverted 0x"@ ==> revert_hex_digits(s) == Some(s.skip(11)),
        !(s.len() >= 11 && s.take(11) == "Reverted 0x"@) && s.len() >= 2 && s.take(2) == "0x"@
            ==> revert_hex_digits(s) == Some(s.skip(2)),
        !(s.len() >= 11 && s.take(11) == "Reverted 0x"@) && !(s.len() >= 2 && s.take(2) == "0x"@)
            ==> revert_hex_digits(s) is None,
{
    reveal_strlit("Reverted 0x");
    reveal_strlit("0x");
}

/// The ticks of revert data are those its parameters decode to, once its
/// first four bytes are the selector of the `Ticks` error.
pub proof fn lemma_ticks_in_revert_data(data: Seq<u8>)
    ensures
        data.len() >= 4 && data.take(4) == spec_keccak256(TICKS_ERROR_SIGNATURE.spec_bytes()).take(4)
            ==> ticks_in_revert_data(data) == spec_decode_tick_params(data.skip(4)),
        !(data.len() >= 4 && data.take(4) == spec_keccak256(TICKS_ERROR_SIGNATURE.spec_bytes()).take(4))
            ==> ticks_in_revert_data(data) is None,
{
}

proof fn lemma_trim_start(s: Seq<char>, quotes: bool)
    ensures
        trim_start(s, quotes).len() <= s.len(),
        trim_start(s, quotes) == s.skip(s.len() - trim_start(s, quotes).len()),
        forall|i: int| 0 <= i < s.len() - trim_start(s, quotes).len() ==> is_trimmed(#[trigger] s[i], quotes),
        trim_start(s, quotes).len() > 0 ==> !is_trimmed(trim_start(s, quotes)[0], quotes),
    decreases s.len(),
{
    if s.len() > 0 && is_trimmed(s[0], quotes) {
        lemma_trim_start(s.drop_first(), quotes);
        let k = s.len() - trim_start(s, quotes).len();
        assert(s.drop_first().skip(k - 1) =~= s.skip(k));
        assert forall|i: int| 0 <= i < k implies is_trimmed(#[trigger] s[i], quotes) by {
            if i > 0 {
                assert(s[i] == s.drop_first()[i - 1]);
            }
        }
    } else {
        assert(s.skip(0) =~= s);
    }
}

proof fn lemma_trim_end(s: Seq<char>, quotes: bool)
    ensures
        trim_end(s, quotes).len() <= s.len(),
        trim_end(s, quotes) == s.take(trim_end(s, quotes).len() as int),
        forall|i: int| trim_end(s, quotes).len() <= i < s.len() ==> is_trimmed(#[trigger] s[i], quotes),
        trim_end(s, quotes).len() > 0 ==> !is_trimmed(trim_end(s, quotes).last(), quotes),
    decreases s.len(),
{
    if s.len() > 0 && is_trimmed(s.last(), quotes) {
        lemma_trim_end(s.drop_last(), quotes);
        let b = trim_end(s, quotes).len() as int;
        assert(s.drop_last().take(b) =~= s.take(b));
        assert forall|i: int| b <= i < s.len() implies is_trimmed(#[trigger] s[i], quotes) by {
            if i < s.len() - 1 {
                assert(s[i] == s.drop_last()[i]);
            }
        }
    } else {
        assert(s.take(s.len() as int) =~= s);
    }
}

/// Trimming removes the trimmed characters at both ends and nothing else:
/// what is left is a stretch of the text that neither starts nor ends with a
/// trimmed character, and every character cut away before or after it is one.
pub proof fn lemma_trimmed(s: Seq<char>, quotes: bool)
    ensures
        exists|a: int, b: int|
            {
                &&& 0 <= a <= b <= s.len()
                &&& trimmed(s, quotes) == s.subrange(a, b)
                &&& forall|i: int| 0 <= i < a ==> is_trimmed(#[trigger] s[i], quotes)
                &&& forall|i: int| b <= i < s.len() ==> is_trimmed(#[trigger] s[i], quotes)
                &&& a < b ==> !is_trimmed(s[a], quotes) && !is_trimmed(s[b - 1], quotes)
            },
{
    lemma_trim_start(s, quotes);
    let u = trim_start(s, quotes);
    let a = s.len() - u.len();
    lemma_trim_end(u, quotes);
    let v = trim_end(u, quotes);
    let b = a + v.len();
    assert(v =~= s.subrange(a, b));
    assert forall|i: int| b <= i < s.len() implies is_trimmed(#[trigger] s[i], quotes) by {
        assert(s[i] == u[i - a]);
    }
    if a < b {
        assert(s[a] == u[0]);
        assert(s[b - 1] == v.last());
    }
}

} // verus!
