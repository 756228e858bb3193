//! Swap-routing collaborator output.
//!
//! The route itself comes from an external process the caller runs; it
//! answers with a small JSON document `{"data":"0x<hex>"}` holding the swap
//! calldata.  This module checks and decodes those bytes: the document must
//! have exactly that shape, with an even-length hex payload, and the
//! calldata is its decoded bytes.  Anything else is a router error, which
//! the caller retries next cycle — never fatal.
use crate::persist::{parse_lit, spec_parse_lit};
use vstd::prelude::*;

verus! {

/// Calldata for the flash-liquidation swap, as decoded from the router's
/// answer.
pub struct SwapCalldata {
    /// The raw transaction calldata.
    pub calldata: Vec<u8>,
}

/// How talking to the swap router can fail.
#[derive(Debug)]
pub enum SwapRouterError {
    /// The router could not be run, failed, or answered malformed bytes.
    RouterError(String),
    /// Any other failure.
    Unknown,
}

/// Whether `b` is an ASCII hex digit.
pub open spec fn is_hex_digit(b: u8) -> bool {
    ||| 48 <= b <= 57
    ||| 97 <= b <= 102
    ||| 65 <= b <= 70
}

/// The value of one hex digit.
pub open spec fn hex_val(b: u8) -> u8
    recommends
        is_hex_digit(b),
{
    if 48 <= b <= 57 {
        (b - 48) as u8
    } else if 97 <= b <= 102 {
        (b - 87) as u8
    } else {
        (b - 55) as u8
    }
}

/// The bytes a hex digit string stands for, two digits per byte.
pub open spec fn spec_hex_decode(s: Seq<u8>) -> Seq<u8>
    recommends
        s.len() % 2 == 0,
    decreases s.len(),
{
    if s.len() < 2 {
        Seq::empty()
    } else {
        seq![(hex_val(s[0]) * 16 + hex_val(s[1])) as u8] + spec_hex_decode(
            s.subrange(2, s.len() as int),
        )
    }
}

/// Appending one digit pair appends its byte to the decoding.
proof fn lemma_hex_decode_snoc(s: Seq<u8>, a: u8, b: u8)
    requires
        s.len() % 2 == 0,
    ensures
        spec_hex_decode(s + seq![a, b]) == spec_hex_decode(s) + seq![
            (hex_val(a) * 16 + hex_val(b)) as u8,
        ],
    decreases s.len(),
{
    let t = s + seq![a, b];
    if s.len() == 0 {
        assert(t.len() == 2);
        assert(t[0] == a && t[1] == b);
        assert(t.subrange(2, t.len() as int) =~= Seq::<u8>::empty());
        assert(spec_hex_decode(t.subrange(2, t.len() as int)) == Seq::<u8>::empty());
        assert(spec_hex_decode(t) == seq![(hex_val(a) * 16 + hex_val(b)) as u8]
            + spec_hex_decode(t.subrange(2, t.len() as int)));
        assert(spec_hex_decode(s) == Seq::<u8>::empty());
        assert(spec_hex_decode(t) =~= spec_hex_decode(s) + seq![
            (hex_val(a) * 16 + hex_val(b)) as u8,
        ]);
    } else {
        let s2 = s.subrange(2, s.len() as int);
        assert(t.len() >= 2);
        assert(t.subrange(2, t.len() as int) =~= s2 + seq![a, b]);
        lemma_hex_decode_snoc(s2, a, b);
        assert(t[0] == s[0] && t[1] == s[1]);
        assert(spec_hex_decode(t) == seq![(hex_val(t[0]) * 16 + hex_val(t[1])) as u8]
            + spec_hex_decode(t.subrange(2, t.len() as int)));
        assert(spec_hex_decode(s) == seq![(hex_val(s[0]) * 16 + hex_val(s[1])) as u8]
            + spec_hex_decode(s2));
        assert(spec_hex_decode(t) =~= spec_hex_decode(s) + seq![
            (hex_val(a) * 16 + hex_val(b)) as u8,
        ]);
    }
}

/// The end of the hex-digit run starting at `pos`.
pub open spec fn hex_end(s: Seq<u8>, pos: int) -> int
    decreases s.len() - pos,
{
    if 0 <= pos < s.len() && is_hex_digit(s[pos]) {
        hex_end(s, pos + 1)
    } else {
        pos
    }
}

/// Whether `b` is ASCII whitespace (space, tab, newline, carriage return).
pub open spec fn is_ws(b: u8) -> bool {
    b == 32 || b == 9 || b == 10 || b == 13
}

/// The router-answer prefix `{"data":"0x`.
pub open spec fn spec_swap_prefix() -> Seq<u8> {
    seq![123u8, 34u8, 100u8, 97u8, 116u8, 97u8, 34u8, 58u8, 34u8, 48u8, 120u8]
}

/// The calldata in a router answer: the document must be
/// `{"data":"0x<hex>"}` with an even number of hex digits, followed only by
/// whitespace; the calldata is the decoded digits.
pub open spec fn spec_parse_swap(s: Seq<u8>) -> Option<Seq<u8>> {
    match spec_parse_lit(s, 0, spec_swap_prefix()) {
        Option::None => Option::None,
        Option::Some(p) => {
            let e = hex_end(s, p);
            if (e - p) % 2 != 0 {
                Option::None
            } else {
                match spec_parse_lit(s, e, seq![34u8, 125u8]) {
                    Option::None => Option::None,
                    Option::Some(q) => {
                        if forall|i: int| q <= i < s.len() ==> is_ws(#[trigger] s[i]) {
                            Option::Some(spec_hex_decode(s.subrange(p, e)))
                        } else {
                            Option::None
                        }
                    },
                }
            }
        },
    }
}

/// The router-answer prefix, as a vector.
fn swap_prefix() -> (r: Vec<u8>)
    ensures
        r@ == spec_swap_prefix(),
{
    let mut r: Vec<u8> = Vec::new();
    r.push(123);
    r.push(34);
    r.push(100);
    r.push(97);
    r.push(116);
    r.push(97);
    r.push(34);
    r.push(58);
    r.push(34);
    r.push(48);
    r.push(120);
    proof {
        assert(r@ =~= spec_swap_prefix());
    }
    r
}

/// Whether everything from `from` on is whitespace.
fn all_ws_from(s: &Vec<u8>, from: usize) -> (r: bool)
    requires
        from <= s@.len(),
    ensures
        r == (forall|i: int| from <= i < s@.len() ==> is_ws(#[trigger] s@[i])),
{
    let n = s.len();
    let mut w: usize = from;
    while w < n
        invariant
            from <= w <= n,
            n == s@.len(),
            forall|j: int| from <= j < w ==> is_ws(#[trigger] s@[j]),
        decreases n - w,
    {
        let c = s[w];
        if !(c == 32 || c == 9 || c == 10 || c == 13) {
            proof {
                assert(!is_ws(s@[w as int]));
            }
            return false;
        }
        w = w + 1;
    }
    true
}

/// Decode the swap router's standard output into calldata.
///
/// Returns `Ok` with the decoded bytes exactly when the output has the
/// documented shape, and a router error otherwise.
pub fn stdout_to_swap(stdout: &Vec<u8>) -> (r: Result<SwapCalldata, SwapRouterError>)
    ensures
        match r {
            Ok(c) => spec_parse_swap(stdout@) == Option::Some(c.calldata@),
            Err(e) => spec_parse_swap(stdout@) is None && e is RouterError,
        },
{
    let prefix = swap_prefix();
    let p = match parse_lit(stdout, 0, &prefix) {
        Some(p) => p,
        None => {
            return Err(
                SwapRouterError::RouterError(String::from_str("malformed router output")),
            );
        },
    };
    let n = stdout.len();
    // Scan the hex run.
    let mut e: usize = p;
    while e < n && (48 <= stdout[e] && stdout[e] <= 57 || 97 <= stdout[e] && stdout[e] <= 102 || 65
        <= stdout[e] && stdout[e] <= 70)
        invariant
            p <= e <= n,
            n == stdout@.len(),
            forall|j: int| p <= j < e ==> is_hex_digit(stdout@[j]),
            hex_end(stdout@, p as int) == hex_end(stdout@, e as int),
        decreases n - e,
    {
        e = e + 1;
    }
    proof {
        assert(hex_end(stdout@, e as int) == e as int);
    }
    if (e - p) % 2 != 0 {
        return Err(SwapRouterError::RouterError(String::from_str("odd hex payload")));
    }
    let mut closer: Vec<u8> = Vec::new();
    closer.push(34);
    closer.push(125);
    proof {
        assert(closer@ =~= seq![34u8, 125u8]);
    }
    let q = match parse_lit(stdout, e, &closer) {
        Some(q) => q,
        None => {
            return Err(
                SwapRouterError::RouterError(String::from_str("malformed router output")),
            );
        },
    };
    // Only whitespace may follow.
    if !all_ws_from(stdout, q) {
        return Err(SwapRouterError::RouterError(String::from_str("trailing bytes")));
    }
    // Decode the hex digits.
    let mut calldata: Vec<u8> = Vec::new();
    let mut i: usize = p;
    while i < e
        invariant
            p <= i <= e <= n,
            n == stdout@.len(),
            (i - p) % 2 == 0,
            (e - p) % 2 == 0,
            forall|j: int| p <= j < e ==> is_hex_digit(stdout@[j]),
            calldata@ == spec_hex_decode(stdout@.subrange(p as int, i as int)),
        decreases e - i,
    {
        let a = stdout[i];
        let b = stdout[i + 1];
        let av: u8 = if 48 <= a && a <= 57 {
            a - 48
        } else if 97 <= a && a <= 102 {
            a - 87
        } else {
            a - 55
        };
        let bv: u8 = if 48 <= b && b <= 57 {
            b - 48
        } else if 97 <= b && b <= 102 {
            b - 87
        } else {
            b - 55
        };
        calldata.push(av * 16 + bv);
        proof {
            let s0 = stdout@.subrange(p as int, i as int);
            assert(stdout@.subrange(p as int, i + 2 as int) =~= s0 + seq![
                stdout@[i as int],
                stdout@[i as int + 1],
            ]);
            lemma_hex_decode_snoc(s0, stdout@[i as int], stdout@[i as int + 1]);
        }
        i = i + 2;
    }
    Ok(SwapCalldata { calldata })
}

} // verus!
