//! Lines of a memory trace: an operation, `r` or `w`, and an address written
//! in decimal or as `0x` followed by hexadecimal digits.
use vstd::prelude::*;
use vstd::string::StringSliceAdditionalSpecFns;
use crate::cache::CacheOp;

verus! {

/// ASCII white space.
pub open spec fn is_space(c: u8) -> bool {
    c == 0x20 || (0x09 <= c && c <= 0x0d)
}

/// The first byte at `i` or later that is not white space, or the end.
pub open spec fn skip_spaces(b: Seq<u8>, i: int) -> int
    decreases b.len() - i,
{
    if i < 0 || i >= b.len() || !is_space(b[i]) {
        i
    } else {
        skip_spaces(b, i + 1)
    }
}

/// The first white-space byte at `i` or later, or the end.
pub open spec fn token_end(b: Seq<u8>, i: int) -> int
    decreases b.len() - i,
{
    if i < 0 || i >= b.len() || is_space(b[i]) {
        i
    } else {
        token_end(b, i + 1)
    }
}

/// The value of a digit in base `radix`, if it is one.
pub open spec fn digit_value(c: u8, radix: nat) -> Option<nat> {
    if 0x30 <= c && c <= 0x39 && c - 0x30 < radix {
        Some((c - 0x30) as nat)
    } else if radix == 16 && 0x61 <= c && c <= 0x66 {
        Some((c - 0x61 + 10) as nat)
    } else if radix == 16 && 0x41 <= c && c <= 0x46 {
        Some((c - 0x41 + 10) as nat)
    } else {
        None
    }
}

/// The number the digits of `d` write in base `radix`, if they all are
/// digits.
pub open spec fn digits_value(d: Seq<u8>, radix: nat) -> Option<nat>
    decreases d.len(),
{
    if d.len() == 0 {
        Some(0)
    } else {
        match (digits_value(d.drop_last(), radix), digit_value(d.last(), radix)) {
            (Some(v), Some(x)) => Some(v * radix + x),
            _ => None,
        }
    }
}

/// The address a token writes: `0x` and hexadecimal digits, or decimal
/// digits; at least one digit, and a value that fits in a `u64`.
pub open spec fn address_of(t: Seq<u8>) -> Option<u64> {
    let (d, radix) = if t.len() >= 2 && t[0] == 0x30 && t[1] == 0x78 {
        (t.subrange(2, t.len() as int), 16nat)
    } else {
        (t, 10nat)
    };
    match digits_value(d, radix) {
        Some(v) => if d.len() > 0 && v <= u64::MAX {
            Some(v as u64)
        } else {
            None
        },
        None => None,
    }
}

/// The operation a token names: `r` reads, `w` writes.
pub open spec fn op_of(t: Seq<u8>) -> Option<CacheOp> {
    if t == seq![0x72u8] {
        Some(CacheOp::Read)
    } else if t == seq![0x77u8] {
        Some(CacheOp::Write)
    } else {
        None
    }
}

/// The operation and address of a trace line: its first token is `r` or `w`,
/// its second an address; anything after is ignored.
pub open spec fn trace_line(b: Seq<u8>) -> Option<(u64, CacheOp)> {
    let s0 = skip_spaces(b, 0);
    let e0 = token_end(b, s0);
    let s1 = skip_spaces(b, e0);
    let e1 = token_end(b, s1);
    match (op_of(b.subrange(s0, e0)), address_of(b.subrange(s1, e1))) {
        (Some(o), Some(a)) => Some((a, o)),
        _ => None,
    }
}

/// Skipping white space stays within the line.
proof fn lemma_skip_spaces(b: Seq<u8>, i: int)
    requires
        0 <= i <= b.len(),
    ensures
        i <= skip_spaces(b, i) <= b.len(),
    decreases b.len() - i,
{
    if i < b.len() && is_space(b[i]) {
        lemma_skip_spaces(b, i + 1);
    }
}

/// A token ends within the line.
proof fn lemma_token_end(b: Seq<u8>, i: int)
    requires
        0 <= i <= b.len(),
    ensures
        i <= token_end(b, i) <= b.len(),
    decreases b.len() - i,
{
    if i < b.len() && !is_space(b[i]) {
        lemma_token_end(b, i + 1);
    }
}

/// The first byte at `i` or later that is not white space.
fn skip(b: &[u8], i: usize) -> (r: usize)
    requires
        i <= b@.len(),
    ensures
        r == skip_spaces(b@, i as int),
        i <= r <= b@.len(),
{
    proof {
        lemma_skip_spaces(b@, i as int);
    }
    let mut k = i;
    while k < b.len() && (b[k] == 0x20 || (0x09 <= b[k] && b[k] <= 0x0d))
        invariant
            i <= k <= b@.len(),
            skip_spaces(b@, i as int) == skip_spaces(b@, k as int),
        decreases b@.len() - k,
    {
        k += 1;
    }
    k
}

/// The end of the token that starts at `i`.
fn token(b: &[u8], i: usize) -> (r: usize)
    requires
        i <= b@.len(),
    ensures
        r == token_end(b@, i as int),
        i <= r <= b@.len(),
{
    proof {
        lemma_token_end(b@, i as int);
    }
    let mut k = i;
    while k < b.len() && !(b[k] == 0x20 || (0x09 <= b[k] && b[k] <= 0x0d))
        invariant
            i <= k <= b@.len(),
            token_end(b@, i as int) == token_end(b@, k as int),
        decreases b@.len() - k,
    {
        k += 1;
    }
    k
}

/// The value of `c` as a digit in base `radix`.
fn digit(c: u8, radix: u64) -> (r: Option<u64>)
    requires
        radix == 10 || radix == 16,
    ensures
        r matches Some(x) ==> digit_value(c, radix as nat) == Some(x as nat),
        r is None ==> digit_value(c, radix as nat) is None,
{
    if 0x30 <= c && c <= 0x39 && ((c - 0x30) as u64) < radix {
        Some((c - 0x30) as u64)
    } else if radix == 16 && 0x61 <= c && c <= 0x66 {
        Some((c - 0x61 + 10) as u64)
    } else if radix == 16 && 0x41 <= c && c <= 0x46 {
        Some((c - 0x41 + 10) as u64)
    } else {
        None
    }
}

/// Digits past `u64::MAX`, or a non-digit, leave no value that fits.
proof fn lemma_digits_grow(d: Seq<u8>, radix: nat, n: int)
    requires
        0 <= n <= d.len(),
        radix >= 1,
        digits_value(d.subrange(0, n), radix) matches Some(v) ==> v > u64::MAX,
    ensures
        digits_value(d, radix) matches Some(w) ==> w > u64::MAX,
    decreases d.len() - n,
{
    if n < d.len() {
        let p = d.subrange(0, n + 1);
        assert(p.drop_last() =~= d.subrange(0, n));
        if let Some(v) = digits_value(d.subrange(0, n), radix) {
            if let Some(x) = digit_value(p.last(), radix) {
                assert(v * radix + x >= v) by (nonlinear_arith)
                    requires
                        radix >= 1,
                        v >= 0,
                        x >= 0,
                ;
            }
        }
        lemma_digits_grow(d, radix, n + 1);
    } else {
        assert(d.subrange(0, n) =~= d);
    }
}

/// The value of the digits of `b` from `lo` to `hi` in base `radix`, when
/// they all are digits and it fits in a `u64`.
fn number(b: &[u8], lo: usize, hi: usize, radix: u64) -> (r: Option<u64>)
    requires
        lo <= hi <= b@.len(),
        radix == 10 || radix == 16,
    ensures
        r matches Some(v) ==> digits_value(b@.subrange(lo as int, hi as int), radix as nat) == Some(v as nat),
        r is None ==> !(digits_value(b@.subrange(lo as int, hi as int), radix as nat) matches Some(v)
            && v <= u64::MAX),
{
    let ghost d = b@.subrange(lo as int, hi as int);
    let mut v: u64 = 0;
    let mut k = lo;
    proof {
        assert(d.subrange(0, 0) =~= Seq::<u8>::empty());
    }
    while k < hi
        invariant
            lo <= k <= hi <= b@.len(),
            d == b@.subrange(lo as int, hi as int),
            radix == 10 || radix == 16,
            digits_value(d.subrange(0, k - lo), radix as nat) == Some(v as nat),
        decreases hi - k,
    {
        let p = Ghost(d.subrange(0, k - lo + 1));
        proof {
            assert(p@.drop_last() =~= d.subrange(0, k - lo));
            assert(p@.last() == b@[k as int]);
        }
        let x = match digit(b[k], radix) {
            Some(x) => x,
            None => {
                proof {
                    lemma_digits_grow(d, radix as nat, k - lo + 1);
                }
                return None;
            },
        };
        let next = match v.checked_mul(radix) {
            Some(m) => m.checked_add(x),
            None => None,
        };
        match next {
            Some(w) => {
                v = w;
            },
            None => {
                proof {
                    assert(v * radix + x > u64::MAX) by (nonlinear_arith)
                        requires
                            v * radix > u64::MAX || v * radix + x > u64::MAX,
                            x >= 0,
                    ;
                    lemma_digits_grow(d, radix as nat, k - lo + 1);
                }
                return None;
            },
        }
        k += 1;
    }
    proof {
        assert(d.subrange(0, hi - lo) =~= d);
    }
    Some(v)
}

/// Reads one line of a trace.
pub fn parse_trace_line(line: &str) -> (r: Option<(u64, CacheOp)>)
    ensures
        r == trace_line(line.spec_bytes()),
{
    let b = line.as_bytes();
    let s0 = skip(b, 0);
    let e0 = token(b, s0);
    let s1 = skip(b, e0);
    let e1 = token(b, s1);
    proof {
        lemma_skip_spaces(b@, 0);
        lemma_token_end(b@, s0 as int);
        lemma_skip_spaces(b@, e0 as int);
        lemma_token_end(b@, s1 as int);
    }
    let op = if e0 - s0 == 1 && b[s0] == 0x72 {
        Some(CacheOp::Read)
    } else if e0 - s0 == 1 && b[s0] == 0x77 {
        Some(CacheOp::Write)
    } else {
        None
    };
    proof {
        let t = b@.subrange(s0 as int, e0 as int);
        if e0 == s0 + 1 {
            assert(t =~= seq![b@[s0 as int]]);
            if b@[s0 as int] == 0x72 {
                assert(t =~= seq![0x72u8]);
            } else {
                assert(t[0] != seq![0x72u8][0]);
            }
            if b@[s0 as int] == 0x77 {
                assert(t =~= seq![0x77u8]);
            } else {
                assert(t[0] != seq![0x77u8][0]);
            }
        } else {
            assert(t.len() != 1);
            assert(seq![0x72u8].len() == 1 && seq![0x77u8].len() == 1);
        }
        assert(op == op_of(t));
    }
    let address = if e1 - s1 >= 2 && b[s1] == 0x30 && b[s1 + 1] == 0x78 {
        proof {
            let t = b@.subrange(s1 as int, e1 as int);
            assert(t.subrange(2, t.len() as int) =~= b@.subrange(s1 + 2, e1 as int));
        }
        if e1 - s1 == 2 {
            None
        } else {
            number(b, s1 + 2, e1, 16)
        }
    } else {
        if e1 == s1 {
            None
        } else {
            proof {
                assert(b@.subrange(s1 as int, e1 as int) =~= b@.subrange(s1 as int, e1 as int));
            }
            number(b, s1, e1, 10)
        }
    };
    proof {
        let t = b@.subrange(s1 as int, e1 as int);
        assert(b@ == line.spec_bytes());
        if t.len() >= 2 && t[0] == 0x30 && t[1] == 0x78 {
            assert(t.subrange(2, t.len() as int) =~= b@.subrange(s1 + 2, e1 as int));
        }
        assert(address == address_of(t));
    }
    match (op, address) {
        (Some(o), Some(a)) => Some((a, o)),
        _ => None,
    }
}

} // verus!
