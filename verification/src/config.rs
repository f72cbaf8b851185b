//! Startup configuration: flag values parsed from decimal text, with the
//! documented defaults applied when a value does not parse.

use vstd::prelude::*;

verus! {

/// Default admission rate, in jobs per second.
pub const DEFAULT_RATE: u32 = 1000;

/// Default number of concurrent workers.
pub const DEFAULT_CONCURRENCY: u32 = 100;

/// Default number of execution threads.
pub const DEFAULT_WORKER_THREADS: usize = 1;

/// Immutable runtime configuration, fixed at startup.
pub struct Config {
    /// Maximum admitted jobs per second.
    pub rate: u32,
    /// Number of concurrent workers.
    pub concurrency: u32,
    /// Number of execution threads hosting the workers.
    pub worker_threads: usize,
}

/// A byte that is an ASCII decimal digit.
pub open spec fn is_ascii_digit(b: u8) -> bool {
    0x30 <= b <= 0x39
}

/// Numeric value of an ASCII decimal digit.
pub open spec fn digit_value(b: u8) -> int {
    b - 0x30
}

/// Every byte of `s` is an ASCII decimal digit.
pub open spec fn all_digits(s: Seq<u8>) -> bool {
    forall|i: int| 0 <= i < s.len() ==> is_ascii_digit(#[trigger] s[i])
}

/// The number denoted by `s` read as decimal digits, most significant first.
pub open spec fn decimal_value(s: Seq<u8>) -> int
    decreases s.len(),
{
    if s.len() == 0 {
        0
    } else {
        decimal_value(s.drop_last()) * 10 + digit_value(s.last())
    }
}

/// `s` is valid decimal text: nonempty and made of digits only.
pub open spec fn is_decimal(s: Seq<u8>) -> bool {
    s.len() > 0 && all_digits(s)
}

proof fn lemma_decimal_value_nonneg(s: Seq<u8>)
    requires
        all_digits(s),
    ensures
        decimal_value(s) >= 0,
    decreases s.len(),
{
    if s.len() > 0 {
        assert(all_digits(s.drop_last())) by {
            assert(forall|i: int|
                0 <= i < s.drop_last().len() ==> s.drop_last()[i] == #[trigger] s[i]);
        }
        lemma_decimal_value_nonneg(s.drop_last());
    }
}

proof fn lemma_decimal_value_prefix_grows(s: Seq<u8>, i: int)
    requires
        all_digits(s),
        0 <= i <= s.len(),
    ensures
        decimal_value(s.take(i)) <= decimal_value(s),
    decreases s.len() - i,
{
    if i < s.len() {
        lemma_decimal_value_prefix_grows(s, i + 1);
        let p = s.take(i);
        let q = s.take(i + 1);
        assert(q.drop_last() =~= p);
        assert(all_digits(p)) by {
            assert(forall|j: int| 0 <= j < p.len() ==> p[j] == #[trigger] s[j]);
        }
        lemma_decimal_value_nonneg(p);
        assert(decimal_value(q) == decimal_value(p) * 10 + digit_value(s[i]));
        assert(decimal_value(p) * 10 >= decimal_value(p));
    } else {
        assert(s.take(i) =~= s);
    }
}

/// Parses nonempty, all-digit decimal text as a `u32`; anything else, and any
/// value above `u32::MAX`, yields `None`.
pub fn parse_u32(s: &[u8]) -> (r: Option<u32>)
    ensures
        r is Some <==> is_decimal(s@) && decimal_value(s@) <= u32::MAX,
        r matches Some(v) ==> v == decimal_value(s@),
{
    if s.len() == 0 {
        return None;
    }
    let mut acc: u32 = 0;
    let mut i: usize = 0;
    while i < s.len()
        invariant
            0 <= i <= s@.len(),
            all_digits(s@.take(i as int)),
            acc == decimal_value(s@.take(i as int)),
        decreases s@.len() - i,
    {
        let b = s[i];
        if b < 0x30 || b > 0x39 {
            assert(!all_digits(s@));
            return None;
        }
        let d = b - 0x30;
        proof {
            assert(s@.take(i + 1).drop_last() =~= s@.take(i as int));
            assert(decimal_value(s@.take(i + 1)) == acc * 10 + d);
        }
        if acc > (u32::MAX - d as u32) / 10 {
            proof {
                assert(acc * 10 + d > u32::MAX);
                if all_digits(s@) {
                    lemma_decimal_value_prefix_grows(s@, i + 1);
                }
            }
            return None;
        }
        acc = acc * 10 + d as u32;
        i = i + 1;
    }
    proof {
        assert(s@.take(i as int) =~= s@);
    }
    Some(acc)
}

/// Parses nonempty, all-digit decimal text as a `usize`; anything else, and
/// any value above `usize::MAX`, yields `None`.
pub fn parse_usize(s: &[u8]) -> (r: Option<usize>)
    ensures
        r is Some <==> is_decimal(s@) && decimal_value(s@) <= usize::MAX,
        r matches Some(v) ==> v == decimal_value(s@),
{
    if s.len() == 0 {
        return None;
    }
    let mut acc: usize = 0;
    let mut i: usize = 0;
    while i < s.len()
        invariant
            0 <= i <= s@.len(),
            all_digits(s@.take(i as int)),
            acc == decimal_value(s@.take(i as int)),
        decreases s@.len() - i,
    {
        let b = s[i];
        if b < 0x30 || b > 0x39 {
            assert(!all_digits(s@));
            return None;
        }
        let d = b - 0x30;
        proof {
            assert(s@.take(i + 1).drop_last() =~= s@.take(i as int));
            assert(decimal_value(s@.take(i + 1)) == acc * 10 + d);
        }
        if acc > (usize::MAX - d as usize) / 10 {
            proof {
                assert(acc * 10 + d > usize::MAX);
                if all_digits(s@) {
                    lemma_decimal_value_prefix_grows(s@, i + 1);
                }
            }
            return None;
        }
        acc = acc * 10 + d as usize;
        i = i + 1;
    }
    proof {
        assert(s@.take(i as int) =~= s@);
    }
    Some(acc)
}

/// The value a `u32` flag resolves to: the parsed number, or the default
/// when the text is not a number that fits.
pub open spec fn resolved_u32(s: Seq<u8>, default: u32) -> u32 {
    if is_decimal(s) && decimal_value(s) <= u32::MAX {
        decimal_value(s) as u32
    } else {
        default
    }
}

/// The value a `usize` flag resolves to: the parsed number, or the default
/// when the text is not a number that fits.
pub open spec fn resolved_usize(s: Seq<u8>, default: usize) -> usize {
    if is_decimal(s) && decimal_value(s) <= usize::MAX {
        decimal_value(s) as usize
    } else {
        default
    }
}

/// Resolves a `u32` flag: the parsed value, or `default` on parse failure.
/// The second component reports whether the text parsed.
pub fn u32_flag_or(s: &[u8], default: u32) -> (r: (u32, bool))
    ensures
        r.0 == resolved_u32(s@, default),
        r.1 <==> is_decimal(s@) && decimal_value(s@) <= u32::MAX,
{
    match parse_u32(s) {
        Some(v) => (v, true),
        None => (default, false),
    }
}

/// Resolves a `usize` flag: the parsed value, or `default` on parse failure.
/// The second component reports whether the text parsed.
pub fn usize_flag_or(s: &[u8], default: usize) -> (r: (usize, bool))
    ensures
        r.0 == resolved_usize(s@, default),
        r.1 <==> is_decimal(s@) && decimal_value(s@) <= usize::MAX,
{
    match parse_usize(s) {
        Some(v) => (v, true),
        None => (default, false),
    }
}

impl Config {
    /// Resolves the three flag texts into a configuration, applying the
    /// documented default wherever a text does not parse.
    pub fn resolve(rate: &[u8], concurrency: &[u8], worker_threads: &[u8]) -> (c: Config)
        ensures
            c.rate == resolved_u32(rate@, DEFAULT_RATE),
            c.concurrency == resolved_u32(concurrency@, DEFAULT_CONCURRENCY),
            c.worker_threads == resolved_usize(worker_threads@, DEFAULT_WORKER_THREADS),
    {
        Config {
            rate: u32_flag_or(rate, DEFAULT_RATE).0,
            concurrency: u32_flag_or(concurrency, DEFAULT_CONCURRENCY).0,
            worker_threads: usize_flag_or(worker_threads, DEFAULT_WORKER_THREADS).0,
        }
    }
}

} // verus!
