use vstd::prelude::*;
use vstd::string::StringSliceAdditionalSpecFns;

verus! {

/// Why a command-line value could not be read.
#[derive(Debug, PartialEq, Eq, Structural, Copy, Clone)]
pub enum ArgumentError {
    /// A resolution is not two values joined by one `x`.
    ResolutionFormat,
    InvalidWidth,
    InvalidHeight,
    InvalidMaxIterations,
}

pub open spec fn is_digit(b: u8) -> bool {
    48 <= b <= 57
}

pub open spec fn all_digits(d: Seq<u8>) -> bool {
    forall|i: int| 0 <= i < d.len() ==> is_digit(#[trigger] d[i])
}

/// The number that the decimal digits `d` spell.
pub open spec fn digits_value(d: Seq<u8>) -> nat
    decreases d.len(),
{
    if d.len() == 0 {
        0
    } else {
        digits_value(d.drop_last()) * 10 + (d.last() - 48) as nat
    }
}

/// `t` without a leading `+`.
pub open spec fn unsigned_digits(t: Seq<u8>) -> Seq<u8> {
    if t.len() > 0 && t[0] == 43 {
        t.drop_first()
    } else {
        t
    }
}

/// The value of an unsigned decimal: an optional `+`, then at least one digit,
/// and nothing else; `None` for anything else or a value above `max`.
pub open spec fn decimal_value(t: Seq<u8>, max: nat) -> Option<nat> {
    let d = unsigned_digits(t);
    if d.len() > 0 && all_digits(d) && digits_value(d) <= max {
        Some(digits_value(d))
    } else {
        None
    }
}

/// A longer run of digits spells at least as much as its beginning.
proof fn lemma_digits_value_grows(d: Seq<u8>, k: int)
    requires
        all_digits(d),
        0 <= k <= d.len(),
    ensures
        digits_value(d.subrange(0, k)) <= digits_value(d),
    decreases d.len() - k,
{
    if k < d.len() {
        lemma_digits_value_grows(d, k + 1);
        assert(d.subrange(0, k + 1).drop_last() =~= d.subrange(0, k));
    } else {
        assert(d.subrange(0, k) =~= d);
    }
}

/// Reads `bytes[start..end]` as an unsigned decimal no larger than `max`.
fn decimal_in(bytes: &[u8], start: usize, end: usize, max: u64) -> (r: Option<u64>)
    requires
        start <= end <= bytes@.len(),
        max <= u32::MAX,
    ensures
        r == (match decimal_value(bytes@.subrange(start as int, end as int), max as nat) {
            Some(v) => Some(v as u64),
            None => None::<u64>,
        }),
{
    let ghost t = bytes@.subrange(start as int, end as int);
    let mut first = start;
    if first < end && bytes[first] == 43 {
        first = first + 1;
    }
    let ghost d = bytes@.subrange(first as int, end as int);
    assert(d =~= unsigned_digits(t));
    if first == end {
        return None;
    }
    let mut value: u64 = 0;
    let mut i = first;
    while i < end
        invariant
            first <= i <= end <= bytes@.len(),
            first < end,
            t == bytes@.subrange(start as int, end as int),
            d == bytes@.subrange(first as int, end as int),
            d == unsigned_digits(t),
            all_digits(d.subrange(0, i - first)),
            value == digits_value(d.subrange(0, i - first)),
            value <= max,
            max <= u32::MAX,
        decreases end - i,
    {
        let b = bytes[i];
        if b < 48 || b > 57 {
            assert(!all_digits(d)) by {
                assert(d[i - first] == b);
            }
            return None;
        }
        let next = value * 10 + (b - 48) as u64;
        proof {
            assert(d.subrange(0, i + 1 - first).drop_last() =~= d.subrange(0, i - first));
            assert(d.subrange(0, i + 1 - first).last() == b);
            assert(all_digits(d.subrange(0, i + 1 - first))) by {
                assert forall|j: int| 0 <= j < i + 1 - first implies is_digit(
                    #[trigger] d.subrange(0, i + 1 - first)[j],
                ) by {
                    if j < i - first {
                        assert(d.subrange(0, i + 1 - first)[j] == d.subrange(0, i - first)[j]);
                    }
                }
            }
        }
        if next > max {
            proof {
                if all_digits(d) {
                    lemma_digits_value_grows(d, i + 1 - first);
                }
            }
            return None;
        }
        value = next;
        i = i + 1;
    }
    assert(d.subrange(0, i - first) =~= d);
    Some(value)
}

/// Index of the only `x` in `b`, if it holds exactly one.
pub open spec fn only_x(b: Seq<u8>, p: int) -> bool {
    &&& 0 <= p < b.len()
    &&& b[p] == 120
    &&& forall|q: int| 0 <= q < b.len() && q != p ==> b[q] != 120
}

/// What reading `<width>x<height>` from the bytes `b` gives.
pub open spec fn resolution_of(b: Seq<u8>) -> Result<(u32, u32), ArgumentError> {
    if exists|p: int| only_x(b, p) {
        let p = choose|p: int| only_x(b, p);
        match (
            decimal_value(b.subrange(0, p), u32::MAX as nat),
            decimal_value(b.subrange(p + 1, b.len() as int), u32::MAX as nat),
        ) {
            (None, _) => Err(ArgumentError::InvalidWidth),
            (Some(_), None) => Err(ArgumentError::InvalidHeight),
            (Some(w), Some(h)) => Ok((w as u32, h as u32)),
        }
    } else {
        Err(ArgumentError::ResolutionFormat)
    }
}

/// Reads a resolution written `<width>x<height>`.
pub fn parsed_resolution(resolution: &str) -> (r: Result<(u32, u32), ArgumentError>)
    ensures
        r == resolution_of(resolution.spec_bytes()),
{
    let bytes = resolution.as_bytes();
    let ghost b = bytes@;
    let mut separator: Option<usize> = None;
    let mut i: usize = 0;
    while i < bytes.len()
        invariant
            b == bytes@,
            b == resolution.spec_bytes(),
            i <= b.len(),
            separator is None ==> forall|q: int| 0 <= q < i ==> b[q] != 120,
            separator is Some ==> separator.unwrap() < i && b[separator.unwrap() as int] == 120,
            separator is Some ==> forall|q: int|
                0 <= q < i && q != separator.unwrap() ==> b[q] != 120,
        decreases b.len() - i,
    {
        if bytes[i] == 120 {
            if separator.is_some() {
                assert(!exists|p: int| only_x(b, p)) by {
                    let first = separator.unwrap() as int;
                    assert forall|p: int| !only_x(b, p) by {
                        if p != first {
                            assert(b[first] == 120);
                        } else {
                            assert(b[i as int] == 120);
                        }
                    }
                }
                return Err(ArgumentError::ResolutionFormat);
            }
            separator = Some(i);
        }
        i = i + 1;
    }
    match separator {
        None => {
            assert(!exists|p: int| only_x(b, p));
            Err(ArgumentError::ResolutionFormat)
        },
        Some(p) => {
            assert(only_x(b, p as int));
            assert(forall|q: int| only_x(b, q) ==> q == p);
            let width = decimal_in(bytes, 0, p, 0xffff_ffff);
            let height = decimal_in(bytes, p + 1, bytes.len(), 0xffff_ffff);
            match (width, height) {
                (None, _) => Err(ArgumentError::InvalidWidth),
                (Some(_), None) => Err(ArgumentError::InvalidHeight),
                (Some(w), Some(h)) => Ok((w as u32, h as u32)),
            }
        },
    }
}

/// Reads an iteration budget from 0 to 255.
pub fn parsed_max_iterations(max_iterations: &str) -> (r: Result<u8, ArgumentError>)
    ensures
        r == (match decimal_value(max_iterations.spec_bytes(), u8::MAX as nat) {
            Some(v) => Ok::<u8, ArgumentError>(v as u8),
            None => Err(ArgumentError::InvalidMaxIterations),
        }),
{
    let bytes = max_iterations.as_bytes();
    assert(bytes@.subrange(0, bytes@.len() as int) =~= bytes@);
    match decimal_in(bytes, 0, bytes.len(), 255) {
        Some(v) => Ok(v as u8),
        None => Err(ArgumentError::InvalidMaxIterations),
    }
}

} // verus!
