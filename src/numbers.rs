//! Decimal numbers and separated fields in text.
use vstd::prelude::*;

verus! {

/// Why a text is not a decimal `u32`.
#[derive(Debug, Clone, Copy, PartialEq, Eq, Structural)]
pub enum IntError {
    /// The text is empty.
    Empty,
    /// The text holds a character that is not a digit.
    InvalidDigit,
    /// The number does not fit in 32 bits.
    PosOverflow,
}

/// The value of decimal digit `c`, if it is one.
pub open spec fn digit_value(c: char) -> Option<nat> {
    if '0' <= c && c <= '9' {
        Some((c as nat - '0' as nat) as nat)
    } else {
        None
    }
}

/// Reads the digits `d[0..n]` from left to right; the first character that
/// is no digit, or the first step that overflows, decides the error.
pub open spec fn digits_value(d: Seq<char>, n: nat) -> Result<u32, IntError>
    decreases n,
{
    if n == 0 {
        Ok(0u32)
    } else {
        match digits_value(d, (n - 1) as nat) {
            Err(e) => Err(e),
            Ok(v) => match digit_value(d[n - 1]) {
                None => Err(IntError::InvalidDigit),
                Some(x) => if v * 10 + x > u32::MAX {
                    Err(IntError::PosOverflow)
                } else {
                    Ok((v * 10 + x) as u32)
                },
            },
        }
    }
}

/// A `u32` read from text as Rust's `u32::from_str` reads it: an optional
/// leading `+`, then one or more decimal digits.
pub open spec fn parse_u32(s: Seq<char>) -> Result<u32, IntError> {
    if s.len() == 0 {
        Err(IntError::Empty)
    } else if s.len() == 1 && (s[0] == '+' || s[0] == '-') {
        Err(IntError::InvalidDigit)
    } else if s[0] == '+' {
        digits_value(s.drop_first(), (s.len() - 1) as nat)
    } else {
        digits_value(s, s.len())
    }
}

/// The fields of `s` between the separators `sep`; there is always at
/// least one.
pub open spec fn fields(s: Seq<char>, sep: char) -> Seq<Seq<char>>
    decreases s.len(),
{
    if s.len() == 0 {
        seq![Seq::empty()]
    } else {
        let prev = fields(s.drop_last(), sep);
        if s.last() == sep {
            prev.push(Seq::empty())
        } else {
            prev.update(prev.len() - 1, prev.last().push(s.last()))
        }
    }
}

pub proof fn lemma_fields_nonempty(s: Seq<char>, sep: char)
    ensures
        fields(s, sep).len() >= 1,
    decreases s.len(),
{
    if s.len() > 0 {
        lemma_fields_nonempty(s.drop_last(), sep);
    }
}

fn digit_of(c: char) -> (r: Option<u32>)
    ensures
        match digit_value(c) {
            Some(x) => r == Some(x as u32),
            None => r is None,
        },
{
    if '0' <= c && c <= '9' {
        Some((c as u32) - ('0' as u32))
    } else {
        None
    }
}

/// Reads `s[from..]` as decimal digits.
fn read_digits(s: &str, from: usize) -> (r: Result<u32, IntError>)
    requires
        from <= s@.len(),
    ensures
        r == digits_value(s@.subrange(from as int, s@.len() as int), (s@.len() - from) as nat),
{
    let ghost d = s@.subrange(from as int, s@.len() as int);
    let n = s.unicode_len();
    let mut value: u32 = 0;
    let mut i: usize = from;
    while i < n
        invariant
            n == s@.len(),
            from <= i <= n,
            d == s@.subrange(from as int, s@.len() as int),
            digits_value(d, (i - from) as nat) == Ok::<u32, IntError>(value),
        decreases n - i,
    {
        let c = s.get_char(i);
        assert(d[(i + 1 - from) - 1] == c);
        match digit_of(c) {
            None => {
                proof {
                    lemma_digits_err_stays(d, (i + 1 - from) as nat, (n - from) as nat);
                }
                return Err(IntError::InvalidDigit);
            },
            Some(x) => {
                if value > 429496729 || (value == 429496729 && x > 5) {
                    proof {
                        lemma_digits_err_stays(d, (i + 1 - from) as nat, (n - from) as nat);
                    }
                    return Err(IntError::PosOverflow);
                }
                value = value * 10 + x;
            },
        }
        i = i + 1;
    }
    Ok(value)
}

/// Once reading fails, it fails with the same error to the end.
proof fn lemma_digits_err_stays(d: Seq<char>, n: nat, m: nat)
    requires
        n <= m,
        digits_value(d, n) is Err,
    ensures
        digits_value(d, m) == digits_value(d, n),
    decreases m - n,
{
    if n < m {
        lemma_digits_err_stays(d, n, (m - 1) as nat);
    }
}

/// Reads a decimal `u32` as Rust's `u32::from_str` does.
pub fn parse_u32_text(s: &str) -> (r: Result<u32, IntError>)
    ensures
        r == parse_u32(s@),
{
    let n = s.unicode_len();
    if n == 0 {
        return Err(IntError::Empty);
    }
    let c = s.get_char(0);
    if n == 1 && (c == '+' || c == '-') {
        return Err(IntError::InvalidDigit);
    }
    if c == '+' {
        assert(s@.subrange(1, s@.len() as int) =~= s@.drop_first());
        read_digits(s, 1)
    } else {
        assert(s@.subrange(0, s@.len() as int) =~= s@);
        read_digits(s, 0)
    }
}

/// Splits `s` at every `sep` into its fields.
pub fn split_fields(s: &str, sep: char) -> (r: Vec<String>)
    ensures
        r@.map_values(|f: String| f@) == fields(s@, sep),
{
    let n = s.unicode_len();
    let mut out: Vec<String> = Vec::new();
    let mut start: usize = 0;
    let mut i: usize = 0;
    proof {
        assert(s@.subrange(0, 0) =~= Seq::<char>::empty());
        assert(out@.map_values(|f: String| f@).push(s@.subrange(0, 0)) =~= seq![Seq::<char>::empty()]);
    }
    while i < n
        invariant
            n == s@.len(),
            start <= i <= n,
            out@.map_values(|f: String| f@).push(s@.subrange(start as int, i as int)) == fields(
                s@.subrange(0, i as int),
                sep,
            ),
        decreases n - i,
    {
        let c = s.get_char(i);
        let ghost prev = out@.map_values(|f: String| f@);
        assert(s@.subrange(0, i + 1).drop_last() =~= s@.subrange(0, i as int));
        assert(s@.subrange(0, i + 1).last() == c);
        if c == sep {
            let field = String::from_str(s.substring_char(start, i));
            out.push(field);
            start = i + 1;
            assert(out@.map_values(|f: String| f@) =~= prev.push(field@));
            assert(s@.subrange(start as int, i + 1) =~= Seq::<char>::empty());
            assert(out@.map_values(|f: String| f@).push(s@.subrange(start as int, i + 1)) =~= fields(
                s@.subrange(0, i + 1),
                sep,
            ));
        } else {
            assert(s@.subrange(start as int, i + 1) =~= s@.subrange(start as int, i as int).push(c));
            assert(out@.map_values(|f: String| f@).push(s@.subrange(start as int, i + 1)) =~= fields(
                s@.subrange(0, i + 1),
                sep,
            ));
        }
        i = i + 1;
    }
    let last = String::from_str(s.substring_char(start, n));
    let ghost prev = out@.map_values(|f: String| f@);
    out.push(last);
    assert(out@.map_values(|f: String| f@) =~= prev.push(last@));
    assert(s@.subrange(0, n as int) =~= s@);
    out
}

} // verus!
