//! How long a benchmark run is bounded: by a repetition count, by a wall
//! time, or not at all.

use vstd::prelude::*;
use vstd::string::StrSliceExecFns;

verus! {

/// A bound on a benchmark run: a number of cycles, a duration (whole
/// seconds and subsecond nanoseconds), or no bound at all.
#[derive(Clone, Copy, Debug, PartialEq, Eq, Structural)]
pub enum Interval {
    Count(u64),
    Time(u64, u32),
    Unbounded,
}

impl Interval {
    /// Whether the run is not bounded at all.
    pub fn is_unbounded(&self) -> (r: bool)
        ensures
            r == (self is Unbounded),
    {
        matches!(self, Interval::Unbounded)
    }
}

/// What `duration_str::parse` makes of a string: the parsed duration's
/// whole seconds and subsecond nanoseconds, or nothing on a parse error.
/// The grammar (numbers with units such as "1h30m", with sums and
/// products) is the parser's own; the result depends on the string alone.
pub uninterp spec fn parsed_duration(s: Seq<char>) -> Option<(u64, u32)>;

/// Relies on duration_str::parse: a pure parser of duration expressions;
/// `Some` carries the duration's whole seconds and subsecond nanoseconds,
/// `None` stands for its parse error.
#[verifier::external_body]
fn parse_duration_str(s: &str) -> (r: Option<(u64, u32)>)
    ensures
        r == parsed_duration(s@),
{
    match duration_str::parse(s) {
        Ok(d) => Some((d.as_secs(), d.subsec_nanos())),
        Err(_) => None,
    }
}

/// A nonempty string of ASCII decimal digits.
pub open spec fn spec_is_digits(s: Seq<char>) -> bool {
    s.len() > 0 && forall|i: int|
        0 <= i < s.len() ==> '0' as int <= #[trigger] s[i] as int <= '9' as int
}

/// The number a digit string denotes.
pub open spec fn spec_digits_value(s: Seq<char>) -> int
    decreases s.len(),
{
    if s.len() == 0 {
        0
    } else {
        spec_digits_value(s.drop_last()) * 10 + (s.last() as int - '0' as int)
    }
}

proof fn lemma_digits_take_succ(s: Seq<char>, k: int)
    requires
        0 <= k < s.len(),
    ensures
        spec_digits_value(s.take(k + 1)) == spec_digits_value(s.take(k)) * 10 + (s[k] as int
            - '0' as int),
{
    assert(s.take(k + 1).drop_last() =~= s.take(k));
}

proof fn lemma_digits_take_le(s: Seq<char>, k: int)
    requires
        0 <= k <= s.len(),
        forall|i: int| 0 <= i < s.len() ==> '0' as int <= #[trigger] s[i] as int <= '9' as int,
        spec_digits_value(s.take(k)) >= 0,
    ensures
        spec_digits_value(s) >= spec_digits_value(s.take(k)),
    decreases s.len() - k,
{
    if k == s.len() {
        assert(s.take(k) =~= s);
    } else {
        lemma_digits_take_succ(s, k);
        lemma_digits_take_le(s, k + 1);
    }
}

/// Reads a whole decimal number: `Some` exactly when the string is nothing
/// but digits and the number fits in a `u64`.
fn parse_count(s: &str) -> (r: Option<u64>)
    ensures
        r is Some <==> spec_is_digits(s@) && spec_digits_value(s@) <= u64::MAX,
        r is Some ==> r->Some_0 == spec_digits_value(s@),
{
    let n: usize = s.unicode_len();
    if n == 0 {
        return None;
    }
    let mut acc: u64 = 0;
    let mut i: usize = 0;
    proof {
        assert(s@.take(0) =~= Seq::<char>::empty());
    }
    while i < n
        invariant
            n == s@.len(),
            i <= n,
            forall|j: int| 0 <= j < i ==> '0' as int <= #[trigger] s@[j] as int <= '9' as int,
            acc as int == spec_digits_value(s@.take(i as int)),
        decreases n - i,
    {
        let c: char = s.get_char(i);
        let cv: u32 = c as u32;
        if cv < '0' as u32 || cv > '9' as u32 {
            return None;
        }
        let d: u64 = (cv - '0' as u32) as u64;
        proof {
            lemma_digits_take_succ(s@, i as int);
        }
        let next: u64 = match acc.checked_mul(10) {
            Some(x) => match x.checked_add(d) {
                Some(y) => y,
                None => {
                    proof {
                        if spec_is_digits(s@) {
                            lemma_digits_take_le(s@, i as int + 1);
                        }
                    }
                    return None;
                },
            },
            None => {
                proof {
                    if spec_is_digits(s@) {
                        lemma_digits_take_le(s@, i as int + 1);
                    }
                }
                return None;
            },
        };
        acc = next;
        i = i + 1;
    }
    proof {
        assert(s@.take(n as int) =~= s@);
    }
    Some(acc)
}

/// Whether two strings hold the same characters.
fn str_equal(a: &str, b: &str) -> (r: bool)
    ensures
        r == (a@ == b@),
{
    let n: usize = a.unicode_len();
    if n != b.unicode_len() {
        return false;
    }
    let mut i: usize = 0;
    while i < n
        invariant
            n == a@.len(),
            n == b@.len(),
            i <= n,
            forall|j: int| 0 <= j < i ==> a@[j] == b@[j],
        decreases n - i,
    {
        if a.get_char(i) != b.get_char(i) {
            return false;
        }
        i = i + 1;
    }
    proof {
        assert(a@ =~= b@);
    }
    true
}

/// What a bound string denotes: a bare number is a cycle count; otherwise a
/// duration expression is a time bound; otherwise the word "unbounded" is
/// the absence of a bound; anything else denotes nothing.
pub open spec fn spec_parse_interval(s: Seq<char>) -> Option<Interval> {
    if spec_is_digits(s) && spec_digits_value(s) <= u64::MAX {
        Some(Interval::Count(spec_digits_value(s) as u64))
    } else if parsed_duration(s) is Some {
        let d = parsed_duration(s)->0;
        Some(Interval::Time(d.0, d.1))
    } else if s == "unbounded"@ {
        Some(Interval::Unbounded)
    } else {
        None
    }
}

impl Interval {
    /// Reads a bound: a whole number of cycles, a duration expression, or
    /// the word "unbounded". Anything else is rejected.
    pub fn from_str(s: &str) -> (r: Result<Interval, String>)
        ensures
            r is Ok <==> spec_parse_interval(s@) is Some,
            r is Ok ==> r->Ok_0 == spec_parse_interval(s@)->0,
    {
        if let Some(v) = parse_count(s) {
            return Ok(Interval::Count(v));
        }
        match parse_duration_str(s) {
            Some((secs, nanos)) => Ok(Interval::Time(secs, nanos)),
            None => {
                if str_equal(s, "unbounded") {
                    Ok(Interval::Unbounded)
                } else {
                    Err("Required integer number of cycles or time duration".to_owned())
                }
            },
        }
    }
}

} // verus!
