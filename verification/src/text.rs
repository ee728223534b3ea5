//! Character-level helpers shared by the access-path grammar: whitespace
//! trimming, decimal integers, and conversions between strings and
//! character vectors.
use vstd::prelude::*;

verus! {

// ---------------------------------------------------------------------------
// Whitespace and trimming
// ---------------------------------------------------------------------------

/// The Unicode `White_Space` property, as used by `char::is_whitespace`.
pub open spec fn is_whitespace_char(c: char) -> bool {
    let u = c as u32;
    (9 <= u <= 13) || u == 32 || u == 0x85 || u == 0xa0 || u == 0x1680 || (0x2000 <= u <= 0x200a)
        || u == 0x2028 || u == 0x2029 || u == 0x202f || u == 0x205f || u == 0x3000
}

/// Drops leading whitespace.
pub open spec fn trim_start(s: Seq<char>) -> Seq<char>
    decreases s.len(),
{
    if s.len() > 0 && is_whitespace_char(s[0]) {
        trim_start(s.drop_first())
    } else {
        s
    }
}

/// Drops trailing whitespace.
pub open spec fn trim_end(s: Seq<char>) -> Seq<char>
    decreases s.len(),
{
    if s.len() > 0 && is_whitespace_char(s.last()) {
        trim_end(s.drop_last())
    } else {
        s
    }
}

/// Drops leading and trailing whitespace (as `str::trim` does).
pub open spec fn trim(s: Seq<char>) -> Seq<char> {
    trim_end(trim_start(s))
}

/// A sequence that neither starts nor ends with whitespace.
pub open spec fn is_trimmed(s: Seq<char>) -> bool {
    s.len() > 0 ==> !is_whitespace_char(s[0]) && !is_whitespace_char(s.last())
}

pub fn is_whitespace(c: char) -> (r: bool)
    ensures
        r == is_whitespace_char(c),
{
    let u = c as u32;
    (9 <= u && u <= 13) || u == 32 || u == 0x85 || u == 0xa0 || u == 0x1680 || (0x2000 <= u && u
        <= 0x200a) || u == 0x2028 || u == 0x2029 || u == 0x202f || u == 0x205f || u == 0x3000
}

proof fn lemma_trim_start_skip(s: Seq<char>, i: int)
    requires
        0 <= i <= s.len(),
        forall|k: int| 0 <= k < i ==> is_whitespace_char(#[trigger] s[k]),
    ensures
        trim_start(s) == trim_start(s.subrange(i, s.len() as int)),
    decreases i,
{
    if i > 0 {
        assert(s.drop_first() == s.subrange(1, s.len() as int));
        lemma_trim_start_skip(s.drop_first(), i - 1);
        assert(s.drop_first().subrange(i - 1, s.drop_first().len() as int) =~= s.subrange(
            i,
            s.len() as int,
        ));
    } else {
        assert(s.subrange(0, s.len() as int) =~= s);
    }
}

proof fn lemma_trim_end_skip(s: Seq<char>, j: int)
    requires
        0 <= j <= s.len(),
        forall|k: int| j <= k < s.len() ==> is_whitespace_char(#[trigger] s[k]),
    ensures
        trim_end(s) == trim_end(s.subrange(0, j)),
    decreases s.len() - j,
{
    if j < s.len() {
        lemma_trim_end_skip(s.drop_last(), j);
        assert(s.drop_last().subrange(0, j) =~= s.subrange(0, j));
    } else {
        assert(s.subrange(0, j) =~= s);
    }
}

/// The bounds `(a, b)` of `trim(v@.subrange(lo, hi))` within `v`.
pub fn trim_bounds(v: &Vec<char>, lo: usize, hi: usize) -> (r: (usize, usize))
    requires
        lo <= hi <= v@.len(),
    ensures
        lo <= r.0 <= r.1 <= hi,
        v@.subrange(r.0 as int, r.1 as int) == trim(v@.subrange(lo as int, hi as int)),
{
    let mut a = lo;
    while a < hi && is_whitespace(v[a])
        invariant
            lo <= a <= hi <= v@.len(),
            forall|k: int| lo <= k < a ==> is_whitespace_char(#[trigger] v@[k]),
        decreases hi - a,
    {
        a = a + 1;
    }
    let mut b = hi;
    while b > a && is_whitespace(v[b - 1])
        invariant
            lo <= a <= b <= hi <= v@.len(),
            forall|k: int| b <= k < hi ==> is_whitespace_char(#[trigger] v@[k]),
        decreases b - a,
    {
        b = b - 1;
    }
    proof {
        let s = v@.subrange(lo as int, hi as int);
        assert forall|k: int| 0 <= k < a - lo implies is_whitespace_char(#[trigger] s[k]) by {
            assert(s[k] == v@[lo + k]);
        }
        lemma_trim_start_skip(s, a - lo);
        let t = s.subrange(a - lo, s.len() as int);
        assert(t =~= v@.subrange(a as int, hi as int));
        if a < hi {
            assert(!is_whitespace_char(t[0]));
        }
        assert(trim_start(t) == t);
        assert forall|k: int| b - a <= k < t.len() implies is_whitespace_char(#[trigger] t[k]) by {
            assert(t[k] == v@[a + k]);
        }
        lemma_trim_end_skip(t, b - a);
        let u = t.subrange(0, b - a);
        assert(u =~= v@.subrange(a as int, b as int));
        if b > a {
            assert(!is_whitespace_char(u.last()));
        }
        assert(trim_end(u) == u);
    }
    (a, b)
}

// ---------------------------------------------------------------------------
// Decimal integers
// ---------------------------------------------------------------------------

pub open spec fn is_digit_char(c: char) -> bool {
    48 <= (c as u32) <= 57
}

pub open spec fn all_digits(s: Seq<char>) -> bool {
    forall|i: int| 0 <= i < s.len() ==> is_digit_char(#[trigger] s[i])
}

pub open spec fn digit_value(c: char) -> int {
    (c as u32) as int - 48
}

/// The value of a sequence of decimal digits.
pub open spec fn digits_value(s: Seq<char>) -> int
    decreases s.len(),
{
    if s.len() == 0 {
        0
    } else {
        digits_value(s.drop_last()) * 10 + digit_value(s.last())
    }
}

/// What `isize::from_str` accepts: an optional sign followed by at least one
/// decimal digit, with a value in the range of `isize`.
pub open spec fn parse_int(s: Seq<char>) -> Option<int> {
    if s.len() > 0 && s[0] == '-' {
        let d = s.drop_first();
        if d.len() > 0 && all_digits(d) && -digits_value(d) >= isize::MIN {
            Some(-digits_value(d))
        } else {
            None
        }
    } else if s.len() > 0 && s[0] == '+' {
        let d = s.drop_first();
        if d.len() > 0 && all_digits(d) && digits_value(d) <= isize::MAX {
            Some(digits_value(d))
        } else {
            None
        }
    } else if s.len() > 0 && all_digits(s) && digits_value(s) <= isize::MAX {
        Some(digits_value(s))
    } else {
        None
    }
}

/// What `NonZeroIsize::from_str` accepts: an `isize` other than zero.
pub open spec fn parse_nonzero(s: Seq<char>) -> Option<int> {
    match parse_int(s) {
        Some(v) => if v != 0 {
            Some(v)
        } else {
            None
        },
        None => None,
    }
}

pub open spec fn digit_char(d: int) -> char {
    if d == 0 {
        '0'
    } else if d == 1 {
        '1'
    } else if d == 2 {
        '2'
    } else if d == 3 {
        '3'
    } else if d == 4 {
        '4'
    } else if d == 5 {
        '5'
    } else if d == 6 {
        '6'
    } else if d == 7 {
        '7'
    } else if d == 8 {
        '8'
    } else {
        '9'
    }
}

/// The decimal digits of a natural number, without leading zeros.
pub open spec fn nat_text(n: nat) -> Seq<char>
    decreases n,
{
    if n < 10 {
        seq![digit_char(n as int)]
    } else {
        nat_text(n / 10).push(digit_char((n % 10) as int))
    }
}

/// The decimal text of an integer, as `Display` writes it.
pub open spec fn int_text(v: int) -> Seq<char> {
    if v < 0 {
        seq!['-'] + nat_text((-v) as nat)
    } else {
        nat_text(v as nat)
    }
}

proof fn lemma_digit_char(d: int)
    requires
        0 <= d < 10,
    ensures
        is_digit_char(digit_char(d)),
        digit_value(digit_char(d)) == d,
{
}

pub proof fn lemma_nat_text(n: nat)
    ensures
        nat_text(n).len() > 0,
        all_digits(nat_text(n)),
        digits_value(nat_text(n)) == n,
    decreases n,
{
    if n < 10 {
        lemma_digit_char(n as int);
        assert(nat_text(n).drop_last() =~= Seq::<char>::empty());
        assert(digits_value(nat_text(n).drop_last()) == 0);
        assert(nat_text(n).last() == digit_char(n as int));
    } else {
        lemma_nat_text(n / 10);
        lemma_digit_char((n % 10) as int);
        let t = nat_text(n);
        assert(t.drop_last() =~= nat_text(n / 10));
        assert(t.last() == digit_char((n % 10) as int));
        assert(digits_value(t) == digits_value(nat_text(n / 10)) * 10 + (n % 10) as int);
        assert forall|i: int| 0 <= i < t.len() implies is_digit_char(#[trigger] t[i]) by {
            if i < t.len() - 1 {
                assert(t[i] == nat_text(n / 10)[i]);
            }
        }
    }
}

/// Printing an integer of `isize` and reading it back gives the integer.
pub proof fn lemma_int_text_parses(v: int)
    requires
        isize::MIN <= v <= isize::MAX,
    ensures
        parse_int(int_text(v)) == Some(v),
        int_text(v).len() > 0,
        int_text(v)[0] != '@' && int_text(v)[0] != '~',
        forall|i: int| 0 <= i < int_text(v).len() ==> #[trigger] int_text(v)[i] != ':'
            && int_text(v)[i] != '/' && !is_whitespace_char(int_text(v)[i]),
{
    if v < 0 {
        let n = (-v) as nat;
        lemma_nat_text(n);
        let t = int_text(v);
        assert(t.drop_first() =~= nat_text(n));
        assert(t[0] == '-');
        assert forall|i: int| 0 <= i < t.len() implies #[trigger] t[i] != ':' && t[i] != '/'
            && !is_whitespace_char(t[i]) by {
            if i > 0 {
                assert(t[i] == nat_text(n)[i - 1]);
                assert(is_digit_char(nat_text(n)[i - 1]));
            }
        }
    } else {
        let n = v as nat;
        lemma_nat_text(n);
        let t = nat_text(n);
        assert(is_digit_char(t[0]));
        assert forall|i: int| 0 <= i < t.len() implies #[trigger] t[i] != ':' && t[i] != '/'
            && !is_whitespace_char(t[i]) by {
            assert(is_digit_char(t[i]));
        }
    }
}

proof fn lemma_digits_value_nonneg(s: Seq<char>)
    requires
        all_digits(s),
    ensures
        digits_value(s) >= 0,
    decreases s.len(),
{
    if s.len() > 0 {
        assert(all_digits(s.drop_last())) by {
            assert forall|i: int| 0 <= i < s.drop_last().len() implies is_digit_char(
                #[trigger] s.drop_last()[i],
            ) by {
                assert(s.drop_last()[i] == s[i]);
            }
        }
        lemma_digits_value_nonneg(s.drop_last());
    }
}

/// A longer digit prefix never has a smaller value.
proof fn lemma_digits_value_prefix(s: Seq<char>, k: int)
    requires
        all_digits(s),
        0 <= k <= s.len(),
    ensures
        digits_value(s.subrange(0, k)) <= digits_value(s),
    decreases s.len() - k,
{
    if k < s.len() {
        let t = s.subrange(0, k + 1);
        assert(all_digits(t)) by {
            assert forall|i: int| 0 <= i < t.len() implies is_digit_char(#[trigger] t[i]) by {
                assert(t[i] == s[i]);
            }
        }
        assert(t.drop_last() =~= s.subrange(0, k));
        lemma_digits_value_nonneg(t.drop_last());
        lemma_digits_value_prefix(s, k + 1);
    } else {
        assert(s.subrange(0, k) =~= s);
    }
}

pub fn digit_to_char(d: usize) -> (c: char)
    requires
        d < 10,
    ensures
        c == digit_char(d as int),
{
    if d == 0 {
        '0'
    } else if d == 1 {
        '1'
    } else if d == 2 {
        '2'
    } else if d == 3 {
        '3'
    } else if d == 4 {
        '4'
    } else if d == 5 {
        '5'
    } else if d == 6 {
        '6'
    } else if d == 7 {
        '7'
    } else if d == 8 {
        '8'
    } else {
        '9'
    }
}

/// Appends the decimal digits of `n`.
pub fn push_nat_text(out: &mut Vec<char>, n: usize)
    ensures
        final(out)@ == old(out)@ + nat_text(n as nat),
    decreases n,
{
    if n >= 10 {
        push_nat_text(out, n / 10);
    }
    out.push(digit_to_char(n % 10));
    proof {
        if n >= 10 {
            assert(final(out)@ =~= old(out)@ + nat_text(n as nat));
        } else {
            assert(final(out)@ =~= old(out)@ + nat_text(n as nat));
        }
    }
}

/// Appends the decimal text of `v`, as `Display` writes it.
pub fn push_int_text(out: &mut Vec<char>, v: isize)
    ensures
        final(out)@ == old(out)@ + int_text(v as int),
{
    if v < 0 {
        out.push('-');
        let m: usize = (-(v + 1)) as usize + 1;
        assert(m == -(v as int));
        push_nat_text(out, m);
        assert(final(out)@ =~= old(out)@ + int_text(v as int));
    } else {
        push_nat_text(out, v as usize);
    }
}

/// Reads the digits `v[lo..hi]` as a magnitude, giving up once it exceeds `bound`.
fn parse_magnitude(v: &Vec<char>, lo: usize, hi: usize, bound: u128) -> (r: Option<u128>)
    requires
        lo <= hi <= v@.len(),
        bound <= u64::MAX,
    ensures
        ({
            let d = v@.subrange(lo as int, hi as int);
            match r {
                Some(m) => all_digits(d) && m == digits_value(d) && m <= bound,
                None => !all_digits(d) || digits_value(d) > bound,
            }
        }),
{
    let ghost d = v@.subrange(lo as int, hi as int);
    let mut acc: u128 = 0;
    let mut i = lo;
    while i < hi
        invariant
            lo <= i <= hi <= v@.len(),
            bound <= u64::MAX,
            d == v@.subrange(lo as int, hi as int),
            all_digits(d.subrange(0, i - lo)),
            acc == digits_value(d.subrange(0, i - lo)),
            acc <= bound,
        decreases hi - i,
    {
        let c = v[i];
        let u = c as u32;
        if u < 48 || u > 57 {
            assert(!is_digit_char(d[i - lo]));
            return None;
        }
        let next = acc * 10 + (u - 48) as u128;
        proof {
            let p = d.subrange(0, i - lo + 1);
            assert(p.drop_last() =~= d.subrange(0, i - lo));
            assert(p.last() == c);
            assert(all_digits(p)) by {
                assert forall|k: int| 0 <= k < p.len() implies is_digit_char(#[trigger] p[k]) by {
                    if k < p.len() - 1 {
                        assert(p[k] == d.subrange(0, i - lo)[k]);
                    }
                }
            }
        }
        if next > bound {
            proof {
                let p = d.subrange(0, i - lo + 1);
                if all_digits(d) {
                    lemma_digits_value_prefix(d, i - lo + 1);
                }
            }
            return None;
        }
        acc = next;
        i = i + 1;
    }
    assert(d.subrange(0, hi - lo) =~= d);
    Some(acc)
}

/// Parses `v[lo..hi]` as `isize::from_str` does.
pub fn parse_int_range(v: &Vec<char>, lo: usize, hi: usize) -> (r: Option<isize>)
    requires
        lo <= hi <= v@.len(),
    ensures
        match r {
            Some(x) => parse_int(v@.subrange(lo as int, hi as int)) == Some(x as int),
            None => parse_int(v@.subrange(lo as int, hi as int)) is None,
        },
{
    let ghost s = v@.subrange(lo as int, hi as int);
    if lo == hi {
        return None;
    }
    let first = v[lo];
    assert(s[0] == first);
    let max: u128 = isize::MAX as u128;
    if first == '-' {
        assert(s.drop_first() =~= v@.subrange(lo + 1, hi as int));
        if lo + 1 == hi {
            return None;
        }
        match parse_magnitude(v, lo + 1, hi, max + 1) {
            Some(m) => {
                let x: isize = if m == max + 1 {
                    isize::MIN
                } else {
                    -(m as isize)
                };
                Some(x)
            },
            None => None,
        }
    } else if first == '+' {
        assert(s.drop_first() =~= v@.subrange(lo + 1, hi as int));
        if lo + 1 == hi {
            return None;
        }
        match parse_magnitude(v, lo + 1, hi, max) {
            Some(m) => Some(m as isize),
            None => None,
        }
    } else {
        match parse_magnitude(v, lo, hi, max) {
            Some(m) => Some(m as isize),
            None => None,
        }
    }
}

/// Parses `v[lo..hi]` as `NonZeroIsize::from_str` does.
pub fn parse_nonzero_range(v: &Vec<char>, lo: usize, hi: usize) -> (r: Option<isize>)
    requires
        lo <= hi <= v@.len(),
    ensures
        match r {
            Some(x) => parse_nonzero(v@.subrange(lo as int, hi as int)) == Some(x as int),
            None => parse_nonzero(v@.subrange(lo as int, hi as int)) is None,
        },
{
    match parse_int_range(v, lo, hi) {
        Some(x) => if x != 0 {
            Some(x)
        } else {
            None
        },
        None => None,
    }
}

// ---------------------------------------------------------------------------
// Strings and character vectors
// ---------------------------------------------------------------------------

/// Appends one character to a `String` (`String::push`).
#[verifier::external_body]
pub(crate) fn string_push(s: &mut String, c: char)
    ensures
        final(s)@ == old(s)@.push(c),
{
    s.push(c)
}

/// The characters of a string slice, in order.
pub fn str_to_chars(s: &str) -> (r: Vec<char>)
    ensures
        r@ == s@,
{
    let mut out: Vec<char> = Vec::new();
    for c in it: s.chars()
        invariant
            out@ == it.seq().take(it.index() as int),
    {
        out.push(c);
    }
    out
}

/// A `String` holding the characters `v[lo..hi]`.
pub fn chars_to_string(v: &Vec<char>, lo: usize, hi: usize) -> (r: String)
    requires
        lo <= hi <= v@.len(),
    ensures
        r@ == v@.subrange(lo as int, hi as int),
{
    let mut s = String::new();
    let mut i = lo;
    while i < hi
        invariant
            lo <= i <= hi <= v@.len(),
            s@ == v@.subrange(lo as int, i as int),
        decreases hi - i,
    {
        string_push(&mut s, v[i]);
        assert(s@ =~= v@.subrange(lo as int, i + 1));
        i = i + 1;
    }
    s
}

/// Appends the characters of a string slice to a character vector.
pub fn push_str(out: &mut Vec<char>, s: &str)
    ensures
        final(out)@ == old(out)@ + s@,
{
    let chars = str_to_chars(s);
    let mut i: usize = 0;
    while i < chars.len()
        invariant
            i <= chars@.len(),
            chars@ == s@,
            out@ == old(out)@ + chars@.subrange(0, i as int),
        decreases chars@.len() - i,
    {
        out.push(chars[i]);
        assert(out@ =~= old(out)@ + chars@.subrange(0, i + 1));
        i = i + 1;
    }
    assert(chars@.subrange(0, i as int) =~= chars@);
}

} // verus!
