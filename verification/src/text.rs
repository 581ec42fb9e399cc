//! Character-level utilities shared by the parsing and rendering code:
//! whitespace classification, trimming, searching, and decimal integer
//! parsing and rendering over sequences of characters.

use vstd::prelude::*;
use vstd::string::StrSliceExecFns;

verus! {

// ---------------------------------------------------------------------------
// Character classes
// ---------------------------------------------------------------------------

/// The Unicode white-space characters, the set used by `str::trim` and
/// `str::split_whitespace`.
pub open spec fn is_space_char(c: char) -> bool {
    let u = c as u32;
    u == 0x09 || u == 0x0A || u == 0x0B || u == 0x0C || u == 0x0D || u == 0x20 || u == 0x85
        || u == 0xA0 || u == 0x1680 || (0x2000 <= u && u <= 0x200A) || u == 0x2028 || u == 0x2029
        || u == 0x202F || u == 0x205F || u == 0x3000
}

pub fn space_char(c: char) -> (r: bool)
    ensures
        r == is_space_char(c),
{
    let u: u32 = c as u32;
    u == 0x09 || u == 0x0A || u == 0x0B || u == 0x0C || u == 0x0D || u == 0x20 || u == 0x85
        || u == 0xA0 || u == 0x1680 || (0x2000 <= u && u <= 0x200A) || u == 0x2028 || u == 0x2029
        || u == 0x202F || u == 0x205F || u == 0x3000
}

pub open spec fn is_digit_char(c: char) -> bool {
    0x30 <= c as u32 && c as u32 <= 0x39
}

/// Numeric value of a decimal digit character.
pub open spec fn digit_val(c: char) -> nat {
    ((c as u32) - 0x30) as nat
}

pub fn digit_char(c: char) -> (r: bool)
    ensures
        r == is_digit_char(c),
{
    let u: u32 = c as u32;
    0x30 <= u && u <= 0x39
}

// ---------------------------------------------------------------------------
// String / Vec<char> conversion
// ---------------------------------------------------------------------------

/// Copies the characters of a string slice into a vector.
pub fn str_chars(s: &str) -> (r: Vec<char>)
    ensures
        r@ == s@,
{
    let n: usize = s.unicode_len();
    let mut v: Vec<char> = Vec::new();
    let mut i: usize = 0;
    while i < n
        invariant
            i <= n,
            n == s@.len(),
            v@ == s@.take(i as int),
        decreases n - i,
    {
        v.push(s.get_char(i));
        i = i + 1;
        assert(s@.take(i as int) =~= s@.take(i - 1).push(s@[i - 1]));
    }
    assert(s@.take(n as int) =~= s@);
    v
}

/// Copies `v[from..to]` into a fresh vector.
pub fn copy_range(v: &Vec<char>, from: usize, to: usize) -> (r: Vec<char>)
    requires
        from <= to <= v@.len(),
    ensures
        r@ == v@.subrange(from as int, to as int),
{
    let mut r: Vec<char> = Vec::new();
    let mut i: usize = from;
    while i < to
        invariant
            from <= i <= to <= v@.len(),
            r@ == v@.subrange(from as int, i as int),
        decreases to - i,
    {
        r.push(v[i]);
        i = i + 1;
        assert(v@.subrange(from as int, i as int) =~= v@.subrange(from as int, i - 1).push(
            v@[i - 1],
        ));
    }
    r
}

/// Appends the characters of a string slice to a vector.
pub fn push_str_chars(out: &mut Vec<char>, s: &str)
    ensures
        final(out)@ == old(out)@ + s@,
{
    let n: usize = s.unicode_len();
    let mut i: usize = 0;
    while i < n
        invariant
            i <= n,
            n == s@.len(),
            out@ == old(out)@ + s@.take(i as int),
        decreases n - i,
    {
        out.push(s.get_char(i));
        i = i + 1;
        assert(old(out)@ + s@.take(i as int) =~= (old(out)@ + s@.take(i - 1)).push(s@[i - 1]));
    }
    assert(old(out)@ + s@.take(n as int) =~= old(out)@ + s@);
}

/// Appends the characters of another vector.
pub fn push_all(out: &mut Vec<char>, v: &Vec<char>)
    ensures
        final(out)@ == old(out)@ + v@,
{
    let n: usize = v.len();
    let mut i: usize = 0;
    while i < n
        invariant
            i <= n,
            n == v@.len(),
            out@ == old(out)@ + v@.take(i as int),
        decreases n - i,
    {
        out.push(v[i]);
        i = i + 1;
        assert(old(out)@ + v@.take(i as int) =~= (old(out)@ + v@.take(i - 1)).push(v@[i - 1]));
    }
    assert(old(out)@ + v@.take(n as int) =~= old(out)@ + v@);
}

// ---------------------------------------------------------------------------
// Trimming
// ---------------------------------------------------------------------------

/// The sequence with leading white space removed.
pub open spec fn trim_front(s: Seq<char>) -> Seq<char>
    decreases s.len(),
{
    if s.len() == 0 {
        s
    } else if is_space_char(s[0]) {
        trim_front(s.drop_first())
    } else {
        s
    }
}

/// The sequence with trailing white space removed.
pub open spec fn trim_back(s: Seq<char>) -> Seq<char>
    decreases s.len(),
{
    if s.len() == 0 {
        s
    } else if is_space_char(s.last()) {
        trim_back(s.drop_last())
    } else {
        s
    }
}

/// The sequence with surrounding white space removed, as `str::trim` leaves it.
pub open spec fn trim_spec(s: Seq<char>) -> Seq<char> {
    trim_back(trim_front(s))
}

pub proof fn lemma_trim_front_at(s: Seq<char>, i: int)
    requires
        0 <= i <= s.len(),
        forall|k: int| 0 <= k < i ==> is_space_char(s[k]),
        i == s.len() || !is_space_char(s[i]),
    ensures
        trim_front(s) == s.skip(i),
    decreases i,
{
    if i == 0 {
        assert(s.skip(0) =~= s);
    } else {
        assert(is_space_char(s[0]));
        lemma_trim_front_at(s.drop_first(), i - 1);
        assert(s.drop_first().skip(i - 1) =~= s.skip(i));
    }
}

pub proof fn lemma_trim_back_at(s: Seq<char>, i: int)
    requires
        0 <= i <= s.len(),
        forall|k: int| i <= k < s.len() ==> is_space_char(s[k]),
        i == 0 || !is_space_char(s[i - 1]),
    ensures
        trim_back(s) == s.take(i),
    decreases s.len() - i,
{
    if i == s.len() {
        assert(s.take(i) =~= s);
        if s.len() > 0 {
            assert(!is_space_char(s.last()));
        }
    } else {
        assert(is_space_char(s.last()));
        lemma_trim_back_at(s.drop_last(), i);
        assert(s.drop_last().take(i) =~= s.take(i));
    }
}

/// Trims white space off both ends of `v[from..to]`.
pub fn trim_range(v: &Vec<char>, from: usize, to: usize) -> (r: Vec<char>)
    requires
        from <= to <= v@.len(),
    ensures
        r@ == trim_spec(v@.subrange(from as int, to as int)),
{
    let ghost s = v@.subrange(from as int, to as int);
    let mut lo: usize = from;
    while lo < to && space_char(v[lo])
        invariant
            from <= lo <= to <= v@.len(),
            forall|k: int| from <= k < lo ==> is_space_char(v@[k]),
        decreases to - lo,
    {
        lo = lo + 1;
    }
    let mut hi: usize = to;
    while hi > lo && space_char(v[hi - 1])
        invariant
            from <= lo <= hi <= to <= v@.len(),
            forall|k: int| from <= k < lo ==> is_space_char(v@[k]),
            forall|k: int| hi <= k < to ==> is_space_char(v@[k]),
        decreases hi,
    {
        hi = hi - 1;
    }
    let r = copy_range(v, lo, hi);
    proof {
        assert(forall|k: int| 0 <= k < lo - from ==> is_space_char(s[k]));
        assert(lo - from == s.len() || !is_space_char(s[lo - from]));
        lemma_trim_front_at(s, lo - from);
        let s2 = s.skip(lo - from);
        assert(forall|k: int| hi - lo <= k < s2.len() ==> is_space_char(s2[k]));
        if hi > lo {
            assert(!is_space_char(s2[hi - lo - 1]));
        }
        lemma_trim_back_at(s2, hi - lo);
        assert(s2.take(hi - lo) =~= v@.subrange(lo as int, hi as int));
    }
    r
}

// ---------------------------------------------------------------------------
// Searching
// ---------------------------------------------------------------------------

/// Index of the first occurrence of `c` in `s`, or -1 if there is none.
pub open spec fn first_index_of(s: Seq<char>, c: char) -> int
    decreases s.len(),
{
    if s.len() == 0 {
        -1
    } else if s[0] == c {
        0
    } else {
        let r = first_index_of(s.drop_first(), c);
        if r < 0 {
            -1
        } else {
            r + 1
        }
    }
}

pub proof fn lemma_first_index_of(s: Seq<char>, c: char)
    ensures
        first_index_of(s, c) == -1 ==> forall|k: int| 0 <= k < s.len() ==> s[k] != c,
        first_index_of(s, c) >= 0 ==> 0 <= first_index_of(s, c) < s.len() && s[first_index_of(
            s,
            c,
        )] == c && forall|k: int| 0 <= k < first_index_of(s, c) ==> s[k] != c,
    decreases s.len(),
{
    if s.len() == 0 {
    } else if s[0] == c {
    } else {
        lemma_first_index_of(s.drop_first(), c);
        assert(forall|k: int| 1 <= k < s.len() ==> s[k] == s.drop_first()[k - 1]);
    }
}

/// The converse direction: a witness position pins `first_index_of` down.
pub proof fn lemma_first_index_of_is(s: Seq<char>, c: char, i: int)
    requires
        0 <= i < s.len(),
        s[i] == c,
        forall|k: int| 0 <= k < i ==> s[k] != c,
    ensures
        first_index_of(s, c) == i,
{
    lemma_first_index_of(s, c);
    let f = first_index_of(s, c);
    if f == -1 {
        assert(s[i] != c);
        assert(false);
    } else if f < i {
        assert(s[f] != c);
        assert(false);
    } else if f > i {
        assert(s[i] != c);
        assert(false);
    }
}

pub proof fn lemma_first_index_of_none(s: Seq<char>, c: char)
    requires
        forall|k: int| 0 <= k < s.len() ==> s[k] != c,
    ensures
        first_index_of(s, c) == -1,
{
    lemma_first_index_of(s, c);
    let f = first_index_of(s, c);
    if f >= 0 {
        assert(s[f] != c);
        assert(false);
    }
}

/// Finds the first occurrence of `c` in `v` at or after `from`.
pub fn find_char_from(v: &Vec<char>, from: usize, c: char) -> (r: Option<usize>)
    requires
        from <= v@.len(),
    ensures
        match r {
            Some(i) => from <= i < v@.len() && v@[i as int] == c && forall|k: int|
                from <= k < i ==> v@[k] != c,
            None => forall|k: int| from <= k < v@.len() ==> v@[k] != c,
        },
{
    let mut i: usize = from;
    while i < v.len()
        invariant
            from <= i <= v@.len(),
            forall|k: int| from <= k < i ==> v@[k] != c,
        decreases v@.len() - i,
    {
        if v[i] == c {
            return Some(i);
        }
        i = i + 1;
    }
    None
}

/// Finds the first occurrence of `c` in `v[from..to]`.
pub fn find_char_in(v: &Vec<char>, from: usize, to: usize, c: char) -> (r: Option<usize>)
    requires
        from <= to <= v@.len(),
    ensures
        match r {
            Some(i) => from <= i < to && v@[i as int] == c && forall|k: int|
                from <= k < i ==> v@[k] != c,
            None => forall|k: int| from <= k < to ==> v@[k] != c,
        },
{
    let mut i: usize = from;
    while i < to
        invariant
            from <= i <= to <= v@.len(),
            forall|k: int| from <= k < i ==> v@[k] != c,
        decreases to - i,
    {
        if v[i] == c {
            return Some(i);
        }
        i = i + 1;
    }
    None
}

/// Index of the last occurrence of `c` in `s`, or -1 if there is none.
pub open spec fn last_index_of(s: Seq<char>, c: char) -> int
    decreases s.len(),
{
    if s.len() == 0 {
        -1
    } else if s.last() == c {
        s.len() - 1
    } else {
        last_index_of(s.drop_last(), c)
    }
}

pub proof fn lemma_last_index_of(s: Seq<char>, c: char)
    ensures
        last_index_of(s, c) == -1 ==> forall|k: int| #![trigger s[k]] 0 <= k < s.len() ==> s[k]
            != c,
        last_index_of(s, c) >= 0 ==> 0 <= last_index_of(s, c) < s.len() && s[last_index_of(
            s,
            c,
        )] == c && forall|k: int| #![trigger s[k]] last_index_of(s, c) < k < s.len() ==> s[k] != c,
    decreases s.len(),
{
    if s.len() == 0 {
    } else if s.last() == c {
    } else {
        lemma_last_index_of(s.drop_last(), c);
        assert(forall|k: int| 0 <= k < s.len() - 1 ==> s[k] == s.drop_last()[k]);
    }
}

/// A witness position pins `last_index_of` down.
pub proof fn lemma_last_index_of_is(s: Seq<char>, c: char, i: int)
    requires
        0 <= i < s.len(),
        s[i] == c,
        forall|k: int| #![trigger s[k]] i < k < s.len() ==> s[k] != c,
    ensures
        last_index_of(s, c) == i,
    decreases s.len(),
{
    if i == s.len() - 1 {
        assert(s.last() == c);
    } else {
        assert(s[s.len() - 1] != c);
        assert(s.drop_last()[i] == s[i]);
        assert forall|k: int| #![trigger s.drop_last()[k]] i < k < s.drop_last().len() implies s.drop_last()[k] != c by {
            assert(s.drop_last()[k] == s[k]);
        }
        lemma_last_index_of_is(s.drop_last(), c, i);
    }
}

pub proof fn lemma_last_index_of_none(s: Seq<char>, c: char)
    requires
        forall|k: int| #![trigger s[k]] 0 <= k < s.len() ==> s[k] != c,
    ensures
        last_index_of(s, c) == -1,
    decreases s.len(),
{
    if s.len() > 0 {
        assert(s[s.len() - 1] != c);
        assert forall|k: int| #![trigger s.drop_last()[k]] 0 <= k < s.drop_last().len() implies s.drop_last()[k] != c by {
            assert(s.drop_last()[k] == s[k]);
        }
        lemma_last_index_of_none(s.drop_last(), c);
    }
}

/// Finds the last occurrence of `c` in `v`.
pub fn find_char_last(v: &Vec<char>, c: char) -> (r: Option<usize>)
    ensures
        match r {
            Some(i) => i < v@.len() && i as int == last_index_of(v@, c),
            None => last_index_of(v@, c) == -1,
        },
{
    let mut i: usize = v.len();
    while i > 0
        invariant
            i <= v@.len(),
            forall|k: int| i <= k < v@.len() ==> v@[k] != c,
        decreases i,
    {
        i = i - 1;
        if v[i] == c {
            proof {
                lemma_last_index_of_is(v@, c, i as int);
            }
            return Some(i);
        }
    }
    proof {
        lemma_last_index_of_none(v@, c);
    }
    None
}

/// Compares two string slices character by character.
pub fn str_eq(a: &str, b: &str) -> (r: bool)
    ensures
        r == (a@ == b@),
{
    let na: usize = a.unicode_len();
    let nb: usize = b.unicode_len();
    if na != nb {
        proof {
            assert(a@ != b@);
        }
        return false;
    }
    let mut i: usize = 0;
    while i < na
        invariant
            i <= na,
            na == a@.len(),
            na == b@.len(),
            forall|k: int| 0 <= k < i ==> a@[k] == b@[k],
        decreases na - i,
    {
        if a.get_char(i) != b.get_char(i) {
            proof {
                assert(a@[i as int] != b@[i as int]);
            }
            return false;
        }
        i = i + 1;
    }
    proof {
        assert(a@ =~= b@);
    }
    true
}

/// A line with a trailing carriage return removed, as `str::lines` yields it.
pub open spec fn strip_cr(line: Seq<char>) -> Seq<char> {
    if line.len() > 0 && line.last() == '\r' {
        line.drop_last()
    } else {
        line
    }
}

// ---------------------------------------------------------------------------
// Decimal integers
// ---------------------------------------------------------------------------

/// Value of a sequence of decimal digit characters, most significant first.
pub open spec fn dec_val(s: Seq<char>) -> nat
    decreases s.len(),
{
    if s.len() == 0 {
        0
    } else {
        dec_val(s.drop_last()) * 10 + digit_val(s.last())
    }
}

pub open spec fn all_digit_chars(s: Seq<char>) -> bool {
    forall|i: int| 0 <= i < s.len() ==> is_digit_char(s[i])
}

/// The digit portion of an optionally signed integer literal.
pub open spec fn int_literal_digits(s: Seq<char>) -> Seq<char> {
    if s.len() > 0 && (s[0] == '+' || s[0] == '-') {
        s.drop_first()
    } else {
        s
    }
}

/// Whether `s` is exactly what `str::parse::<i64>` accepts: an optional sign,
/// one or more decimal digits, and a value within the range of `i64`.
pub open spec fn is_i64_literal(s: Seq<char>) -> bool {
    let d = int_literal_digits(s);
    d.len() > 0 && all_digit_chars(d) && (if s.len() > 0 && s[0] == '-' {
        dec_val(d) <= 0x8000000000000000
    } else {
        dec_val(d) <= 0x7fffffffffffffff
    })
}

pub open spec fn i64_literal_val(s: Seq<char>) -> int {
    if s.len() > 0 && s[0] == '-' {
        -(dec_val(int_literal_digits(s)) as int)
    } else {
        dec_val(int_literal_digits(s)) as int
    }
}

pub proof fn lemma_dec_val_take_step(s: Seq<char>, k: int)
    requires
        0 <= k < s.len(),
    ensures
        dec_val(s.take(k + 1)) == dec_val(s.take(k)) * 10 + digit_val(s[k]),
{
    assert(s.take(k + 1).drop_last() =~= s.take(k));
    assert(s.take(k + 1).last() == s[k]);
}

pub proof fn lemma_dec_val_take_le(s: Seq<char>, k: int)
    requires
        0 <= k <= s.len(),
    ensures
        dec_val(s.take(k)) <= dec_val(s),
    decreases s.len() - k,
{
    if k == s.len() {
        assert(s.take(k) =~= s);
    } else {
        lemma_dec_val_take_step(s, k);
        lemma_dec_val_take_le(s, k + 1);
    }
}

/// Parses the whole of `v` as an `i64`, exactly as `str::parse::<i64>` would.
pub fn parse_i64_chars(v: &Vec<char>) -> (r: Option<i64>)
    ensures
        match r {
            Some(n) => is_i64_literal(v@) && n as int == i64_literal_val(v@),
            None => !is_i64_literal(v@),
        },
{
    let ghost s = v@;
    let n = v.len();
    let neg: bool = n > 0 && v[0] == '-';
    let start: usize = if n > 0 && (v[0] == '+' || v[0] == '-') {
        1
    } else {
        0
    };
    let ghost d = int_literal_digits(s);
    proof {
        assert(d =~= s.skip(start as int));
    }
    if start >= n {
        // no digits at all
        assert(d.len() == 0);
        return None;
    }
    let limit: u64 = if neg {
        0x8000000000000000
    } else {
        0x7fffffffffffffff
    };
    let mut mag: u64 = 0;
    let mut i: usize = start;
    while i < n
        invariant
            start <= i <= n,
            n == s.len(),
            v@ == s,
            start < n,
            d == int_literal_digits(s),
            d =~= s.skip(start as int),
            neg == (s.len() > 0 && s[0] == '-'),
            limit == if neg {
                0x8000000000000000u64
            } else {
                0x7fffffffffffffffu64
            },
            mag <= limit,
            forall|k: int| 0 <= k < i - start ==> is_digit_char(d[k]),
            mag as nat == dec_val(d.take(i - start)),
        decreases n - i,
    {
        let c = v[i];
        if !digit_char(c) {
            assert(!is_digit_char(d[i - start]));
            assert(!all_digit_chars(d));
            return None;
        }
        let dv: u64 = (c as u32 - 0x30) as u64;
        assert(dv as nat == digit_val(d[i - start]));
        assert(dv <= 9);
        if mag > limit / 10 || (mag == limit / 10 && dv > limit % 10) {
            // the value exceeds the range of i64
            proof {
                lemma_dec_val_take_step(d, i - start);
                assert(dec_val(d.take(i - start + 1)) > limit as nat) by {
                    if mag > limit / 10 {
                        assert(mag as nat * 10 >= (limit / 10 + 1) as nat * 10) by (nonlinear_arith)
                            requires mag >= limit / 10 + 1;
                        assert((limit / 10 + 1) as nat * 10 > limit as nat) by (nonlinear_arith)
                            requires limit > 0;
                    } else {
                        assert(mag as nat * 10 + dv as nat > limit as nat) by (nonlinear_arith)
                            requires mag == limit / 10, dv > limit % 10, limit > 0;
                    }
                };
                lemma_dec_val_take_le(d, i - start + 1);
                assert(dec_val(d) > limit as nat);
            }
            return None;
        }
        proof {
            assert(mag as nat * 10 + dv as nat <= limit as nat) by (nonlinear_arith)
                requires
                    mag <= limit / 10,
                    mag < limit / 10 || dv <= limit % 10,
                    dv <= 9,
                    limit > 0,
            ;
            lemma_dec_val_take_step(d, i - start);
        }
        mag = mag * 10 + dv;
        i = i + 1;
    }
    proof {
        assert(d.take(n - start) =~= d);
        assert(all_digit_chars(d));
    }
    if neg {
        if mag == 0x8000000000000000 {
            Some(i64::MIN)
        } else {
            assert(mag < 0x8000000000000000);
            Some(-(mag as i64))
        }
    } else {
        Some(mag as i64)
    }
}

/// The decimal digit character for `n` in 0..10.
pub open spec fn digit_char_of(n: int) -> char {
    if n == 0 {
        '0'
    } else if n == 1 {
        '1'
    } else if n == 2 {
        '2'
    } else if n == 3 {
        '3'
    } else if n == 4 {
        '4'
    } else if n == 5 {
        '5'
    } else if n == 6 {
        '6'
    } else if n == 7 {
        '7'
    } else if n == 8 {
        '8'
    } else {
        '9'
    }
}

/// Decimal rendering of `n`, without sign or leading zeros.
pub open spec fn dec_digits(n: nat) -> Seq<char>
    decreases n,
{
    if n < 10 {
        seq![digit_char_of(n as int)]
    } else {
        dec_digits(n / 10).push(digit_char_of((n % 10) as int))
    }
}

/// Decimal rendering of a signed integer, as `i64`'s `Display` writes it.
pub open spec fn render_i64_spec(n: int) -> Seq<char> {
    if n < 0 {
        seq!['-'] + dec_digits((-n) as nat)
    } else {
        dec_digits(n as nat)
    }
}

pub proof fn lemma_digit_char_val(k: int)
    requires
        0 <= k < 10,
    ensures
        digit_val(digit_char_of(k)) == k,
        is_digit_char(digit_char_of(k)),
        digit_char_of(k) != '+' && digit_char_of(k) != '-',
{
    if k == 0 {
        assert(digit_val('0') == 0 && is_digit_char('0'));
    } else if k == 1 {
        assert(digit_val('1') == 1 && is_digit_char('1'));
    } else if k == 2 {
        assert(digit_val('2') == 2 && is_digit_char('2'));
    } else if k == 3 {
        assert(digit_val('3') == 3 && is_digit_char('3'));
    } else if k == 4 {
        assert(digit_val('4') == 4 && is_digit_char('4'));
    } else if k == 5 {
        assert(digit_val('5') == 5 && is_digit_char('5'));
    } else if k == 6 {
        assert(digit_val('6') == 6 && is_digit_char('6'));
    } else if k == 7 {
        assert(digit_val('7') == 7 && is_digit_char('7'));
    } else if k == 8 {
        assert(digit_val('8') == 8 && is_digit_char('8'));
    } else {
        assert(digit_val('9') == 9 && is_digit_char('9'));
    }
}

pub proof fn lemma_dec_digits_val(n: nat)
    ensures
        dec_val(dec_digits(n)) == n,
        all_digit_chars(dec_digits(n)),
        dec_digits(n).len() >= 1,
        dec_digits(n)[0] != '+' && dec_digits(n)[0] != '-',
    decreases n,
{
    if n < 10 {
        let s = dec_digits(n);
        lemma_digit_char_val(n as int);
        assert(s.drop_last() =~= Seq::<char>::empty());
        assert(dec_val(s.drop_last()) == 0);
        assert(s.last() == digit_char_of(n as int));
        assert(dec_val(s) == digit_val(digit_char_of(n as int)));
        assert(forall|i: int| 0 <= i < s.len() ==> is_digit_char(#[trigger] s[i]));
    } else {
        lemma_dec_digits_val(n / 10);
        lemma_digit_char_val((n % 10) as int);
        let s = dec_digits(n);
        assert(s.drop_last() =~= dec_digits(n / 10));
        assert(s.last() == digit_char_of((n % 10) as int));
        assert(dec_val(s) == (n / 10) * 10 + digit_val(digit_char_of((n % 10) as int)));
        assert(digit_val(digit_char_of((n % 10) as int)) == n % 10);
        assert((n / 10) * 10 + n % 10 == n) by {
            vstd::arithmetic::div_mod::lemma_fundamental_div_mod(n as int, 10);
        };
        assert(forall|i: int| 0 <= i < s.len() ==> is_digit_char(#[trigger] s[i])) by {
            assert(forall|i: int|
                0 <= i < s.len() - 1 ==> #[trigger] s[i] == dec_digits(n / 10)[i]);
            assert(s[s.len() - 1] == digit_char_of((n % 10) as int));
        };
        assert(s[0] == dec_digits(n / 10)[0]);
    }
}

/// Rendering an `i64` and parsing it back is the identity.
pub proof fn lemma_render_parse_i64(n: int)
    requires
        -0x8000000000000000 <= n <= 0x7fffffffffffffff,
    ensures
        is_i64_literal(render_i64_spec(n)),
        i64_literal_val(render_i64_spec(n)) == n,
{
    if n < 0 {
        let s = render_i64_spec(n);
        lemma_dec_digits_val((-n) as nat);
        assert(s[0] == '-');
        assert(s.drop_first() =~= dec_digits((-n) as nat));
    } else {
        let s = render_i64_spec(n);
        lemma_dec_digits_val(n as nat);
        assert(int_literal_digits(s) == s);
    }
}

/// Renders `n` in decimal, as its `Display` implementation does.
pub fn render_i64(n: i64) -> (r: Vec<char>)
    ensures
        r@ == render_i64_spec(n as int),
{
    let neg: bool = n < 0;
    let mag: u64 = if n == i64::MIN {
        0x8000000000000000
    } else if n < 0 {
        (-n) as u64
    } else {
        n as u64
    };
    assert(mag as nat == if n < 0 {
        (-(n as int)) as nat
    } else {
        n as nat
    });
    let mut acc: Vec<char> = Vec::new();
    let mut cur: u64 = mag;
    while cur >= 10
        invariant
            dec_digits(mag as nat) =~= dec_digits(cur as nat) + acc@.reverse(),
        decreases cur,
    {
        let ghost acc0 = acc@;
        let ghost cur0 = cur as nat;
        let dv: u64 = cur % 10;
        acc.push(digit_of(dv));
        cur = cur / 10;
        proof {
            assert(cur as nat == cur0 / 10 && dv as nat == cur0 % 10) by {
                vstd::arithmetic::div_mod::lemma_fundamental_div_mod(cur0 as int, 10);
            };
            assert(dec_digits(cur0) == dec_digits(cur0 / 10).push(digit_char_of((cur0 % 10) as int)));
            assert(acc@.reverse() =~= seq![digit_char_of(dv as int)] + acc0.reverse());
            assert(dec_digits(cur0 / 10).push(digit_char_of((cur0 % 10) as int)) + acc0.reverse()
                =~= dec_digits(cur0 / 10) + (seq![digit_char_of(dv as int)] + acc0.reverse()));
        }
    }
    acc.push(digit_of(cur));
    proof {
        assert(dec_digits(cur as nat) =~= seq![digit_char_of(cur as int)]);
        assert(acc@.reverse() =~= dec_digits(cur as nat) + acc@.drop_last().reverse());
        assert(dec_digits(mag as nat) =~= acc@.reverse());
    }
    let mut r: Vec<char> = Vec::new();
    if neg {
        r.push('-');
    }
    let mut j: usize = acc.len();
    while j > 0
        invariant
            j <= acc@.len(),
            r@ =~= (if neg {
                seq!['-']
            } else {
                Seq::<char>::empty()
            }) + acc@.reverse().take(acc@.len() - j),
        decreases j,
    {
        let ghost r0 = r@;
        j = j - 1;
        r.push(acc[j]);
        proof {
            assert(acc@.reverse()[acc@.len() - j - 1] == acc@[j as int]);
            assert(acc@.reverse().take(acc@.len() - j) =~= acc@.reverse().take(
                acc@.len() - j - 1,
            ).push(acc@[j as int]));
        }
    }
    proof {
        assert(acc@.reverse().take(acc@.len() as int) =~= acc@.reverse());
        if neg {
            assert(r@ =~= seq!['-'] + dec_digits(mag as nat));
        } else {
            assert(r@ =~= dec_digits(mag as nat));
        }
    }
    r
}

/// The decimal digit character for a value below ten.
pub fn digit_of(d: u64) -> (c: char)
    requires
        d < 10,
    ensures
        c == digit_char_of(d as int),
{
    if d == 0 {
        '0'
    } else if d == 1 {
        '1'
    } else if d == 2 {
        '2'
    } else if d == 3 {
        '3'
    } else if d == 4 {
        '4'
    } else if d == 5 {
        '5'
    } else if d == 6 {
        '6'
    } else if d == 7 {
        '7'
    } else if d == 8 {
        '8'
    } else {
        '9'
    }
}

} // verus!
