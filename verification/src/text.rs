use vstd::prelude::*;
use vstd::string::*;

verus! {

/// Characters stripped from both ends of a manifest line: spaces, tabs, and
/// the carriage return of a CRLF line ending.
pub open spec fn is_line_ws(c: char) -> bool {
    c == ' ' || c == '\t' || c == '\r'
}

pub open spec fn is_digit_char(c: char) -> bool {
    48 <= c as u32 && c as u32 <= 57
}

/// Numeric value of a decimal digit character.
pub open spec fn digit_val(c: char) -> int {
    c as u32 - 48
}

/// Index of the first occurrence of `c` in `s`, or `s.len()` if absent.
pub open spec fn scan_until(s: Seq<char>, c: char) -> nat
    decreases s.len(),
{
    if s.len() == 0 {
        0
    } else if s[0] == c {
        0
    } else {
        1 + scan_until(s.drop_first(), c)
    }
}

/// `scan_until` is the unique index bounded by `s.len()` with no `c` before it
/// and `c` at it (when in range).
pub proof fn lemma_scan_until_is(s: Seq<char>, c: char, k: nat)
    requires
        k <= s.len(),
        forall|j: int| 0 <= j < k ==> s[j] != c,
        k < s.len() ==> s[k as int] == c,
    ensures
        scan_until(s, c) == k,
    decreases s.len(),
{
    if k == 0 {
        if s.len() > 0 && s[0] != c {
            assert(false);
        }
    } else {
        assert(s[0] != c);
        lemma_scan_until_is(s.drop_first(), c, (k - 1) as nat);
    }
}

/// Drop leading whitespace.
pub open spec fn trim_front(s: Seq<char>) -> Seq<char>
    decreases s.len(),
{
    if s.len() > 0 && is_line_ws(s[0]) {
        trim_front(s.drop_first())
    } else {
        s
    }
}

/// Drop trailing whitespace.
pub open spec fn trim_back(s: Seq<char>) -> Seq<char>
    decreases s.len(),
{
    if s.len() > 0 && is_line_ws(s[s.len() - 1]) {
        trim_back(s.drop_last())
    } else {
        s
    }
}

/// A manifest line with surrounding whitespace removed.
pub open spec fn trim(s: Seq<char>) -> Seq<char> {
    trim_back(trim_front(s))
}

/// A line with no whitespace at either end trims to itself.
pub proof fn lemma_trim_id(s: Seq<char>)
    requires
        s.len() > 0 ==> !is_line_ws(s[0]),
        s.len() > 0 ==> !is_line_ws(s[s.len() - 1]),
    ensures
        trim(s) == s,
{
    lemma_trim_front_is(s, 0);
    assert(s.skip(0) =~= s);
    lemma_trim_back_is(s, s.len());
    assert(s.take(s.len() as int) =~= s);
}

pub proof fn lemma_trim_front_is(s: Seq<char>, f: nat)
    requires
        f <= s.len(),
        forall|j: int| 0 <= j < f ==> is_line_ws(s[j]),
        f < s.len() ==> !is_line_ws(s[f as int]),
    ensures
        trim_front(s) == s.skip(f as int),
    decreases s.len(),
{
    if f == 0 {
        if s.len() == 0 || !is_line_ws(s[0]) {
            assert(trim_front(s) == s);
        }
        assert(s.skip(0) =~= s);
    } else {
        assert(is_line_ws(s[0]));
        lemma_trim_front_is(s.drop_first(), (f - 1) as nat);
        assert(s.drop_first().skip(f - 1) =~= s.skip(f as int));
    }
}

pub proof fn lemma_trim_back_is(s: Seq<char>, b: nat)
    requires
        b <= s.len(),
        forall|j: int| b <= j < s.len() ==> is_line_ws(s[j]),
        b > 0 ==> !is_line_ws(s[b - 1]),
    ensures
        trim_back(s) == s.take(b as int),
    decreases s.len(),
{
    if b == s.len() {
        if s.len() > 0 {
            assert(!is_line_ws(s[s.len() - 1]));
        }
        assert(s.take(b as int) =~= s);
    } else {
        assert(is_line_ws(s[s.len() - 1]));
        lemma_trim_back_is(s.drop_last(), b);
        assert(s.drop_last().take(b as int) =~= s.take(b as int));
    }
}

pub open spec fn all_digits(s: Seq<char>) -> bool {
    forall|i: int| 0 <= i < s.len() ==> is_digit_char(s[i])
}

/// Value of a digit string read in base 10.
pub open spec fn digits_val(s: Seq<char>) -> int
    decreases s.len(),
{
    if s.len() == 0 {
        0
    } else {
        digits_val(s.drop_last()) * 10 + digit_val(s.last())
    }
}

pub open spec fn pow10(n: nat) -> int
    decreases n,
{
    if n == 0 {
        1
    } else {
        10 * pow10((n - 1) as nat)
    }
}

pub proof fn lemma_digits_val_bound(s: Seq<char>)
    requires
        all_digits(s),
    ensures
        0 <= digits_val(s) < pow10(s.len()),
    decreases s.len(),
{
    if s.len() > 0 {
        assert(all_digits(s.drop_last())) by {
            assert(forall|i: int| 0 <= i < s.len() - 1 ==> s.drop_last()[i] == s[i]);
        }
        lemma_digits_val_bound(s.drop_last());
        assert(is_digit_char(s.last()));
    }
}

/// A digit string of at most 19 digits always fits in a `u64`; longer strings
/// and non-digit strings are rejected.
pub open spec fn parse_u64_digits(s: Seq<char>) -> Option<u64> {
    if s.len() == 0 || s.len() > 19 || !all_digits(s) {
        None
    } else {
        Some(digits_val(s) as u64)
    }
}

/// Length of the run of digits at the front of `s`.
pub open spec fn digits_len(s: Seq<char>) -> nat
    decreases s.len(),
{
    if s.len() > 0 && is_digit_char(s[0]) {
        1 + digits_len(s.drop_first())
    } else {
        0
    }
}

pub proof fn lemma_digits_len_is(s: Seq<char>, k: nat)
    requires
        k <= s.len(),
        forall|j: int| 0 <= j < k ==> is_digit_char(s[j]),
        k < s.len() ==> !is_digit_char(s[k as int]),
    ensures
        digits_len(s) == k,
    decreases s.len(),
{
    if k == 0 {
        if s.len() > 0 && is_digit_char(s[0]) {
            assert(false);
        }
    } else {
        assert(is_digit_char(s[0]));
        lemma_digits_len_is(s.drop_first(), (k - 1) as nat);
    }
}

/// The first three fractional digits, padded with zeros on the right.
pub open spec fn frac3(fp: Seq<char>) -> Seq<char> {
    (fp + seq!['0', '0', '0']).take(3)
}

/// A decimal seconds value (`5.009`, `6`) read as milliseconds. Fractional
/// digits beyond the third are dropped; a missing integer or fractional part,
/// a non-digit, or a value too large for `u64` milliseconds is rejected.
pub open spec fn parse_ms(s: Seq<char>) -> Option<u64> {
    let k = scan_until(s, '.');
    if k >= s.len() {
        match parse_u64_digits(s) {
            None => None,
            Some(v) => if v <= (u64::MAX - 999) / 1000 {
                Some((v * 1000) as u64)
            } else {
                None
            },
        }
    } else {
        let ip = s.take(k as int);
        let fp = s.skip(k as int + 1);
        if fp.len() == 0 || !all_digits(fp) {
            None
        } else {
            match parse_u64_digits(ip) {
                None => None,
                Some(v) => if v <= (u64::MAX - 999) / 1000 {
                    Some((v * 1000 + digits_val(frac3(fp))) as u64)
                } else {
                    None
                },
            }
        }
    }
}

pub proof fn lemma_pow10_19_fits()
    ensures
        pow10(19) == 10_000_000_000_000_000_000int,
{
    reveal_with_fuel(pow10, 20);
}

/// Copy the characters of a `&str` into a vector for random access.
pub fn chars_of(text: &str) -> (v: Vec<char>)
    ensures
        v@ == text@,
{
    let n = text.unicode_len();
    let mut v: Vec<char> = Vec::new();
    let mut i: usize = 0;
    while i < n
        invariant
            i <= n,
            n == text@.len(),
            v@ == text@.take(i as int),
        decreases n - i,
    {
        v.push(text.get_char(i));
        i = i + 1;
        proof {
            assert(v@ =~= text@.take(i as int));
        }
    }
    proof {
        assert(text@.take(n as int) =~= text@);
    }
    v
}

/// First position of `c` in `v[from..to]`, or `to` if absent.
pub fn scan_for(v: &Vec<char>, from: usize, to: usize, c: char) -> (r: usize)
    requires
        from <= to <= v@.len(),
    ensures
        from <= r <= to,
        r - from == scan_until(v@.subrange(from as int, to as int), c),
        r < to ==> v@[r as int] == c,
        forall|j: int| from <= j < r ==> v@[j] != c,
{
    let ghost sub = v@.subrange(from as int, to as int);
    let mut i: usize = from;
    while i < to
        invariant
            from <= i <= to <= v@.len(),
            sub == v@.subrange(from as int, to as int),
            forall|j: int| from <= j < i ==> v@[j] != c,
        decreases to - i,
    {
        if v[i] == c {
            proof {
                lemma_scan_until_is(sub, c, (i - from) as nat);
            }
            return i;
        }
        i = i + 1;
    }
    proof {
        lemma_scan_until_is(sub, c, (to - from) as nat);
    }
    to
}

/// Does `pat` stand at the front of `v[from..to]`?
pub fn prefix_matches(v: &Vec<char>, from: usize, to: usize, pat: &str) -> (r: bool)
    requires
        from <= to <= v@.len(),
    ensures
        r == pat@.is_prefix_of(v@.subrange(from as int, to as int)),
{
    let ghost sub = v@.subrange(from as int, to as int);
    let m = pat.unicode_len();
    if to - from < m {
        return false;
    }
    let mut j: usize = 0;
    while j < m
        invariant
            j <= m,
            m == pat@.len(),
            from <= to <= v@.len(),
            m <= to - from,
            sub == v@.subrange(from as int, to as int),
            forall|i: int| 0 <= i < j ==> pat@[i] == v@[from + i],
        decreases m - j,
    {
        if pat.get_char(j) != v[from + j] {
            proof {
                assert(pat@[j as int] != sub[j as int]);
            }
            return false;
        }
        j = j + 1;
    }
    proof {
        assert(pat@ =~= sub.subrange(0, m as int));
    }
    true
}

/// Is `v[from..to]` exactly the text of `pat`?
pub fn range_equals(v: &Vec<char>, from: usize, to: usize, pat: &str) -> (r: bool)
    requires
        from <= to <= v@.len(),
    ensures
        r == (v@.subrange(from as int, to as int) == pat@),
{
    let ghost sub = v@.subrange(from as int, to as int);
    let m = pat.unicode_len();
    if to - from != m {
        proof {
            assert(sub.len() == to - from);
        }
        return false;
    }
    let r = prefix_matches(v, from, to, pat);
    proof {
        if r {
            assert(pat@ =~= sub.subrange(0, pat@.len() as int));
            assert(sub =~= pat@);
        } else {
            if sub == pat@ {
                assert(pat@.is_prefix_of(sub)) by {
                    assert(pat@ =~= sub.subrange(0, pat@.len() as int));
                }
            }
        }
    }
    r
}

/// Parse `v[from..to]` as a decimal `u64` per `parse_u64_digits`.
pub fn parse_digits(v: &Vec<char>, from: usize, to: usize) -> (r: Option<u64>)
    requires
        from <= to <= v@.len(),
    ensures
        r == parse_u64_digits(v@.subrange(from as int, to as int)),
{
    let ghost sub = v@.subrange(from as int, to as int);
    let len = to - from;
    if len == 0 || len > 19 {
        return None;
    }
    let mut j: usize = 0;
    while j < len
        invariant
            j <= len,
            len == to - from,
            from <= to <= v@.len(),
            forall|i: int| 0 <= i < j ==> is_digit_char(sub[i]),
            sub == v@.subrange(from as int, to as int),
        decreases len - j,
    {
        let c = v[from + j] as u32;
        if c < 48 || c > 57 {
            proof {
                assert(!is_digit_char(sub[j as int]));
            }
            return None;
        }
        j = j + 1;
    }
    assert(all_digits(sub));
    let mut acc: u64 = 0;
    let mut k: usize = 0;
    proof {
        lemma_pow10_19_fits();
    }
    while k < len
        invariant
            k <= len <= 19,
            len == to - from,
            from <= to <= v@.len(),
            sub == v@.subrange(from as int, to as int),
            all_digits(sub),
            acc == digits_val(sub.take(k as int)),
            pow10(19) == 10_000_000_000_000_000_000int,
        decreases len - k,
    {
        let cu = v[from + k] as u32;
        proof {
            assert(sub[k as int] == v@[from + k]);
            assert(is_digit_char(sub[k as int]));
        }
        let d = (cu - 48) as u64;
        proof {
            assert(d == digit_val(sub[k as int]));
            assert(all_digits(sub.take(k as int))) by {
                assert(forall|i: int| 0 <= i < k ==> sub.take(k as int)[i] == sub[i]);
            }
            lemma_digits_val_bound(sub.take(k as int));
            assert(pow10(k as nat) <= pow10(18)) by {
                lemma_pow10_monotone(k as nat, 18);
            }
            assert(10 * pow10(18) == pow10(19));
            assert(acc * 10 + d < pow10(19));
            assert(sub.take(k + 1).drop_last() =~= sub.take(k as int));
            assert(sub.take(k + 1).last() == sub[k as int]);
        }
        acc = acc * 10 + d;
        k = k + 1;
    }
    proof {
        assert(sub.take(len as int) =~= sub);
        lemma_digits_val_bound(sub);
    }
    Some(acc)
}

/// Millisecond value of the first three fractional digits of `v[from..to]`.
fn frac3_value(v: &Vec<char>, from: usize, to: usize) -> (r: u64)
    requires
        from < to <= v@.len(),
        all_digits(v@.subrange(from as int, to as int)),
    ensures
        r == digits_val(frac3(v@.subrange(from as int, to as int))),
        r < 1000,
{
    let ghost fp = v@.subrange(from as int, to as int);
    let ghost f3 = frac3(fp);
    proof {
        assert(f3.len() == 3);
        assert(forall|j: int| 0 <= j < 3 ==> f3[j] == (if j < fp.len() {
            fp[j]
        } else {
            '0'
        }));
        assert(is_digit_char('0'));
        assert(all_digits(f3));
    }
    let mut acc: u64 = 0;
    let mut j: usize = 0;
    while j < 3
        invariant
            j <= 3,
            from < to <= v@.len(),
            fp == v@.subrange(from as int, to as int),
            f3 == frac3(fp),
            f3.len() == 3,
            all_digits(f3),
            forall|i: int| 0 <= i < 3 ==> f3[i] == (if i < fp.len() {
                fp[i]
            } else {
                '0'
            }),
            all_digits(fp),
            acc == digits_val(f3.take(j as int)),
            acc < pow10(j as nat),
        decreases 3 - j,
    {
        let d: u64;
        if j < to - from {
            let cu = v[from + j] as u32;
            proof {
                assert(fp[j as int] == v@[from + j]);
                assert(is_digit_char(fp[j as int]));
            }
            d = (cu - 48) as u64;
        } else {
            d = 0;
            proof {
                assert(f3[j as int] == '0');
                assert(digit_val('0') == 0);
            }
        }
        proof {
            assert(d == digit_val(f3[j as int]));
            assert(f3.take(j + 1).drop_last() =~= f3.take(j as int));
            assert(f3.take(j + 1).last() == f3[j as int]);
            reveal_with_fuel(pow10, 5);
        }
        acc = acc * 10 + d;
        j = j + 1;
    }
    proof {
        assert(f3.take(3) =~= f3);
        reveal_with_fuel(pow10, 5);
    }
    acc
}

/// Parse `v[from..to]` as decimal seconds, returning milliseconds per
/// `parse_ms`.
pub fn parse_ms_exec(v: &Vec<char>, from: usize, to: usize) -> (r: Option<u64>)
    requires
        from <= to <= v@.len(),
    ensures
        r == parse_ms(v@.subrange(from as int, to as int)),
{
    let ghost s = v@.subrange(from as int, to as int);
    let dot = scan_for(v, from, to, '.');
    if dot == to {
        proof {
            assert(scan_until(s, '.') >= s.len());
        }
        match parse_digits(v, from, to) {
            None => None,
            Some(vv) => {
                if vv <= (u64::MAX - 999) / 1000 {
                    proof {
                        assert(vv * 1000 <= u64::MAX - 999) by (nonlinear_arith)
                            requires
                                vv <= (u64::MAX - 999) / 1000,
                        ;
                    }
                    Some(vv * 1000)
                } else {
                    None
                }
            },
        }
    } else {
        let ghost k = scan_until(s, '.');
        proof {
            assert(k == dot - from);
            assert(s.take(k as int) =~= v@.subrange(from as int, dot as int));
            assert(s.skip(k as int + 1) =~= v@.subrange(dot + 1, to as int));
        }
        if dot + 1 == to {
            return None;
        }
        let mut j: usize = dot + 1;
        while j < to && 48 <= v[j] as u32 && v[j] as u32 <= 57
            invariant
                dot + 1 <= j <= to <= v@.len(),
                forall|t: int| dot + 1 <= t < j ==> is_digit_char(v@[t]),
            decreases to - j,
        {
            j = j + 1;
        }
        if j < to {
            proof {
                assert(!is_digit_char(s.skip(k as int + 1)[j - dot - 1]));
            }
            return None;
        }
        proof {
            assert(all_digits(s.skip(k as int + 1)));
        }
        match parse_digits(v, from, dot) {
            None => None,
            Some(vv) => {
                if vv <= (u64::MAX - 999) / 1000 {
                    let frac = frac3_value(v, dot + 1, to);
                    proof {
                        assert(vv * 1000 <= u64::MAX - 999) by (nonlinear_arith)
                            requires
                                vv <= (u64::MAX - 999) / 1000,
                        ;
                    }
                    Some(vv * 1000 + frac)
                } else {
                    None
                }
            },
        }
    }
}

pub proof fn lemma_pow10_pos(n: nat)
    ensures
        pow10(n) >= 1,
    decreases n,
{
    if n > 0 {
        lemma_pow10_pos((n - 1) as nat);
    }
}

pub proof fn lemma_pow10_monotone(a: nat, b: nat)
    requires
        a <= b,
    ensures
        1 <= pow10(a) <= pow10(b),
    decreases b,
{
    lemma_pow10_pos(a);
    if a < b {
        lemma_pow10_monotone(a, (b - 1) as nat);
        lemma_pow10_pos((b - 1) as nat);
        assert(pow10(b) == 10 * pow10((b - 1) as nat));
    }
}

} // verus!
