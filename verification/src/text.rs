//! Text handling shared by the collector and the uploader: character
//! sequences, substring search, decimal integers and trimming.
use vstd::prelude::*;
use vstd::string::*;

verus! {

/// An ASCII decimal digit.
pub open spec fn is_ascii_digit(c: char) -> bool {
    '0' as int <= c as int && c as int <= '9' as int
}

pub open spec fn all_ascii_digits(s: Seq<char>) -> bool {
    forall|i: int| 0 <= i < s.len() ==> is_ascii_digit(#[trigger] s[i])
}

pub open spec fn digit_value(c: char) -> nat {
    (c as int - '0' as int) as nat
}

/// The number that a string of decimal digits denotes.
pub open spec fn decimal_value(s: Seq<char>) -> nat
    decreases s.len(),
{
    if s.len() == 0 {
        0
    } else {
        decimal_value(s.drop_last()) * 10 + digit_value(s.last())
    }
}

/// What `str::parse::<u64>` accepts: an optional `+`, then at least one
/// ASCII digit, denoting a value that fits in 64 bits.
pub open spec fn u64_text_value(s: Seq<char>) -> Option<u64> {
    let digits = if s.len() > 0 && s[0] == '+' { s.drop_first() } else { s };
    if digits.len() > 0 && all_ascii_digits(digits) && decimal_value(digits) <= u64::MAX {
        Some(decimal_value(digits) as u64)
    } else {
        None
    }
}

/// What `str::parse::<i64>` accepts: an optional `+` or `-`, then at least
/// one ASCII digit, denoting a value in the range of `i64`.
pub open spec fn i64_text_value(s: Seq<char>) -> Option<i64> {
    let signed = s.len() > 0 && (s[0] == '+' || s[0] == '-');
    let digits = if signed { s.drop_first() } else { s };
    let value: int = if s.len() > 0 && s[0] == '-' {
        -decimal_value(digits)
    } else {
        decimal_value(digits) as int
    };
    if digits.len() > 0 && all_ascii_digits(digits) && i64::MIN <= value <= i64::MAX {
        Some(value as i64)
    } else {
        None
    }
}

/// `pat` occurs in `s` starting at position `i`.
pub open spec fn occurs_at(s: Seq<char>, pat: Seq<char>, i: int) -> bool {
    0 <= i && i + pat.len() <= s.len() && s.subrange(i, i + pat.len()) == pat
}

/// `pat` occurs somewhere in `s`.
pub open spec fn contains_text(s: Seq<char>, pat: Seq<char>) -> bool {
    exists|i: int| occurs_at(s, pat, i)
}

pub open spec fn ends_with_text(s: Seq<char>, suffix: Seq<char>) -> bool {
    suffix.len() <= s.len() && s.subrange(s.len() - suffix.len(), s.len() as int) == suffix
}

/// `s` with all leading copies of `c` removed.
pub open spec fn strip_leading(s: Seq<char>, c: char) -> Seq<char>
    decreases s.len(),
{
    if s.len() > 0 && s[0] == c {
        strip_leading(s.drop_first(), c)
    } else {
        s
    }
}

/// `s` with all trailing copies of `c` removed.
pub open spec fn strip_trailing(s: Seq<char>, c: char) -> Seq<char>
    decreases s.len(),
{
    if s.len() > 0 && s.last() == c {
        strip_trailing(s.drop_last(), c)
    } else {
        s
    }
}

/// What `str::trim_matches(c)` leaves of `s`.
pub open spec fn trim_text(s: Seq<char>, c: char) -> Seq<char> {
    strip_trailing(strip_leading(s, c), c)
}

/// The part of `s` after its last `c`, or all of `s` when it holds no `c`:
/// what `s.rsplit(c).next()` yields.
pub open spec fn after_last(s: Seq<char>, c: char) -> Seq<char>
    decreases s.len(),
{
    if s.len() == 0 {
        s
    } else if s.last() == c {
        Seq::empty()
    } else {
        after_last(s.drop_last(), c).push(s.last())
    }
}

// ---------------------------------------------------------------------------
// What the text specifications mean
// ---------------------------------------------------------------------------

/// `pat` occurs in `s` exactly when `s` is some text, then `pat`, then some
/// text.
pub proof fn lemma_contains_text_split(s: Seq<char>, pat: Seq<char>)
    ensures
        contains_text(s, pat) <==> exists|a: Seq<char>, b: Seq<char>| s == a + pat + b,
{
    if contains_text(s, pat) {
        let i = choose|i: int| occurs_at(s, pat, i);
        let a = s.subrange(0, i);
        let b = s.subrange(i + pat.len(), s.len() as int);
        assert(s =~= a + pat + b);
    }
    if exists|a: Seq<char>, b: Seq<char>| s == a + pat + b {
        let (a, b) = choose|a: Seq<char>, b: Seq<char>| s == a + pat + b;
        assert(s.subrange(a.len() as int, a.len() + pat.len() as int) =~= pat);
        assert(occurs_at(s, pat, a.len() as int));
    }
}

/// `s` ends with `suffix` exactly when it is some text followed by `suffix`.
pub proof fn lemma_ends_with_text_split(s: Seq<char>, suffix: Seq<char>)
    ensures
        ends_with_text(s, suffix) <==> exists|a: Seq<char>| s == a + suffix,
{
    if ends_with_text(s, suffix) {
        let a = s.subrange(0, s.len() - suffix.len());
        assert(s =~= a + suffix);
    }
    if exists|a: Seq<char>| s == a + suffix {
        let a = choose|a: Seq<char>| s == a + suffix;
        assert(s.subrange(s.len() - suffix.len(), s.len() as int) =~= suffix);
    }
}

/// `n` copies of `c`.
pub open spec fn copies(c: char, n: nat) -> Seq<char> {
    Seq::new(n, |i: int| c)
}

proof fn lemma_strip_leading_shape(s: Seq<char>, c: char)
    ensures
        exists|k: nat| s == copies(c, k) + strip_leading(s, c),
        strip_leading(s, c).len() == 0 || strip_leading(s, c)[0] != c,
    decreases s.len(),
{
    if s.len() > 0 && s[0] == c {
        lemma_strip_leading_shape(s.drop_first(), c);
        let k = choose|k: nat| s.drop_first() == copies(c, k) + strip_leading(s.drop_first(), c);
        assert(copies(c, k + 1) =~= seq![c] + copies(c, k));
        assert(s =~= seq![c] + s.drop_first());
        assert(s =~= copies(c, k + 1) + strip_leading(s, c));
    } else {
        assert(s =~= copies(c, 0) + strip_leading(s, c));
    }
}

proof fn lemma_strip_trailing_shape(s: Seq<char>, c: char)
    ensures
        exists|k: nat| s == strip_trailing(s, c) + copies(c, k),
        strip_trailing(s, c).len() == 0 || strip_trailing(s, c).last() != c,
    decreases s.len(),
{
    if s.len() > 0 && s.last() == c {
        lemma_strip_trailing_shape(s.drop_last(), c);
        let k = choose|k: nat| s.drop_last() == strip_trailing(s.drop_last(), c) + copies(c, k);
        assert(copies(c, k + 1) =~= copies(c, k).push(c));
        assert(s =~= s.drop_last().push(c));
        assert(s =~= strip_trailing(s, c) + copies(c, k + 1));
    } else {
        assert(s =~= strip_trailing(s, c) + copies(c, 0));
    }
}

proof fn lemma_strip_leading_of_stripped(s: Seq<char>, c: char)
    requires
        s.len() == 0 || s[0] != c,
    ensures
        strip_trailing(s, c).len() == 0 || strip_trailing(s, c)[0] != c,
    decreases s.len(),
{
    if s.len() > 0 && s.last() == c {
        if s.len() > 1 {
            lemma_strip_leading_of_stripped(s.drop_last(), c);
        }
    }
}

/// Trimming `c` leaves a text that neither starts nor ends with `c`, and the
/// trimmed text is that text with copies of `c` before and after it.
pub proof fn lemma_trim_text_shape(s: Seq<char>, c: char)
    ensures
        ({
            let t = trim_text(s, c);
            &&& t.len() == 0 || (t[0] != c && t.last() != c)
            &&& exists|k: nat, j: nat| s == copies(c, k) + t + copies(c, j)
        }),
{
    let l = strip_leading(s, c);
    let t = trim_text(s, c);
    lemma_strip_leading_shape(s, c);
    lemma_strip_trailing_shape(l, c);
    lemma_strip_leading_of_stripped(l, c);
    let k = choose|k: nat| s == copies(c, k) + l;
    let j = choose|j: nat| l == t + copies(c, j);
    assert(s =~= copies(c, k) + t + copies(c, j));
}

/// What `rsplit(c).next()` yields holds no `c`, and it ends the text, right
/// after a `c` or at its very start.
pub proof fn lemma_after_last_shape(s: Seq<char>, c: char)
    ensures
        !after_last(s, c).contains(c),
        exists|a: Seq<char>| s == a + after_last(s, c) && (a.len() == 0 || a.last() == c),
    decreases s.len(),
{
    if s.len() == 0 {
        assert(s =~= Seq::<char>::empty() + after_last(s, c));
    } else if s.last() == c {
        assert(s =~= s + after_last(s, c));
    } else {
        lemma_after_last_shape(s.drop_last(), c);
        let a = choose|a: Seq<char>|
            s.drop_last() == a + after_last(s.drop_last(), c) && (a.len() == 0 || a.last() == c);
        assert(after_last(s, c) == after_last(s.drop_last(), c).push(s.last()));
        assert(s =~= s.drop_last().push(s.last()));
        assert(s =~= a + after_last(s, c));
        assert forall|i: int| 0 <= i < after_last(s, c).len() implies after_last(s, c)[i] != c by {
            if i < after_last(s.drop_last(), c).len() {
                assert(after_last(s, c)[i] == after_last(s.drop_last(), c)[i]);
            }
        }
    }
}

/// Digits stand for their values, and a number written with one more digit
/// is ten times the number before it, plus that digit.
pub proof fn lemma_decimal_digits(d: Seq<char>, c: char)
    ensures
        decimal_value(Seq::empty()) == 0,
        is_ascii_digit(c) ==> decimal_value(d.push(c)) == 10 * decimal_value(d) + (c as int - 48),
        is_ascii_digit(c) <==> 48 <= c as int <= 57,
{
    assert(d.push(c).drop_last() =~= d);
}

/// What `parse::<u64>` accepts is an optional `+` and a non-empty run of
/// digits, and it gives their value; every such text within range is
/// accepted.
pub proof fn lemma_u64_text_shape(s: Seq<char>, d: Seq<char>)
    ensures
        u64_text_value(s) is Some ==> ({
            let digits = if s[0] == '+' { s.drop_first() } else { s };
            &&& s.len() > 0
            &&& digits.len() > 0
            &&& all_ascii_digits(digits)
            &&& u64_text_value(s)->0 == decimal_value(digits)
        }),
        d.len() > 0 && all_ascii_digits(d) && decimal_value(d) <= u64::MAX ==> {
            &&& u64_text_value(d) == Some(decimal_value(d) as u64)
            &&& u64_text_value(seq!['+'] + d) == Some(decimal_value(d) as u64)
        },
{
    if d.len() > 0 && all_ascii_digits(d) {
        assert((seq!['+'] + d).drop_first() =~= d);
        assert(is_ascii_digit(d[0]));
        assert(d[0] != '+');
    }
}

/// What `parse::<i64>` accepts is an optional sign and a non-empty run of
/// digits, and it gives their value, negated after a `-`; every such text
/// within range is accepted.
pub proof fn lemma_i64_text_shape(s: Seq<char>, d: Seq<char>)
    ensures
        i64_text_value(s) is Some ==> ({
            let digits = if s[0] == '+' || s[0] == '-' { s.drop_first() } else { s };
            &&& s.len() > 0
            &&& digits.len() > 0
            &&& all_ascii_digits(digits)
            &&& i64_text_value(s)->0 == if s[0] == '-' { -decimal_value(digits) } else {
                decimal_value(digits) as int
            }
        }),
        d.len() > 0 && all_ascii_digits(d) && decimal_value(d) <= i64::MAX ==> {
            &&& i64_text_value(d) == Some(decimal_value(d) as i64)
            &&& i64_text_value(seq!['+'] + d) == Some(decimal_value(d) as i64)
            &&& i64_text_value(seq!['-'] + d) == Some((-decimal_value(d)) as i64)
        },
{
    if d.len() > 0 && all_ascii_digits(d) {
        assert((seq!['+'] + d).drop_first() =~= d);
        assert((seq!['-'] + d).drop_first() =~= d);
        assert(is_ascii_digit(d[0]));
        assert(d[0] != '+' && d[0] != '-');
    }
}

/// The characters of `s`, one by one.
pub fn chars_of(s: &str) -> (v: Vec<char>)
    ensures
        v@ == s@,
{
    let n = s.unicode_len();
    let mut v: Vec<char> = Vec::new();
    for i in 0..n
        invariant
            n == s@.len(),
            v@ == s@.take(i as int),
    {
        v.push(s.get_char(i));
        assert(v@ =~= s@.take(i + 1));
    }
    assert(v@ =~= s@);
    v
}

proof fn lemma_decimal_value_step(s: Seq<char>, i: int)
    requires
        0 <= i < s.len(),
    ensures
        decimal_value(s.take(i + 1)) == decimal_value(s.take(i)) * 10 + digit_value(s[i]),
{
    assert(s.take(i + 1).drop_last() =~= s.take(i));
}

proof fn lemma_decimal_value_prefix(s: Seq<char>, k: int)
    requires
        0 <= k <= s.len(),
    ensures
        decimal_value(s.take(k)) <= decimal_value(s),
    decreases s.len(),
{
    if k < s.len() {
        lemma_decimal_value_prefix(s.drop_last(), k);
        assert(s.drop_last().take(k) =~= s.take(k));
    } else {
        assert(s.take(k) =~= s);
    }
}

/// Reads the decimal digits `cs[start..]`: their value when all are ASCII
/// digits and the value fits in 64 bits, `None` otherwise.
fn parse_digits(cs: &Vec<char>, start: usize) -> (r: Option<u64>)
    requires
        start <= cs@.len(),
    ensures
        ({
            let digits = cs@.subrange(start as int, cs@.len() as int);
            r == if all_ascii_digits(digits) && decimal_value(digits) <= u64::MAX {
                Some(decimal_value(digits) as u64)
            } else {
                None
            }
        }),
{
    let ghost digits = cs@.subrange(start as int, cs@.len() as int);
    let mut v: u64 = 0;
    let mut i: usize = start;
    while i < cs.len()
        invariant
            start <= i <= cs@.len(),
            digits == cs@.subrange(start as int, cs@.len() as int),
            all_ascii_digits(digits.take(i - start)),
            v as nat == decimal_value(digits.take(i - start)),
        decreases cs@.len() - i,
    {
        let c = cs[i];
        let k: usize = i - start;
        assert(digits[k as int] == c);
        if !('0' <= c && c <= '9') {
            assert(!all_ascii_digits(digits));
            return None;
        }
        let d: u64 = ((c as u32) - ('0' as u32)) as u64;
        proof {
            lemma_decimal_value_step(digits, k as int);
        }
        if v > 1844674407370955161u64 || (v == 1844674407370955161u64 && d > 5) {
            proof {
                lemma_decimal_value_prefix(digits, k + 1);
            }
            return None;
        }
        v = v * 10 + d;
        i = i + 1;
        assert(all_ascii_digits(digits.take(i - start))) by {
            assert forall|j: int| 0 <= j < i - start implies is_ascii_digit(
                #[trigger] digits.take(i - start)[j],
            ) by {
                if j < k {
                    assert(digits.take(k as int)[j] == digits[j]);
                }
            }
        }
    }
    assert(digits.take(i - start) =~= digits);
    Some(v)
}

/// `str::parse::<u64>`, proved against its documented grammar.
pub fn parse_u64(s: &str) -> (r: Option<u64>)
    ensures
        r == u64_text_value(s@),
{
    let cs = chars_of(s);
    let start: usize = if cs.len() > 0 && cs[0] == '+' { 1 } else { 0 };
    if start == cs.len() {
        return None;
    }
    assert(cs@.subrange(start as int, cs@.len() as int) =~= (if cs@.len() > 0 && cs@[0] == '+' {
        cs@.drop_first()
    } else {
        cs@
    }));
    parse_digits(&cs, start)
}

/// `str::parse::<i64>`, proved against its documented grammar.
pub fn parse_i64(s: &str) -> (r: Option<i64>)
    ensures
        r == i64_text_value(s@),
{
    let cs = chars_of(s);
    let signed = cs.len() > 0 && (cs[0] == '+' || cs[0] == '-');
    let negative = cs.len() > 0 && cs[0] == '-';
    let start: usize = if signed { 1 } else { 0 };
    if start == cs.len() {
        return None;
    }
    let ghost digits = cs@.subrange(start as int, cs@.len() as int);
    assert(digits =~= (if signed { cs@.drop_first() } else { cs@ }));
    match parse_digits(&cs, start) {
        None => None,
        Some(m) => {
            if negative {
                if m <= 9223372036854775807u64 {
                    Some(-(m as i64))
                } else if m == 9223372036854775808u64 {
                    Some(i64::MIN)
                } else {
                    None
                }
            } else if m <= 9223372036854775807u64 {
                Some(m as i64)
            } else {
                None
            }
        },
    }
}

/// Whether `pat` occurs in `s` (`str::contains` with a string pattern).
pub fn contains_str(s: &str, pat: &str) -> (r: bool)
    ensures
        r == contains_text(s@, pat@),
{
    let cs = chars_of(s);
    let ps = chars_of(pat);
    if ps.len() == 0 {
        assert(s@.subrange(0, 0) =~= pat@);
        assert(occurs_at(s@, pat@, 0));
        return true;
    }
    if ps.len() > cs.len() {
        assert forall|i: int| !occurs_at(s@, pat@, i) by {}
        return false;
    }
    let n = cs.len();
    let last: usize = n - ps.len();
    let mut i: usize = 0;
    while i <= last
        invariant
            cs@ == s@,
            ps@ == pat@,
            1 <= ps@.len() <= cs@.len(),
            n == cs@.len(),
            last == cs@.len() - ps@.len(),
            i <= last + 1,
            forall|j: int| 0 <= j < i ==> !occurs_at(s@, pat@, j),
        decreases last + 1 - i,
    {
        let mut k: usize = 0;
        let mut same = true;
        while k < ps.len()
            invariant
                cs@ == s@,
                ps@ == pat@,
                1 <= ps@.len() <= cs@.len(),
                n == cs@.len(),
                i <= last,
                last == cs@.len() - ps@.len(),
                k <= ps@.len(),
                same == (forall|j: int| 0 <= j < k ==> cs@[i + j] == ps@[j]),
            decreases ps@.len() - k,
        {
            if cs[i + k] != ps[k] {
                same = false;
            }
            k = k + 1;
        }
        if same {
            assert(s@.subrange(i as int, i + pat@.len()) =~= pat@);
            assert(occurs_at(s@, pat@, i as int));
            return true;
        }
        assert(!occurs_at(s@, pat@, i as int)) by {
            let j = choose|j: int| 0 <= j < ps@.len() && cs@[i + j] != ps@[j];
            assert(s@.subrange(i as int, i + pat@.len())[j] != pat@[j]);
        }
        i = i + 1;
    }
    assert forall|j: int| !occurs_at(s@, pat@, j) by {
        if 0 <= j && j + pat@.len() <= s@.len() {
            assert(j < i);
        }
    }
    false
}

/// Whether `s` ends with `suffix` (`str::ends_with`).
pub fn ends_with_str(s: &str, suffix: &str) -> (r: bool)
    ensures
        r == ends_with_text(s@, suffix@),
{
    let cs = chars_of(s);
    let ps = chars_of(suffix);
    if ps.len() > cs.len() {
        return false;
    }
    let n = cs.len();
    let off: usize = n - ps.len();
    let mut k: usize = 0;
    while k < ps.len()
        invariant
            cs@ == s@,
            ps@ == suffix@,
            ps@.len() <= cs@.len(),
            n == cs@.len(),
            off == cs@.len() - ps@.len(),
            k <= ps@.len(),
            forall|j: int| 0 <= j < k ==> cs@[off + j] == ps@[j],
        decreases ps@.len() - k,
    {
        if cs[off + k] != ps[k] {
            assert(s@.subrange(off as int, s@.len() as int)[k as int] != suffix@[k as int]);
            return false;
        }
        k = k + 1;
    }
    assert(s@.subrange(off as int, s@.len() as int) =~= suffix@);
    true
}

proof fn lemma_strip_leading_skip(s: Seq<char>, c: char, i: int)
    requires
        0 <= i <= s.len(),
        forall|j: int| 0 <= j < i ==> s[j] == c,
    ensures
        strip_leading(s, c) == strip_leading(s.subrange(i, s.len() as int), c),
    decreases i,
{
    if i > 0 {
        assert(s.drop_first().subrange(i - 1, s.drop_first().len() as int) =~= s.subrange(
            i,
            s.len() as int,
        ));
        lemma_strip_leading_skip(s.drop_first(), c, i - 1);
    } else {
        assert(s.subrange(0, s.len() as int) =~= s);
    }
}

proof fn lemma_strip_trailing_skip(s: Seq<char>, c: char, j: int)
    requires
        0 <= j <= s.len(),
        forall|k: int| j <= k < s.len() ==> s[k] == c,
    ensures
        strip_trailing(s, c) == strip_trailing(s.subrange(0, j), c),
    decreases s.len() - j,
{
    if j < s.len() {
        assert(s.drop_last().subrange(0, j) =~= s.subrange(0, j));
        lemma_strip_trailing_skip(s.drop_last(), c, j);
    } else {
        assert(s.subrange(0, j) =~= s);
    }
}

/// `s.trim_matches(c)`: `s` without its leading and trailing copies of `c`.
pub fn trim_char(s: &str, c: char) -> (r: String)
    ensures
        r@ == trim_text(s@, c),
{
    let cs = chars_of(s);
    let n = cs.len();
    let mut a: usize = 0;
    while a < n && cs[a] == c
        invariant
            cs@ == s@,
            n == cs@.len(),
            a <= n,
            forall|j: int| 0 <= j < a ==> cs@[j] == c,
        decreases n - a,
    {
        a = a + 1;
    }
    let ghost lead = s@.subrange(a as int, n as int);
    proof {
        lemma_strip_leading_skip(s@, c, a as int);
        assert(strip_leading(lead, c) == lead);
    }
    let mut b: usize = n;
    while b > a && cs[b - 1] == c
        invariant
            cs@ == s@,
            n == cs@.len(),
            a <= b <= n,
            lead == s@.subrange(a as int, n as int),
            forall|j: int| b <= j < n ==> cs@[j] == c,
        decreases b - a,
    {
        b = b - 1;
    }
    proof {
        assert forall|k: int| b - a <= k < lead.len() implies lead[k] == c by {
            assert(lead[k] == cs@[a + k]);
        }
        lemma_strip_trailing_skip(lead, c, b - a);
        let kept = lead.subrange(0, b - a);
        assert(kept =~= s@.subrange(a as int, b as int));
        if kept.len() > 0 {
            assert(kept.last() == cs@[b - 1]);
        }
        assert(strip_trailing(kept, c) == kept);
    }
    s.substring_char(a, b).to_owned()
}

pub proof fn lemma_after_last_suffix(s: Seq<char>, c: char, j: int)
    requires
        0 <= j <= s.len(),
        forall|k: int| j <= k < s.len() ==> s[k] != c,
    ensures
        after_last(s, c) == after_last(s.take(j), c) + s.subrange(j, s.len() as int),
    decreases s.len() - j,
{
    if j < s.len() {
        lemma_after_last_suffix(s.drop_last(), c, j);
        assert(s.drop_last().take(j) =~= s.take(j));
        assert(s.subrange(j, s.len() as int) =~= s.drop_last().subrange(
            j,
            s.drop_last().len() as int,
        ).push(s.last()));
    } else {
        assert(s.take(j) =~= s);
        assert(s.subrange(j, s.len() as int) =~= Seq::<char>::empty());
    }
}

/// `s.rsplit(c).next()`: the part of `s` after its last `c`.
pub fn after_last_char(s: &str, c: char) -> (r: &str)
    ensures
        r@ == after_last(s@, c),
{
    let cs = chars_of(s);
    let n = cs.len();
    let mut j: usize = n;
    while j > 0 && cs[j - 1] != c
        invariant
            cs@ == s@,
            n == cs@.len(),
            j <= n,
            forall|k: int| j <= k < n ==> cs@[k] != c,
        decreases j,
    {
        j = j - 1;
    }
    proof {
        lemma_after_last_suffix(s@, c, j as int);
        if j > 0 {
            assert(after_last(s@.take(j as int), c) =~= Seq::<char>::empty());
        } else {
            assert(after_last(s@.take(0), c) =~= Seq::<char>::empty());
        }
        assert(Seq::<char>::empty() + s@.subrange(j as int, n as int) =~= s@.subrange(
            j as int,
            n as int,
        ));
    }
    s.substring_char(j, n)
}

} // verus!
