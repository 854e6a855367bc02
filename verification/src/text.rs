//! Character-level string helpers shared by the URL, path and message
//! builders: decimal rendering of integers, template substitution and
//! string comparison, each with a specification over `Seq<char>`.
use vstd::prelude::*;
use vstd::string::StrSliceExecFns;

verus! {

/// The ASCII digit for `d` (`0 <= d < 10`).
pub open spec fn digit_char(d: nat) -> char {
    if d == 0 {
        '0'
    } else if d == 1 {
        '1'
    } else if d == 2 {
        '2'
    } else if d == 3 {
        '3'
    } else if d == 4 {
        '4'
    } else if d == 5 {
        '5'
    } else if d == 6 {
        '6'
    } else if d == 7 {
        '7'
    } else if d == 8 {
        '8'
    } else {
        '9'
    }
}

/// Whether `c` is an ASCII decimal digit.
pub open spec fn is_digit(c: char) -> bool {
    48 <= (c as u32) <= 57
}

/// Whether every character of `s` is a decimal digit.
pub open spec fn all_digit_chars(s: Seq<char>) -> bool {
    forall|i: int| 0 <= i < s.len() ==> is_digit(#[trigger] s[i])
}

/// Decimal rendering of `n` without sign or leading zeros, as
/// `u64::to_string` produces it.
pub open spec fn decimal(n: nat) -> Seq<char>
    decreases n,
{
    if n < 10 {
        seq![digit_char(n)]
    } else {
        decimal(n / 10).push(digit_char(n % 10))
    }
}

/// `digit_char` is a digit, and different digits give different
/// characters.
pub proof fn lemma_digit_char(d: nat, e: nat)
    requires
        d < 10,
        e < 10,
    ensures
        is_digit(digit_char(d)),
        digit_char(d) == digit_char(e) ==> d == e,
{
}

/// A decimal rendering is a non-empty run of digits.
pub proof fn lemma_decimal_digits(n: nat)
    ensures
        decimal(n).len() >= 1,
        all_digit_chars(decimal(n)),
        n >= 10 ==> decimal(n).len() >= 2,
    decreases n,
{
    lemma_digit_char(n % 10, 0);
    if n >= 10 {
        lemma_decimal_digits(n / 10);
    }
}

/// Different numbers have different decimal renderings.
pub proof fn lemma_decimal_injective(a: nat, b: nat)
    requires
        decimal(a) == decimal(b),
    ensures
        a == b,
    decreases a,
{
    lemma_decimal_digits(a);
    lemma_decimal_digits(b);
    if a < 10 && b < 10 {
        assert(decimal(a)[0] == digit_char(a));
        assert(decimal(b)[0] == digit_char(b));
        lemma_digit_char(a, b);
        assert(a == b);
    } else if a >= 10 && b >= 10 {
        let da = decimal(a);
        let db = decimal(b);
        assert(da.last() == db.last());
        lemma_digit_char(a % 10, b % 10);
        assert(da.drop_last() =~= decimal(a / 10));
        assert(db.drop_last() =~= decimal(b / 10));
        lemma_decimal_injective(a / 10, b / 10);
        vstd::arithmetic::div_mod::lemma_fundamental_div_mod(a as int, 10);
        vstd::arithmetic::div_mod::lemma_fundamental_div_mod(b as int, 10);
        assert(a == b);
    } else {
        assert(decimal(a).len() != decimal(b).len());
    }
}

/// A run of digits followed by a non-digit separator is recovered from
/// the whole text: equal texts split equally.
pub proof fn lemma_split_digits(d1: Seq<char>, t1: Seq<char>, d2: Seq<char>, t2: Seq<char>, sep: char)
    requires
        all_digit_chars(d1),
        all_digit_chars(d2),
        !is_digit(sep),
        d1 + seq![sep] + t1 == d2 + seq![sep] + t2,
    ensures
        d1 == d2,
        t1 == t2,
{
    let s1 = d1 + seq![sep] + t1;
    let s2 = d2 + seq![sep] + t2;
    if d1.len() < d2.len() {
        assert(s1[d1.len() as int] == sep);
        assert(s2[d1.len() as int] == d2[d1.len() as int]);
    } else if d2.len() < d1.len() {
        assert(s2[d2.len() as int] == sep);
        assert(s1[d2.len() as int] == d1[d2.len() as int]);
    } else {
        assert(d1 =~= s1.subrange(0, d1.len() as int));
        assert(d2 =~= s2.subrange(0, d2.len() as int));
        assert(t1 =~= s1.skip(d1.len() as int + 1));
        assert(t2 =~= s2.skip(d2.len() as int + 1));
    }
}

/// Rust's `str::replace`: every non-overlapping occurrence of `pat`,
/// scanning left to right, is replaced by `rep`.
pub open spec fn replace_all(s: Seq<char>, pat: Seq<char>, rep: Seq<char>) -> Seq<char>
    recommends
        pat.len() > 0,
    decreases s.len(),
{
    if pat.len() == 0 || s.len() < pat.len() {
        s
    } else if s.subrange(0, pat.len() as int) == pat {
        rep + replace_all(s.skip(pat.len() as int), pat, rep)
    } else {
        seq![s[0]] + replace_all(s.skip(1), pat, rep)
    }
}

/// `s` joined with `sep` between consecutive items.
pub open spec fn join(items: Seq<Seq<char>>, sep: Seq<char>) -> Seq<char>
    decreases items.len(),
{
    if items.len() == 0 {
        Seq::empty()
    } else if items.len() == 1 {
        items[0]
    } else {
        join(items.drop_last(), sep) + sep + items.last()
    }
}

/// Calls `String::push`. Claimed, as its documentation says: `c` is
/// appended to the end of the string.
#[verifier::external_body]
pub(crate) fn push_char(s: &mut String, c: char)
    ensures
        final(s)@ == old(s)@.push(c),
{
    s.push(c);
}

/// The characters of `s`, in order.
pub fn chars_of(s: &str) -> (v: Vec<char>)
    ensures
        v@ == s@,
{
    let n = s.unicode_len();
    let mut v: Vec<char> = Vec::new();
    let mut i: usize = 0;
    while i < n
        invariant
            n == s@.len(),
            i <= n,
            v@ == s@.subrange(0, i as int),
        decreases n - i,
    {
        v.push(s.get_char(i));
        i = i + 1;
        assert(v@ =~= s@.subrange(0, i as int));
    }
    assert(v@ =~= s@);
    v
}

/// A `String` holding exactly the characters of `cs`.
pub fn string_from_chars(cs: &Vec<char>) -> (s: String)
    ensures
        s@ == cs@,
{
    let mut s = String::new();
    let mut i: usize = 0;
    while i < cs.len()
        invariant
            i <= cs.len(),
            s@ == cs@.subrange(0, i as int),
        decreases cs.len() - i,
    {
        push_char(&mut s, cs[i]);
        i = i + 1;
        assert(s@ =~= cs@.subrange(0, i as int));
    }
    assert(cs@.subrange(0, cs.len() as int) =~= cs@);
    s
}

/// Whether two character sequences are equal.
pub fn chars_eq(a: &Vec<char>, b: &Vec<char>) -> (r: bool)
    ensures
        r == (a@ == b@),
{
    if a.len() != b.len() {
        return false;
    }
    let mut i: usize = 0;
    while i < a.len()
        invariant
            a.len() == b.len(),
            i <= a.len(),
            forall|j: int| 0 <= j < i ==> a@[j] == b@[j],
        decreases a.len() - i,
    {
        if a[i] != b[i] {
            return false;
        }
        i = i + 1;
    }
    assert(a@ =~= b@);
    true
}

/// Whether two string slices hold the same characters.
pub fn str_eq(a: &str, b: &str) -> (r: bool)
    ensures
        r == (a@ == b@),
{
    let ca = chars_of(a);
    let cb = chars_of(b);
    chars_eq(&ca, &cb)
}

/// The digit character for `d`.
pub fn digit(d: u64) -> (c: char)
    requires
        d < 10,
    ensures
        c == digit_char(d as nat),
{
    if d == 0 {
        '0'
    } else if d == 1 {
        '1'
    } else if d == 2 {
        '2'
    } else if d == 3 {
        '3'
    } else if d == 4 {
        '4'
    } else if d == 5 {
        '5'
    } else if d == 6 {
        '6'
    } else if d == 7 {
        '7'
    } else if d == 8 {
        '8'
    } else {
        '9'
    }
}

/// Decimal rendering of `n`, as `n.to_string()` gives it.
pub fn decimal_string(n: u64) -> (s: String)
    ensures
        s@ == decimal(n as nat),
{
    let mut rev: Vec<char> = Vec::new();
    let mut m: u64 = n;
    loop
        invariant_except_break
            decimal(n as nat) == decimal(m as nat) + rev@.reverse(),
        ensures
            decimal(n as nat) == rev@.reverse(),
        decreases m,
    {
        let d = m % 10;
        let c = digit(d);
        let ghost old_rev = rev@;
        rev.push(c);
        assert(rev@.reverse() =~= seq![c] + old_rev.reverse());
        if m < 10 {
            assert(decimal(m as nat) == seq![c]);
            break;
        }
        assert(decimal(m as nat) == decimal((m / 10) as nat).push(c));
        assert(decimal((m / 10) as nat).push(c) + old_rev.reverse() =~= decimal((m / 10) as nat)
            + (seq![c] + old_rev.reverse()));
        m = m / 10;
    }
    let mut s = String::new();
    let mut i: usize = rev.len();
    while i > 0
        invariant
            i <= rev.len(),
            s@ == rev@.reverse().subrange(0, (rev.len() - i) as int),
        decreases i,
    {
        i = i - 1;
        push_char(&mut s, rev[i]);
        assert(s@ =~= rev@.reverse().subrange(0, (rev.len() - i) as int));
    }
    assert(rev@.reverse().subrange(0, rev.len() as int) =~= rev@.reverse());
    s
}

/// Appends the characters of `t` to `s`.
pub fn append_str(s: &mut String, t: &str)
    ensures
        final(s)@ == old(s)@ + t@,
{
    let cs = chars_of(t);
    let mut i: usize = 0;
    while i < cs.len()
        invariant
            i <= cs.len(),
            cs@ == t@,
            s@ == old(s)@ + cs@.subrange(0, i as int),
        decreases cs.len() - i,
    {
        push_char(s, cs[i]);
        i = i + 1;
        assert(s@ =~= old(s)@ + cs@.subrange(0, i as int));
    }
    assert(cs@.subrange(0, cs.len() as int) =~= cs@);
}

proof fn lemma_skip_skip(s: Seq<char>, a: int, b: int)
    requires
        0 <= a,
        0 <= b,
        a + b <= s.len(),
    ensures
        s.skip(a).skip(b) == s.skip(a + b),
{
    assert(s.skip(a).skip(b) =~= s.skip(a + b));
}

/// Replaces every non-overlapping occurrence of `pat` in `s` by `rep`,
/// left to right, as `str::replace` does.
pub fn replace_all_str(s: &str, pat: &str, rep: &str) -> (r: String)
    requires
        pat@.len() > 0,
    ensures
        r@ == replace_all(s@, pat@, rep@),
{
    let cs = chars_of(s);
    let cp = chars_of(pat);
    let cr = chars_of(rep);
    let n = cs.len();
    let k = cp.len();
    let mut out: Vec<char> = Vec::new();
    let mut i: usize = 0;
    assert(cs@.skip(0) =~= cs@);
    assert(out@ + cs@ =~= cs@);
    while i < n
        invariant
            cs@ == s@,
            cp@ == pat@,
            cr@ == rep@,
            n == cs.len(),
            k == cp.len(),
            k > 0,
            i <= n,
            out@ + replace_all(cs@.skip(i as int), cp@, cr@) == replace_all(cs@, cp@, cr@),
        decreases n - i,
    {
        let ghost rest = cs@.skip(i as int);
        // does the pattern start at position i?
        let fits = k <= n - i;
        let mut matches = fits;
        if fits {
            let mut j: usize = 0;
            while j < k
                invariant
                    i + k <= n,
                    n == cs.len(),
                    k == cp.len(),
                    j <= k,
                    matches <==> forall|t: int| 0 <= t < j ==> cs@[i + t] == cp@[t],
                decreases k - j,
            {
                if cs[i + j] != cp[j] {
                    matches = false;
                }
                j = j + 1;
            }
        }
        if matches {
            assert(rest.subrange(0, k as int) =~= cp@);
            let mut t: usize = 0;
            let ghost before = out@;
            while t < cr.len()
                invariant
                    t <= cr.len(),
                    out@ == before + cr@.subrange(0, t as int),
                decreases cr.len() - t,
            {
                out.push(cr[t]);
                t = t + 1;
                assert(out@ =~= before + cr@.subrange(0, t as int));
            }
            assert(cr@.subrange(0, cr.len() as int) =~= cr@);
            proof {
                lemma_skip_skip(cs@, i as int, k as int);
            }
            assert(out@ + replace_all(cs@.skip(i + k), cp@, cr@) =~= before + (cr@ + replace_all(
                rest.skip(k as int),
                cp@,
                cr@,
            )));
            i = i + k;
        } else {
            if fits {
                let ghost w = choose|t: int| 0 <= t < k && cs@[i + t] != cp@[t];
                assert(rest.subrange(0, k as int)[w] != cp@[w]);
                assert(rest.subrange(0, k as int) != cp@);
            }
            let ghost before = out@;
            out.push(cs[i]);
            proof {
                lemma_skip_skip(cs@, i as int, 1);
            }
            assert(out@ + replace_all(cs@.skip(i + 1), cp@, cr@) =~= before + (seq![rest[0]]
                + replace_all(rest.skip(1), cp@, cr@)));
            i = i + 1;
        }
    }
    assert(cs@.skip(n as int).len() == 0);
    assert(out@ + cs@.skip(n as int) =~= out@);
    string_from_chars(&out)
}

/// An owned copy of `t`.
pub fn string_of(t: &str) -> (s: String)
    ensures
        s@ == t@,
{
    let mut s = String::new();
    append_str(&mut s, t);
    assert(s@ =~= t@);
    s
}

/// The first `n` characters of `cs`.
pub fn chars_take(cs: &Vec<char>, n: usize) -> (r: Vec<char>)
    requires
        n <= cs.len(),
    ensures
        r@ == cs@.take(n as int),
{
    let mut r: Vec<char> = Vec::new();
    let mut k: usize = 0;
    while k < n
        invariant
            n <= cs.len(),
            k <= n,
            r@ == cs@.take(k as int),
        decreases n - k,
    {
        r.push(cs[k]);
        k = k + 1;
        assert(r@ =~= cs@.take(k as int));
    }
    r
}

/// The characters of `cs` from position `n` on.
pub fn chars_skip(cs: &Vec<char>, n: usize) -> (r: Vec<char>)
    requires
        n <= cs.len(),
    ensures
        r@ == cs@.skip(n as int),
{
    let mut r: Vec<char> = Vec::new();
    let mut k: usize = n;
    while k < cs.len()
        invariant
            n <= k <= cs.len(),
            r@ == cs@.subrange(n as int, k as int),
        decreases cs.len() - k,
    {
        r.push(cs[k]);
        k = k + 1;
        assert(r@ =~= cs@.subrange(n as int, k as int));
    }
    assert(cs@.subrange(n as int, cs.len() as int) =~= cs@.skip(n as int));
    r
}

} // verus!
