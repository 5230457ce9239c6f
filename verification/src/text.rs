use vstd::prelude::*;

verus! {

/// The decimal digits of a natural number, most significant first.
pub open spec fn decimal(n: nat) -> Seq<char>
    decreases n,
{
    if n < 10 {
        seq![digit_char(n)]
    } else {
        decimal(n / 10).push(digit_char(n % 10))
    }
}

/// The ASCII digit for a value below ten.
pub open spec fn digit_char(d: nat) -> char {
    if d == 0 { '0' } else if d == 1 { '1' } else if d == 2 { '2' } else if d == 3 { '3' }
    else if d == 4 { '4' } else if d == 5 { '5' } else if d == 6 { '6' } else if d == 7 { '7' }
    else if d == 8 { '8' } else { '9' }
}

fn digit(d: usize) -> (c: char)
    requires
        d < 10,
    ensures
        c == digit_char(d as nat),
{
    if d == 0 { '0' } else if d == 1 { '1' } else if d == 2 { '2' } else if d == 3 { '3' }
    else if d == 4 { '4' } else if d == 5 { '5' } else if d == 6 { '6' } else if d == 7 { '7' }
    else if d == 8 { '8' } else { '9' }
}

/// Writes `n` in decimal.
pub fn decimal_chars(n: usize) -> (r: Vec<char>)
    ensures
        r@ == decimal(n as nat),
    decreases n,
{
    if n < 10 {
        let mut v: Vec<char> = Vec::new();
        v.push(digit(n));
        v
    } else {
        let mut v = decimal_chars(n / 10);
        v.push(digit(n % 10));
        v
    }
}

} // verus!

verus! {

/// `s` with every occurrence of `pat` replaced by `rep`, scanning from the
/// left and resuming after each replaced occurrence (so occurrences never
/// overlap), as `str::replace` does for a non-empty pattern.
pub open spec fn replace_all(s: Seq<char>, pat: Seq<char>, rep: Seq<char>) -> Seq<char>
    recommends
        pat.len() > 0,
    decreases s.len(),
{
    if pat.len() == 0 || s.len() < pat.len() {
        s
    } else if s.take(pat.len() as int) == pat {
        rep + replace_all(s.skip(pat.len() as int), pat, rep)
    } else {
        seq![s[0]] + replace_all(s.skip(1), pat, rep)
    }
}

/// Whether `pat` occurs in `s` starting at index `i`.
fn occurs_at(s: &Vec<char>, i: usize, pat: &Vec<char>) -> (b: bool)
    requires
        i + pat@.len() <= s@.len(),
    ensures
        b == (s@.skip(i as int).take(pat@.len() as int) == pat@),
{
    let n = pat.len();
    let len = s.len();
    let mut j: usize = 0;
    while j < n
        invariant
            j <= n,
            n == pat@.len(),
            len == s@.len(),
            i + n <= len,
            forall|k: int| 0 <= k < j ==> s@[i + k] == pat@[k],
        decreases n - j,
    {
        if s[i + j] != pat[j] {
            assert(s@.skip(i as int).take(n as int)[j as int] != pat@[j as int]);
            return false;
        }
        j = j + 1;
    }
    assert(s@.skip(i as int).take(n as int) =~= pat@);
    true
}

/// Appends all of `src` to `dst`.
fn extend_chars(dst: &mut Vec<char>, src: &Vec<char>)
    ensures
        final(dst)@ == old(dst)@ + src@,
{
    let n = src.len();
    let mut j: usize = 0;
    while j < n
        invariant
            j <= n,
            n == src@.len(),
            dst@ == old(dst)@ + src@.take(j as int),
        decreases n - j,
    {
        dst.push(src[j]);
        assert(src@.take(j + 1) =~= src@.take(j as int).push(src@[j as int]));
        j = j + 1;
    }
    assert(src@.take(n as int) =~= src@);
}

/// `s` with every non-overlapping occurrence of the non-empty `pat`,
/// found from the left, replaced by `rep`.
pub fn replace_chars(s: &Vec<char>, pat: &Vec<char>, rep: &Vec<char>) -> (r: Vec<char>)
    requires
        pat@.len() > 0,
    ensures
        r@ == replace_all(s@, pat@, rep@),
{
    let n = s.len();
    let m = pat.len();
    let mut out: Vec<char> = Vec::new();
    let mut i: usize = 0;
    assert(s@.skip(0) =~= s@);
    while i < n
        invariant
            i <= n,
            n == s@.len(),
            m == pat@.len(),
            m > 0,
            replace_all(s@, pat@, rep@) == out@ + replace_all(s@.skip(i as int), pat@, rep@),
        decreases n - i,
    {
        let ghost rest = s@.skip(i as int);
        if n - i < m {
            assert(replace_all(rest, pat@, rep@) == rest);
            while i < n
                invariant
                    i <= n,
                    n == s@.len(),
                    replace_all(s@, pat@, rep@) == out@ + s@.skip(i as int),
                decreases n - i,
            {
                out.push(s[i]);
                assert(s@.skip(i as int) =~= seq![s@[i as int]] + s@.skip(i + 1));
                i = i + 1;
            }
            assert(s@.skip(n as int) =~= Seq::<char>::empty());
            assert(out@ + s@.skip(n as int) =~= out@);
            return out;
        }
        if occurs_at(s, i, pat) {
            extend_chars(&mut out, rep);
            assert(rest.skip(m as int) =~= s@.skip(i + m));
            i = i + m;
        } else {
            out.push(s[i]);
            assert(rest.skip(1) =~= s@.skip(i + 1));
            i = i + 1;
        }
    }
    assert(s@.skip(n as int) =~= Seq::<char>::empty());
    out
}

} // verus!

verus! {

/// The characters of `s`, in order.
pub fn chars_of(s: &str) -> (r: Vec<char>)
    ensures
        r@ == s@,
{
    let mut r: Vec<char> = Vec::new();
    for c in it: s.chars()
        invariant
            it.seq() == s@,
            r@ == s@.take(it.index() as int),
            it.index() <= s@.len(),
            r@.len() == it.index(),
    {
        r.push(c);
        assert(s@.take(it.index() + 1) =~= s@.take(it.index() as int).push(c));
    }
    assert(r@.len() == s@.len());
    assert(r@ =~= s@);
    r
}

/// Collects `chars` into a `String`.
///
/// Trusted: `String`'s `FromIterator<&char>` impl, which appends each
/// character in order, so the string holds exactly `chars`.
#[verifier::external_body]
pub(crate) fn string_from_chars(chars: &Vec<char>) -> (s: String)
    ensures
        s@ == chars@,
{
    chars.iter().collect()
}

} // verus!

verus! {

/// Replacing a pattern whose first character does not occur in `s` leaves
/// `s` as it is.
pub proof fn lemma_replace_all_absent(s: Seq<char>, pat: Seq<char>, rep: Seq<char>)
    requires
        pat.len() > 0,
        !s.contains(pat[0]),
    ensures
        replace_all(s, pat, rep) == s,
    decreases s.len(),
{
    if s.len() < pat.len() {
    } else {
        assert(s.take(pat.len() as int)[0] == s[0]);
        assert(s.take(pat.len() as int) != pat) by {
            assert(s.contains(s[0]));
        }
        let t = s.skip(1);
        assert forall|c: char| t.contains(c) implies s.contains(c) by {
            let j = choose|j: int| 0 <= j < t.len() && t[j] == c;
            assert(s[j + 1] == c);
        }
        lemma_replace_all_absent(t, pat, rep);
        assert(seq![s[0]] + t =~= s);
    }
}

} // verus!

verus! {

/// The views of a list of strings.
pub open spec fn views(args: Seq<String>) -> Seq<Seq<char>> {
    args.map_values(|a: String| a@)
}

} // verus!

verus! {

/// The number a string of decimal digits stands for, most significant first.
pub open spec fn decimal_value(s: Seq<char>) -> nat
    decreases s.len(),
{
    if s.len() == 0 {
        0
    } else {
        (decimal_value(s.drop_last()) * 10 + (s.last() as nat - '0' as nat)) as nat
    }
}

/// Each digit character is the character `'0'` plus its value.
pub proof fn law_digit_char_code(d: nat)
    requires
        d < 10,
    ensures
        digit_char(d) as nat == '0' as nat + d,
{
}

/// `decimal(n)` is the decimal notation of `n`: digits only, no leading zero
/// (but for zero itself), standing for `n`.
pub proof fn law_decimal_notation(n: nat)
    ensures
        decimal(n).len() > 0,
        forall|i: int| 0 <= i < decimal(n).len() ==> '0' <= #[trigger] decimal(n)[i] <= '9',
        decimal(n)[0] == '0' ==> n == 0,
        decimal_value(decimal(n)) == n,
    decreases n,
{
    if n < 10 {
        law_digit_char_code(n);
        assert(decimal(n) =~= seq![digit_char(n)]);
        assert(decimal(n).drop_last() =~= Seq::<char>::empty());
        assert(decimal_value(Seq::<char>::empty()) == 0);
        assert(decimal_value(decimal(n)) == (decimal_value(decimal(n).drop_last()) * 10 + (
        decimal(n).last() as nat - '0' as nat)) as nat);
    } else {
        law_decimal_notation(n / 10);
        law_digit_char_code(n % 10);
        let s = decimal(n);
        assert(s.drop_last() =~= decimal(n / 10));
        assert(s.last() == digit_char(n % 10));
        assert(s[0] == decimal(n / 10)[0]);
        assert forall|i: int| 0 <= i < s.len() implies '0' <= #[trigger] s[i] <= '9' by {
            if i < s.len() - 1 {
                assert(s[i] == decimal(n / 10)[i]);
            }
        }
        assert((n / 10) * 10 + n % 10 == n);
        assert(decimal_value(s) == (decimal_value(s.drop_last()) * 10 + (s.last() as nat
            - '0' as nat)) as nat);
    }
}

/// Replacing in `x + y`, where `x` holds no first character of the pattern,
/// leaves `x` and replaces in `y`.
pub proof fn lemma_replace_all_skips_prefix(x: Seq<char>, y: Seq<char>, pat: Seq<char>, rep: Seq<char>)
    requires
        pat.len() > 0,
        !x.contains(pat[0]),
    ensures
        replace_all(x + y, pat, rep) == x + replace_all(y, pat, rep),
    decreases x.len(),
{
    if x.len() == 0 {
        assert(x + y =~= y);
        assert(x + replace_all(y, pat, rep) =~= replace_all(y, pat, rep));
    } else {
        let s = x + y;
        assert(s[0] == x[0]);
        assert(x.contains(x[0]));
        if s.len() >= pat.len() {
            assert(s.take(pat.len() as int)[0] == x[0]);
            assert(s.take(pat.len() as int) != pat);
        }
        let t = x.skip(1);
        assert forall|c: char| t.contains(c) implies x.contains(c) by {
            let j = choose|j: int| 0 <= j < t.len() && t[j] == c;
            assert(x[j + 1] == c);
        }
        lemma_replace_all_skips_prefix(t, y, pat, rep);
        assert(s.skip(1) =~= t + y);
        assert(seq![x[0]] + (t + replace_all(y, pat, rep)) =~= x + replace_all(y, pat, rep));
    }
}

/// Replacing in a text that starts with the pattern puts the replacement
/// first and goes on after the pattern.
pub proof fn lemma_replace_all_leading_match(pat: Seq<char>, y: Seq<char>, rep: Seq<char>)
    requires
        pat.len() > 0,
    ensures
        replace_all(pat + y, pat, rep) == rep + replace_all(y, pat, rep),
{
    let s = pat + y;
    assert(s.take(pat.len() as int) =~= pat);
    assert(s.skip(pat.len() as int) =~= y);
}

} // verus!

verus! {

/// Replacing a pattern that occurs nowhere in `s` leaves `s` as it is.
pub proof fn lemma_replace_all_no_occurrence(s: Seq<char>, pat: Seq<char>, rep: Seq<char>)
    requires
        pat.len() > 0,
        forall|i: int|
            0 <= i && i + pat.len() <= s.len() ==> #[trigger] s.subrange(i, i + pat.len()) != pat,
    ensures
        replace_all(s, pat, rep) == s,
    decreases s.len(),
{
    if s.len() >= pat.len() {
        assert(s.take(pat.len() as int) =~= s.subrange(0, pat.len() as int));
        assert(s.subrange(0, 0 + pat.len() as int) != pat);
        assert(s.take(pat.len() as int) != pat);
        let t = s.skip(1);
        assert forall|i: int| 0 <= i && i + pat.len() <= t.len() implies #[trigger] t.subrange(
            i,
            i + pat.len(),
        ) != pat by {
            assert(t.subrange(i, i + pat.len()) =~= s.subrange(i + 1, i + 1 + pat.len()));
        }
        lemma_replace_all_no_occurrence(t, pat, rep);
        assert(seq![s[0]] + t =~= s);
    }
}

/// Two numbers with the same decimal notation are equal.
pub proof fn lemma_decimal_injective(j: nat, k: nat)
    requires
        decimal(j) == decimal(k),
    ensures
        j == k,
{
    law_decimal_notation(j);
    law_decimal_notation(k);
}

} // verus!
