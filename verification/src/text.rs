//! Character-level helpers: lexicographic order on keys, equality and
//! trimming of string slices, decimal rendering of fixed-point quantities,
//! and reading unsigned integers.
use vstd::prelude::*;

verus! {

/// Strict lexicographic order on character sequences, comparing characters
/// by their code points.  For UTF-8 strings this is the order that `Ord`
/// gives `String` (byte-wise comparison of UTF-8 agrees with code-point
/// order).
pub open spec fn lex_lt(a: Seq<char>, b: Seq<char>) -> bool
    decreases a.len(),
{
    if a.len() == 0 {
        b.len() > 0
    } else if b.len() == 0 {
        false
    } else if a[0] != b[0] {
        (a[0] as int) < (b[0] as int)
    } else {
        lex_lt(a.drop_first(), b.drop_first())
    }
}

pub proof fn lemma_lex_irreflexive(a: Seq<char>)
    ensures
        !lex_lt(a, a),
    decreases a.len(),
{
    if a.len() > 0 {
        lemma_lex_irreflexive(a.drop_first());
    }
}

pub proof fn lemma_lex_transitive(a: Seq<char>, b: Seq<char>, c: Seq<char>)
    requires
        lex_lt(a, b),
        lex_lt(b, c),
    ensures
        lex_lt(a, c),
    decreases a.len(),
{
    if a.len() > 0 && b.len() > 0 && c.len() > 0 {
        if a[0] == b[0] && b[0] == c[0] {
            lemma_lex_transitive(a.drop_first(), b.drop_first(), c.drop_first());
        }
    }
}

pub proof fn lemma_lex_total(a: Seq<char>, b: Seq<char>)
    ensures
        a == b || lex_lt(a, b) || lex_lt(b, a),
    decreases a.len(),
{
    if a.len() > 0 && b.len() > 0 && a[0] == b[0] {
        lemma_lex_total(a.drop_first(), b.drop_first());
        if a.drop_first() == b.drop_first() {
            assert(a =~= seq![a[0]] + a.drop_first());
            assert(b =~= seq![b[0]] + b.drop_first());
        }
    } else if a.len() == 0 && b.len() == 0 {
        assert(a =~= b);
    } else if a.len() > 0 && b.len() > 0 {
        assert((a[0] as int) != (b[0] as int));
    }
}

/// Equality of two string slices by their characters.
pub fn str_eq(a: &str, b: &str) -> (r: bool)
    ensures
        r == (a@ == b@),
{
    let x: String = a.to_owned();
    let y: String = b.to_owned();
    x == y
}

/// `a < b` in the order of `lex_lt`.
pub fn str_lt(a: &str, b: &str) -> (r: bool)
    ensures
        r == lex_lt(a@, b@),
{
    let na = a.unicode_len();
    let nb = b.unicode_len();
    let mut i: usize = 0;
    assert(a@.skip(0) =~= a@);
    assert(b@.skip(0) =~= b@);
    while i < na && i < nb
        invariant
            na == a@.len(),
            nb == b@.len(),
            i <= na,
            i <= nb,
            lex_lt(a@, b@) == lex_lt(a@.skip(i as int), b@.skip(i as int)),
        decreases na - i,
    {
        let ca = a.get_char(i);
        let cb = b.get_char(i);
        assert(a@.skip(i as int)[0] == ca);
        assert(b@.skip(i as int)[0] == cb);
        if ca != cb {
            return ca < cb;
        }
        assert(a@.skip(i as int).drop_first() =~= a@.skip(i + 1));
        assert(b@.skip(i as int).drop_first() =~= b@.skip(i + 1));
        i = i + 1;
    }
    assert(i == na ==> a@.skip(i as int).len() == 0);
    assert(i == nb ==> b@.skip(i as int).len() == 0);
    i == na && i < nb
}

} // verus!

verus! {

/// White space as `char::is_whitespace` understands it.
pub open spec fn is_space(c: char) -> bool {
    let x = c as int;
    ||| 9 <= x <= 13
    ||| x == 32
    ||| x == 0x85
    ||| x == 0xA0
    ||| x == 0x1680
    ||| 0x2000 <= x <= 0x200A
    ||| x == 0x2028
    ||| x == 0x2029
    ||| x == 0x202F
    ||| x == 0x205F
    ||| x == 0x3000
}

pub open spec fn trim_start(s: Seq<char>) -> Seq<char>
    decreases s.len(),
{
    if s.len() > 0 && is_space(s[0]) {
        trim_start(s.drop_first())
    } else {
        s
    }
}

pub open spec fn trim_end(s: Seq<char>) -> Seq<char>
    decreases s.len(),
{
    if s.len() > 0 && is_space(s.last()) {
        trim_end(s.drop_last())
    } else {
        s
    }
}

/// `s` without leading and trailing white space, as `str::trim` gives it.
pub open spec fn trim(s: Seq<char>) -> Seq<char> {
    trim_end(trim_start(s))
}

/// Whether `c` is white space.
pub fn char_is_space(c: char) -> (r: bool)
    ensures
        r == is_space(c),
{
    ('\u{9}' <= c && c <= '\u{D}') || c == ' ' || c == '\u{85}' || c == '\u{A0}' || c == '\u{1680}'
        || ('\u{2000}' <= c && c <= '\u{200A}') || c == '\u{2028}' || c == '\u{2029}'
        || c == '\u{202F}' || c == '\u{205F}' || c == '\u{3000}'
}

/// `s` without leading and trailing white space.
pub fn trim_str(s: &str) -> (r: &str)
    ensures
        r@ == trim(s@),
{
    let n = s.unicode_len();
    let mut i: usize = 0;
    assert(s@.skip(0) =~= s@);
    while i < n && char_is_space(s.get_char(i))
        invariant
            n == s@.len(),
            i <= n,
            trim_start(s@) == trim_start(s@.skip(i as int)),
        decreases n - i,
    {
        assert(s@.skip(i as int).drop_first() =~= s@.skip(i + 1));
        i = i + 1;
    }
    assert(trim_start(s@.skip(i as int)) == s@.skip(i as int));
    let mut j: usize = n;
    assert(s@.skip(i as int) =~= s@.subrange(i as int, n as int));
    while j > i && char_is_space(s.get_char(j - 1))
        invariant
            n == s@.len(),
            i <= j <= n,
            trim(s@) == trim_end(s@.subrange(i as int, j as int)),
        decreases j,
    {
        assert(s@.subrange(i as int, j as int).drop_last() =~= s@.subrange(i as int, j - 1));
        j = j - 1;
    }
    assert(trim_end(s@.subrange(i as int, j as int)) == s@.subrange(i as int, j as int));
    s.substring_char(i, j)
}

/// The character of decimal digit `d`.
pub open spec fn digit_char(d: int) -> char {
    if d == 0 { '0' }
    else if d == 1 { '1' }
    else if d == 2 { '2' }
    else if d == 3 { '3' }
    else if d == 4 { '4' }
    else if d == 5 { '5' }
    else if d == 6 { '6' }
    else if d == 7 { '7' }
    else if d == 8 { '8' }
    else { '9' }
}

/// The decimal digits of `n`, without leading zeros.
pub open spec fn nat_text(n: nat) -> Seq<char>
    decreases n,
{
    if n < 10 {
        seq![digit_char(n as int)]
    } else {
        nat_text(n / 10).push(digit_char((n % 10) as int))
    }
}

/// A one-character string holding digit `d`.
pub fn digit_str(d: u64) -> (r: &'static str)
    requires
        d < 10,
    ensures
        r@ == seq![digit_char(d as int)],
{
    proof {
        reveal_strlit("0");
        reveal_strlit("1");
        reveal_strlit("2");
        reveal_strlit("3");
        reveal_strlit("4");
        reveal_strlit("5");
        reveal_strlit("6");
        reveal_strlit("7");
        reveal_strlit("8");
        reveal_strlit("9");
    }
    let r = if d == 0 { "0" }
    else if d == 1 { "1" }
    else if d == 2 { "2" }
    else if d == 3 { "3" }
    else if d == 4 { "4" }
    else if d == 5 { "5" }
    else if d == 6 { "6" }
    else if d == 7 { "7" }
    else if d == 8 { "8" }
    else { "9" };
    assert(r@ =~= seq![digit_char(d as int)]);
    r
}

/// Appends the decimal digits of `n`.
pub fn push_nat(out: &mut String, n: u64)
    ensures
        final(out)@ == old(out)@ + nat_text(n as nat),
    decreases n,
{
    if n >= 10 {
        push_nat(out, n / 10);
    }
    out.append(digit_str(n % 10));
    assert(out@ =~= old(out)@ + nat_text(n as nat));
}

} // verus!

verus! {

/// Absolute value.
pub open spec fn abs(m: int) -> nat {
    if m < 0 { (-m) as nat } else { m as nat }
}

/// A quantity in thousandths rounded to tenths, ties to the even tenth.
pub open spec fn round_to_tenths(a: nat) -> nat {
    let q = a / 100;
    let r = a % 100;
    if r > 50 || (r == 50 && q % 2 == 1) { q + 1 } else { q }
}

pub open spec fn sign_text(m: int) -> Seq<char> {
    if m < 0 { seq!['-'] } else { Seq::empty() }
}

/// A quantity given in thousandths, written with one decimal: rounded to
/// tenths, an exact half going to the even tenth.  This is what `{:.1}`
/// writes for a number whose value is exactly this decimal; a binary
/// floating-point number near a half can round the other way.
pub open spec fn one_decimal_text(m: int) -> Seq<char> {
    let t = round_to_tenths(abs(m));
    sign_text(m) + nat_text(t / 10) + seq!['.', digit_char((t % 10) as int)]
}

/// A quantity given in thousandths, written with three decimals (exactly,
/// as `{:.3}` writes a number whose value is this decimal).
pub open spec fn three_decimal_text(m: int) -> Seq<char> {
    let a = abs(m);
    sign_text(m) + nat_text(a / 1000) + seq![
        '.',
        digit_char(((a % 1000) / 100) as int),
        digit_char(((a % 100) / 10) as int),
        digit_char((a % 10) as int),
    ]
}

fn magnitude(m: i64) -> (a: u64)
    ensures
        a as int == abs(m as int),
{
    if m < 0 {
        ((-(m + 1)) as u64) + 1
    } else {
        m as u64
    }
}

fn push_sign(out: &mut String, m: i64)
    ensures
        final(out)@ == old(out)@ + sign_text(m as int),
{
    if m < 0 {
        proof { reveal_strlit("-"); }
        out.append("-");
        assert(out@ =~= old(out)@ + sign_text(m as int));
    } else {
        assert(out@ =~= old(out)@ + sign_text(m as int));
    }
}

/// Appends `m` thousandths written with one decimal.
pub fn push_one_decimal(out: &mut String, m: i64)
    ensures
        final(out)@ == old(out)@ + one_decimal_text(m as int),
{
    let a = magnitude(m);
    let q = a / 100;
    let r = a % 100;
    let t = if r > 50 || (r == 50 && q % 2 == 1) { q + 1 } else { q };
    assert(t == round_to_tenths(abs(m as int)));
    let ghost start = out@;
    push_sign(out, m);
    push_nat(out, t / 10);
    proof { reveal_strlit("."); }
    out.append(".");
    out.append(digit_str(t % 10));
    assert(out@ =~= start + one_decimal_text(m as int));
}

/// Appends `m` thousandths written with three decimals.
pub fn push_three_decimal(out: &mut String, m: i64)
    ensures
        final(out)@ == old(out)@ + three_decimal_text(m as int),
{
    let a = magnitude(m);
    let ghost start = out@;
    push_sign(out, m);
    push_nat(out, a / 1000);
    proof { reveal_strlit("."); }
    out.append(".");
    out.append(digit_str((a % 1000) / 100));
    out.append(digit_str((a % 100) / 10));
    out.append(digit_str(a % 10));
    assert(out@ =~= start + three_decimal_text(m as int));
}

} // verus!

verus! {

pub open spec fn is_digit(c: char) -> bool {
    48 <= c as int <= 57
}

pub open spec fn digit_val(c: char) -> int {
    c as int - 48
}

pub open spec fn all_digits(s: Seq<char>) -> bool {
    forall|i: int| 0 <= i < s.len() ==> is_digit(#[trigger] s[i])
}

/// The number that the decimal digits `s` spell.
pub open spec fn digits_value(s: Seq<char>) -> int
    decreases s.len(),
{
    if s.len() == 0 {
        0
    } else {
        digits_value(s.drop_last()) * 10 + digit_val(s.last())
    }
}

pub proof fn lemma_digits_value_prefix(s: Seq<char>, i: int)
    requires
        all_digits(s),
        0 <= i <= s.len(),
    ensures
        0 <= digits_value(s.take(i)) <= digits_value(s),
    decreases s.len(),
{
    if s.len() > 0 {
        if i == s.len() {
            assert(s.take(i) =~= s);
            lemma_digits_value_prefix(s.drop_last(), i - 1);
            assert(s.drop_last().take(i - 1) =~= s.drop_last());
        } else {
            lemma_digits_value_prefix(s.drop_last(), i);
            assert(s.drop_last().take(i) =~= s.take(i));
            lemma_digits_value_prefix(s.drop_last(), s.len() - 1);
            assert(s.drop_last().take(s.len() - 1) =~= s.drop_last());
        }
    } else {
        assert(s.take(i) =~= s);
    }
}

/// Whether `s[from..to]` are all digits.
fn all_digits_between(s: &str, from: usize, to: usize) -> (r: bool)
    requires
        from <= to <= s@.len(),
    ensures
        r == all_digits(s@.subrange(from as int, to as int)),
{
    let mut i = from;
    while i < to
        invariant
            from <= i <= to,
            to <= s@.len(),
            all_digits(s@.subrange(from as int, i as int)),
        decreases to - i,
    {
        let c = s.get_char(i);
        if !('0' <= c && c <= '9') {
            assert(s@.subrange(from as int, to as int)[i - from] == c);
            return false;
        }
        assert forall|k: int| 0 <= k < i + 1 - from implies is_digit(#[trigger] s@.subrange(from as int, i + 1)[k]) by {
            if k < i - from {
                assert(s@.subrange(from as int, i + 1)[k] == s@.subrange(from as int, i as int)[k]);
            }
        }
        i = i + 1;
    }
    true
}

/// Index of the first `c` in `s`, or the length of `s` where there is none.
pub open spec fn first_index_of(s: Seq<char>, c: char) -> int
    decreases s.len(),
{
    if s.len() == 0 {
        0
    } else if s[0] == c {
        0
    } else {
        1 + first_index_of(s.drop_first(), c)
    }
}

pub proof fn lemma_first_index_of(s: Seq<char>, c: char)
    ensures
        0 <= first_index_of(s, c) <= s.len(),
        forall|i: int| 0 <= i < first_index_of(s, c) ==> s[i] != c,
        first_index_of(s, c) < s.len() ==> s[first_index_of(s, c)] == c,
    decreases s.len(),
{
    if s.len() > 0 && s[0] != c {
        lemma_first_index_of(s.drop_first(), c);
        assert forall|i: int| 0 <= i < first_index_of(s, c) implies s[i] != c by {
            if i > 0 {
                assert(s[i] == s.drop_first()[i - 1]);
            }
        }
    }
}

pub proof fn lemma_first_index_of_char(s: Seq<char>, c: char, k: int)
    requires
        0 <= k <= s.len(),
        forall|i: int| 0 <= i < k ==> s[i] != c,
        k < s.len() ==> s[k] == c,
    ensures
        first_index_of(s, c) == k,
{
    lemma_first_index_of(s, c);
}

/// Index (from `from`) of the first `c` in `s[from..]`, or the length of `s`.
pub fn find_char_from(s: &str, from: usize, c: char) -> (r: usize)
    requires
        from <= s@.len(),
    ensures
        from <= r <= s@.len(),
        r - from == first_index_of(s@.skip(from as int), c),
{
    let n = s.unicode_len();
    let mut i = from;
    while i < n && s.get_char(i) != c
        invariant
            n == s@.len(),
            from <= i <= n,
            forall|k: int| from <= k < i ==> s@[k] != c,
        decreases n - i,
    {
        i = i + 1;
    }
    proof {
        lemma_first_index_of_char(s@.skip(from as int), c, i - from);
    }
    i
}

/// The unsigned decimal that `str::parse::<u64>` reads: an optional `+`,
/// then at least one digit, and a value that fits.
pub open spec fn parse_u64_spec(s: Seq<char>) -> Option<u64> {
    let d = if s.len() > 0 && s[0] == '+' { s.drop_first() } else { s };
    if d.len() > 0 && all_digits(d) && digits_value(d) <= u64::MAX {
        Some(digits_value(d) as u64)
    } else {
        None
    }
}

} // verus!

verus! {

/// Reads an unsigned decimal as `str::parse::<u64>` does.
pub fn parse_u64(s: &str) -> (r: Option<u64>)
    ensures
        r == parse_u64_spec(s@),
{
    let n = s.unicode_len();
    let start: usize = if n > 0 && s.get_char(0) == '+' { 1 } else { 0 };
    let ghost d = if s@.len() > 0 && s@[0] == '+' { s@.drop_first() } else { s@ };
    assert(d =~= s@.subrange(start as int, n as int));
    if start == n {
        return None;
    }
    if !all_digits_between(s, start, n) {
        return None;
    }
    let mut v: u64 = 0;
    let mut i = start;
    assert(s@.subrange(start as int, start as int) =~= Seq::<char>::empty());
    while i < n
        invariant
            start <= i <= n,
            n == s@.len(),
            d == s@.subrange(start as int, n as int),
            d == (if s@.len() > 0 && s@[0] == '+' { s@.drop_first() } else { s@ }),
            all_digits(d),
            v as int == digits_value(s@.subrange(start as int, i as int)),
        decreases n - i,
    {
        let c = s.get_char(i);
        assert(d[i - start] == c);
        assert(is_digit(d[i - start]));
        let dv = (c as u64) - 48;
        assert(s@.subrange(start as int, i + 1).drop_last() =~= s@.subrange(start as int, i as int));
        assert(s@.subrange(start as int, i + 1).last() == c);
        assert(digits_value(s@.subrange(start as int, i + 1)) == v * 10 + dv);
        match v.checked_mul(10) {
            Some(t) => match t.checked_add(dv) {
                Some(nv) => {
                    v = nv;
                },
                None => {
                    proof {
                        assert(t + dv > u64::MAX);
                        assert(d.take(i + 1 - start) =~= s@.subrange(start as int, i + 1));
                        lemma_digits_value_prefix(d, i + 1 - start);
                        assert(digits_value(d) > u64::MAX);
                    }
                    return None;
                },
            },
            None => {
                proof {
                    assert(v * 10 > u64::MAX);
                    assert(d.take(i + 1 - start) =~= s@.subrange(start as int, i + 1));
                    lemma_digits_value_prefix(d, i + 1 - start);
                    assert(digits_value(d) > u64::MAX);
                }
                return None;
            },
        }
        i = i + 1;
    }
    Some(v)
}

} // verus!

verus! {

pub proof fn lemma_digit_char(d: int)
    requires
        0 <= d < 10,
    ensures
        is_digit(digit_char(d)),
        digit_val(digit_char(d)) == d,
        !is_space(digit_char(d)),
{
}

pub proof fn lemma_nat_text(n: nat)
    ensures
        nat_text(n).len() >= 1,
        all_digits(nat_text(n)),
        digits_value(nat_text(n)) == n,
    decreases n,
{
    if n < 10 {
        lemma_digit_char(n as int);
        reveal_with_fuel(digits_value, 2);
        assert(seq![digit_char(n as int)].drop_last() =~= Seq::<char>::empty());
    } else {
        lemma_nat_text(n / 10);
        lemma_digit_char((n % 10) as int);
        let s = nat_text(n);
        assert(s.drop_last() =~= nat_text(n / 10));
        assert forall|i: int| 0 <= i < s.len() implies is_digit(#[trigger] s[i]) by {
            if i < s.len() - 1 {
                assert(s[i] == nat_text(n / 10)[i]);
            }
        }
    }
}


/// Trimming the end of a non-empty text: either nothing is left of it nor
/// of its tail, or its first character stays in front of its trimmed tail.
proof fn lemma_trim_end_first(a: Seq<char>)
    requires
        a.len() > 0,
    ensures
        (trim_end(a).len() == 0 && trim_end(a.drop_first()).len() == 0)
            || trim_end(a) == seq![a[0]] + trim_end(a.drop_first()),
    decreases a.len(),
{
    if a.len() == 1 {
        assert(a.drop_first() =~= Seq::<char>::empty());
        if !is_space(a.last()) {
            assert(a =~= seq![a[0]] + a.drop_first());
        } else {
            assert(a.drop_last() =~= Seq::<char>::empty());
        }
    } else {
        let b = a.drop_last();
        assert(a.drop_first().drop_last() =~= b.drop_first());
        assert(a.drop_first().last() == a.last());
        if is_space(a.last()) {
            lemma_trim_end_first(b);
            assert(b[0] == a[0]);
        } else {
            assert(a =~= seq![a[0]] + a.drop_first());
        }
    }
}

/// Trimming the end twice trims as much as once.
pub proof fn lemma_trim_end_idempotent(a: Seq<char>)
    ensures
        trim_end(trim_end(a)) == trim_end(a),
    decreases a.len(),
{
    if a.len() > 0 && is_space(a.last()) {
        lemma_trim_end_idempotent(a.drop_last());
    }
}

/// Trimming the start and trimming the end can be done in either order.
pub proof fn lemma_trim_swap(a: Seq<char>)
    ensures
        trim_start(trim_end(a)) == trim_end(trim_start(a)),
    decreases a.len(),
{
    if a.len() == 0 {
        assert(trim_end(a) =~= a);
    } else {
        lemma_trim_end_first(a);
        if is_space(a[0]) {
            lemma_trim_swap(a.drop_first());
            if trim_end(a).len() > 0 {
                let t = trim_end(a.drop_first());
                assert((seq![a[0]] + t).drop_first() =~= t);
                assert((seq![a[0]] + t)[0] == a[0]);
            }
        } else {
            if trim_end(a).len() > 0 {
                assert(trim_end(a)[0] == a[0]);
            }
        }
    }
}

/// Trimming a text whose end is already trimmed trims as the text itself.
pub proof fn lemma_trim_of_trim_end(a: Seq<char>)
    ensures
        trim(trim_end(a)) == trim(a),
{
    lemma_trim_swap(a);
    lemma_trim_end_idempotent(trim_start(a));
}

/// White space at the end of the second part of a text whose first part
/// ends with another character is trimmed from the second part alone.
pub proof fn lemma_trim_end_concat(p: Seq<char>, a: Seq<char>)
    requires
        p.len() > 0,
        !is_space(p.last()),
    ensures
        trim_end(p + a) == p + trim_end(a),
    decreases a.len(),
{
    if a.len() == 0 {
        assert(p + a =~= p);
        assert(p + trim_end(a) =~= p);
    } else {
        assert((p + a).last() == a.last());
        if is_space(a.last()) {
            assert((p + a).drop_last() =~= p + a.drop_last());
            lemma_trim_end_concat(p, a.drop_last());
        } else {
            assert((p + a).last() == a.last());
        }
    }
}

/// Trimming a line end off a text that starts and ends with other
/// characters gives the text.
pub proof fn lemma_trim_line(x: Seq<char>)
    requires
        x.len() > 0,
        !is_space(x[0]),
        !is_space(x.last()),
    ensures
        trim(x + "\n"@) == x,
{
    reveal_strlit("\n");
    let y = x + "\n"@;
    assert(y[0] == x[0]);
    assert(trim_start(y) == y);
    assert(y.last() == '\n');
    assert(y.drop_last() =~= x);
    assert(trim_end(y) == trim_end(x));
    assert(trim_end(x) == x);
}

} // verus!
