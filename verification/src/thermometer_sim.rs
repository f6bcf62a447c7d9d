//! The thermometer simulator: its configuration file and the temperatures
//! it sends.
//!
//! The configuration is a list of `key=value` lines; blank lines and lines
//! that start with `#` are skipped, and so are unknown keys.  The keys are
//! `target_addr` (where to send, default `127.0.0.1:9000`) and `interval_ms`
//! (the pause between packets, default 1000, also where the value is no
//! number).
use vstd::prelude::*;

use crate::text::{
    find_char_from, first_index_of, is_space, lemma_first_index_of, lemma_first_index_of_char, lemma_trim_end_concat,
    lemma_trim_of_trim_end, one_decimal_text, parse_u64, parse_u64_spec, push_one_decimal, str_eq, trim, trim_end, trim_start,
    trim_str,
};

verus! {

/// The simulator's settings.
#[derive(Debug, PartialEq, Eq)]
pub struct ThermConfig {
    pub target_addr: String,
    pub interval_ms: u64,
}

/// The lines of `s`: the pieces between line ends (a last, empty piece
/// after a final line end included).
pub open spec fn lines_of(s: Seq<char>) -> Seq<Seq<char>>
    decreases s.len(),
{
    let i = first_index_of(s, '\n');
    if i >= s.len() {
        seq![s]
    } else {
        proof { lemma_first_index_of(s, '\n'); }
        seq![s.take(i)] + lines_of(s.skip(i + 1))
    }
}

/// The settings after one line of the file.
pub open spec fn apply_line(cfg: (Seq<char>, u64), line: Seq<char>) -> (Seq<char>, u64) {
    let l = trim(line);
    let eq = first_index_of(l, '=');
    if l.len() == 0 || l[0] == '#' || eq >= l.len() {
        cfg
    } else {
        let key = trim(l.take(eq));
        let val = trim(l.skip(eq + 1));
        if key == "target_addr"@ {
            (val, cfg.1)
        } else if key == "interval_ms"@ {
            (cfg.0, match parse_u64_spec(val) { Some(v) => v, None => 1000 })
        } else {
            cfg
        }
    }
}

/// The settings after the lines `lines`, in order.
pub open spec fn apply_lines(cfg: (Seq<char>, u64), lines: Seq<Seq<char>>) -> (Seq<char>, u64)
    decreases lines.len(),
{
    if lines.len() == 0 {
        cfg
    } else {
        apply_line(apply_lines(cfg, lines.drop_last()), lines.last())
    }
}

/// The settings that the file `content` gives.
pub open spec fn config_of(content: Seq<char>) -> (Seq<char>, u64) {
    apply_lines(("127.0.0.1:9000"@, 1000), lines_of(content))
}

fn apply_config_line(cfg: &mut ThermConfig, line: &str)
    ensures
        (final(cfg).target_addr@, final(cfg).interval_ms) == apply_line((old(cfg).target_addr@, old(cfg).interval_ms), line@),
{
    proof {
        reveal_strlit("target_addr");
        reveal_strlit("interval_ms");
    }
    let t = trim_str(line);
    let n = t.unicode_len();
    if n == 0 || t.get_char(0) == '#' {
        return;
    }
    let eq = find_char_from(t, 0, '=');
    assert(t@.skip(0) =~= t@);
    if eq >= n {
        return;
    }
    let key = trim_str(t.substring_char(0, eq));
    let val = trim_str(t.substring_char(eq + 1, n));
    assert(t@.subrange(0, eq as int) =~= t@.take(eq as int));
    assert(t@.subrange(eq + 1, n as int) =~= t@.skip(eq + 1));
    if str_eq(key, "target_addr") {
        cfg.target_addr = val.to_owned();
    } else if str_eq(key, "interval_ms") {
        cfg.interval_ms = match parse_u64(val) {
            Some(v) => v,
            None => 1000,
        };
    }
}

/// Reads the settings from the text of the configuration file.
pub fn parse_config_str(content: &str) -> (r: ThermConfig)
    ensures
        (r.target_addr@, r.interval_ms) == config_of(content@),
{
    let mut cfg = ThermConfig { target_addr: "127.0.0.1:9000".to_owned(), interval_ms: 1000 };
    let n = content.unicode_len();
    let mut start: usize = 0;
    let ghost mut done: Seq<Seq<char>> = Seq::empty();
    assert(content@.skip(0) =~= content@);
    loop
        invariant_except_break
            lines_of(content@) == done + lines_of(content@.skip(start as int)),
            (cfg.target_addr@, cfg.interval_ms) == apply_lines(("127.0.0.1:9000"@, 1000), done),
        invariant
            n == content@.len(),
            start <= n,
        ensures
            (cfg.target_addr@, cfg.interval_ms) == config_of(content@),
        decreases n - start,
    {
        let j = find_char_from(content, start, '\n');
        let line = content.substring_char(start, j);
        let ghost rest = content@.skip(start as int);
        proof {
            lemma_first_index_of(rest, '\n');
            assert(rest.take(j - start) =~= line@);
        }
        apply_config_line(&mut cfg, line);
        if j >= n {
            proof {
                assert(lines_of(rest) == seq![rest]);
                assert(rest =~= line@);
                assert(done + seq![line@] =~= lines_of(content@));
                assert((done + seq![line@]).drop_last() =~= done);
            }
            break;
        }
        proof {
            assert(rest.skip(j - start + 1) =~= content@.skip(j + 1));
            assert(lines_of(rest) == seq![line@] + lines_of(content@.skip(j + 1)));
            assert(done + lines_of(rest) =~= done.push(line@) + lines_of(content@.skip(j + 1)));
            assert(done.push(line@).drop_last() =~= done);
            done = done.push(line@);
        }
        start = j + 1;
    }
    cfg
}

/// The pseudo-random generator of the simulator (a linear congruential
/// generator; its state is the seed).
pub struct TempGenerator {
    seed: u64,
}

/// The seed after `prev`.
pub open spec fn next_seed(prev: u64) -> u64 {
    vstd::wrapping::u64_specs::wrapping_add(
        vstd::wrapping::u64_specs::wrapping_mul(prev, 6364136223846793005u64),
        1442695040888963407u64,
    )
}

/// The temperature, in thousandths of a degree, that the seed `next` gives:
/// 18.0 to 25.9 degrees, in steps of a tenth.
pub open spec fn temp_of_seed(next: u64) -> int {
    (180 + (next % 80) as int) * 100
}

impl TempGenerator {
    pub closed spec fn spec_seed(&self) -> u64 {
        self.seed
    }

    /// The generator as the simulator starts it.
    pub fn new() -> (r: Self)
        ensures
            r.spec_seed() == 12345,
    {
        TempGenerator { seed: 12345 }
    }

    /// A generator with the given seed.
    pub fn with_seed(seed: u64) -> (r: Self)
        ensures
            r.spec_seed() == seed,
    {
        TempGenerator { seed }
    }

    /// The next temperature, in thousandths of a degree: between 18.0 and
    /// 25.9 degrees, a whole number of tenths.
    pub fn next_temp(&mut self) -> (t: i64)
        ensures
            final(self).spec_seed() == next_seed(old(self).spec_seed()),
            t == temp_of_seed(final(self).spec_seed()),
            18_000 <= t <= 25_900,
            t % 100 == 0,
    {
        let next = self.seed.wrapping_mul(6364136223846793005u64).wrapping_add(1442695040888963407u64);
        self.seed = next;
        let tenths = 180 + (next % 80);
        (tenths * 100) as i64
    }
}

/// The packet text of a temperature: one decimal.
pub fn temperature_message(t: i64) -> (r: String)
    ensures
        r@ == one_decimal_text(t as int),
{
    let mut out = String::new();
    push_one_decimal(&mut out, t);
    out
}

/// A line that the configuration skips: blank, a comment, without `=`, or
/// with a key (the trimmed text before the first `=`) that is neither
/// `target_addr` nor `interval_ms`.
pub open spec fn skipped_line(s: Seq<char>) -> bool {
    let l = trim(s);
    ||| l.len() == 0
    ||| l[0] == '#'
    ||| !l.contains('=')
    ||| ({
        let key = trim(l.take(first_index_of(l, '=')));
        key != "target_addr"@ && key != "interval_ms"@
    })
}

/// A text without line ends is one line.
proof fn lemma_one_line(s: Seq<char>)
    requires
        !s.contains('\n'),
    ensures
        lines_of(s) == seq![s],
{
    lemma_first_index_of(s, '\n');
    if first_index_of(s, '\n') < s.len() {
        assert(s.contains('\n'));
    }
}

/// A line put in front of a text is its first line.
proof fn lemma_lines_prepend(s: Seq<char>, c: Seq<char>)
    requires
        !s.contains('\n'),
    ensures
        lines_of(s + seq!['\n'] + c) == seq![s] + lines_of(c),
{
    let w = s + seq!['\n'] + c;
    assert forall|i: int| 0 <= i < s.len() implies w[i] != '\n' by {
        assert(w[i] == s[i]);
        if s[i] == '\n' {
            assert(s.contains('\n'));
        }
    }
    lemma_first_index_of_char(w, '\n', s.len() as int);
    lemma_first_index_of(w, '\n');
    assert(w.take(s.len() as int) =~= s);
    assert(w.skip(s.len() as int + 1) =~= c);
}

/// A line put after a text is its last line.
proof fn lemma_lines_append(c: Seq<char>, s: Seq<char>)
    requires
        !s.contains('\n'),
    ensures
        lines_of(c + seq!['\n'] + s) == lines_of(c) + seq![s],
    decreases c.len(),
{
    let w = c + seq!['\n'] + s;
    lemma_first_index_of(c, '\n');
    let i = first_index_of(c, '\n');
    if i >= c.len() {
        assert forall|j: int| 0 <= j < c.len() implies w[j] != '\n' by {
            assert(w[j] == c[j]);
        }
        lemma_first_index_of_char(w, '\n', c.len() as int);
        assert(w.take(c.len() as int) =~= c);
        assert(w.skip(c.len() as int + 1) =~= s);
        lemma_one_line(s);
        assert(lines_of(c) == seq![c]);
    } else {
        assert forall|j: int| 0 <= j < i implies w[j] != '\n' by {
            assert(w[j] == c[j]);
        }
        assert(w[i] == c[i]);
        lemma_first_index_of_char(w, '\n', i);
        lemma_first_index_of(w, '\n');
        assert(w.take(i) =~= c.take(i));
        assert(w.skip(i + 1) =~= c.skip(i + 1) + seq!['\n'] + s);
        lemma_lines_append(c.skip(i + 1), s);
        assert(lines_of(c) == seq![c.take(i)] + lines_of(c.skip(i + 1)));
        assert(lines_of(w) =~= lines_of(c) + seq![s]);
    }
}

/// Applying a first line, then the others.
proof fn lemma_apply_lines_prepend(cfg: (Seq<char>, u64), x: Seq<char>, ls: Seq<Seq<char>>)
    ensures
        apply_lines(cfg, seq![x] + ls) == apply_lines(apply_line(cfg, x), ls),
    decreases ls.len(),
{
    if ls.len() == 0 {
        assert(seq![x] + ls =~= seq![x]);
        assert(seq![x].drop_last() =~= Seq::<Seq<char>>::empty());
        assert(apply_lines(cfg, seq![x]) == apply_line(apply_lines(cfg, seq![x].drop_last()), x));
    } else {
        let w = seq![x] + ls;
        assert(w.drop_last() =~= seq![x] + ls.drop_last());
        assert(w.last() == ls.last());
        lemma_apply_lines_prepend(cfg, x, ls.drop_last());
        assert(apply_lines(cfg, w) == apply_line(apply_lines(cfg, w.drop_last()), w.last()));
    }
}

/// A skipped line changes no setting.
proof fn lemma_skipped_line(cfg: (Seq<char>, u64), s: Seq<char>)
    requires
        skipped_line(s),
    ensures
        apply_line(cfg, s) == cfg,
{
    let l = trim(s);
    lemma_first_index_of(l, '=');
    if first_index_of(l, '=') < l.len() {
        assert(l.contains('='));
    }
}

/// Blank lines, comments, lines without `=` and lines with unknown keys
/// change nothing, whether they come after the rest of the file or before
/// it.
pub proof fn law_skipped_lines_change_nothing(content: Seq<char>, s: Seq<char>)
    requires
        !s.contains('\n'),
        skipped_line(s),
    ensures
        config_of(content + seq!['\n'] + s) == config_of(content),
        config_of(s + seq!['\n'] + content) == config_of(content),
{
    let d = ("127.0.0.1:9000"@, 1000u64);
    lemma_lines_append(content, s);
    lemma_skipped_line(apply_lines(d, lines_of(content)), s);
    assert((lines_of(content) + seq![s]).drop_last() =~= lines_of(content));
    lemma_lines_prepend(s, content);
    lemma_apply_lines_prepend(d, s, lines_of(content));
    lemma_skipped_line(d, s);
}

/// A `target_addr` line after the rest of the file sets the address to its
/// trimmed value, whatever came before, and leaves the interval alone.
pub proof fn law_later_target_addr_wins(content: Seq<char>, a: Seq<char>)
    requires
        !a.contains('\n'),
    ensures
        config_of(content + seq!['\n'] + "target_addr="@ + a).0 == trim(a),
        config_of(content + seq!['\n'] + "target_addr="@ + a).1 == config_of(content).1,
{
    reveal_strlit("target_addr=");
    reveal_strlit("target_addr");
    reveal_strlit("interval_ms");
    let p = "target_addr="@;
    let x = p + a;
    assert(p.len() == 12);
    assert forall|i: int| 0 <= i < x.len() implies x[i] != '\n' by {
        if i >= 12 {
            assert(x[i] == a[i - 12]);
            if a[i - 12] == '\n' {
                assert(a.contains('\n'));
            }
        }
    }
    assert(!x.contains('\n'));
    assert(content + seq!['\n'] + "target_addr="@ + a =~= content + seq!['\n'] + x);
    lemma_lines_append(content, x);
    let cfg = apply_lines(("127.0.0.1:9000"@, 1000u64), lines_of(content));
    assert((lines_of(content) + seq![x]).drop_last() =~= lines_of(content));
    // The trimmed line is the key, `=` and the value with its end trimmed.
    assert(trim_start(x) == x);
    lemma_trim_end_concat(p, a);
    let l = p + trim_end(a);
    assert(trim(x) == l);
    assert(l[0] == 't');
    lemma_first_index_of_char(l, '=', 11);
    assert(l.contains('=')) by { assert(l[11] == '='); }
    let k = l.take(11);
    assert(k =~= "target_addr"@);
    assert(trim_start(k) == k);
    assert(trim_end(k) == k);
    assert(l.skip(12) =~= trim_end(a));
    lemma_trim_of_trim_end(a);
    assert(apply_line(cfg, x) == (trim(a), cfg.1));
}

/// An `interval_ms` line after the rest of the file sets the interval to
/// its trimmed value read as an unsigned number, or to the default 1000
/// where it is none, whatever came before, and leaves the address alone.
pub proof fn law_later_interval_wins(content: Seq<char>, a: Seq<char>)
    requires
        !a.contains('\n'),
    ensures
        config_of(content + seq!['\n'] + "interval_ms="@ + a).1 == (match parse_u64_spec(trim(a)) {
            Some(v) => v,
            None => 1000u64,
        }),
        config_of(content + seq!['\n'] + "interval_ms="@ + a).0 == config_of(content).0,
{
    reveal_strlit("interval_ms=");
    reveal_strlit("target_addr");
    reveal_strlit("interval_ms");
    let p = "interval_ms="@;
    let x = p + a;
    assert(p.len() == 12);
    assert forall|i: int| 0 <= i < x.len() implies x[i] != '\n' by {
        if i >= 12 {
            assert(x[i] == a[i - 12]);
            if a[i - 12] == '\n' {
                assert(a.contains('\n'));
            }
        }
    }
    assert(!x.contains('\n'));
    assert(content + seq!['\n'] + "interval_ms="@ + a =~= content + seq!['\n'] + x);
    lemma_lines_append(content, x);
    let cfg = apply_lines(("127.0.0.1:9000"@, 1000u64), lines_of(content));
    assert((lines_of(content) + seq![x]).drop_last() =~= lines_of(content));
    assert(trim_start(x) == x);
    lemma_trim_end_concat(p, a);
    let l = p + trim_end(a);
    assert(trim(x) == l);
    assert(l[0] == 'i');
    lemma_first_index_of_char(l, '=', 11);
    assert(l.contains('=')) by { assert(l[11] == '='); }
    let k = l.take(11);
    assert(k =~= "interval_ms"@);
    assert(trim_start(k) == k);
    assert(trim_end(k) == k);
    assert(k != "target_addr"@) by { assert(k[0] != "target_addr"@[0]); }
    assert(l.skip(12) =~= trim_end(a));
    lemma_trim_of_trim_end(a);
}

/// The next seed differs from the seed in its last four bits: the step
/// multiplies by a number that is 13 modulo 16 and adds one that is 15.
proof fn lemma_next_seed_mod16(x: u64)
    ensures
        next_seed(x) % 16 != x % 16,
{
    let a: int = 6364136223846793005;
    let c: int = 1442695040888963407;
    let big: int = 0x1_0000_0000_0000_0000;
    let m = (x as int) * a;
    let w = vstd::wrapping::u64_specs::wrapping_mul(x, 6364136223846793005u64);
    assert(w as int == m % big);
    vstd::arithmetic::div_mod::lemma_mod_mod(m, 16, 0x1000_0000_0000_0000);
    assert(16 * 0x1000_0000_0000_0000int == big);
    assert((w as int) % 16 == m % 16);
    vstd::arithmetic::div_mod::lemma_mul_mod_noop_left(x as int, a, 16);
    vstd::arithmetic::div_mod::lemma_mul_mod_noop_right((x as int) % 16, a, 16);
    assert(a % 16 == 13);
    assert(m % 16 == ((x as int) % 16) * 13 % 16);
    let n = next_seed(x) as int;
    if (w as int) + c > u64::MAX {
        assert(n == (w as int) + c - big);
        vstd::arithmetic::div_mod::lemma_mod_multiples_vanish(-0x1000_0000_0000_0000int, (w as int) + c, 16);
        assert(n % 16 == ((w as int) + c) % 16);
    } else {
        assert(n == (w as int) + c);
    }
    vstd::arithmetic::div_mod::lemma_add_mod_noop(w as int, c, 16);
    assert(c % 16 == 15);
    let r = x % 16;
    assert(r < 16);
    assert((((r as int) * 13 % 16) + 15) % 16 != r) by (nonlinear_arith)
        requires
            0 <= r < 16,
    ;
}

/// Two temperatures in a row always differ: the generator never repeats a
/// value at once, so no run of its values is constant.
pub proof fn law_successive_temperatures_differ(seed: u64)
    ensures
        temp_of_seed(next_seed(seed)) != temp_of_seed(next_seed(next_seed(seed))),
{
    let s1 = next_seed(seed);
    let s2 = next_seed(s1);
    lemma_next_seed_mod16(s1);
    vstd::arithmetic::div_mod::lemma_mod_mod(s1 as int, 16, 5);
    vstd::arithmetic::div_mod::lemma_mod_mod(s2 as int, 16, 5);
    assert((s1 % 80) as int % 16 == s1 % 16);
    assert((s2 % 80) as int % 16 == s2 % 16);
}

} // verus!
