//! Character-level text utilities shared by the decoder and the renderer.
//!
//! Everything here works over `Vec<char>` / `Seq<char>`, so that the text
//! algorithms of the library can be specified and verified character by
//! character.  Line splitting follows the usual text convention: lines are
//! separated by `'\n'`, a `'\r'` directly before a separator is dropped,
//! and a trailing separator does not open a final empty line.

use vstd::prelude::*;
use vstd::string::StrSliceExecFns;

verus! {

/// Relies on `String::push`: appends one character at the end of the string.
pub assume_specification[ String::push ](s: &mut String, c: char)
    ensures
        final(s)@ == old(s)@.push(c),
;

/// Collects the characters of a string slice into a vector.
pub fn str_to_chars(s: &str) -> (v: Vec<char>)
    ensures
        v@ == s@,
{
    let n = s.unicode_len();
    let mut v: Vec<char> = Vec::new();
    let mut i: usize = 0;
    while i < n
        invariant
            i <= n,
            n == s@.len(),
            v@ == s@.take(i as int),
        decreases n - i,
    {
        v.push(s.get_char(i));
        i += 1;
        proof {
            assert(v@ =~= s@.take(i as int));
        }
    }
    proof {
        assert(v@ =~= s@);
    }
    v
}

/// Builds an owned string out of a vector of characters.
pub fn chars_to_string(v: &Vec<char>) -> (s: String)
    ensures
        s@ == v@,
{
    let mut s = String::new();
    let mut i: usize = 0;
    while i < v.len()
        invariant
            i <= v.len(),
            s@ == v@.take(i as int),
        decreases v.len() - i,
    {
        s.push(v[i]);
        i += 1;
        proof {
            assert(s@ =~= v@.take(i as int));
        }
    }
    proof {
        assert(s@ =~= v@);
    }
    s
}

/// Appends every character of `v` at the end of `out`.
pub fn push_chars(out: &mut String, v: &Vec<char>)
    ensures
        final(out)@ == old(out)@ + v@,
{
    let mut i: usize = 0;
    while i < v.len()
        invariant
            i <= v.len(),
            out@ == old(out)@ + v@.take(i as int),
        decreases v.len() - i,
    {
        out.push(v[i]);
        i += 1;
        proof {
            assert(old(out)@ + v@.take(i - 1) + seq![v@[i - 1]] =~= old(out)@ + v@.take(
                i as int,
            ));
        }
    }
    proof {
        assert(old(out)@ + v@.take(v@.len() as int) =~= old(out)@ + v@);
    }
}

/// Copies the characters of `v` with indices in `[a, b)`.
pub fn copy_range(v: &Vec<char>, a: usize, b: usize) -> (r: Vec<char>)
    requires
        a <= b <= v.len(),
    ensures
        r@ == v@.subrange(a as int, b as int),
{
    let mut r: Vec<char> = Vec::new();
    let mut i: usize = a;
    while i < b
        invariant
            a <= i <= b <= v.len(),
            r@ == v@.subrange(a as int, i as int),
        decreases b - i,
    {
        r.push(v[i]);
        i += 1;
        proof {
            assert(r@ =~= v@.subrange(a as int, i as int));
        }
    }
    r
}

/// Index of the first `'\n'` in `s`, or `-1` if there is none.
pub open spec fn find_nl(s: Seq<char>) -> int
    decreases s.len(),
{
    if s.len() == 0 {
        -1
    } else if s[0] == '\n' {
        0
    } else if find_nl(s.drop_first()) == -1 {
        -1
    } else {
        find_nl(s.drop_first()) + 1
    }
}

pub proof fn lemma_find_nl(s: Seq<char>)
    ensures
        find_nl(s) >= -1,
        find_nl(s) == -1 ==> forall|i: int| 0 <= i < s.len() ==> s[i] != '\n',
        find_nl(s) >= 0 ==> find_nl(s) < s.len() && s[find_nl(s)] == '\n' && forall|i: int|
            0 <= i < find_nl(s) ==> s[i] != '\n',
    decreases s.len(),
{
    if s.len() > 0 && s[0] != '\n' {
        let t = s.drop_first();
        lemma_find_nl(t);
        assert(forall|i: int| 0 <= i < t.len() ==> #[trigger] t[i] == s[i + 1]);
        if find_nl(t) == -1 {
            assert forall|i: int| 0 <= i < s.len() implies s[i] != '\n' by {
                if i >= 1 {
                    assert(t[i - 1] == s[i]);
                }
            }
        } else {
            let k = find_nl(t);
            assert(0 <= k < t.len() && t[k] == '\n');
            assert(s[k + 1] == t[k]);
            assert forall|i: int| 0 <= i < k + 1 implies s[i] != '\n' by {
                if i >= 1 {
                    assert(t[i - 1] == s[i] && t[i - 1] != '\n');
                }
            }
        }
    }
}

/// `find_nl` finds nothing exactly when no separator is there.
pub proof fn lemma_find_nl_none(s: Seq<char>)
    requires
        forall|i: int| 0 <= i < s.len() ==> s[i] != '\n',
    ensures
        find_nl(s) == -1,
    decreases s.len(),
{
    if s.len() > 0 {
        assert(forall|i: int| 0 <= i < s.drop_first().len() ==> #[trigger] s.drop_first()[i] == s[i
            + 1]);
        lemma_find_nl_none(s.drop_first());
    }
}

/// `find_nl` is determined by where the first separator stands.
pub proof fn lemma_find_nl_at(s: Seq<char>, k: int)
    requires
        0 <= k < s.len(),
        s[k] == '\n',
        forall|i: int| 0 <= i < k ==> s[i] != '\n',
    ensures
        find_nl(s) == k,
    decreases s.len(),
{
    if k > 0 {
        assert(forall|i: int| 0 <= i < k - 1 ==> s.drop_first()[i] == s[i + 1]);
        lemma_find_nl_at(s.drop_first(), k - 1);
    }
}

/// Drops one `'\r'` at the end of a line, if present.
pub open spec fn strip_cr(l: Seq<char>) -> Seq<char> {
    if l.len() > 0 && l[l.len() - 1] == '\r' {
        l.drop_last()
    } else {
        l
    }
}

/// The lines of `s`: separated by `'\n'`, a `'\r'` directly before a
/// separator is dropped, and a trailing separator opens no final empty
/// line.
pub open spec fn spec_lines(s: Seq<char>) -> Seq<Seq<char>>
    decreases s.len(),
    via spec_lines_decreases
{
    if s.len() == 0 {
        Seq::empty()
    } else if find_nl(s) == -1 {
        seq![s]
    } else {
        seq![strip_cr(s.take(find_nl(s)))] + spec_lines(s.skip(find_nl(s) + 1))
    }
}

#[via_fn]
proof fn spec_lines_decreases(s: Seq<char>) {
    if s.len() > 0 && find_nl(s) != -1 {
        lemma_find_nl(s);
    }
}

/// Number of lines of `s`.
pub open spec fn spec_line_count(s: Seq<char>) -> nat {
    spec_lines(s).len()
}

/// Splits `v` into its lines.
pub fn split_lines(v: &Vec<char>) -> (r: Vec<Vec<char>>)
    ensures
        r@.map_values(|l: Vec<char>| l@) == spec_lines(v@),
{
    let ghost s = v@;
    let n = v.len();
    let mut r: Vec<Vec<char>> = Vec::new();
    let mut start: usize = 0;
    let mut i: usize = 0;
    proof {
        assert(s.skip(0) =~= s);
        assert(r@.map_values(|l: Vec<char>| l@) + spec_lines(s) =~= spec_lines(s));
    }
    while i < n
        invariant
            start <= i <= n,
            n == s.len(),
            v@ == s,
            forall|j: int| start <= j < i ==> s[j] != '\n',
            spec_lines(s) == r@.map_values(|l: Vec<char>| l@) + spec_lines(s.skip(start as int)),
        decreases n - i,
    {
        if v[i] == '\n' {
            let end = if i > start && v[i - 1] == '\r' {
                i - 1
            } else {
                i
            };
            let line = copy_range(v, start, end);
            proof {
                let rem = s.skip(start as int);
                assert(rem[i - start] == '\n');
                assert(forall|j: int| 0 <= j < i - start ==> rem[j] == s[j + start] && rem[j]
                    != '\n');
                lemma_find_nl_at(rem, i - start);
                assert(rem.take(i - start) =~= s.subrange(start as int, i as int));
                assert(strip_cr(s.subrange(start as int, i as int)) =~= line@);
                assert(rem.skip(i - start + 1) =~= s.skip(i + 1));
                assert(spec_lines(rem) == seq![line@] + spec_lines(s.skip(i + 1)));
                assert(r@.push(line).map_values(|l: Vec<char>| l@) =~= r@.map_values(
                    |l: Vec<char>| l@,
                ).push(line@));
                assert(r@.map_values(|l: Vec<char>| l@) + (seq![line@] + spec_lines(
                    s.skip(i + 1),
                )) =~= r@.map_values(|l: Vec<char>| l@).push(line@) + spec_lines(s.skip(i + 1)));
            }
            r.push(line);
            start = i + 1;
        }
        i += 1;
    }
    if start < n {
        let line = copy_range(v, start, n);
        proof {
            let rem = s.skip(start as int);
            assert(forall|j: int|
                0 <= j < rem.len() ==> #[trigger] rem[j] == s[j + start] && rem[j] != '\n');
            lemma_find_nl_none(rem);
            assert(rem =~= line@);
            assert(spec_lines(rem) == seq![line@]);
            assert(r@.push(line).map_values(|l: Vec<char>| l@) =~= r@.map_values(
                |l: Vec<char>| l@,
            ).push(line@));
            assert(r@.map_values(|l: Vec<char>| l@) + seq![line@] =~= r@.map_values(
                |l: Vec<char>| l@,
            ).push(line@));
        }
        r.push(line);
    } else {
        proof {
            assert(s.skip(start as int) =~= Seq::<char>::empty());
            assert(spec_lines(s.skip(start as int)) =~= Seq::<Seq<char>>::empty());
            assert(r@.map_values(|l: Vec<char>| l@) + Seq::<Seq<char>>::empty() =~= r@.map_values(
                |l: Vec<char>| l@,
            ));
        }
    }
    r
}

/// The lines joined back with `'\n'` between them.
pub open spec fn spec_join_nl(ls: Seq<Seq<char>>) -> Seq<char>
    decreases ls.len(),
{
    if ls.len() == 0 {
        Seq::empty()
    } else if ls.len() == 1 {
        ls[0]
    } else {
        ls[0] + seq!['\n'] + spec_join_nl(ls.drop_first())
    }
}

pub proof fn lemma_join_nl_push(ls: Seq<Seq<char>>, l: Seq<char>)
    ensures
        spec_join_nl(ls.push(l)) == if ls.len() == 0 {
            l
        } else {
            spec_join_nl(ls) + seq!['\n'] + l
        },
    decreases ls.len(),
{
    if ls.len() == 0 {
        assert(ls.push(l) =~= seq![l]);
        assert(spec_join_nl(seq![l]) == l);
    } else {
        assert(ls.push(l).drop_first() =~= ls.drop_first().push(l));
        lemma_join_nl_push(ls.drop_first(), l);
        if ls.len() == 1 {
            assert(spec_join_nl(ls.push(l)) == ls[0] + seq!['\n'] + l);
            assert(spec_join_nl(ls) == ls[0]);
        } else {
            assert(spec_join_nl(ls.push(l)) == ls[0] + seq!['\n'] + (spec_join_nl(ls.drop_first())
                + seq!['\n'] + l));
            assert(ls[0] + seq!['\n'] + (spec_join_nl(ls.drop_first()) + seq!['\n'] + l) =~= (ls[0]
                + seq!['\n'] + spec_join_nl(ls.drop_first())) + seq!['\n'] + l);
        }
    }
}

/// Appends the lines of `ls`, separated by `'\n'`, at the end of `out`.
pub fn append_joined(out: &mut String, ls: &Vec<Vec<char>>)
    ensures
        final(out)@ == old(out)@ + spec_join_nl(ls@.map_values(|l: Vec<char>| l@)),
{
    let ghost views = ls@.map_values(|l: Vec<char>| l@);
    let mut j: usize = 0;
    while j < ls.len()
        invariant
            j <= ls.len(),
            views == ls@.map_values(|l: Vec<char>| l@),
            out@ == old(out)@ + spec_join_nl(views.take(j as int)),
        decreases ls.len() - j,
    {
        if j > 0 {
            out.push('\n');
        }
        push_chars(out, &ls[j]);
        j += 1;
        proof {
            assert(views.take(j - 1).push(views[j - 1]) =~= views.take(j as int));
            lemma_join_nl_push(views.take(j - 1), views[j - 1]);
            if j > 1 {
                assert(old(out)@ + spec_join_nl(views.take(j - 1)) + seq!['\n'] + views[j - 1]
                    =~= old(out)@ + (spec_join_nl(views.take(j - 1)) + seq!['\n'] + views[j - 1]));
            } else {
                assert(old(out)@ + spec_join_nl(views.take(0)) =~= old(out)@);
            }
        }
    }
    proof {
        assert(views.take(views.len() as int) =~= views);
    }
}

/// Whether `c` has the White_Space property that `str::trim` goes by.
pub open spec fn is_space_char(c: char) -> bool {
    let u = c as u32;
    u == 9 || u == 10 || u == 11 || u == 12 || u == 13 || u == 32 || u == 0x85 || u == 0xA0 || u
        == 0x1680 || (0x2000 <= u && u <= 0x200A) || u == 0x2028 || u == 0x2029 || u == 0x202F || u
        == 0x205F || u == 0x3000
}

/// Runtime check for [`is_space_char`].
pub fn is_space(c: char) -> (r: bool)
    ensures
        r == is_space_char(c),
{
    let u = c as u32;
    u == 9 || u == 10 || u == 11 || u == 12 || u == 13 || u == 32 || u == 0x85 || u == 0xA0 || u
        == 0x1680 || (0x2000 <= u && u <= 0x200A) || u == 0x2028 || u == 0x2029 || u == 0x202F || u
        == 0x205F || u == 0x3000
}

/// `s` without leading white space.
pub open spec fn spec_trim_start(s: Seq<char>) -> Seq<char>
    decreases s.len(),
{
    if s.len() > 0 && is_space_char(s[0]) {
        spec_trim_start(s.drop_first())
    } else {
        s
    }
}

/// `s` without trailing white space.
pub open spec fn spec_trim_end(s: Seq<char>) -> Seq<char>
    decreases s.len(),
{
    if s.len() > 0 && is_space_char(s[s.len() - 1]) {
        spec_trim_end(s.drop_last())
    } else {
        s
    }
}

/// `s` without leading and trailing white space.
pub open spec fn spec_trim(s: Seq<char>) -> Seq<char> {
    spec_trim_end(spec_trim_start(s))
}

pub proof fn lemma_trim_start_at(s: Seq<char>, a: int)
    requires
        0 <= a <= s.len(),
        forall|i: int| 0 <= i < a ==> is_space_char(s[i]),
        a < s.len() ==> !is_space_char(s[a]),
    ensures
        spec_trim_start(s) == s.skip(a),
    decreases a,
{
    if a == 0 {
        assert(s.skip(0) =~= s);
    } else {
        assert(is_space_char(s[0]));
        assert(forall|i: int| 0 <= i < s.drop_first().len() ==> s.drop_first()[i] == s[i + 1]);
        lemma_trim_start_at(s.drop_first(), a - 1);
        assert(s.drop_first().skip(a - 1) =~= s.skip(a));
    }
}

pub proof fn lemma_trim_end_at(s: Seq<char>, b: int)
    requires
        0 <= b <= s.len(),
        forall|i: int| b <= i < s.len() ==> is_space_char(s[i]),
        b > 0 ==> !is_space_char(s[b - 1]),
    ensures
        spec_trim_end(s) == s.take(b),
    decreases s.len() - b,
{
    if b == s.len() {
        assert(s.take(b) =~= s);
    } else {
        assert(is_space_char(s[s.len() - 1]));
        assert(s.drop_last() =~= s.take(s.len() - 1));
        assert(forall|i: int| 0 <= i < s.len() - 1 ==> s.drop_last()[i] == s[i]);
        lemma_trim_end_at(s.drop_last(), b);
        assert(s.drop_last().take(b) =~= s.take(b));
    }
}

/// Index of the first character of `v` that is not white space.
pub fn first_non_space(v: &Vec<char>) -> (a: usize)
    ensures
        a <= v.len(),
        forall|i: int| 0 <= i < a ==> is_space_char(v@[i]),
        a < v.len() ==> !is_space_char(v@[a as int]),
        spec_trim_start(v@) == v@.skip(a as int),
{
    let mut a: usize = 0;
    while a < v.len() && is_space(v[a])
        invariant
            a <= v.len(),
            forall|i: int| 0 <= i < a ==> is_space_char(v@[i]),
        decreases v.len() - a,
    {
        a += 1;
    }
    proof {
        lemma_trim_start_at(v@, a as int);
    }
    a
}

/// `v` without leading and trailing white space.
pub fn trim_chars(v: &Vec<char>) -> (r: Vec<char>)
    ensures
        r@ == spec_trim(v@),
{
    let a = first_non_space(v);
    let mut b: usize = v.len();
    while b > a && is_space(v[b - 1])
        invariant
            a <= b <= v.len(),
            forall|i: int| b <= i < v.len() ==> is_space_char(v@[i]),
        decreases b,
    {
        b -= 1;
    }
    let r = copy_range(v, a, b);
    proof {
        let t = v@.skip(a as int);
        assert(forall|i: int| 0 <= i < t.len() ==> t[i] == v@[i + a]);
        lemma_trim_end_at(t, b - a);
        assert(t.take(b - a) =~= v@.subrange(a as int, b as int));
    }
    r
}

/// Whether `p` stands at the front of `s`.
pub open spec fn spec_starts_with(s: Seq<char>, p: Seq<char>) -> bool {
    p.len() <= s.len() && s.take(p.len() as int) == p
}

/// Runtime check that the characters of `p` stand at the front of `v`.
pub fn starts_with_str(v: &Vec<char>, p: &str) -> (r: bool)
    ensures
        r == spec_starts_with(v@, p@),
{
    let m = p.unicode_len();
    if m > v.len() {
        return false;
    }
    let mut i: usize = 0;
    while i < m
        invariant
            i <= m,
            m == p@.len(),
            m <= v@.len(),
            forall|j: int| 0 <= j < i ==> v@[j] == p@[j],
        decreases m - i,
    {
        if v[i] != p.get_char(i) {
            proof {
                assert(v@.take(m as int)[i as int] != p@[i as int]);
            }
            return false;
        }
        i += 1;
    }
    proof {
        assert(v@.take(m as int) =~= p@);
    }
    true
}

/// Whether the characters of `p` appear somewhere inside `s`.
pub open spec fn spec_contains_seq(s: Seq<char>, p: Seq<char>) -> bool {
    exists|k: int| 0 <= k <= s.len() - p.len() && #[trigger] s.subrange(k, k + p.len() as int) == p
}

/// Runtime check that the characters of `p` appear somewhere inside `v`.
pub fn contains_str(v: &Vec<char>, p: &str) -> (r: bool)
    ensures
        r == spec_contains_seq(v@, p@),
{
    let m = p.unicode_len();
    if m > v.len() {
        proof {
            assert(!spec_contains_seq(v@, p@));
        }
        return false;
    }
    let mut k: usize = 0;
    while k <= v.len() - m
        invariant
            m == p@.len(),
            m <= v@.len(),
            k <= v@.len() - m + 1,
            forall|k0: int|
                0 <= k0 < k ==> #[trigger] v@.subrange(k0, k0 + p@.len() as int) != p@,
        decreases v.len() - m - k + 1,
    {
        let mut i: usize = 0;
        let mut all_eq = true;
        while i < m
            invariant
                i <= m,
                m == p@.len(),
                k + m <= v@.len() <= usize::MAX,
                all_eq <==> (forall|j: int| 0 <= j < i ==> v@[k + j] == p@[j]),
            decreases m - i,
        {
            if v[k + i] != p.get_char(i) {
                all_eq = false;
                proof {
                    assert(v@[k + i] != p@[i as int]);
                }
                i = m;
            } else {
                i += 1;
            }
        }
        if all_eq {
            proof {
                assert(v@.subrange(k as int, k + p@.len() as int) =~= p@);
            }
            return true;
        }
        proof {
            assert(v@.subrange(k as int, k + p@.len() as int)[0] == v@[k as int] || m > 0);
            assert(exists|j: int| 0 <= j < m && v@[k + j] != p@[j]);
            let j0 = choose|j: int| 0 <= j < m && v@[k + j] != p@[j];
            assert(v@.subrange(k as int, k + p@.len() as int)[j0] == v@[k + j0]);
            assert(v@.subrange(k as int, k + p@.len() as int) != p@);
        }
        k += 1;
    }
    proof {
        assert(forall|k0: int|
            0 <= k0 <= v@.len() - p@.len() ==> #[trigger] v@.subrange(k0, k0 + p@.len() as int)
                != p@);
    }
    false
}

/// The decimal digit `d` as a character.
pub open spec fn spec_digit(d: nat) -> char {
    if d == 0 {
        '0'
    } else if d == 1 {
        '1'
    } else if d == 2 {
        '2'
    } else if d == 3 {
        '3'
    } else if d == 4 {
        '4'
    } else if d == 5 {
        '5'
    } else if d == 6 {
        '6'
    } else if d == 7 {
        '7'
    } else if d == 8 {
        '8'
    } else {
        '9'
    }
}

/// The decimal notation of `n`, without leading zeroes (`0` itself aside).
pub open spec fn spec_dec(n: nat) -> Seq<char>
    decreases n,
{
    if n < 10 {
        seq![spec_digit(n)]
    } else {
        spec_dec(n / 10).push(spec_digit(n % 10))
    }
}

/// `s` reversed.
pub open spec fn seq_rev(s: Seq<char>) -> Seq<char> {
    Seq::new(s.len(), |j: int| s[s.len() - 1 - j])
}

fn digit_char(d: u128) -> (c: char)
    requires
        d < 10,
    ensures
        c == spec_digit(d as nat),
{
    if d == 0 {
        '0'
    } else if d == 1 {
        '1'
    } else if d == 2 {
        '2'
    } else if d == 3 {
        '3'
    } else if d == 4 {
        '4'
    } else if d == 5 {
        '5'
    } else if d == 6 {
        '6'
    } else if d == 7 {
        '7'
    } else if d == 8 {
        '8'
    } else {
        '9'
    }
}

/// The decimal notation of `n` as an owned string.
pub fn dec_to_string(n: u128) -> (s: String)
    ensures
        s@ == spec_dec(n as nat),
{
    let mut digits: Vec<char> = Vec::new();
    let mut m: u128 = n;
    digits.push(digit_char(m % 10));
    proof {
        if n >= 10 {
            assert(spec_dec(n as nat) == spec_dec((n / 10) as nat).push(spec_digit((n % 10) as nat)));
            assert(spec_dec((n / 10) as nat) + seq_rev(digits@) =~= spec_dec(n as nat));
        } else {
            assert(seq_rev(digits@) =~= spec_dec(n as nat));
        }
    }
    m = m / 10;
    while m > 0
        invariant
            m == 0 ==> spec_dec(n as nat) == seq_rev(digits@),
            m > 0 ==> spec_dec(n as nat) == spec_dec(m as nat) + seq_rev(digits@),
        decreases m,
    {
        let ghost digits0 = digits@;
        let ghost m0 = m;
        digits.push(digit_char(m % 10));
        proof {
            assert(seq_rev(digits0.push(spec_digit((m0 % 10) as nat))) =~= seq![
                spec_digit((m0 % 10) as nat),
            ] + seq_rev(digits0));
            if m0 >= 10 {
                assert(spec_dec(m0 as nat) == spec_dec((m0 / 10) as nat).push(
                    spec_digit((m0 % 10) as nat),
                ));
                assert(spec_dec((m0 / 10) as nat) + seq_rev(digits@) =~= spec_dec(m0 as nat)
                    + seq_rev(digits0));
            } else {
                assert(spec_dec(m0 as nat) == seq![spec_digit((m0 % 10) as nat)]);
                assert(seq_rev(digits@) =~= spec_dec(m0 as nat) + seq_rev(digits0));
            }
        }
        m = m / 10;
    }
    let mut s = String::new();
    let mut j: usize = digits.len();
    while j > 0
        invariant
            j <= digits.len(),
            s@ == seq_rev(digits@).take(digits@.len() - j),
        decreases j,
    {
        j -= 1;
        s.push(digits[j]);
        proof {
            assert(s@ =~= seq_rev(digits@).take(digits@.len() - j));
        }
    }
    proof {
        assert(seq_rev(digits@).take(digits@.len() as int) =~= seq_rev(digits@));
    }
    s
}

} // verus!
