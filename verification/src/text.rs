//! Character-sequence helpers shared by the key and source-text code.
use vstd::prelude::*;

verus! {

/// Calls `String::push`: the text gains `c` at its end.
#[verifier::external_body]
pub(crate) fn push_char(s: &mut String, c: char)
    ensures
        final(s)@ == old(s)@.push(c),
{
    s.push(c)
}

/// What `str::to_uppercase` makes of a text: its Unicode uppercase mapping.
pub uninterp spec fn uppercase(s: Seq<char>) -> Seq<char>;

/// What `str::to_lowercase` makes of a text: its Unicode lowercase mapping.
pub uninterp spec fn lowercase(s: Seq<char>) -> Seq<char>;

/// What `format!("{:?}", s)` makes of a text: the text quoted, with the
/// characters that need it escaped.
pub uninterp spec fn debug_quoted(s: Seq<char>) -> Seq<char>;

/// Calls `str::to_uppercase`; the result is [`uppercase`] of the argument.
#[verifier::external_body]
pub(crate) fn to_uppercase(s: &str) -> (r: String)
    ensures
        r@ == uppercase(s@),
{
    s.to_uppercase()
}

/// Calls `str::to_lowercase`; the result is [`lowercase`] of the argument.
#[verifier::external_body]
pub(crate) fn to_lowercase(s: &str) -> (r: String)
    ensures
        r@ == lowercase(s@),
{
    s.to_lowercase()
}

/// Formats a text with `Debug`, as `format!("{:?}", s)` does; the result is
/// [`debug_quoted`] of the argument.
#[verifier::external_body]
pub(crate) fn debug_text(s: &str) -> (r: String)
    ensures
        r@ == debug_quoted(s@),
{
    format!("{:?}", s)
}

/// Builds a `String` holding exactly the characters of `v`.
pub fn string_from_chars(v: &Vec<char>) -> (s: String)
    ensures
        s@ == v@,
{
    let mut s = String::new();
    let mut i: usize = 0;
    while i < v.len()
        invariant
            i <= v@.len(),
            s@ == v@.take(i as int),
        decreases v@.len() - i,
    {
        push_char(&mut s, v[i]);
        assert(v@.take(i as int).push(v@[i as int]) =~= v@.take(i + 1));
        i = i + 1;
    }
    assert(v@.take(v@.len() as int) =~= v@);
    s
}

/// The characters of `s`, in order.
pub fn chars_of(s: &str) -> (v: Vec<char>)
    ensures
        v@ == s@,
{
    broadcast use vstd::string::group_string_axioms;
    let mut v: Vec<char> = Vec::new();
    for c in it: s.chars()
        invariant
            v@ == it.seq().take(it.index() as int),
    {
        v.push(c);
    }
    v
}

} // verus!

verus! {

/// The character for decimal digit `d` (`d < 10`).
pub open spec fn digit_char(d: nat) -> char {
    (48 + d) as char
}

/// `c` is one of `'0'..='9'`.
pub open spec fn is_digit(c: char) -> bool {
    48 <= (c as int) <= 57
}

/// Decimal rendering of `n`, most significant digit first, without sign or padding.
pub open spec fn decimal(n: nat) -> Seq<char>
    decreases n,
{
    if n < 10 {
        seq![digit_char(n)]
    } else {
        decimal(n / 10).push(digit_char(n % 10))
    }
}

/// Decimal rendering of a signed value: a leading `'-'` for negative values.
pub open spec fn signed_decimal(v: int) -> Seq<char> {
    if v < 0 {
        seq!['-'] + decimal((-v) as nat)
    } else {
        decimal(v as nat)
    }
}

/// Value of a string of decimal digits, most significant first.
pub open spec fn digits_value(s: Seq<char>) -> nat
    decreases s.len(),
{
    if s.len() == 0 {
        0
    } else {
        digits_value(s.drop_last()) * 10 + ((s.last() as int - 48) as nat)
    }
}

/// Every character of `s` is a decimal digit.
pub open spec fn all_digits(s: Seq<char>) -> bool {
    forall|i: int| 0 <= i < s.len() ==> is_digit(#[trigger] s[i])
}

/// The digits of an unsigned number text: an optional leading `'+'` is dropped.
pub open spec fn unsigned_digits(s: Seq<char>) -> Seq<char> {
    if s.len() > 0 && s[0] == '+' {
        s.drop_first()
    } else {
        s
    }
}

/// `s` is accepted when read as a `u64`: an optional `'+'`, then at least one
/// digit, and a value that fits.
pub open spec fn parses_as_u64(s: Seq<char>) -> bool {
    let d = unsigned_digits(s);
    &&& d.len() > 0
    &&& all_digits(d)
    &&& digits_value(d) <= u64::MAX
}

/// The value of `s` read as an unsigned number (meaningful when [`parses_as_u64`] holds).
pub open spec fn parsed_value(s: Seq<char>) -> nat {
    digits_value(unsigned_digits(s))
}

/// The part of `s` after its last `sep`; all of `s` when `sep` does not occur.
pub open spec fn last_segment(s: Seq<char>, sep: char) -> Seq<char>
    decreases s.len(),
{
    if s.len() == 0 {
        s
    } else if s.last() == sep {
        Seq::empty()
    } else {
        last_segment(s.drop_last(), sep).push(s.last())
    }
}

/// `t` occurs in `s` as a contiguous run of characters.
pub open spec fn contains_seq(s: Seq<char>, t: Seq<char>) -> bool {
    exists|i: int| 0 <= i && i + t.len() <= s.len() && #[trigger] s.subrange(i, i + t.len()) == t
}

/// Left-to-right replacement of every non-overlapping occurrence of `pat` by `rep`.
pub open spec fn replace_all(s: Seq<char>, pat: Seq<char>, rep: Seq<char>) -> Seq<char>
    decreases s.len(),
{
    if pat.len() == 0 || s.len() < pat.len() {
        s
    } else if s.subrange(0, pat.len() as int) == pat {
        rep + replace_all(s.subrange(pat.len() as int, s.len() as int), pat, rep)
    } else {
        seq![s[0]] + replace_all(s.drop_first(), pat, rep)
    }
}

pub proof fn lemma_decimal_shape(n: nat)
    ensures
        decimal(n).len() > 0,
        all_digits(decimal(n)),
        digits_value(decimal(n)) == n,
        !decimal(n).contains('_'),
        decimal(n)[0] != '+',
    decreases n,
{
    if n >= 10 {
        lemma_decimal_shape(n / 10);
        let d = decimal(n);
        assert(d.drop_last() =~= decimal(n / 10));
        assert(d.last() as int == 48 + n % 10);
        assert(digits_value(d.drop_last()) == n / 10);
        assert(digits_value(d) == digits_value(d.drop_last()) * 10 + ((d.last() as int - 48) as nat));
        assert((n / 10) * 10 + n % 10 == n);
        assert forall|i: int| 0 <= i < d.len() implies is_digit(#[trigger] d[i]) by {
            if i < d.len() - 1 {
                assert(d[i] == decimal(n / 10)[i]);
            }
        }
        if d.contains('_') {
            let i = choose|i: int| 0 <= i < d.len() && d[i] == '_';
            if i < d.len() - 1 {
                assert(decimal(n / 10)[i] == '_');
                assert(decimal(n / 10).contains('_'));
            }
        }
        assert(d[0] == decimal(n / 10)[0]);
    } else {
        assert(decimal(n).drop_last() =~= Seq::<char>::empty());
        assert(decimal(n).last() as int == 48 + n);
        assert(digits_value(decimal(n).drop_last()) == 0);
    }
}

/// The last segment of `a + [sep] + b`, where `b` has no `sep`, is `b`.
pub proof fn lemma_last_segment_after_sep(a: Seq<char>, sep: char, b: Seq<char>)
    requires
        !b.contains(sep),
    ensures
        last_segment(a + seq![sep] + b, sep) == b,
    decreases b.len(),
{
    let s = a + seq![sep] + b;
    if b.len() == 0 {
        assert(s.last() == sep);
    } else {
        assert(s.last() == b.last());
        assert(b.last() != sep) by {
            assert(b[b.len() - 1] == b.last());
        }
        assert(!b.drop_last().contains(sep)) by {
            if b.drop_last().contains(sep) {
                let i = choose|i: int| 0 <= i < b.drop_last().len() && b.drop_last()[i] == sep;
                assert(b[i] == sep);
            }
        }
        lemma_last_segment_after_sep(a, sep, b.drop_last());
        assert(s.drop_last() =~= a + seq![sep] + b.drop_last());
        assert(b.drop_last().push(b.last()) =~= b);
    }
}

/// The last segment of `s` is a suffix of `s`, and when `sep` occurs in `s` the
/// character just before that suffix is `sep`.
pub proof fn lemma_last_segment_suffix(s: Seq<char>, sep: char)
    ensures
        last_segment(s, sep).len() <= s.len(),
        last_segment(s, sep) == s.subrange(s.len() - last_segment(s, sep).len(), s.len() as int),
        !last_segment(s, sep).contains(sep),
        s.contains(sep) ==> last_segment(s, sep).len() < s.len() && s[s.len()
            - last_segment(s, sep).len() - 1] == sep,
        !s.contains(sep) ==> last_segment(s, sep) == s,
    decreases s.len(),
{
    if s.len() == 0 {
    } else if s.last() == sep {
        assert(s[s.len() - 1] == sep);
    } else {
        lemma_last_segment_suffix(s.drop_last(), sep);
        let p = s.drop_last();
        let l = last_segment(p, sep);
        assert(last_segment(s, sep) == l.push(s.last()));
        assert(l.push(s.last()) =~= s.subrange(s.len() - l.len() - 1, s.len() as int));
        if l.push(s.last()).contains(sep) {
            let i = choose|i: int| 0 <= i < l.len() + 1 && l.push(s.last())[i] == sep;
            if i < l.len() {
                assert(l[i] == sep);
            }
        }
        if s.contains(sep) {
            let i = choose|i: int| 0 <= i < s.len() && s[i] == sep;
            assert(i < s.len() - 1);
            assert(p[i] == sep);
        } else {
            assert forall|i: int| 0 <= i < p.len() implies p[i] != sep by {
                assert(s[i] == p[i]);
            }
            assert(p =~= p);
            assert(s =~= p.push(s.last()));
        }
    }
}

} // verus!

verus! {

/// Appends the characters of `s` to `out`.
pub fn push_str(out: &mut Vec<char>, s: &str)
    ensures
        final(out)@ == old(out)@ + s@,
{
    let v = chars_of(s);
    push_chars(out, &v);
}

/// Appends the characters of `v` to `out`.
pub fn push_chars(out: &mut Vec<char>, v: &Vec<char>)
    ensures
        final(out)@ == old(out)@ + v@,
{
    let ghost start = out@;
    let mut i: usize = 0;
    while i < v.len()
        invariant
            i <= v@.len(),
            out@ == start + v@.take(i as int),
        decreases v@.len() - i,
    {
        out.push(v[i]);
        assert(v@.take(i as int).push(v@[i as int]) =~= v@.take(i + 1));
        i = i + 1;
    }
    assert(v@.take(v@.len() as int) =~= v@);
}

/// Appends the decimal rendering of `n` to `out`.
pub fn push_decimal(out: &mut Vec<char>, n: u64)
    ensures
        final(out)@ == old(out)@ + decimal(n as nat),
    decreases n,
{
    if n >= 10 {
        push_decimal(out, n / 10);
    }
    let d: u8 = (n % 10) as u8;
    let c: char = (48u8 + d) as char;
    assert(c == digit_char((n % 10) as nat));
    out.push(c);
    proof {
        if n >= 10 {
            assert(decimal(n as nat) == decimal((n / 10) as nat).push(digit_char((n % 10) as nat)));
        } else {
            assert(decimal(n as nat) == seq![digit_char(n as nat)]);
        }
    }
    assert(final(out)@ =~= old(out)@ + decimal(n as nat));
}

/// Appends the decimal rendering of `v`, with a leading `'-'` when negative.
pub fn push_signed_decimal(out: &mut Vec<char>, v: i32)
    ensures
        final(out)@ == old(out)@ + signed_decimal(v as int),
{
    let w: i64 = v as i64;
    if w < 0 {
        out.push('-');
        push_decimal(out, (-w) as u64);
        assert(final(out)@ =~= old(out)@ + signed_decimal(v as int));
    } else {
        push_decimal(out, w as u64);
    }
}

/// Whether `t` occurs in `s` at position `i`.
fn occurs_at(s: &Vec<char>, t: &Vec<char>, i: usize) -> (b: bool)
    requires
        i + t@.len() <= s@.len(),
    ensures
        b == (s@.subrange(i as int, i + t@.len()) == t@),
{
    let sl = s.len();
    let mut j: usize = 0;
    while j < t.len()
        invariant
            sl == s@.len(),
            j <= t@.len(),
            i + t@.len() <= s@.len(),
            forall|k: int| 0 <= k < j ==> s@[i + k] == t@[k],
        decreases t@.len() - j,
    {
        let idx: usize = i + j;
        if s[idx] != t[j] {
            assert(s@.subrange(i as int, i + t@.len())[j as int] != t@[j as int]);
            return false;
        }
        j = j + 1;
    }
    assert(s@.subrange(i as int, i + t@.len()) =~= t@);
    true
}

/// Whether `t` occurs in `s` as a contiguous run of characters.
pub fn contains_chars(s: &Vec<char>, t: &Vec<char>) -> (b: bool)
    ensures
        b == contains_seq(s@, t@),
{
    if t.len() > s.len() {
        return false;
    }
    if t.len() == 0 {
        assert(s@.subrange(0, 0int + t@.len()) =~= t@);
        return true;
    }
    let mut i: usize = 0;
    while i <= s.len() - t.len()
        invariant
            1 <= t@.len() <= s@.len(),
            i <= s@.len() - t@.len() + 1,
            forall|k: int| 0 <= k < i ==> #[trigger] s@.subrange(k, k + t@.len()) != t@,
        decreases s@.len() - i,
    {
        if occurs_at(s, t, i) {
            return true;
        }
        i = i + 1;
    }
    false
}

/// Whether `t` occurs in `s`.
pub fn str_contains(s: &str, t: &str) -> (b: bool)
    ensures
        b == contains_seq(s@, t@),
{
    let sv = chars_of(s);
    let tv = chars_of(t);
    contains_chars(&sv, &tv)
}

/// Index at which the last `sep`-separated segment of `s` starts.
pub fn last_segment_start(s: &Vec<char>, sep: char) -> (k: usize)
    ensures
        k <= s@.len(),
        s@.subrange(k as int, s@.len() as int) == last_segment(s@, sep),
        k == s@.len() - last_segment(s@, sep).len(),
{
    proof {
        lemma_last_segment_suffix(s@, sep);
    }
    let mut k: usize = s.len();
    while k > 0 && s[k - 1] != sep
        invariant
            k <= s@.len(),
            forall|j: int| k <= j < s@.len() ==> s@[j] != sep,
        decreases k,
    {
        k = k - 1;
    }
    proof {
        lemma_last_segment_of_split(s@, sep, k as int);
    }
    k
}

/// When `s[k..]` has no `sep` and `k` is 0 or follows a `sep`, `s[k..]` is the last segment.
proof fn lemma_last_segment_of_split(s: Seq<char>, sep: char, k: int)
    requires
        0 <= k <= s.len(),
        forall|j: int| k <= j < s.len() ==> s[j] != sep,
        k == 0 || s[k - 1] == sep,
    ensures
        last_segment(s, sep) == s.subrange(k, s.len() as int),
    decreases s.len(),
{
    if s.len() == 0 {
    } else if k == s.len() {
        assert(s.last() == sep);
        assert(s.subrange(k, s.len() as int) =~= Seq::<char>::empty());
    } else {
        assert(s.last() != sep) by {
            assert(s[s.len() - 1] == s.last());
        }
        lemma_last_segment_of_split(s.drop_last(), sep, k);
        assert(s.drop_last().subrange(k, s.len() - 1).push(s.last()) =~= s.subrange(
            k,
            s.len() as int,
        ));
    }
}

/// Reads `s` as an unsigned number.
pub fn parse_u64(s: &Vec<char>) -> (v: u64)
    requires
        parses_as_u64(s@),
    ensures
        v == parsed_value(s@),
{
    let start: usize = if s.len() > 0 && s[0] == '+' { 1 } else { 0 };
    let ghost d = unsigned_digits(s@);
    assert(d =~= s@.subrange(start as int, s@.len() as int));
    let mut acc: u64 = 0;
    let mut i: usize = start;
    while i < s.len()
        invariant
            start <= i <= s@.len(),
            d =~= s@.subrange(start as int, s@.len() as int),
            all_digits(d),
            digits_value(d) <= u64::MAX,
            acc == digits_value(d.take(i - start)),
        decreases s@.len() - i,
    {
        let ghost p = d.take(i - start + 1);
        assert(p.drop_last() =~= d.take(i - start));
        assert(p.last() == s@[i as int]);
        assert(is_digit(d[i - start]));
        proof {
            lemma_digits_prefix_bound(d, i - start + 1);
        }
        let c = s[i];
        let digit: u64 = (c as u32 - 48) as u64;
        acc = acc * 10 + digit;
        i = i + 1;
    }
    assert(d.take(d.len() as int) =~= d);
    acc
}

/// Whether `s` is accepted when read as a `u64`.
pub fn reads_as_u64(s: &Vec<char>) -> (b: bool)
    ensures
        b == parses_as_u64(s@),
{
    let start: usize = if s.len() > 0 && s[0] == '+' { 1 } else { 0 };
    let ghost d = unsigned_digits(s@);
    assert(d =~= s@.subrange(start as int, s@.len() as int));
    if start == s.len() {
        return false;
    }
    let mut i: usize = start;
    while i < s.len()
        invariant
            start <= i <= s@.len(),
            d =~= s@.subrange(start as int, s@.len() as int),
            d == unsigned_digits(s@),
            forall|k: int| 0 <= k < i - start ==> is_digit(#[trigger] d[k]),
        decreases s@.len() - i,
    {
        if !(s[i] >= '0' && s[i] <= '9') {
            assert(!is_digit(d[i - start]));
            return false;
        }
        i = i + 1;
    }
    assert(all_digits(d));
    let mut acc: u64 = 0;
    let mut i: usize = start;
    while i < s.len()
        invariant
            start <= i <= s@.len(),
            d =~= s@.subrange(start as int, s@.len() as int),
            d == unsigned_digits(s@),
            all_digits(d),
            acc == digits_value(d.take(i - start)),
        decreases s@.len() - i,
    {
        let ghost p = d.take(i - start + 1);
        assert(p.drop_last() =~= d.take(i - start));
        assert(p.last() == s@[i as int]);
        assert(is_digit(d[i - start]));
        let c = s[i];
        let digit: u64 = (c as u32 - 48) as u64;
        if acc > (u64::MAX - digit) / 10 {
            proof {
                assert(acc * 10 + digit > u64::MAX) by (nonlinear_arith)
                    requires
                        acc > (u64::MAX - digit) / 10,
                        digit <= 9,
                ;
                lemma_digits_prefix_bound(d, i - start + 1);
            }
            return false;
        }
        assert(acc * 10 + digit <= u64::MAX) by (nonlinear_arith)
            requires
                acc <= (u64::MAX - digit) / 10,
                digit <= 9,
        ;
        acc = acc * 10 + digit;
        i = i + 1;
    }
    assert(d.take(d.len() as int) =~= d);
    true
}

/// The value of a prefix of a digit string is at most the value of the whole.
proof fn lemma_digits_prefix_bound(d: Seq<char>, n: int)
    requires
        0 <= n <= d.len(),
        all_digits(d),
    ensures
        digits_value(d.take(n)) <= digits_value(d),
    decreases d.len(),
{
    if n < d.len() {
        assert(d.drop_last().take(n) =~= d.take(n));
        assert forall|i: int| 0 <= i < d.drop_last().len() implies is_digit(
            #[trigger] d.drop_last()[i],
        ) by {
            assert(d[i] == d.drop_last()[i]);
        }
        lemma_digits_prefix_bound(d.drop_last(), n);
    } else {
        assert(d.take(n) =~= d);
    }
}

/// Replaces every non-overlapping occurrence of `pat` in `s` by `rep`, left to right.
pub fn replace_chars(s: &Vec<char>, pat: &Vec<char>, rep: &Vec<char>) -> (out: Vec<char>)
    requires
        pat@.len() > 0,
    ensures
        out@ == replace_all(s@, pat@, rep@),
{
    let mut out: Vec<char> = Vec::new();
    let mut i: usize = 0;
    assert(s@.subrange(0, s@.len() as int) =~= s@);
    assert(out@ + replace_all(s@, pat@, rep@) =~= replace_all(s@, pat@, rep@));
    while i < s.len()
        invariant
            i <= s@.len(),
            pat@.len() > 0,
            out@ + replace_all(s@.subrange(i as int, s@.len() as int), pat@, rep@) == replace_all(
                s@,
                pat@,
                rep@,
            ),
        decreases s@.len() - i,
    {
        let ghost rest = s@.subrange(i as int, s@.len() as int);
        if pat.len() <= s.len() - i && occurs_at(s, pat, i) {
            assert(rest.subrange(0, pat@.len() as int) =~= s@.subrange(i as int, i + pat@.len()));
            assert(rest.subrange(pat@.len() as int, rest.len() as int) =~= s@.subrange(
                i + pat@.len(),
                s@.len() as int,
            ));
            push_chars(&mut out, rep);
            i = i + pat.len();
            assert(out@ + replace_all(s@.subrange(i as int, s@.len() as int), pat@, rep@) =~= replace_all(s@, pat@, rep@));
        } else {
            if pat.len() <= s.len() - i {
                assert(rest.subrange(0, pat@.len() as int) =~= s@.subrange(i as int, i + pat@.len()));
            }
            assert(rest.drop_first() =~= s@.subrange(i + 1, s@.len() as int));
            out.push(s[i]);
            i = i + 1;
            assert(out@ + replace_all(s@.subrange(i as int, s@.len() as int), pat@, rep@) =~= replace_all(s@, pat@, rep@));
        }
    }
    assert(s@.subrange(i as int, s@.len() as int) =~= Seq::<char>::empty());
    assert(out@ + replace_all(Seq::<char>::empty(), pat@, rep@) =~= out@);
    out
}

/// A text contains every piece it is made of.
pub proof fn lemma_contains_mid(a: Seq<char>, t: Seq<char>, b: Seq<char>)
    ensures
        contains_seq(a + t + b, t),
{
    let s = a + t + b;
    assert(s.subrange(a.len() as int, a.len() + t.len() as int) =~= t);
}

/// Containment is transitive.
pub proof fn lemma_contains_trans(u: Seq<char>, s: Seq<char>, t: Seq<char>)
    requires
        contains_seq(u, s),
        contains_seq(s, t),
    ensures
        contains_seq(u, t),
{
    let i = choose|i: int| 0 <= i && i + s.len() <= u.len() && #[trigger] u.subrange(i, i + s.len()) == s;
    let j = choose|j: int| 0 <= j && j + t.len() <= s.len() && #[trigger] s.subrange(j, j + t.len()) == t;
    assert(u.subrange(i + j, i + j + t.len()) =~= s.subrange(j, j + t.len()));
}

/// A text built by appending `g(0)`, `g(1)`, ... contains every piece appended.
pub proof fn lemma_contains_appended(
    f: spec_fn(nat) -> Seq<char>,
    g: spec_fn(nat) -> Seq<char>,
    n: nat,
    j: nat,
)
    requires
        j < n,
        forall|k: nat| 0 < k <= n ==> #[trigger] f(k) == f((k - 1) as nat) + g((k - 1) as nat),
    ensures
        contains_seq(f(n), g(j)),
    decreases n,
{
    let prev = f((n - 1) as nat);
    let last = g((n - 1) as nat);
    assert(f(n) == prev + last);
    if j == n - 1 {
        lemma_contains_mid(prev, last, Seq::empty());
        assert(prev + last + Seq::<char>::empty() =~= f(n));
    } else {
        lemma_contains_appended(f, g, (n - 1) as nat, j);
        lemma_contains_mid(Seq::empty(), prev, last);
        assert(Seq::<char>::empty() + prev + last =~= f(n));
        lemma_contains_trans(f(n), prev, g(j));
    }
}

/// Replacing in a text where `pat` cannot start anywhere leaves it as it is.
pub proof fn lemma_replace_none(s: Seq<char>, pat: Seq<char>, r: Seq<char>)
    requires
        pat.len() > 0,
        forall|k: int| 0 <= k < s.len() ==> s[k] != pat[0],
    ensures
        replace_all(s, pat, r) == s,
    decreases s.len(),
{
    if s.len() >= pat.len() {
        assert(s.subrange(0, pat.len() as int)[0] != pat[0]);
        lemma_replace_none(s.drop_first(), pat, r);
        assert(seq![s[0]] + s.drop_first() =~= s);
    }
}

/// The first occurrence of `pat`, after a prefix where it cannot start, is
/// the first one replaced.
pub proof fn lemma_replace_first(p: Seq<char>, pat: Seq<char>, q: Seq<char>, r: Seq<char>)
    requires
        pat.len() > 0,
        forall|k: int| 0 <= k < p.len() ==> p[k] != pat[0],
    ensures
        replace_all(p + pat + q, pat, r) == p + r + replace_all(q, pat, r),
    decreases p.len(),
{
    let s = p + pat + q;
    if p.len() == 0 {
        assert(s =~= pat + q);
        assert(s.subrange(0, pat.len() as int) =~= pat);
        assert(s.subrange(pat.len() as int, s.len() as int) =~= q);
        assert(p + r + replace_all(q, pat, r) =~= r + replace_all(q, pat, r));
    } else {
        assert(s.subrange(0, pat.len() as int)[0] == p[0]);
        assert(s.drop_first() =~= p.drop_first() + pat + q);
        lemma_replace_first(p.drop_first(), pat, q, r);
        assert(seq![p[0]] + (p.drop_first() + r + replace_all(q, pat, r)) =~= p + r + replace_all(
            q,
            pat,
            r,
        ));
    }
}

/// Different numbers have different decimal renderings.
pub proof fn lemma_decimal_injective(a: nat, b: nat)
    ensures
        a != b ==> decimal(a) != decimal(b),
{
    lemma_decimal_shape(a);
    lemma_decimal_shape(b);
}

} // verus!
