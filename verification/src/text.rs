//! Character-level helpers on strings: the characters of a string, Unicode
//! whitespace, trimming and splitting at a separator.

use vstd::prelude::*;
use vstd::string::*;
use vstd::std_specs::iter::IteratorSpec;

verus! {

broadcast use vstd::string::group_string_axioms;

/// Whether `c` has the Unicode `White_Space` property, the set of
/// characters that `str::trim` removes.
pub open spec fn is_whitespace_spec(c: char) -> bool {
    let v = c as u32;
    ||| v == 0x20
    ||| (0x09 <= v && v <= 0x0d)
    ||| v == 0x85
    ||| v == 0xa0
    ||| v == 0x1680
    ||| (0x2000 <= v && v <= 0x200a)
    ||| v == 0x2028
    ||| v == 0x2029
    ||| v == 0x202f
    ||| v == 0x205f
    ||| v == 0x3000
}

/// `s` without its leading whitespace.
pub open spec fn trim_start_spec(s: Seq<char>) -> Seq<char>
    decreases s.len(),
{
    if s.len() > 0 && is_whitespace_spec(s[0]) {
        trim_start_spec(s.drop_first())
    } else {
        s
    }
}

/// `s` without its trailing whitespace.
pub open spec fn trim_end_spec(s: Seq<char>) -> Seq<char>
    decreases s.len(),
{
    if s.len() > 0 && is_whitespace_spec(s.last()) {
        trim_end_spec(s.drop_last())
    } else {
        s
    }
}

/// `s` without leading and trailing whitespace.
pub open spec fn trim_spec(s: Seq<char>) -> Seq<char> {
    trim_end_spec(trim_start_spec(s))
}

/// Whether `s` neither starts nor ends with whitespace.
pub open spec fn is_trimmed(s: Seq<char>) -> bool {
    s.len() == 0 || (!is_whitespace_spec(s[0]) && !is_whitespace_spec(s.last()))
}

/// The strings of `parts` with `sep` between each two of them.
pub open spec fn join_spec(parts: Seq<Seq<char>>, sep: char) -> Seq<char>
    decreases parts.len(),
{
    if parts.len() == 0 {
        Seq::<char>::empty()
    } else if parts.len() == 1 {
        parts[0]
    } else {
        join_spec(parts.drop_last(), sep).push(sep) + parts.last()
    }
}

/// The pieces of `s` between occurrences of `sep`, in order; a string
/// without `sep` is a single piece, and the empty string is one empty piece.
pub open spec fn split_spec(s: Seq<char>, sep: char) -> Seq<Seq<char>>
    decreases s.len(),
{
    if s.len() == 0 {
        seq![Seq::<char>::empty()]
    } else {
        let front = split_spec(s.drop_last(), sep);
        if s.last() == sep {
            front.push(Seq::<char>::empty())
        } else {
            front.update(front.len() - 1, front.last().push(s.last()))
        }
    }
}

/// Whether `i` is the position of the last occurrence of `c` in `s`.
pub open spec fn is_last_index(s: Seq<char>, c: char, i: int) -> bool {
    &&& 0 <= i < s.len()
    &&& s[i] == c
    &&& forall|k: int| i < k < s.len() ==> s[k] != c
}

/// The character of decimal digit `d`.
pub open spec fn digit_char(d: int) -> char {
    ((d + 48) as u32) as char
}

/// The decimal digits of `n`, most significant first, without leading zeros.
pub open spec fn decimal_spec(n: nat) -> Seq<char>
    decreases n,
{
    if n < 10 {
        seq![digit_char(n as int)]
    } else {
        decimal_spec(n / 10).push(digit_char((n % 10) as int))
    }
}

/// The number that a string of decimal digits stands for.
pub open spec fn decimal_value(s: Seq<char>) -> int
    decreases s.len(),
{
    if s.len() == 0 {
        0
    } else {
        decimal_value(s.drop_last()) * 10 + ((s.last() as u32) - 48)
    }
}

/// Whether `i` is the position of the first occurrence of `c` in `s`.
pub open spec fn is_first_index(s: Seq<char>, c: char, i: int) -> bool {
    &&& 0 <= i < s.len()
    &&& s[i] == c
    &&& forall|k: int| 0 <= k < i ==> s[k] != c
}

/// What `trim_start_spec` leaves does not start with whitespace, and is
/// empty only when `s` is all whitespace.
proof fn lemma_trim_start_shape(s: Seq<char>)
    ensures
        trim_start_spec(s).len() == 0 || !is_whitespace_spec(trim_start_spec(s)[0]),
        trim_start_spec(s).len() <= s.len(),
        trim_start_spec(s) == s.skip(s.len() - trim_start_spec(s).len()),
        forall|k: int|
            0 <= k < s.len() - trim_start_spec(s).len() ==> is_whitespace_spec(#[trigger] s[k]),
    decreases s.len(),
{
    if s.len() > 0 && is_whitespace_spec(s[0]) {
        lemma_trim_start_shape(s.drop_first());
        let t = trim_start_spec(s.drop_first());
        assert(s.drop_first().skip(s.drop_first().len() - t.len()) =~= s.skip(s.len() - t.len()));
        assert forall|k: int| 0 <= k < s.len() - t.len() implies is_whitespace_spec(#[trigger] s[k]) by {
            if k > 0 {
                assert(s[k] == s.drop_first()[k - 1]);
            }
        }
    } else {
        assert(s.skip(0) =~= s);
    }
}

/// `trim_end_spec` keeps the start of `s`: when `s` does not start with
/// whitespace, neither does the result, and it is empty only when `s` is.
proof fn lemma_trim_end_shape(s: Seq<char>)
    ensures
        trim_end_spec(s).len() == 0 || !is_whitespace_spec(trim_end_spec(s).last()),
        trim_end_spec(s) == s.take(trim_end_spec(s).len() as int),
        trim_end_spec(s).len() <= s.len(),
        s.len() > 0 && !is_whitespace_spec(s[0]) ==> trim_end_spec(s).len() > 0,
        forall|k: int|
            trim_end_spec(s).len() <= k < s.len() ==> is_whitespace_spec(#[trigger] s[k]),
    decreases s.len(),
{
    if s.len() > 0 && is_whitespace_spec(s.last()) {
        lemma_trim_end_shape(s.drop_last());
        let t = trim_end_spec(s.drop_last());
        assert forall|k: int| t.len() <= k < s.len() implies is_whitespace_spec(#[trigger] s[k]) by {
            if k < s.len() - 1 {
                assert(s[k] == s.drop_last()[k]);
            }
        }
        assert(s.drop_last().take(t.len() as int) =~= s.take(t.len() as int));
        if s.len() > 0 && !is_whitespace_spec(s[0]) {
            assert(s.drop_last().len() > 0);
            assert(s.drop_last()[0] == s[0]);
        }
    } else {
        assert(s.take(s.len() as int) =~= s);
    }
}

/// Whether `c` is a visible ASCII character: a letter, digit or
/// punctuation mark such as `?`, `!` or `.`.
pub open spec fn is_visible_ascii(c: char) -> bool {
    0x21 <= (c as u32) && (c as u32) <= 0x7e
}

/// Only the Unicode `White_Space` characters count as whitespace: the ASCII
/// space and the controls from tab to carriage return, and above ASCII only
/// U+0085, U+00A0, U+1680, U+2000 to U+200A, U+2028, U+2029, U+202F, U+205F
/// and U+3000. In particular no visible ASCII character is whitespace.
pub proof fn law_whitespace_is_unicode_white_space(c: char)
    ensures
        is_whitespace_spec(c) ==> ((c as u32) == 0x20 || (0x09 <= (c as u32) && (c as u32) <= 0x0d)
            || (c as u32) >= 0x85),
        is_whitespace_spec(c) ==> (c as u32) <= 0x3000,
        is_visible_ascii(c) ==> !is_whitespace_spec(c),
        (c as u32) == 0x20 ==> is_whitespace_spec(c),
        (c as u32) == 0x0a ==> is_whitespace_spec(c),
        (c as u32) == 0x3000 ==> is_whitespace_spec(c),
        0x3000 < (c as u32) ==> !is_whitespace_spec(c),
        (0x0e <= (c as u32) && (c as u32) <= 0x1f) ==> !is_whitespace_spec(c),
        (0x7f <= (c as u32) && (c as u32) <= 0x84) ==> !is_whitespace_spec(c),
        (0x86 <= (c as u32) && (c as u32) <= 0x9f) ==> !is_whitespace_spec(c),
{
}

/// Trimming cuts characters from the two ends of `s` only, and only
/// whitespace: the result is a run of `s` that every visible ASCII
/// character of `s` lies in.
pub proof fn law_trim_cuts_only_white_space(s: Seq<char>)
    ensures
        exists|a: int|
            #![trigger s.subrange(a, a + trim_spec(s).len())]
            0 <= a && a + trim_spec(s).len() <= s.len() && trim_spec(s) == s.subrange(
                a,
                a + trim_spec(s).len(),
            ) && (forall|k: int|
                0 <= k < s.len() && !(a <= k < a + trim_spec(s).len()) ==> !is_visible_ascii(
                    #[trigger] s[k],
                )),
{
    let t = trim_start_spec(s);
    lemma_trim_start_shape(s);
    lemma_trim_end_shape(t);
    let u = trim_end_spec(t);
    let a = s.len() - t.len();
    assert(u =~= s.subrange(a, a + u.len()));
    assert forall|k: int|
        0 <= k < s.len() && !(a <= k < a + u.len()) implies !is_visible_ascii(#[trigger] s[k]) by {
        if k < a {
            law_whitespace_is_unicode_white_space(s[k]);
        } else {
            assert(s[k] == t[k - a]);
            assert(is_whitespace_spec(t[k - a]));
            law_whitespace_is_unicode_white_space(s[k]);
        }
    }
    assert(trim_spec(s) == u);
    assert(0 <= a && a + trim_spec(s).len() <= s.len() && trim_spec(s) == s.subrange(
        a,
        a + trim_spec(s).len(),
    ) && (forall|k: int|
        0 <= k < s.len() && !(a <= k < a + trim_spec(s).len()) ==> !is_visible_ascii(
            #[trigger] s[k],
        )));
}

/// A string that neither starts nor ends with whitespace is left as it is
/// by trimming.
pub proof fn lemma_trimmed_is_fixed(s: Seq<char>)
    requires
        is_trimmed(s),
    ensures
        trim_spec(s) == s,
{
}

/// Trimming leaves no whitespace at either end, so trimming twice is
/// trimming once.
pub proof fn law_trim_idempotent(s: Seq<char>)
    ensures
        is_trimmed(trim_spec(s)),
        trim_spec(trim_spec(s)) == trim_spec(s),
{
    let t = trim_start_spec(s);
    lemma_trim_start_shape(s);
    lemma_trim_end_shape(t);
    let u = trim_end_spec(t);
    if u.len() > 0 {
        assert(t.len() > 0);
        assert(u[0] == t.take(u.len() as int)[0]);
        assert(u[0] == t[0]);
    }
    lemma_trimmed_is_fixed(u);
}

/// Splitting text that holds no separator after a split point extends the
/// last piece.
proof fn lemma_split_extend(s: Seq<char>, b: Seq<char>, sep: char)
    requires
        !b.contains(sep),
    ensures
        split_spec(s + b, sep) == split_spec(s, sep).update(
            split_spec(s, sep).len() - 1,
            split_spec(s, sep).last() + b,
        ),
        split_spec(s + b, sep).len() == split_spec(s, sep).len(),
    decreases b.len(),
{
    lemma_split_nonempty(s, sep);
    if b.len() == 0 {
        assert(s + b =~= s);
        assert(split_spec(s, sep).last() + b =~= split_spec(s, sep).last());
        assert(split_spec(s, sep).update(split_spec(s, sep).len() - 1, split_spec(s, sep).last())
            =~= split_spec(s, sep));
    } else {
        let b0 = b.drop_last();
        assert(!b0.contains(sep)) by {
            if b0.contains(sep) {
                let k = choose|k: int| 0 <= k < b0.len() && b0[k] == sep;
                assert(b[k] == sep);
            }
        }
        lemma_split_extend(s, b0, sep);
        assert((s + b).drop_last() =~= s + b0);
        assert((s + b).last() == b.last());
        assert(b.last() != sep) by {
            assert(b[b.len() - 1] == b.last());
        }
        lemma_split_nonempty(s + b0, sep);
        assert(split_spec(s, sep).last() + b =~= (split_spec(s, sep).last() + b0).push(b.last()));
        assert(split_spec(s + b, sep) =~= split_spec(s, sep).update(
            split_spec(s, sep).len() - 1,
            split_spec(s, sep).last() + b,
        ));
    }
}

/// Splitting always gives at least one piece.
proof fn lemma_split_nonempty(s: Seq<char>, sep: char)
    ensures
        split_spec(s, sep).len() >= 1,
    decreases s.len(),
{
    if s.len() > 0 {
        lemma_split_nonempty(s.drop_last(), sep);
    }
}

/// Splitting pieces that hold no separator, joined by it, gives the pieces
/// back.
pub proof fn law_split_undoes_join(parts: Seq<Seq<char>>, sep: char)
    requires
        parts.len() >= 1,
        forall|k: int| 0 <= k < parts.len() ==> !(#[trigger] parts[k]).contains(sep),
    ensures
        split_spec(join_spec(parts, sep), sep) == parts,
    decreases parts.len(),
{
    if parts.len() == 1 {
        let e = Seq::<char>::empty();
        lemma_split_extend(e, parts[0], sep);
        assert(e + parts[0] =~= parts[0]);
        assert(split_spec(e, sep) =~= seq![e]);
        assert(e + parts[0] =~= parts[0]);
        assert(split_spec(parts[0], sep) =~= parts);
    } else {
        let front = parts.drop_last();
        law_split_undoes_join(front, sep);
        let j = join_spec(front, sep);
        assert(!parts.last().contains(sep)) by {
            assert(parts[parts.len() - 1] == parts.last());
        }
        lemma_split_extend(j.push(sep), parts.last(), sep);
        assert(j.push(sep).drop_last() =~= j);
        assert(split_spec(j.push(sep), sep) == front.push(Seq::<char>::empty()));
        assert(Seq::<char>::empty() + parts.last() =~= parts.last());
        assert(split_spec(join_spec(parts, sep), sep) =~= parts);
    }
}

/// The characters of `s`, in order.
pub fn chars_of(s: &str) -> (res: Vec<char>)
    ensures
        res@ == s@,
{
    let mut res: Vec<char> = Vec::new();
    for c in it: s.chars()
        invariant
            res@ == it.seq().take(it.index()),
            it.seq() == s@,
    {
        res.push(c);
    }
    res
}

/// Whether `c` is Unicode whitespace.
pub fn is_whitespace(c: char) -> (res: bool)
    ensures
        res == is_whitespace_spec(c),
{
    let v = c as u32;
    v == 0x20 || (0x09 <= v && v <= 0x0d) || v == 0x85 || v == 0xa0 || v == 0x1680 || (0x2000
        <= v && v <= 0x200a) || v == 0x2028 || v == 0x2029 || v == 0x202f || v == 0x205f || v
        == 0x3000
}

/// `s` with leading and trailing whitespace removed, as `str::trim` does.
pub fn trim(s: &str) -> (res: String)
    ensures
        res@ == trim_spec(s@),
{
    let chars = chars_of(s);
    let n = chars.len();
    let mut i: usize = 0;
    assert(s@.subrange(0, n as int) =~= s@);
    while i < n && is_whitespace(chars[i])
        invariant
            i <= n,
            n == chars@.len(),
            chars@ == s@,
            trim_start_spec(s@) == trim_start_spec(s@.subrange(i as int, n as int)),
        decreases n - i,
    {
        assert(s@.subrange(i as int, n as int).drop_first() =~= s@.subrange(i + 1, n as int));
        i = i + 1;
    }
    assert(trim_start_spec(s@) == s@.subrange(i as int, n as int));
    let mut j: usize = n;
    while j > i && is_whitespace(chars[j - 1])
        invariant
            i <= j <= n,
            n == chars@.len(),
            chars@ == s@,
            trim_spec(s@) == trim_end_spec(s@.subrange(i as int, j as int)),
        decreases j,
    {
        assert(s@.subrange(i as int, j as int).drop_last() =~= s@.subrange(i as int, j - 1));
        j = j - 1;
    }
    let piece = s.substring_char(i, j);
    String::from_str(piece)
}

/// The one-character string of decimal digit `d`.
fn digit_text(d: u64) -> (res: &'static str)
    requires
        d < 10,
    ensures
        res@ == seq![digit_char(d as int)],
{
    let digits = "0123456789";
    proof {
        reveal_strlit("0123456789");
    }
    let res = digits.substring_char(d as usize, d as usize + 1);
    assert(res@ =~= seq![digit_char(d as int)]);
    res
}

/// `n` written in decimal, as `n.to_string()` writes it.
pub fn decimal(n: u64) -> (res: String)
    ensures
        res@ == decimal_spec(n as nat),
    decreases n,
{
    if n < 10 {
        String::from_str(digit_text(n))
    } else {
        let mut res = decimal(n / 10);
        res.append(digit_text(n % 10));
        res
    }
}

/// The character of a decimal digit stands for that digit.
proof fn lemma_digit_value(d: int)
    requires
        0 <= d < 10,
    ensures
        (digit_char(d) as u32) == d + 48,
{
}

/// Writing a number in decimal and reading it back gives the number, and the
/// digits have no leading zero.
pub proof fn law_decimal_reads_back(n: nat)
    ensures
        decimal_value(decimal_spec(n)) == n,
        decimal_spec(n).len() >= 1,
        n > 0 ==> decimal_spec(n)[0] != '0',
    decreases n,
{
    if n >= 10 {
        law_decimal_reads_back(n / 10);
        let front = decimal_spec(n / 10);
        assert(decimal_spec(n).drop_last() =~= front);
        assert(decimal_spec(n)[0] == front[0]);
        lemma_digit_value((n % 10) as int);
        assert(decimal_spec(n).last() == digit_char((n % 10) as int));
        assert(decimal_value(decimal_spec(n)) == decimal_value(front) * 10 + (n % 10));
        assert(n == (n / 10) * 10 + n % 10) by (nonlinear_arith);
    } else {
        lemma_digit_value(n as int);
        assert(decimal_spec(n).drop_last() =~= Seq::<char>::empty());
        assert(decimal_value(decimal_spec(n)) == decimal_value(Seq::<char>::empty()) * 10 + n);
        if n > 0 {
            assert('0' as u32 == 48);
        }
    }
}

/// Position of the last occurrence of `c` in `s`, if any.
pub fn rfind_char(s: &Vec<char>, c: char) -> (res: Option<usize>)
    ensures
        match res {
            Some(i) => is_last_index(s@, c, i as int),
            None => !s@.contains(c),
        },
{
    let mut i: usize = s.len();
    while i > 0
        invariant
            i <= s@.len(),
            forall|k: int| i <= k < s@.len() ==> s@[k] != c,
        decreases i,
    {
        if s[i - 1] == c {
            return Some(i - 1);
        }
        i = i - 1;
    }
    None
}

/// Whether `a` and `b` hold the same characters.
pub fn same_text(a: &str, b: &str) -> (res: bool)
    ensures
        res == (a@ == b@),
{
    let x = chars_of(a);
    let y = chars_of(b);
    if x.len() != y.len() {
        return false;
    }
    let mut i: usize = 0;
    while i < x.len()
        invariant
            i <= x@.len(),
            x@.len() == y@.len(),
            x@ == a@,
            y@ == b@,
            forall|k: int| 0 <= k < i ==> x@[k] == y@[k],
        decreases x@.len() - i,
    {
        if x[i] != y[i] {
            assert(a@[i as int] != b@[i as int]);
            return false;
        }
        i = i + 1;
    }
    assert(x@ =~= y@);
    true
}

/// Position of the first occurrence of `c` in `s`, if any.
pub fn find_char(s: &Vec<char>, c: char) -> (res: Option<usize>)
    ensures
        match res {
            Some(i) => is_first_index(s@, c, i as int),
            None => !s@.contains(c),
        },
{
    let mut i: usize = 0;
    while i < s.len()
        invariant
            i <= s@.len(),
            forall|k: int| 0 <= k < i ==> s@[k] != c,
        decreases s@.len() - i,
    {
        if s[i] == c {
            return Some(i);
        }
        i = i + 1;
    }
    None
}

/// The pieces of `s` between occurrences of `sep`, each with surrounding
/// whitespace removed, as `s.split(sep).map(str::trim)` gives them.
pub fn split_trimmed(s: &str, sep: char) -> (res: Vec<String>)
    ensures
        res@.len() == split_spec(s@, sep).len(),
        forall|k: int| 0 <= k < res@.len() ==> #[trigger] res@[k]@ == trim_spec(split_spec(s@, sep)[k]),
{
    let chars = chars_of(s);
    let n = chars.len();
    let mut res: Vec<String> = Vec::new();
    let mut start: usize = 0;
    let mut k: usize = 0;
    assert(s@.take(0) =~= Seq::<char>::empty());
    while k < n
        invariant
            start <= k <= n,
            n == chars@.len(),
            chars@ == s@,
            split_spec(s@.take(k as int), sep).len() == res@.len() + 1,
            split_spec(s@.take(k as int), sep).last() == s@.subrange(start as int, k as int),
            forall|m: int| 0 <= m < res@.len() ==> #[trigger] res@[m]@ == trim_spec(split_spec(s@.take(k as int), sep)[m]),
        decreases n - k,
    {
        let ghost before = split_spec(s@.take(k as int), sep);
        assert(s@.take(k + 1).drop_last() =~= s@.take(k as int));
        if chars[k] == sep {
            let piece = trim(s.substring_char(start, k));
            res.push(piece);
            start = k + 1;
        }
        k = k + 1;
        assert(s@.subrange(start as int, k as int) =~= if start == k { Seq::<char>::empty() } else { s@.subrange(start as int, k - 1).push(s@[k - 1]) });
    }
    assert(s@.take(n as int) =~= s@);
    let last = trim(s.substring_char(start, n));
    res.push(last);
    res
}

} // verus!
