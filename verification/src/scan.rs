//! Cutting text into lines and words, and reading numbers from it.

use vstd::prelude::*;
use vstd::string::StrSliceExecFns;

verus! {

/// The pieces of `s` between occurrences of `sep`. There is always at least
/// one piece, and two neighbouring separators have an empty piece between
/// them.
pub open spec fn split_on(s: Seq<char>, sep: char) -> Seq<Seq<char>>
    decreases s.len(),
{
    if s.len() == 0 {
        seq![Seq::empty()]
    } else {
        let p = split_on(s.drop_last(), sep);
        if s.last() == sep {
            p.push(Seq::empty())
        } else {
            p.drop_last().push(p.last().push(s.last()))
        }
    }
}

/// The pieces put together again with `sep` between them.
pub open spec fn join_with(pieces: Seq<Seq<char>>, sep: char) -> Seq<char>
    decreases pieces.len(),
{
    if pieces.len() == 0 {
        Seq::empty()
    } else if pieces.len() == 1 {
        pieces[0]
    } else {
        join_with(pieces.drop_last(), sep).push(sep) + pieces.last()
    }
}

/// Splitting loses nothing and leaves no separator behind: no piece holds
/// the separator, and the pieces joined by it are the text again.
pub proof fn lemma_split_join(s: Seq<char>, sep: char)
    ensures
        split_on(s, sep).len() >= 1,
        forall|i: int, j: int|
            0 <= i < split_on(s, sep).len() && 0 <= j < split_on(s, sep)[i].len() ==> #[trigger] split_on(
                s,
                sep,
            )[i][j] != sep,
        join_with(split_on(s, sep), sep) == s,
    decreases s.len(),
{
    if s.len() > 0 {
        let head = s.drop_last();
        let p = split_on(head, sep);
        lemma_split_join(head, sep);
        let q = split_on(s, sep);
        if s.last() == sep {
            assert(q.drop_last() =~= p);
            assert(join_with(q, sep) =~= head.push(sep));
            assert(head.push(sep) =~= s);
            assert forall|i: int, j: int| 0 <= i < q.len() && 0 <= j < q[i].len() implies #[trigger] q[i][j]
                != sep by {
                if i < p.len() {
                    assert(q[i] == p[i]);
                    assert(p[i][j] != sep);
                }
            }
        } else {
            let last = p.last().push(s.last());
            assert(q.last() == last);
            assert forall|i: int, j: int| 0 <= i < q.len() && 0 <= j < q[i].len() implies #[trigger] q[i][j]
                != sep by {
                if i < p.len() - 1 {
                    assert(q[i] == p[i]);
                    assert(p[i][j] != sep);
                } else if j < p.last().len() {
                    assert(p[p.len() - 1][j] != sep);
                }
            }
            if p.len() == 1 {
                assert(join_with(q, sep) =~= s);
            } else {
                assert(q.drop_last() =~= p.drop_last());
                assert(join_with(p, sep) == join_with(p.drop_last(), sep).push(sep) + p.last());
                assert(join_with(q, sep) =~= (join_with(p.drop_last(), sep).push(sep) + p.last()).push(
                    s.last(),
                ));
                assert(head.push(s.last()) =~= s);
            }
        }
    }
}

/// White space as the Unicode standard lists it.
pub open spec fn spec_is_space(c: char) -> bool {
    let u = c as u32;
    (0x09 <= u <= 0x0D) || u == 0x20 || u == 0x85 || u == 0xA0 || u == 0x1680 || (0x2000 <= u
        <= 0x200A) || u == 0x2028 || u == 0x2029 || u == 0x202F || u == 0x205F || u == 0x3000
}

pub fn is_space(c: char) -> (b: bool)
    ensures
        b == spec_is_space(c),
{
    let u: u32 = c as u32;
    (0x09 <= u && u <= 0x0D) || u == 0x20 || u == 0x85 || u == 0xA0 || u == 0x1680 || (0x2000 <= u
        && u <= 0x200A) || u == 0x2028 || u == 0x2029 || u == 0x202F || u == 0x205F || u == 0x3000
}

/// The characters of a string, for access by position.
pub fn chars_of(s: &str) -> (v: Vec<char>)
    ensures
        v@ == s@,
{
    let mut v: Vec<char> = Vec::new();
    for c in it: s.chars()
        invariant
            it.seq() == s@,
            v@ == s@.take(it.index()),
    {
        v.push(c);
        assert(v@ =~= s@.take(it.index() + 1));
    }
    assert(v@ =~= s@);
    v
}

/// Cuts a string at every occurrence of `sep`.
pub fn split(s: &str, sep: char) -> (v: Vec<&str>)
    ensures
        v@.len() == split_on(s@, sep).len(),
        forall|i: int| 0 <= i < v@.len() ==> (#[trigger] v@[i])@ == split_on(s@, sep)[i],
{
    let mut cuts: Vec<(usize, usize)> = Vec::new();
    let mut from: usize = 0;
    let mut at: usize = 0;
    let n: usize = s.unicode_len();
    proof {
        assert(s@.take(0) =~= Seq::<char>::empty());
    }
    for c in it: s.chars()
        invariant
            it.seq() == s@,
            at == it.index(),
            n == s@.len(),
            from <= at <= n,
            cuts@.len() + 1 == split_on(s@.take(at as int), sep).len(),
            forall|i: int|
                0 <= i < cuts@.len() ==> (#[trigger] cuts@[i]).0 <= cuts@[i].1 <= at && s@.subrange(
                    cuts@[i].0 as int,
                    cuts@[i].1 as int,
                ) == split_on(s@.take(at as int), sep)[i],
            s@.subrange(from as int, at as int) == split_on(s@.take(at as int), sep).last(),
    {
        proof {
            let prev = s@.take(at as int);
            let cur = s@.take(at as int + 1);
            assert(cur.drop_last() =~= prev);
            assert(cur.last() == c);
            let p = split_on(prev, sep);
            if c == sep {
                assert(split_on(cur, sep) == p.push(Seq::empty()));
                assert(s@.subrange(at as int + 1, at as int + 1) =~= Seq::<char>::empty());
            } else {
                assert(split_on(cur, sep) == p.drop_last().push(p.last().push(c)));
                assert(s@.subrange(from as int, at as int + 1) =~= s@.subrange(
                    from as int,
                    at as int,
                ).push(c));
            }
        }
        if c == sep {
            cuts.push((from, at));
            from = at + 1;
        }
        at = at + 1;
    }
    cuts.push((from, at));
    assert(s@.take(at as int) =~= s@);
    let mut v: Vec<&str> = Vec::new();
    let mut i: usize = 0;
    while i < cuts.len()
        invariant
            i <= cuts@.len(),
            v@.len() == i,
            cuts@.len() == split_on(s@, sep).len(),
            forall|k: int|
                0 <= k < cuts@.len() ==> (#[trigger] cuts@[k]).0 <= cuts@[k].1 <= s@.len() && s@.subrange(
                    cuts@[k].0 as int,
                    cuts@[k].1 as int,
                ) == split_on(s@, sep)[k],
            forall|k: int| 0 <= k < i ==> (#[trigger] v@[k])@ == split_on(s@, sep)[k],
        decreases cuts@.len() - i,
    {
        let cut: (usize, usize) = cuts[i];
        v.push(s.substring_char(cut.0, cut.1));
        i = i + 1;
    }
    v
}

/// The value of a decimal digit character.
pub open spec fn spec_digit(c: char) -> Option<usize> {
    if c == '0' {
        Some(0usize)
    } else if c == '1' {
        Some(1usize)
    } else if c == '2' {
        Some(2usize)
    } else if c == '3' {
        Some(3usize)
    } else if c == '4' {
        Some(4usize)
    } else if c == '5' {
        Some(5usize)
    } else if c == '6' {
        Some(6usize)
    } else if c == '7' {
        Some(7usize)
    } else if c == '8' {
        Some(8usize)
    } else if c == '9' {
        Some(9usize)
    } else {
        None
    }
}

/// Reads a decimal digit.
pub fn digit_of(c: char) -> (r: Option<usize>)
    ensures
        r == spec_digit(c),
{
    match c {
        '0' => Some(0),
        '1' => Some(1),
        '2' => Some(2),
        '3' => Some(3),
        '4' => Some(4),
        '5' => Some(5),
        '6' => Some(6),
        '7' => Some(7),
        '8' => Some(8),
        '9' => Some(9),
        _ => None,
    }
}

/// Every character is a decimal digit.
pub open spec fn all_digits(s: Seq<char>) -> bool {
    forall|i: int| 0 <= i < s.len() ==> spec_digit(#[trigger] s[i]) is Some
}

/// The number that a run of decimal digits writes.
pub open spec fn value_of(s: Seq<char>) -> nat
    decreases s.len(),
{
    if s.len() == 0 {
        0
    } else {
        value_of(s.drop_last()) * 10 + match spec_digit(s.last()) {
            Some(d) => d as nat,
            None => 0,
        }
    }
}

/// A numeral without the plus sign that may lead it.
pub open spec fn unsigned_part(w: Seq<char>) -> Seq<char> {
    if w.len() > 0 && w[0] == '+' {
        w.skip(1)
    } else {
        w
    }
}

/// The number that a word writes: an optional plus sign, then at least one
/// decimal digit and nothing else, and a value that the machine can hold.
pub open spec fn spec_parse_usize(w: Seq<char>) -> Option<usize> {
    let b = unsigned_part(w);
    if b.len() > 0 && all_digits(b) && value_of(b) <= usize::MAX {
        Some(value_of(b) as usize)
    } else {
        None
    }
}

/// More digits never write a smaller number.
pub proof fn lemma_value_grows(s: Seq<char>, k: int)
    requires
        0 <= k <= s.len(),
    ensures
        value_of(s.take(k)) <= value_of(s),
    decreases s.len() - k,
{
    if k < s.len() {
        lemma_value_grows(s, k + 1);
        assert(s.take(k + 1).drop_last() =~= s.take(k));
    } else {
        assert(s.take(k) =~= s);
    }
}

/// A number written in decimal is read back as the same number.
pub proof fn lemma_parse_decimal(n: usize)
    ensures
        spec_parse_usize(crate::text::spec_decimal(n as nat)) == Some(n),
{
    lemma_decimal_digits(n as nat);
}

/// The decimal numeral of a number is made of digits, does not start with a
/// plus sign, and writes that number.
proof fn lemma_decimal_digits(n: nat)
    ensures
        crate::text::spec_decimal(n).len() > 0,
        all_digits(crate::text::spec_decimal(n)),
        value_of(crate::text::spec_decimal(n)) == n,
        crate::text::spec_decimal(n)[0] != '+',
    decreases n,
{
    let s = crate::text::spec_decimal(n);
    if n < 10 {
        assert(s =~= seq![crate::text::digit_char(n)]);
        assert(s.drop_last() =~= Seq::<char>::empty());
        assert(value_of(s.drop_last()) == 0);
    } else {
        let head = crate::text::spec_decimal(n / 10);
        lemma_decimal_digits(n / 10);
        assert(s == head.push(crate::text::digit_char(n % 10)));
        assert(s.drop_last() =~= head);
        assert forall|i: int| 0 <= i < s.len() implies spec_digit(#[trigger] s[i]) is Some by {
            if i < head.len() {
                assert(s[i] == head[i]);
            }
        }
        assert(s[0] == head[0]);
    }
}

/// Reads a number from a word.
pub fn parse_usize(w: &Vec<char>) -> (r: Option<usize>)
    ensures
        r == spec_parse_usize(w@),
{
    let n: usize = w.len();
    let from: usize = if n > 0 && w[0] == '+' {
        1
    } else {
        0
    };
    let ghost b = unsigned_part(w@);
    assert(b =~= w@.skip(from as int));
    if from == n {
        return None;
    }
    let mut acc: usize = 0;
    let mut i: usize = from;
    assert(b.take(0) =~= Seq::<char>::empty());
    while i < n
        invariant
            from <= i <= n,
            n == w@.len(),
            b == w@.skip(from as int),
            b == unsigned_part(w@),
            b.len() == n - from,
            all_digits(b.take(i - from)),
            acc == value_of(b.take(i - from)),
        decreases n - i,
    {
        let ghost j = i - from;
        proof {
            assert(b.take(j + 1).drop_last() =~= b.take(j));
            assert(b.take(j + 1).last() == w@[i as int]);
            lemma_value_grows(b, j + 1);
            assert(value_of(b.take(j + 1)) == value_of(b.take(j)) * 10 + match spec_digit(w@[i as int]) {
                Some(d) => d as nat,
                None => 0,
            });
        }
        let d: usize = match digit_of(w[i]) {
            Some(d) => d,
            None => {
                assert(spec_digit(b[j]) is None);
                return None;
            },
        };
        let next: Option<usize> = match acc.checked_mul(10) {
            Some(m) => m.checked_add(d),
            None => None,
        };
        acc = match next {
            Some(a) => a,
            None => {
                return None;
            },
        };
        proof {
            assert forall|t: int| 0 <= t < j + 1 implies spec_digit(#[trigger] b.take(j + 1)[t]) is Some by {
                if t < j {
                    assert(b.take(j)[t] == b.take(j + 1)[t]);
                }
            }
        }
        i = i + 1;
    }
    assert(b.take(n - from) =~= b);
    Some(acc)
}

/// How many white-space characters lead a line.
pub open spec fn leading_spaces(s: Seq<char>) -> nat
    decreases s.len(),
{
    if s.len() == 0 || !spec_is_space(s[0]) {
        0
    } else {
        1 + leading_spaces(s.skip(1))
    }
}

/// A line that says nothing: white space only, or a comment, which starts
/// with two slashes after any white space.
pub open spec fn spec_is_idle(s: Seq<char>) -> bool {
    let j = leading_spaces(s) as int;
    j == s.len() || (j + 1 < s.len() && s[j] == '/' && s[j + 1] == '/')
}

/// Counting leading white space from position `i` on.
proof fn lemma_leading_from(s: Seq<char>, i: int)
    requires
        0 <= i <= s.len(),
        forall|k: int| 0 <= k < i ==> spec_is_space(#[trigger] s[k]),
    ensures
        leading_spaces(s) == i + leading_spaces(s.skip(i)),
    decreases i,
{
    if i > 0 {
        lemma_leading_from(s, i - 1);
        assert(s.skip(i - 1).skip(1) =~= s.skip(i));
    } else {
        assert(s.skip(0) =~= s);
    }
}

/// Whether a line says nothing.
pub fn is_idle(s: &Vec<char>) -> (b: bool)
    ensures
        b == spec_is_idle(s@),
{
    let n: usize = s.len();
    let mut i: usize = 0;
    while i < n && is_space(s[i])
        invariant
            i <= n,
            n == s@.len(),
            forall|k: int| 0 <= k < i ==> spec_is_space(#[trigger] s@[k]),
        decreases n - i,
    {
        i = i + 1;
    }
    proof {
        lemma_leading_from(s@, i as int);
    }
    i == n || (i + 1 < n && s[i] == '/' && s[i + 1] == '/')
}

/// Whether two strings hold the same characters.
pub fn same_text(a: &str, b: &str) -> (r: bool)
    ensures
        r == (a@ == b@),
{
    let x = chars_of(a);
    let y = chars_of(b);
    if x.len() != y.len() {
        return false;
    }
    let mut i: usize = 0;
    while i < x.len()
        invariant
            i <= x@.len(),
            x@ == a@,
            y@ == b@,
            x@.len() == y@.len(),
            forall|k: int| 0 <= k < i ==> x@[k] == y@[k],
        decreases x@.len() - i,
    {
        if x[i] != y[i] {
            return false;
        }
        i = i + 1;
    }
    assert(x@ =~= y@);
    true
}

} // verus!
