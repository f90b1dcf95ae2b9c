//! Character-level text helpers for the rule grammar and the state
//! encoding: conversions between owned strings and character lists,
//! classification, splitting, and decimal numbers.

use vstd::prelude::*;

verus! {

/// Relies on `str::chars` followed by `String::from_iter` (through
/// `collect`): collecting the characters of a string yields a string of
/// exactly those characters, so this is the identity on the character
/// sequence.
#[verifier::external_body]
pub fn str_chars(s: &str) -> (r: Vec<char>)
    ensures
        r@ == s@,
{
    s.chars().collect()
}

/// Relies on `String::from_iter` (through `collect`): a string collected
/// from characters consists of exactly those characters.
#[verifier::external_body]
pub fn chars_to_string(v: &Vec<char>) -> (r: String)
    ensures
        r@ == v@,
{
    v.iter().collect()
}

pub open spec fn is_digit(c: char) -> bool {
    '0' <= c && c <= '9'
}

pub open spec fn is_ident_char(c: char) -> bool {
    ('a' <= c && c <= 'z') || ('A' <= c && c <= 'Z') || is_digit(c) || c == '_'
}

pub open spec fn all_ident(s: Seq<char>) -> bool {
    forall|i: int| 0 <= i < s.len() ==> is_ident_char(#[trigger] s[i])
}

pub open spec fn all_digits(s: Seq<char>) -> bool {
    forall|i: int| 0 <= i < s.len() ==> is_digit(#[trigger] s[i])
}

pub fn digit_char(c: char) -> (r: bool)
    ensures
        r == is_digit(c),
{
    '0' <= c && c <= '9'
}

pub fn ident_char(c: char) -> (r: bool)
    ensures
        r == is_ident_char(c),
{
    ('a' <= c && c <= 'z') || ('A' <= c && c <= 'Z') || digit_char(c) || c == '_'
}

/// Whether every character of `s` is an identifier character and `s` is
/// non-empty.
pub fn check_ident(s: &Vec<char>) -> (r: bool)
    ensures
        r == (s@.len() > 0 && all_ident(s@)),
{
    let n = s.len();
    if n == 0 {
        return false;
    }
    let mut i: usize = 0;
    while i < n
        invariant
            n == s@.len(),
            0 <= i <= n,
            forall|j: int| 0 <= j < i ==> is_ident_char(#[trigger] s@[j]),
        decreases n - i,
    {
        if !ident_char(s[i]) {
            return false;
        }
        i += 1;
    }
    true
}

/// Index of the first occurrence of `c` in `s`, or -1.
pub open spec fn char_index_of(s: Seq<char>, c: char) -> int
    decreases s.len(),
{
    if s.len() <= 0 {
        -1
    } else if s[0] == c {
        0
    } else {
        let r = char_index_of(s.subrange(1, s.len() as int), c);
        if r == -1 {
            -1
        } else {
            1 + r
        }
    }
}

pub proof fn lemma_char_index_of_from_scan(s: Seq<char>, c: char, i: int)
    requires
        0 <= i <= s.len(),
        forall|j: int| 0 <= j < i ==> (#[trigger] s[j]) != c,
    ensures
        i < s.len() && s[i] == c ==> char_index_of(s, c) == i,
        i == s.len() ==> char_index_of(s, c) == -1,
    decreases s.len(),
{
    if s.len() > 0 && s[0] != c {
        let tail = s.subrange(1, s.len() as int);
        assert forall|j: int| 0 <= j < i - 1 implies (#[trigger] tail[j]) != c by {
            assert(tail[j] == s[j + 1]);
        }
        lemma_char_index_of_from_scan(tail, c, if i > 0 {
            i - 1
        } else {
            0
        });
        if i < s.len() && s[i] == c {
            assert(tail[i - 1] == s[i]);
        }
    }
}

/// First occurrence of `c` in `s`, if any.
pub fn find_char(s: &Vec<char>, c: char) -> (r: Option<usize>)
    ensures
        match r {
            Some(i) => char_index_of(s@, c) == i as int && i < s@.len() && s@[i as int] == c,
            None => char_index_of(s@, c) == -1,
        },
{
    let n = s.len();
    let mut i: usize = 0;
    while i < n
        invariant
            n == s@.len(),
            0 <= i <= n,
            forall|j: int| 0 <= j < i ==> (#[trigger] s@[j]) != c,
        decreases n - i,
    {
        if s[i] == c {
            proof {
                lemma_char_index_of_from_scan(s@, c, i as int);
            }
            return Some(i);
        }
        i += 1;
    }
    proof {
        lemma_char_index_of_from_scan(s@, c, n as int);
    }
    None
}

/// The pieces of `s` between occurrences of the separator `c` (so `n`
/// separators give `n + 1` pieces, some possibly empty).
pub open spec fn split_on(s: Seq<char>, c: char) -> Seq<Seq<char>>
    decreases s.len(),
{
    let i = char_index_of(s, c);
    if i < 0 || i >= s.len() {
        seq![s]
    } else {
        seq![s.take(i)] + split_on(s.skip(i + 1), c)
    }
}

/// Splits `s` at every occurrence of `c`.
pub fn split_chars(s: &Vec<char>, c: char) -> (r: Vec<Vec<char>>)
    ensures
        r@.len() == split_on(s@, c).len(),
        forall|i: int| 0 <= i < r@.len() ==> (#[trigger] r@[i])@ == split_on(s@, c)[i],
    decreases s@.len(),
{
    proof {
        lemma_char_index_of(s@, c);
    }
    match find_char(s, c) {
        None => {
            let mut r: Vec<Vec<char>> = Vec::new();
            r.push(copy_chars(s, 0, s.len()));
            proof {
                assert(s@.subrange(0, s@.len() as int) =~= s@);
            }
            r
        },
        Some(i) => {
            let n = s.len();
            let head = copy_chars(s, 0, i);
            let tail = copy_chars(s, i + 1, n);
            let mut rest = split_chars(&tail, c);
            let mut r: Vec<Vec<char>> = Vec::new();
            r.push(head);
            r.append(&mut rest);
            proof {
                assert(s@.take(i as int) =~= s@.subrange(0, i as int));
                assert(s@.skip(i as int + 1) =~= s@.subrange(i as int + 1, s@.len() as int));
            }
            r
        },
    }
}

pub proof fn lemma_char_index_of(s: Seq<char>, c: char)
    ensures
        -1 <= char_index_of(s, c) < s.len(),
    decreases s.len(),
{
    if s.len() > 0 && s[0] != c {
        lemma_char_index_of(s.subrange(1, s.len() as int), c);
    }
}

/// Copies `s[from..to]`.
pub fn copy_chars(s: &Vec<char>, from: usize, to: usize) -> (r: Vec<char>)
    requires
        from <= to <= s@.len(),
    ensures
        r@ == s@.subrange(from as int, to as int),
{
    let mut r: Vec<char> = Vec::new();
    let mut i: usize = from;
    while i < to
        invariant
            from <= i <= to <= s@.len(),
            r@ =~= s@.subrange(from as int, i as int),
        decreases to - i,
    {
        r.push(s[i]);
        proof {
            assert(s@.subrange(from as int, i as int + 1) =~= s@.subrange(
                from as int,
                i as int,
            ).push(s@[i as int]));
        }
        i += 1;
    }
    proof {
        assert(r@ =~= s@.subrange(from as int, to as int));
    }
    r
}

/// The character sequences of a list of character buffers.
pub open spec fn chars_views(v: Seq<Vec<char>>) -> Seq<Seq<char>> {
    Seq::new(v.len(), |i: int| v[i]@)
}

/// The non-empty pieces of `s` between spaces.
pub open spec fn tokens_of(s: Seq<char>) -> Seq<Seq<char>> {
    split_on(s, ' ').filter(|t: Seq<char>| t.len() > 0)
}

/// Splits `s` into its space-separated tokens.
pub fn tokenize(s: &Vec<char>) -> (r: Vec<Vec<char>>)
    ensures
        r@.len() == tokens_of(s@).len(),
        forall|i: int| 0 <= i < r@.len() ==> (#[trigger] r@[i])@ == tokens_of(s@)[i],
{
    let pieces = split_chars(s, ' ');
    let n = pieces.len();
    let mut r: Vec<Vec<char>> = Vec::new();
    let ghost all = split_on(s@, ' ');
    let mut i: usize = 0;
    while i < n
        invariant
            n == all.len(),
            n == pieces@.len(),
            forall|j: int| 0 <= j < n ==> (#[trigger] pieces@[j])@ == all[j],
            0 <= i <= n,
            r@.len() == all.take(i as int).filter(|t: Seq<char>| t.len() > 0).len(),
            forall|j: int|
                0 <= j < r@.len() ==> (#[trigger] r@[j])@ == all.take(i as int).filter(
                    |t: Seq<char>| t.len() > 0,
                )[j],
        decreases n - i,
    {
        proof {
            reveal_with_fuel(Seq::filter, 2);
            assert(all.take(i as int + 1).drop_last() =~= all.take(i as int));
            assert(all.take(i as int + 1).last() == all[i as int]);
        }
        if pieces[i].len() > 0 {
            let piece = copy_chars(&pieces[i], 0, pieces[i].len());
            proof {
                assert(piece@ =~= all[i as int]);
            }
            r.push(piece);
        }
        i += 1;
    }
    proof {
        assert(all.take(n as int) =~= all);
    }
    r
}

/// The value of a decimal digit string, folded left; meaningful only when
/// `all_digits(s)` and `s` is non-empty.
pub open spec fn digits_value(s: Seq<char>) -> int
    decreases s.len(),
{
    if s.len() <= 0 {
        0
    } else {
        digits_value(s.drop_last()) * 10 + (s.last() as int - '0' as int)
    }
}

/// A decimal number literal: non-empty, all digits, value within `u32`.
pub open spec fn spec_parse_u32(s: Seq<char>) -> Option<u32> {
    if s.len() > 0 && all_digits(s) && digits_value(s) <= u32::MAX {
        Some(digits_value(s) as u32)
    } else {
        None
    }
}

pub proof fn lemma_digits_value_nonneg(s: Seq<char>)
    requires
        all_digits(s),
    ensures
        digits_value(s) >= 0,
    decreases s.len(),
{
    if s.len() > 0 {
        assert(all_digits(s.drop_last())) by {
            assert(forall|i: int|
                0 <= i < s.len() - 1 ==> #[trigger] s.drop_last()[i] == s[i]);
        }
        lemma_digits_value_nonneg(s.drop_last());
    }
}

/// Reads a decimal `u32`, rejecting empty or non-digit text and overflow.
pub fn parse_u32(s: &Vec<char>) -> (r: Option<u32>)
    ensures
        r == spec_parse_u32(s@),
{
    let n = s.len();
    if n == 0 {
        return None;
    }
    let mut acc: u32 = 0;
    let mut i: usize = 0;
    while i < n
        invariant
            n == s@.len(),
            0 <= i <= n,
            all_digits(s@.take(i as int)),
            acc as int == digits_value(s@.take(i as int)),
        decreases n - i,
    {
        let c = s[i];
        if !digit_char(c) {
            proof {
                assert(!all_digits(s@));
            }
            return None;
        }
        let d: u32 = (c as u32) - ('0' as u32);
        proof {
            lemma_digits_value_nonneg(s@.take(i as int));
            assert(s@.take(i as int + 1).drop_last() =~= s@.take(i as int));
            assert(s@.take(i as int + 1).last() == s@[i as int]);
        }
        if acc > (u32::MAX - d) / 10 {
            proof {
                let q = ((u32::MAX - d) as int) / 10;
                assert((u32::MAX - d) as int == q * 10 + ((u32::MAX - d) as int) % 10);
                assert(acc as int * 10 + d as int > u32::MAX);
                lemma_digits_prefix_overflow(s@, i as int);
            }
            return None;
        }
        proof {
            let q = ((u32::MAX - d) as int) / 10;
            assert((u32::MAX - d) as int == q * 10 + ((u32::MAX - d) as int) % 10);
            assert(acc as int * 10 + d as int <= u32::MAX);
        }
        acc = acc * 10 + d;
        i += 1;
    }
    proof {
        assert(s@.take(n as int) =~= s@);
    }
    Some(acc)
}

/// Once a digit prefix pushes past `u32::MAX`, the whole literal does.
pub proof fn lemma_digits_prefix_overflow(s: Seq<char>, i: int)
    requires
        0 <= i < s.len(),
        digits_value(s.take(i)) * 10 + (s[i] as int - '0' as int) > u32::MAX,
    ensures
        all_digits(s) ==> digits_value(s) > u32::MAX,
    decreases s.len() - i,
{
    if all_digits(s) {
        assert(s.take(i + 1).drop_last() =~= s.take(i));
        assert(s.take(i + 1).last() == s[i]);
        assert(digits_value(s.take(i + 1)) > u32::MAX);
        lemma_digits_prefix_grows(s, i + 1);
    }
}

/// A digit literal is at least as large as any of its prefixes.
pub proof fn lemma_digits_prefix_grows(s: Seq<char>, i: int)
    requires
        0 <= i <= s.len(),
        all_digits(s),
        digits_value(s.take(i)) > u32::MAX,
    ensures
        digits_value(s) > u32::MAX,
    decreases s.len() - i,
{
    if i < s.len() {
        assert(s.take(i + 1).drop_last() =~= s.take(i));
        assert(s.take(i + 1).last() == s[i]);
        lemma_digits_value_nonneg(s.take(i));
        lemma_digits_prefix_grows(s, i + 1);
    } else {
        assert(s.take(i) =~= s);
    }
}

} // verus!
