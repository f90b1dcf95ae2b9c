//! The textual rule grammar: one line per rule, three self-contained
//! grammars (simple rule, compound rule, rule result).
//!
//! Every parse is total: any line either yields a named rule or one of the
//! typed errors, so a host reading a batch can drop a bad line with a
//! diagnostic and carry on.

use vstd::prelude::*;

use crate::compound_rule::{
    CompoundRule, CompoundRuleModel, CompoundRuleSeq, CompoundSeqModel, NamedCompoundRule,
};
use crate::named_map::{nm_insert, NamedMap};
use crate::rule_result::{
    NamedRuleResult, RuleResult, RuleResultKind, RuleResultSeq, RuleResultValue,
    RuleResultValueModel,
};
use crate::scalar::{Date, PartScalar, Time};
use crate::simple_rule::{
    exact_of, NamedSimpleRule, PartModel, SimpleRule, SimpleRuleBorder, SimpleRuleModel,
    SimpleRulePart, SimpleRulePartValue, SimpleRuleSeq, WrappedPartModel, WrappedSimpleRulePart,
};
use crate::text::{
    all_ident, char_index_of, chars_to_string, chars_views, check_ident, copy_chars, find_char,
    split_chars, split_on, spec_parse_u32, str_chars, tokenize, tokens_of,
};

verus! {

#[derive(Clone, Copy, Debug, PartialEq, Eq, Structural)]
pub enum SimpleRuleParseError {
    NoMatch,
    UnsupportedSeq,
    IncorrectContent,
}

#[derive(Clone, Copy, Debug, PartialEq, Eq, Structural)]
pub enum CompoundRuleParseError {
    NoMatch,
    UnsupportedSeq,
    IncorrectContent,
}

#[derive(Clone, Copy, Debug, PartialEq, Eq, Structural)]
pub enum RuleResultParseError {
    NoMatch,
    UnsupportedSeq,
    UnsupportedKind,
    IncorrectContent,
}

// ---------------------------------------------------------------------------
// Shared token helpers
// ---------------------------------------------------------------------------

/// Index of the first adjacent pair `a b` in `s`, or -1.
pub open spec fn find2(s: Seq<char>, a: char, b: char) -> int
    decreases s.len(),
{
    if s.len() < 2 {
        -1
    } else if s[0] == a && s[1] == b {
        0
    } else {
        let r = find2(s.subrange(1, s.len() as int), a, b);
        if r == -1 {
            -1
        } else {
            1 + r
        }
    }
}

pub proof fn lemma_find2_from_scan(s: Seq<char>, a: char, b: char, i: int)
    requires
        0 <= i,
        i <= s.len(),
        forall|j: int| 0 <= j < i && j + 1 < s.len() ==> !((#[trigger] s[j]) == a && s[j + 1] == b),
    ensures
        i + 1 < s.len() && s[i] == a && s[i + 1] == b ==> find2(s, a, b) == i,
        i + 1 >= s.len() ==> find2(s, a, b) == -1,
        find2(s, a, b) >= 0 ==> find2(s, a, b) + 1 < s.len() && s[find2(s, a, b)] == a && s[find2(
            s,
            a,
            b,
        ) + 1] == b,
    decreases s.len(),
{
    if s.len() >= 2 && !(s[0] == a && s[1] == b) {
        let tail = s.subrange(1, s.len() as int);
        assert forall|j: int|
            0 <= j < i - 1 && j + 1 < tail.len() implies !((#[trigger] tail[j]) == a && tail[j + 1]
            == b) by {
            assert(tail[j] == s[j + 1]);
            assert(tail[j + 1] == s[j + 2]);
        }
        lemma_find2_from_scan(tail, a, b, if i > 0 {
            i - 1
        } else {
            0
        });
        if i + 1 < s.len() && s[i] == a && s[i + 1] == b {
            assert(tail[i - 1] == s[i]);
            assert(tail[i] == s[i + 1]);
        }
    }
}

/// First adjacent pair `a b` in `s`, if any.
pub fn find2_chars(s: &Vec<char>, a: char, b: char) -> (r: Option<usize>)
    ensures
        match r {
            Some(i) => find2(s@, a, b) == i as int && i + 1 < s@.len(),
            None => find2(s@, a, b) == -1,
        },
{
    let n = s.len();
    if n < 2 {
        proof {
            lemma_find2_from_scan(s@, a, b, 0);
        }
        return None;
    }
    let mut i: usize = 0;
    while i < n - 1
        invariant
            n == s@.len(),
            n >= 2,
            0 <= i <= n - 1,
            forall|j: int|
                0 <= j < i && j + 1 < n ==> !((#[trigger] s@[j]) == a && s@[j + 1] == b),
        decreases n - i,
    {
        if s[i] == a && s[i + 1] == b {
            proof {
                lemma_find2_from_scan(s@, a, b, i as int);
            }
            return Some(i);
        }
        i += 1;
    }
    proof {
        lemma_find2_from_scan(s@, a, b, n as int - 1);
    }
    None
}

/// The text after the first `a b` pair, cut at the next `a b` pair; the
/// shape of taking the second element of a split on the two-character
/// separator.
pub open spec fn seg_after2(s: Seq<char>, i: int, a: char, b: char) -> Seq<char> {
    let rest = s.skip(i + 2);
    let j = find2(rest, a, b);
    if j >= 0 {
        rest.take(j)
    } else {
        rest
    }
}

/// The text after the first `c`, cut at the next `c`.
pub open spec fn seg_after1(s: Seq<char>, i: int, c: char) -> Seq<char> {
    let rest = s.skip(i + 1);
    let j = char_index_of(rest, c);
    if j >= 0 {
        rest.take(j)
    } else {
        rest
    }
}

fn seg_after2_chars(s: &Vec<char>, i: usize, a: char, b: char) -> (r: Vec<char>)
    requires
        i + 2 <= s@.len(),
    ensures
        r@ == seg_after2(s@, i as int, a, b),
{
    let n = s.len();
    let rest = copy_chars(s, i + 2, n);
    proof {
        assert(rest@ =~= s@.skip(i as int + 2));
    }
    match find2_chars(&rest, a, b) {
        Some(j) => {
            let r = copy_chars(&rest, 0, j);
            proof {
                assert(r@ =~= rest@.take(j as int));
            }
            r
        },
        None => rest,
    }
}

fn seg_after1_chars(s: &Vec<char>, i: usize, c: char) -> (r: Vec<char>)
    requires
        i + 1 <= s@.len(),
    ensures
        r@ == seg_after1(s@, i as int, c),
{
    let n = s.len();
    let rest = copy_chars(s, i + 1, n);
    proof {
        assert(rest@ =~= s@.skip(i as int + 1));
        crate::text::lemma_char_index_of(rest@, c);
    }
    match find_char(&rest, c) {
        Some(j) => {
            let r = copy_chars(&rest, 0, j);
            proof {
                assert(r@ =~= rest@.take(j as int));
            }
            r
        },
        None => rest,
    }
}

/// Whether the token is exactly the given word.
fn tok_is(tok: &Vec<char>, w: &str) -> (r: bool)
    ensures
        r == (tok@ == w@),
{
    let s = chars_to_string(tok);
    let ws: String = w.to_owned();
    s == ws
}

/// The characters of the grammar's reserved words.
pub proof fn lemma_grammar_words()
    ensures
        "any"@ == seq!['a', 'n', 'y'],
        "all"@ == seq!['a', 'l', 'l'],
        "seq"@ == seq!['s', 'e', 'q'],
        "streak"@ == seq!['s', 't', 'r', 'e', 'a', 'k'],
        "every"@ == seq!['e', 'v', 'e', 'r', 'y'],
        "repeat"@ == seq!['r', 'e', 'p', 'e', 'a', 't'],
        "player"@ == seq!['p', 'l', 'a', 'y', 'e', 'r'],
        "did"@ == seq!['d', 'i', 'd'],
        "with"@ == seq!['w', 'i', 't', 'h'],
        "in"@ == seq!['i', 'n'],
        "of"@ == seq!['o', 'f'],
        "on"@ == seq!['o', 'n'],
        "at"@ == seq!['a', 't'],
        "achieving"@ == seq!['a', 'c', 'h', 'i', 'e', 'v', 'i', 'n', 'g'],
        "DAY"@ == seq!['D', 'A', 'Y'],
        "MONDAY"@ == seq!['M', 'O', 'N', 'D', 'A', 'Y'],
        "TUESDAY"@ == seq!['T', 'U', 'E', 'S', 'D', 'A', 'Y'],
        "WEDNESDAY"@ == seq!['W', 'E', 'D', 'N', 'E', 'S', 'D', 'A', 'Y'],
        "THURSDAY"@ == seq!['T', 'H', 'U', 'R', 'S', 'D', 'A', 'Y'],
        "FRIDAY"@ == seq!['F', 'R', 'I', 'D', 'A', 'Y'],
        "SATURDAY"@ == seq!['S', 'A', 'T', 'U', 'R', 'D', 'A', 'Y'],
        "SUNDAY"@ == seq!['S', 'U', 'N', 'D', 'A', 'Y'],
        "msg"@ == seq!['m', 's', 'g'],
        "reward"@ == seq!['r', 'e', 'w', 'a', 'r', 'd'],
        "offer"@ == seq!['o', 'f', 'f', 'e', 'r'],
        "open"@ == seq!['o', 'p', 'e', 'n'],
        "restart"@ == seq!['r', 'e', 's', 't', 'a', 'r', 't'],
        "random"@ == seq!['r', 'a', 'n', 'd', 'o', 'm'],
        "random_once"@ == seq!['r', 'a', 'n', 'd', 'o', 'm', '_', 'o', 'n', 'c', 'e'],
        "choice"@ == seq!['c', 'h', 'o', 'i', 'c', 'e'],
        "+"@ == seq!['+'],
{
    reveal_strlit("any");
    reveal_strlit("all");
    reveal_strlit("seq");
    reveal_strlit("streak");
    reveal_strlit("every");
    reveal_strlit("repeat");
    reveal_strlit("player");
    reveal_strlit("did");
    reveal_strlit("with");
    reveal_strlit("in");
    reveal_strlit("of");
    reveal_strlit("on");
    reveal_strlit("at");
    reveal_strlit("achieving");
    reveal_strlit("DAY");
    reveal_strlit("MONDAY");
    reveal_strlit("TUESDAY");
    reveal_strlit("WEDNESDAY");
    reveal_strlit("THURSDAY");
    reveal_strlit("FRIDAY");
    reveal_strlit("SATURDAY");
    reveal_strlit("SUNDAY");
    reveal_strlit("msg");
    reveal_strlit("reward");
    reveal_strlit("offer");
    reveal_strlit("open");
    reveal_strlit("restart");
    reveal_strlit("random");
    reveal_strlit("random_once");
    reveal_strlit("choice");
    reveal_strlit("+");
    assert("any"@ =~= seq!['a', 'n', 'y']);
    assert("all"@ =~= seq!['a', 'l', 'l']);
    assert("seq"@ =~= seq!['s', 'e', 'q']);
    assert("streak"@ =~= seq!['s', 't', 'r', 'e', 'a', 'k']);
    assert("every"@ =~= seq!['e', 'v', 'e', 'r', 'y']);
    assert("repeat"@ =~= seq!['r', 'e', 'p', 'e', 'a', 't']);
    assert("player"@ =~= seq!['p', 'l', 'a', 'y', 'e', 'r']);
    assert("did"@ =~= seq!['d', 'i', 'd']);
    assert("with"@ =~= seq!['w', 'i', 't', 'h']);
    assert("in"@ =~= seq!['i', 'n']);
    assert("of"@ =~= seq!['o', 'f']);
    assert("on"@ =~= seq!['o', 'n']);
    assert("at"@ =~= seq!['a', 't']);
    assert("achieving"@ =~= seq!['a', 'c', 'h', 'i', 'e', 'v', 'i', 'n', 'g']);
    assert("DAY"@ =~= seq!['D', 'A', 'Y']);
    assert("MONDAY"@ =~= seq!['M', 'O', 'N', 'D', 'A', 'Y']);
    assert("TUESDAY"@ =~= seq!['T', 'U', 'E', 'S', 'D', 'A', 'Y']);
    assert("WEDNESDAY"@ =~= seq!['W', 'E', 'D', 'N', 'E', 'S', 'D', 'A', 'Y']);
    assert("THURSDAY"@ =~= seq!['T', 'H', 'U', 'R', 'S', 'D', 'A', 'Y']);
    assert("FRIDAY"@ =~= seq!['F', 'R', 'I', 'D', 'A', 'Y']);
    assert("SATURDAY"@ =~= seq!['S', 'A', 'T', 'U', 'R', 'D', 'A', 'Y']);
    assert("SUNDAY"@ =~= seq!['S', 'U', 'N', 'D', 'A', 'Y']);
    assert("msg"@ =~= seq!['m', 's', 'g']);
    assert("reward"@ =~= seq!['r', 'e', 'w', 'a', 'r', 'd']);
    assert("offer"@ =~= seq!['o', 'f', 'f', 'e', 'r']);
    assert("open"@ =~= seq!['o', 'p', 'e', 'n']);
    assert("restart"@ =~= seq!['r', 'e', 's', 't', 'a', 'r', 't']);
    assert("random"@ =~= seq!['r', 'a', 'n', 'd', 'o', 'm']);
    assert("random_once"@ =~= seq!['r', 'a', 'n', 'd', 'o', 'm', '_', 'o', 'n', 'c', 'e']);
    assert("choice"@ =~= seq!['c', 'h', 'o', 'i', 'c', 'e']);
    assert("+"@ =~= seq!['+']);
}

// ---------------------------------------------------------------------------
// Residual value constraints
// ---------------------------------------------------------------------------

/// One residual value constraint: a range `x..y`, a bound `>=x`, `<=x`,
/// `>x` or `<x`, or a bare literal.
pub open spec fn spec_parse_value<T: PartScalar>(tok: Seq<char>) -> Option<SimpleRulePartValue<T>> {
    let dd = find2(tok, '.', '.');
    let ge = find2(tok, '>', '=');
    let le = find2(tok, '<', '=');
    let gt = char_index_of(tok, '>');
    let lt = char_index_of(tok, '<');
    if dd >= 0 {
        let left = tok.take(dd);
        match (T::spec_parse(left), T::spec_parse(seg_after2(tok, dd, '.', '.'))) {
            (Some(l), Some(r)) => Some(
                SimpleRulePartValue {
                    border: SimpleRuleBorder::Between,
                    left_val: l,
                    right_val: Some(r),
                },
            ),
            _ => None,
        }
    } else if ge >= 0 {
        match T::spec_parse(seg_after2(tok, ge, '>', '=')) {
            Some(l) => Some(
                SimpleRulePartValue {
                    border: SimpleRuleBorder::GreaterEq,
                    left_val: l,
                    right_val: None,
                },
            ),
            None => None,
        }
    } else if le >= 0 {
        match T::spec_parse(seg_after2(tok, le, '<', '=')) {
            Some(l) => Some(
                SimpleRulePartValue { border: SimpleRuleBorder::LessEq, left_val: l, right_val: None },
            ),
            None => None,
        }
    } else if gt >= 0 {
        match T::spec_parse(seg_after1(tok, gt, '>')) {
            Some(l) => Some(
                SimpleRulePartValue {
                    border: SimpleRuleBorder::Greater,
                    left_val: l,
                    right_val: None,
                },
            ),
            None => None,
        }
    } else if lt >= 0 {
        match T::spec_parse(seg_after1(tok, lt, '<')) {
            Some(l) => Some(
                SimpleRulePartValue { border: SimpleRuleBorder::Less, left_val: l, right_val: None },
            ),
            None => None,
        }
    } else {
        match T::spec_parse(tok) {
            Some(l) => Some(
                SimpleRulePartValue { border: SimpleRuleBorder::Exact, left_val: l, right_val: None },
            ),
            None => None,
        }
    }
}

fn parse_value<T: PartScalar>(tok: &Vec<char>) -> (r: Option<SimpleRulePartValue<T>>)
    ensures
        r == spec_parse_value::<T>(tok@),
{
    if let Some(dd) = find2_chars(tok, '.', '.') {
        let left = copy_chars(tok, 0, dd);
        proof {
            assert(left@ =~= tok@.take(dd as int));
        }
        let right = seg_after2_chars(tok, dd, '.', '.');
        match (T::parse_scalar(&left), T::parse_scalar(&right)) {
            (Some(l), Some(r)) => Some(
                SimpleRulePartValue {
                    border: SimpleRuleBorder::Between,
                    left_val: l,
                    right_val: Some(r),
                },
            ),
            _ => None,
        }
    } else if let Some(ge) = find2_chars(tok, '>', '=') {
        match T::parse_scalar(&seg_after2_chars(tok, ge, '>', '=')) {
            Some(l) => Some(
                SimpleRulePartValue {
                    border: SimpleRuleBorder::GreaterEq,
                    left_val: l,
                    right_val: None,
                },
            ),
            None => None,
        }
    } else if let Some(le) = find2_chars(tok, '<', '=') {
        match T::parse_scalar(&seg_after2_chars(tok, le, '<', '=')) {
            Some(l) => Some(
                SimpleRulePartValue { border: SimpleRuleBorder::LessEq, left_val: l, right_val: None },
            ),
            None => None,
        }
    } else if let Some(gt) = find_char(tok, '>') {
        match T::parse_scalar(&seg_after1_chars(tok, gt, '>')) {
            Some(l) => Some(
                SimpleRulePartValue {
                    border: SimpleRuleBorder::Greater,
                    left_val: l,
                    right_val: None,
                },
            ),
            None => None,
        }
    } else if let Some(lt) = find_char(tok, '<') {
        match T::parse_scalar(&seg_after1_chars(tok, lt, '<')) {
            Some(l) => Some(
                SimpleRulePartValue { border: SimpleRuleBorder::Less, left_val: l, right_val: None },
            ),
            None => None,
        }
    } else {
        match T::parse_scalar(tok) {
            Some(l) => Some(
                SimpleRulePartValue { border: SimpleRuleBorder::Exact, left_val: l, right_val: None },
            ),
            None => None,
        }
    }
}

/// The residual constraints of a comma-separated list, from item `j` on;
/// items containing `*` are unconstrained and contribute nothing.
pub open spec fn spec_parse_values<T: PartScalar>(items: Seq<Seq<char>>, j: int) -> Result<
    Seq<SimpleRulePartValue<T>>,
    SimpleRuleParseError,
>
    decreases items.len() - j,
{
    if j < 0 || j >= items.len() {
        Ok(Seq::empty())
    } else if char_index_of(items[j], '*') >= 0 {
        spec_parse_values::<T>(items, j + 1)
    } else {
        match spec_parse_value::<T>(items[j]) {
            None => Err(SimpleRuleParseError::IncorrectContent),
            Some(v) => match spec_parse_values::<T>(items, j + 1) {
                Ok(rest) => Ok(seq![v] + rest),
                Err(e) => Err(e),
            },
        }
    }
}

fn parse_values<T: PartScalar>(items: &Vec<Vec<char>>) -> (r: Result<
    Vec<SimpleRulePartValue<T>>,
    SimpleRuleParseError,
>)
    ensures
        ({
            let iv = chars_views(items@);
            match r {
                Ok(vals) => spec_parse_values::<T>(iv, 0) == Ok::<_, SimpleRuleParseError>(vals@),
                Err(e) => spec_parse_values::<T>(iv, 0) == Err::<Seq<SimpleRulePartValue<T>>, _>(e),
            }
        }),
{
    let ghost iv = chars_views(items@);
    let n = items.len();
    let mut out: Vec<SimpleRulePartValue<T>> = Vec::new();
    proof {
        if spec_parse_values::<T>(iv, 0) is Ok {
            assert(Seq::<SimpleRulePartValue<T>>::empty() + spec_parse_values::<T>(iv, 0)->Ok_0
                =~= spec_parse_values::<T>(iv, 0)->Ok_0);
        }
        assert(out@ =~= Seq::<SimpleRulePartValue<T>>::empty());
    }
    let mut j: usize = 0;
    while j < n
        invariant
            iv == chars_views(items@),
            n == items@.len(),
            n == iv.len(),
            forall|q: int| 0 <= q < n ==> (#[trigger] items@[q])@ == iv[q],
            0 <= j <= n,
            ({
                let full = spec_parse_values::<T>(iv, 0);
                let rest = spec_parse_values::<T>(iv, j as int);
                match rest {
                    Ok(vs) => full == Ok::<_, SimpleRuleParseError>(out@ + vs),
                    Err(e) => full == Err::<Seq<SimpleRulePartValue<T>>, _>(e),
                }
            }),
        decreases n - j,
    {
        proof {
            assert(items@[j as int]@ == iv[j as int]);
        }
        if find_char(&items[j], '*').is_none() {
            match parse_value::<T>(&items[j]) {
                None => {
                    proof {
                        assert(spec_parse_values::<T>(iv, j as int) == Err::<
                            Seq<SimpleRulePartValue<T>>,
                            _,
                        >(SimpleRuleParseError::IncorrectContent));
                    }
                    return Err(SimpleRuleParseError::IncorrectContent);
                },
                Some(v) => {
                    proof {
                        assert(spec_parse_value::<T>(iv[j as int]) == Some(v));
                    }
                    let ghost out_before = out@;
                    out.push(v);
                    proof {
                        let full = spec_parse_values::<T>(iv, 0);
                        assert(out@ == out_before.push(v));
                        if spec_parse_values::<T>(iv, j as int + 1) is Ok {
                            let vs = spec_parse_values::<T>(iv, j as int + 1)->Ok_0;
                            assert(spec_parse_values::<T>(iv, j as int) == Ok::<
                                _,
                                SimpleRuleParseError,
                            >(seq![v] + vs));
                            assert(full == Ok::<_, SimpleRuleParseError>(
                                out_before + (seq![v] + vs),
                            ));
                            assert(out_before + (seq![v] + vs) =~= out@ + vs);
                            assert(full == Ok::<_, SimpleRuleParseError>(out@ + vs));
                        } else {
                            assert(spec_parse_values::<T>(iv, j as int)
                                == spec_parse_values::<T>(iv, j as int + 1));
                        }
                    }
                },
            }
        } else {
            proof {
                assert(spec_parse_values::<T>(iv, j as int) == spec_parse_values::<T>(
                    iv,
                    j as int + 1,
                ));
            }
        }
        proof {
            let full = spec_parse_values::<T>(iv, 0);
            let rest2 = spec_parse_values::<T>(iv, j as int + 1);
            match rest2 {
                Ok(vs) => {
                    assert(full == Ok::<_, SimpleRuleParseError>(out@ + vs));
                },
                Err(e) => {
                    assert(full == Err::<Seq<SimpleRulePartValue<T>>, _>(e));
                },
            }
        }
        j += 1;
    }
    proof {
        assert(out@ + Seq::<SimpleRulePartValue<T>>::empty() =~= out@);
    }
    Ok(out)
}

// ---------------------------------------------------------------------------
// Part content
// ---------------------------------------------------------------------------

/// Splits `func(inner)` content into its discipline name and inner text; a
/// plain text has no discipline name. A stray parenthesis fits neither.
pub open spec fn spec_split_func(cont: Seq<char>) -> Option<(Option<Seq<char>>, Seq<char>)> {
    let ip = char_index_of(cont, '(');
    if ip == -1 {
        Some((None, cont))
    } else if cont.len() >= 2 && ip < cont.len() - 1 && cont.last() == ')' {
        Some((Some(cont.take(ip)), cont.subrange(ip + 1, cont.len() - 1)))
    } else {
        None
    }
}

fn split_func(cont: &Vec<char>) -> (r: Option<(Option<Vec<char>>, Vec<char>)>)
    ensures
        match r {
            Some(p) => {
                let sp = spec_split_func(cont@);
                let spv = sp->0;
                &&& sp is Some
                &&& (match p.0 {
                    Some(f) => spv.0 == Some(f@),
                    None => spv.0 is None,
                })
                &&& p.1@ == spv.1
            },
            None => spec_split_func(cont@) is None,
        },
{
    let n = cont.len();
    match find_char(cont, '(') {
        None => {
            let inner = copy_chars(cont, 0, n);
            proof {
                assert(inner@ =~= cont@);
            }
            Some((None, inner))
        },
        Some(ip) => {
            if n >= 2 && ip < n - 1 && cont[n - 1] == ')' {
                let f = copy_chars(cont, 0, ip);
                let inner = copy_chars(cont, ip + 1, n - 1);
                proof {
                    assert(f@ =~= cont@.take(ip as int));
                    assert(inner@ =~= cont@.subrange(ip as int + 1, cont@.len() - 1));
                }
                Some((Some(f), inner))
            } else {
                None
            }
        },
    }
}

/// The weekday argument of `every(..)`: a weekday word or a number 0..=7,
/// with 0 (or `DAY`) standing for any day.
pub open spec fn spec_parse_day(tok: Seq<char>) -> Option<u8> {
    if tok == "DAY"@ {
        Some(0u8)
    } else if tok == "MONDAY"@ {
        Some(1u8)
    } else if tok == "TUESDAY"@ {
        Some(2u8)
    } else if tok == "WEDNESDAY"@ {
        Some(3u8)
    } else if tok == "THURSDAY"@ {
        Some(4u8)
    } else if tok == "FRIDAY"@ {
        Some(5u8)
    } else if tok == "SATURDAY"@ {
        Some(6u8)
    } else if tok == "SUNDAY"@ {
        Some(7u8)
    } else {
        match spec_parse_u32(tok) {
            Some(v) => if v <= 7 {
                Some(v as u8)
            } else {
                None
            },
            None => None,
        }
    }
}

fn parse_day(tok: &Vec<char>) -> (r: Option<u8>)
    ensures
        r == spec_parse_day(tok@),
{
    if tok_is(tok, "DAY") {
        Some(0)
    } else if tok_is(tok, "MONDAY") {
        Some(1)
    } else if tok_is(tok, "TUESDAY") {
        Some(2)
    } else if tok_is(tok, "WEDNESDAY") {
        Some(3)
    } else if tok_is(tok, "THURSDAY") {
        Some(4)
    } else if tok_is(tok, "FRIDAY") {
        Some(5)
    } else if tok_is(tok, "SATURDAY") {
        Some(6)
    } else if tok_is(tok, "SUNDAY") {
        Some(7)
    } else {
        match crate::text::parse_u32(tok) {
            Some(v) => if v <= 7 {
                Some(v as u8)
            } else {
                None
            },
            None => None,
        }
    }
}

/// The content of one rule part: an optional discipline name around a
/// comma-separated payload. `any`, `all` and `seq` carry residual value
/// constraints; `streak(n)` starts a buffer of `n` placeholder values;
/// `every(d)` selects a weekday and carries no values.
pub open spec fn spec_parse_content<T: PartScalar>(cont: Seq<char>) -> Result<
    PartModel<T>,
    SimpleRuleParseError,
> {
    match spec_split_func(cont) {
        None => Err(SimpleRuleParseError::NoMatch),
        Some((func, inner)) => {
            let items = split_on(inner, ',');
            let fname = match func {
                Some(f) => f,
                None => "any"@,
            };
            if fname == "any"@ || fname == "all"@ || fname == "seq"@ {
                let seq_v = if fname == "all"@ {
                    SimpleRuleSeq::All
                } else if fname == "seq"@ {
                    SimpleRuleSeq::Order
                } else {
                    SimpleRuleSeq::Any
                };
                match spec_parse_values::<T>(items, 0) {
                    Ok(vals) => Ok(PartModel { seq: seq_v, values: vals, og_values: vals }),
                    Err(e) => Err(e),
                }
            } else if fname == "streak"@ {
                match spec_parse_u32(items[0]) {
                    Some(nv) => if nv == 0 {
                        Err(SimpleRuleParseError::IncorrectContent)
                    } else {
                        let vals = Seq::new(
                            nv as nat,
                            |i: int|
                                SimpleRulePartValue {
                                    border: SimpleRuleBorder::Exact,
                                    left_val: T::spec_placeholder(),
                                    right_val: None,
                                },
                        );
                        Ok(PartModel { seq: SimpleRuleSeq::Streak(nv), values: vals, og_values: vals })
                    },
                    None => Err(SimpleRuleParseError::IncorrectContent),
                }
            } else if fname == "every"@ {
                match spec_parse_day(items[0]) {
                    Some(d) => Ok(
                        PartModel {
                            seq: SimpleRuleSeq::Selected(d),
                            values: Seq::empty(),
                            og_values: Seq::empty(),
                        },
                    ),
                    None => Err(SimpleRuleParseError::IncorrectContent),
                }
            } else {
                Err(SimpleRuleParseError::UnsupportedSeq)
            }
        },
    }
}

fn parse_content<T: PartScalar>(cont: &Vec<char>) -> (r: Result<
    SimpleRulePart<T>,
    SimpleRuleParseError,
>)
    ensures
        match r {
            Ok(p) => spec_parse_content::<T>(cont@) == Ok::<_, SimpleRuleParseError>(p@),
            Err(e) => spec_parse_content::<T>(cont@) == Err::<PartModel<T>, _>(e),
        },
{
    proof {
        lemma_grammar_words();
    }
    let sf = split_func(cont);
    match sf {
        None => Err(SimpleRuleParseError::NoMatch),
        Some((func, inner)) => {
            let items = split_chars(&inner, ',');
            proof {
                assert(items@.len() >= 1) by {
                    crate::text::lemma_char_index_of(inner@, ',');
                }
            }
            let is_any = match &func {
                Some(f) => tok_is(f, "any"),
                None => true,
            };
            let is_all = match &func {
                Some(f) => tok_is(f, "all"),
                None => false,
            };
            let is_seq = match &func {
                Some(f) => tok_is(f, "seq"),
                None => false,
            };
            let is_streak = match &func {
                Some(f) => tok_is(f, "streak"),
                None => false,
            };
            let is_every = match &func {
                Some(f) => tok_is(f, "every"),
                None => false,
            };
            if is_any || is_all || is_seq {
                let seq_v = if is_all {
                    SimpleRuleSeq::All
                } else if is_seq {
                    SimpleRuleSeq::Order
                } else {
                    SimpleRuleSeq::Any
                };
                match parse_values::<T>(&items) {
                    Ok(vals) => {
                        let ghost vals_v = vals@;
                        let p = SimpleRulePart::new(seq_v, vals);
                        proof {
                            lemma_grammar_words();
                            let spc = spec_parse_content::<T>(cont@);
                            assert(chars_views(items@) =~= split_on(inner@, ','));
                            assert(spc is Ok);
                            assert(p@ =~~= spc->Ok_0);
                        }
                        Ok(p)
                    },
                    Err(e) => {
                        proof {
                            assert(chars_views(items@) =~= split_on(inner@, ','));
                        }
                        Err(e)
                    },
                }
            } else if is_streak {
                match crate::text::parse_u32(&items[0]) {
                    Some(nv) => {
                        if nv == 0 {
                            Err(SimpleRuleParseError::IncorrectContent)
                        } else {
                            let mut vals: Vec<SimpleRulePartValue<T>> = Vec::new();
                            let mut i: u32 = 0;
                            while i < nv
                                invariant
                                    0 <= i <= nv,
                                    vals@ =~= Seq::new(
                                        i as nat,
                                        |k: int|
                                            SimpleRulePartValue {
                                                border: SimpleRuleBorder::Exact,
                                                left_val: T::spec_placeholder(),
                                                right_val: None::<T>,
                                            },
                                    ),
                                decreases nv - i,
                            {
                                vals.push(SimpleRulePartValue::exact(T::placeholder()));
                                proof {
                                    assert(vals@ =~= Seq::new(
                                        (i + 1) as nat,
                                        |k: int|
                                            SimpleRulePartValue {
                                                border: SimpleRuleBorder::Exact,
                                                left_val: T::spec_placeholder(),
                                                right_val: None::<T>,
                                            },
                                    ));
                                }
                                i += 1;
                            }
                            let p = SimpleRulePart::new(SimpleRuleSeq::Streak(nv), vals);
                            proof {
                                assert(chars_views(items@)[0] =~= split_on(inner@, ',')[0]);
                                assert(spec_parse_content::<T>(cont@) is Ok);
                                assert(p@ =~~= spec_parse_content::<T>(cont@)->Ok_0);
                            }
                            Ok(p)
                        }
                    },
                    None => Err(SimpleRuleParseError::IncorrectContent),
                }
            } else if is_every {
                match parse_day(&items[0]) {
                    Some(d) => {
                        let p = SimpleRulePart::new(SimpleRuleSeq::Selected(d), Vec::new());
                        proof {
                            assert(p@.values =~= Seq::<SimpleRulePartValue<T>>::empty());
                            assert(spec_parse_content::<T>(cont@) is Ok);
                            assert(p@ =~~= spec_parse_content::<T>(cont@)->Ok_0);
                        }
                        Ok(p)
                    },
                    None => Err(SimpleRuleParseError::IncorrectContent),
                }
            } else {
                Err(SimpleRuleParseError::UnsupportedSeq)
            }
        },
    }
}


// ---------------------------------------------------------------------------
// Simple rule lines
// ---------------------------------------------------------------------------

/// One `keyword content` pair: a part of the kind the keyword selects
/// (`on` holds dates, `at` times, everything else numbers).
pub open spec fn spec_parse_pair(kw: Seq<char>, cont: Seq<char>) -> Result<
    WrappedPartModel,
    SimpleRuleParseError,
> {
    if kw == "on"@ {
        match spec_parse_content::<Date>(cont) {
            Ok(p) => Ok(WrappedPartModel::Date(p)),
            Err(e) => Err(e),
        }
    } else if kw == "at"@ {
        match spec_parse_content::<Time>(cont) {
            Ok(p) => Ok(WrappedPartModel::Time(p)),
            Err(e) => Err(e),
        }
    } else {
        match spec_parse_content::<u32>(cont) {
            Ok(p) => Ok(WrappedPartModel::Number(p)),
            Err(e) => Err(e),
        }
    }
}

pub open spec fn is_simple_keyword(kw: Seq<char>) -> bool {
    ||| kw == "player"@
    ||| kw == "did"@
    ||| kw == "with"@
    ||| kw == "in"@
    ||| kw == "of"@
    ||| kw == "on"@
    ||| kw == "at"@
    ||| kw == "achieving"@
}

/// The `keyword content` pairs of a simple rule from token `j` on, folded
/// over the parts gathered so far and the iteration count. A `repeat` pair
/// sets the count (`+` means forever); any other recognized keyword parses
/// its content into a part; a dangling or unknown keyword fits nothing.
pub open spec fn spec_simple_pairs(
    toks: Seq<Seq<char>>,
    j: int,
    parts: Seq<(Seq<char>, WrappedPartModel)>,
    iters: i32,
) -> Result<(Seq<(Seq<char>, WrappedPartModel)>, i32), SimpleRuleParseError>
    decreases toks.len() - j,
{
    if j < 0 || j >= toks.len() {
        Ok((parts, iters))
    } else if j + 1 >= toks.len() {
        Err(SimpleRuleParseError::NoMatch)
    } else {
        let kw = toks[j];
        let cont = toks[j + 1];
        if kw == "repeat"@ {
            if cont == "+"@ {
                spec_simple_pairs(toks, j + 2, parts, -1i32)
            } else {
                match spec_parse_u32(cont) {
                    Some(v) => if v <= i32::MAX as u32 {
                        spec_simple_pairs(toks, j + 2, parts, v as i32)
                    } else {
                        Err(SimpleRuleParseError::IncorrectContent)
                    },
                    None => Err(SimpleRuleParseError::IncorrectContent),
                }
            }
        } else if is_simple_keyword(kw) {
            match spec_parse_pair(kw, cont) {
                Ok(w) => spec_simple_pairs(toks, j + 2, nm_insert(parts, kw, w), iters),
                Err(e) => Err(e),
            }
        } else {
            Err(SimpleRuleParseError::NoMatch)
        }
    }
}

/// One line of the simple-rule grammar: `name: (keyword content)+` with an
/// optional `repeat` pair; the name is the identifier before the colon and
/// a zero iteration count is rejected.
pub open spec fn spec_parse_simple_rule(input: Seq<char>) -> Result<
    (Seq<char>, SimpleRuleModel),
    SimpleRuleParseError,
> {
    let ci = char_index_of(input, ':');
    if ci == -1 {
        Err(SimpleRuleParseError::NoMatch)
    } else {
        let name = input.take(ci);
        if !(name.len() > 0 && all_ident(name)) {
            Err(SimpleRuleParseError::NoMatch)
        } else {
            let toks = tokens_of(input.skip(ci + 1));
            if toks.len() == 0 {
                Err(SimpleRuleParseError::NoMatch)
            } else {
                match spec_simple_pairs(toks, 0, Seq::empty(), 1) {
                    Err(e) => Err(e),
                    Ok((parts, iters)) => if iters == 0 {
                        Err(SimpleRuleParseError::IncorrectContent)
                    } else {
                        Ok((name, SimpleRuleModel { iterations: iters, parts }))
                    },
                }
            }
        }
    }
}

fn parse_pair(kw: &Vec<char>, cont: &Vec<char>) -> (r: Result<
    WrappedSimpleRulePart,
    SimpleRuleParseError,
>)
    ensures
        match r {
            Ok(w) => spec_parse_pair(kw@, cont@) == Ok::<_, SimpleRuleParseError>(w@),
            Err(e) => spec_parse_pair(kw@, cont@) == Err::<WrappedPartModel, _>(e),
        },
{
    if tok_is(kw, "on") {
        match parse_content::<Date>(cont) {
            Ok(p) => Ok(WrappedSimpleRulePart::Date(p)),
            Err(e) => Err(e),
        }
    } else if tok_is(kw, "at") {
        match parse_content::<Time>(cont) {
            Ok(p) => Ok(WrappedSimpleRulePart::Time(p)),
            Err(e) => Err(e),
        }
    } else {
        match parse_content::<u32>(cont) {
            Ok(p) => Ok(WrappedSimpleRulePart::Number(p)),
            Err(e) => Err(e),
        }
    }
}

fn is_keyword(kw: &Vec<char>) -> (r: bool)
    ensures
        r == is_simple_keyword(kw@),
{
    tok_is(kw, "player") || tok_is(kw, "did") || tok_is(kw, "with") || tok_is(kw, "in") || tok_is(
        kw,
        "of",
    ) || tok_is(kw, "on") || tok_is(kw, "at") || tok_is(kw, "achieving")
}

/// Reads one line of the simple-rule grammar.
pub fn parse_simple_rule(input: &str) -> (r: Result<NamedSimpleRule, SimpleRuleParseError>)
    ensures
        match r {
            Ok(nr) => (spec_parse_simple_rule(input@) == Ok::<_, SimpleRuleParseError>(
                (nr.name@, nr.rule@),
            )),
            Err(e) => (spec_parse_simple_rule(input@) == Err::<
                (Seq<char>, SimpleRuleModel),
                _,
            >(e)),
        },
{
    let chars = str_chars(input);
    let ci = match find_char(&chars, ':') {
        None => {
            return Err(SimpleRuleParseError::NoMatch);
        },
        Some(i) => i,
    };
    let name = copy_chars(&chars, 0, ci);
    proof {
        assert(name@ =~= input@.take(ci as int));
    }
    if !check_ident(&name) {
        return Err(SimpleRuleParseError::NoMatch);
    }
    let n = chars.len();
    let rest = copy_chars(&chars, ci + 1, n);
    proof {
        assert(rest@ =~= input@.skip(ci as int + 1));
    }
    let toks = tokenize(&rest);
    let ghost tv = tokens_of(input@.skip(ci as int + 1));
    if toks.len() == 0 {
        return Err(SimpleRuleParseError::NoMatch);
    }
    let tn = toks.len();
    let mut parts: NamedMap<WrappedSimpleRulePart> = NamedMap::new();
    let mut iters: i32 = 1;
    let mut j: usize = 0;
    proof {
        assert(parts@ =~= Seq::<(Seq<char>, WrappedPartModel)>::empty());
    }
    while j < tn
        invariant
            chars@ == input@,
            char_index_of(input@, ':') == ci as int,
            ci < chars@.len(),
            input@.take(ci as int).len() > 0,
            all_ident(input@.take(ci as int)),
            tv == tokens_of(input@.skip(ci as int + 1)),
            tn == toks@.len(),
            tn == tv.len(),
            tn > 0,
            forall|q: int| 0 <= q < tn ==> (#[trigger] toks@[q])@ == tv[q],
            0 <= j <= tn,
            j % 2 == 0,
            ({
                let full = spec_simple_pairs(tv, 0, Seq::empty(), 1);
                let rest2 = spec_simple_pairs(tv, j as int, parts@, iters);
                full == rest2
            }),
        decreases tn - j,
    {
        proof {
            lemma_grammar_words();
            assert(toks@[j as int]@ == tv[j as int]);
        }
        if j + 1 >= tn {
            proof {
                assert(spec_simple_pairs(tv, j as int, parts@, iters) == Err::<
                    (Seq<(Seq<char>, WrappedPartModel)>, i32),
                    _,
                >(SimpleRuleParseError::NoMatch));
            }
            return Err(SimpleRuleParseError::NoMatch);
        }
        proof {
            assert(toks@[j as int + 1]@ == tv[j as int + 1]);
        }
        let kw = &toks[j];
        let cont = &toks[j + 1];
        if tok_is(kw, "repeat") {
            if tok_is(cont, "+") {
                iters = -1;
            } else {
                match crate::text::parse_u32(cont) {
                    Some(v) => {
                        if v <= i32::MAX as u32 {
                            iters = v as i32;
                        } else {
                            return Err(SimpleRuleParseError::IncorrectContent);
                        }
                    },
                    None => {
                        return Err(SimpleRuleParseError::IncorrectContent);
                    },
                }
            }
        } else if is_keyword(kw) {
            match parse_pair(kw, cont) {
                Ok(w) => {
                    let ghost parts_before = parts@;
                    let kws = chars_to_string(kw);
                    parts.insert(kws, w);
                    proof {
                        assert(parts@ =~= nm_insert(parts_before, tv[j as int], w@));
                    }
                },
                Err(e) => {
                    return Err(e);
                },
            }
        } else {
            return Err(SimpleRuleParseError::NoMatch);
        }
        j += 2;
    }
    if iters == 0 {
        return Err(SimpleRuleParseError::IncorrectContent);
    }
    let name_s = chars_to_string(&name);
    let rule = SimpleRule { iterations: iters, parts };
    proof {
        assert(spec_parse_simple_rule(input@) == Ok::<_, SimpleRuleParseError>(
            (name_s@, rule@),
        ));
    }
    Ok(NamedSimpleRule { name: name_s, rule })
}


// ---------------------------------------------------------------------------
// Compound rule lines
// ---------------------------------------------------------------------------

/// One line of the compound-rule grammar:
/// `name: [repeat] [every n] seq arg+`.
pub open spec fn spec_parse_compound_rule(input: Seq<char>) -> Result<
    (Seq<char>, CompoundRuleModel),
    CompoundRuleParseError,
> {
    let ci = char_index_of(input, ':');
    if ci == -1 {
        Err(CompoundRuleParseError::NoMatch)
    } else {
        let name = input.take(ci);
        if !(name.len() > 0 && all_ident(name)) {
            Err(CompoundRuleParseError::NoMatch)
        } else {
            let toks = tokens_of(input.skip(ci + 1));
            let iters: i32 = if toks.len() > 0 && toks[0] == "repeat"@ {
                -1i32
            } else {
                1i32
            };
            let j0: int = if toks.len() > 0 && toks[0] == "repeat"@ {
                1int
            } else {
                0int
            };
            if j0 < toks.len() && toks[j0] == "every"@ {
                if j0 + 1 >= toks.len() {
                    Err(CompoundRuleParseError::IncorrectContent)
                } else {
                    match spec_parse_u32(toks[j0 + 1]) {
                        None => Err(CompoundRuleParseError::IncorrectContent),
                        Some(ev) => if ev == 0 {
                            Err(CompoundRuleParseError::IncorrectContent)
                        } else {
                            spec_compound_tail(name, toks, j0 + 2, iters, ev)
                        },
                    }
                }
            } else {
                spec_compound_tail(name, toks, j0, iters, 1)
            }
        }
    }
}

/// The discipline and argument tokens of a compound rule, from `j` on.
pub open spec fn spec_compound_tail(
    name: Seq<char>,
    toks: Seq<Seq<char>>,
    j: int,
    iters: i32,
    every: u32,
) -> Result<(Seq<char>, CompoundRuleModel), CompoundRuleParseError> {
    if j >= toks.len() {
        Err(CompoundRuleParseError::NoMatch)
    } else {
        let st = toks[j];
        if st == "any"@ || st == "all"@ || st == "seq"@ {
            let seqm = if st == "all"@ {
                CompoundSeqModel::All
            } else if st == "seq"@ {
                CompoundSeqModel::Order
            } else {
                CompoundSeqModel::Any
            };
            spec_compound_args(name, toks, j + 1, iters, every, seqm)
        } else if st == "streak"@ {
            if j + 1 >= toks.len() {
                Err(CompoundRuleParseError::IncorrectContent)
            } else {
                match spec_parse_u32(toks[j + 1]) {
                    None => Err(CompoundRuleParseError::IncorrectContent),
                    Some(nv) => if nv == 0 {
                        Err(CompoundRuleParseError::IncorrectContent)
                    } else {
                        spec_compound_args(
                            name,
                            toks,
                            j + 2,
                            iters,
                            every,
                            CompoundSeqModel::Streak(
                                nv,
                                Seq::new(nv as nat, |i: int| Date { days: 0 }),
                            ),
                        )
                    },
                }
            }
        } else {
            Err(CompoundRuleParseError::UnsupportedSeq)
        }
    }
}

/// The argument names of a compound rule, from `j` on: at least one, each an
/// identifier naming a simple rule.
pub open spec fn spec_compound_args(
    name: Seq<char>,
    toks: Seq<Seq<char>>,
    j: int,
    iters: i32,
    every: u32,
    seqm: CompoundSeqModel,
) -> Result<(Seq<char>, CompoundRuleModel), CompoundRuleParseError> {
    let args = toks.skip(j);
    if args.len() == 0 {
        Err(CompoundRuleParseError::NoMatch)
    } else if !(forall|q: int| 0 <= q < args.len() ==> (#[trigger] args[q]).len() > 0 && all_ident(
        args[q],
    )) {
        Err(CompoundRuleParseError::NoMatch)
    } else {
        Ok(
            (
                name,
                CompoundRuleModel {
                    iterations: iters,
                    every,
                    seq: seqm,
                    values: args,
                    og_iterations: iters,
                    og_every: every,
                    og_seq: seqm,
                    og_values: args,
                },
            ),
        )
    }
}

/// Reads one line of the compound-rule grammar.
pub fn parse_compound_rule(input: &str) -> (r: Result<NamedCompoundRule, CompoundRuleParseError>)
    ensures
        match r {
            Ok(nr) => (spec_parse_compound_rule(input@) == Ok::<_, CompoundRuleParseError>(
                (nr.name@, nr.rule@),
            )),
            Err(e) => (spec_parse_compound_rule(input@) == Err::<
                (Seq<char>, CompoundRuleModel),
                _,
            >(e)),
        },
{
    proof {
        lemma_grammar_words();
    }
    let chars = str_chars(input);
    let ci = match find_char(&chars, ':') {
        None => {
            return Err(CompoundRuleParseError::NoMatch);
        },
        Some(i) => i,
    };
    let name = copy_chars(&chars, 0, ci);
    proof {
        assert(name@ =~= input@.take(ci as int));
    }
    if !check_ident(&name) {
        return Err(CompoundRuleParseError::NoMatch);
    }
    let n = chars.len();
    let rest = copy_chars(&chars, ci + 1, n);
    proof {
        assert(rest@ =~= input@.skip(ci as int + 1));
    }
    let toks = tokenize(&rest);
    let ghost tv = tokens_of(input@.skip(ci as int + 1));
    let tn = toks.len();
    let mut j: usize = 0;
    let mut iters: i32 = 1;
    if tn > 0 && tok_is(&toks[0], "repeat") {
        iters = -1;
        j = 1;
    }
    let mut every: u32 = 1;
    if j < tn && tok_is(&toks[j], "every") {
        if j + 1 >= tn {
            return Err(CompoundRuleParseError::IncorrectContent);
        }
        match crate::text::parse_u32(&toks[j + 1]) {
            None => {
                return Err(CompoundRuleParseError::IncorrectContent);
            },
            Some(ev) => {
                if ev == 0 {
                    return Err(CompoundRuleParseError::IncorrectContent);
                }
                every = ev;
                j = j + 2;
            },
        }
    }
    if j >= tn {
        return Err(CompoundRuleParseError::NoMatch);
    }
    let seq_v: CompoundRuleSeq = if tok_is(&toks[j], "all") {
        j = j + 1;
        CompoundRuleSeq::All
    } else if tok_is(&toks[j], "seq") {
        j = j + 1;
        CompoundRuleSeq::Order
    } else if tok_is(&toks[j], "any") {
        j = j + 1;
        CompoundRuleSeq::Any
    } else if tok_is(&toks[j], "streak") {
        if j + 1 >= tn {
            return Err(CompoundRuleParseError::IncorrectContent);
        }
        match crate::text::parse_u32(&toks[j + 1]) {
            None => {
                return Err(CompoundRuleParseError::IncorrectContent);
            },
            Some(nv) => {
                if nv == 0 {
                    return Err(CompoundRuleParseError::IncorrectContent);
                }
                let mut dates: Vec<Date> = Vec::new();
                let mut i: u32 = 0;
                while i < nv
                    invariant
                        0 <= i <= nv,
                        dates@ =~= Seq::new(i as nat, |k: int| Date { days: 0 }),
                    decreases nv - i,
                {
                    dates.push(Date::epoch());
                    proof {
                        assert(dates@ =~= Seq::new((i + 1) as nat, |k: int| Date { days: 0 }));
                    }
                    i += 1;
                }
                proof {
                    assert(dates@ =~= Seq::new(nv as nat, |k: int| Date { days: 0 }));
                }
                j = j + 2;
                CompoundRuleSeq::Streak(nv, dates)
            },
        }
    } else {
        return Err(CompoundRuleParseError::UnsupportedSeq);
    };
    let ghost j_args = j as int;
    if j >= tn {
        return Err(CompoundRuleParseError::NoMatch);
    }
    proof {
        assert(spec_parse_compound_rule(input@) == spec_compound_args(
            input@.take(ci as int),
            tv,
            j_args,
            iters,
            every,
            seq_v@,
        ));
    }
    let mut args: Vec<String> = Vec::new();
    let mut k: usize = j;
    while k < tn
        invariant
            spec_parse_compound_rule(input@) == spec_compound_args(
                input@.take(ci as int),
                tv,
                j_args,
                iters,
                every,
                seq_v@,
            ),
            name@ == input@.take(ci as int),
            tn == toks@.len(),
            tn == tv.len(),
            forall|q: int| 0 <= q < tn ==> (#[trigger] toks@[q])@ == tv[q],
            j_args <= k as int <= tn,
            j_args == j as int,
            args@.len() == k as int - j_args,
            forall|q: int|
                0 <= q < args@.len() ==> (#[trigger] args@[q])@ == tv[j_args + q],
            forall|q: int|
                j_args <= q < k as int ==> (#[trigger] tv[q]).len() > 0 && all_ident(tv[q]),
        decreases tn - k,
    {
        proof {
            assert(toks@[k as int]@ == tv[k as int]);
        }
        if !check_ident(&toks[k]) {
            proof {
                assert(tv.skip(j_args)[k as int - j_args] == tv[k as int]);
                assert(!(tv.skip(j_args)[k as int - j_args].len() > 0 && all_ident(
                    tv.skip(j_args)[k as int - j_args],
                )));
            }
            return Err(CompoundRuleParseError::NoMatch);
        }
        args.push(chars_to_string(&toks[k]));
        k += 1;
    }
    let rule = CompoundRule::new(iters, every, seq_v, args);
    let name_s = chars_to_string(&name);
    proof {
        assert(crate::compound_rule::str_seq_view(args@) =~= tv.skip(j_args));
        assert(spec_parse_compound_rule(input@) is Ok);
        assert(rule@ =~~= spec_parse_compound_rule(input@)->Ok_0.1);
        assert(name_s@ == spec_parse_compound_rule(input@)->Ok_0.0);
    }
    Ok(NamedCompoundRule { name: name_s, rule })
}


// ---------------------------------------------------------------------------
// Rule result lines
// ---------------------------------------------------------------------------

/// One `;`-separated part of a result: `[repeat] kind [seq] arg+`, with the
/// argument count a multiple of the kind's group size.
pub open spec fn spec_parse_result_part(part: Seq<char>) -> Result<
    RuleResultValueModel,
    RuleResultParseError,
> {
    let toks = tokens_of(part);
    match spec_parse_result_part_head(toks) {
        Err(e) => Err(e),
        Ok((iters, kind, seqd, j2)) => {
            let args = toks.skip(j2);
            if args.len() == 0 {
                Err(RuleResultParseError::NoMatch)
            } else if !(forall|q: int|
                0 <= q < args.len() ==> (#[trigger] args[q]).len() > 0 && all_ident(args[q])) {
                Err(RuleResultParseError::NoMatch)
            } else if args.len() as int % crate::rule_result::spec_group_size(kind) != 0 {
                Err(RuleResultParseError::IncorrectContent)
            } else {
                Ok(
                    RuleResultValueModel {
                        iterations: iters,
                        kind,
                        seq: seqd,
                        values: args,
                        og_values: args,
                    },
                )
            }
        },
    }
}

/// The `;`-separated parts of a result, from part `j` on.
pub open spec fn spec_parse_result_parts(parts: Seq<Seq<char>>, j: int) -> Result<
    Seq<RuleResultValueModel>,
    RuleResultParseError,
>
    decreases parts.len() - j,
{
    if j < 0 || j >= parts.len() {
        Ok(Seq::empty())
    } else {
        match spec_parse_result_part(parts[j]) {
            Err(e) => Err(e),
            Ok(v) => match spec_parse_result_parts(parts, j + 1) {
                Ok(rest) => Ok(seq![v] + rest),
                Err(e) => Err(e),
            },
        }
    }
}

/// One line of the rule-result grammar: `name -> part(; part)*`.
pub open spec fn spec_parse_rule_result(input: Seq<char>) -> Result<
    (Seq<char>, Seq<RuleResultValueModel>),
    RuleResultParseError,
> {
    let ai = find2(input, '-', '>');
    if ai == -1 {
        Err(RuleResultParseError::NoMatch)
    } else {
        let left = tokens_of(input.take(ai));
        if !(left.len() == 1 && left[0].len() > 0 && all_ident(left[0])) {
            Err(RuleResultParseError::NoMatch)
        } else {
            match spec_parse_result_parts(split_on(input.skip(ai + 2), ';'), 0) {
                Err(e) => Err(e),
                Ok(vals) => if vals.len() == 0 {
                    Err(RuleResultParseError::NoMatch)
                } else {
                    Ok((left[0], vals))
                },
            }
        }
    }
}

fn parse_result_part(part: &Vec<char>) -> (r: Result<RuleResultValue, RuleResultParseError>)
    ensures
        match r {
            Ok(v) => (spec_parse_result_part(part@) == Ok::<_, RuleResultParseError>(v@)),
            Err(e) => (spec_parse_result_part(part@) == Err::<RuleResultValueModel, _>(e)),
        },
{
    proof {
        lemma_grammar_words();
    }
    let toks = tokenize(part);
    let ghost tv = tokens_of(part@);
    let tn = toks.len();
    let mut j: usize = 0;
    let mut iters: i32 = 1;
    if tn > 0 && tok_is(&toks[0], "repeat") {
        iters = -1;
        j = 1;
    }
    if j >= tn {
        return Err(RuleResultParseError::NoMatch);
    }
    let kind: RuleResultKind = if tok_is(&toks[j], "msg") {
        RuleResultKind::Message
    } else if tok_is(&toks[j], "reward") {
        RuleResultKind::Reward
    } else if tok_is(&toks[j], "offer") {
        RuleResultKind::Offer
    } else if tok_is(&toks[j], "open") {
        RuleResultKind::Open
    } else if tok_is(&toks[j], "restart") {
        RuleResultKind::Restart
    } else {
        return Err(RuleResultParseError::UnsupportedKind);
    };
    j = j + 1;
    let has_seq = j < tn && (tok_is(&toks[j], "all") || tok_is(&toks[j], "seq") || tok_is(
        &toks[j],
        "random",
    ) || tok_is(&toks[j], "random_once") || tok_is(&toks[j], "choice"));
    let seqd: RuleResultSeq = if has_seq && tok_is(&toks[j], "seq") {
        RuleResultSeq::Order
    } else if has_seq && tok_is(&toks[j], "random") {
        RuleResultSeq::Random
    } else if has_seq && tok_is(&toks[j], "random_once") {
        RuleResultSeq::RandomOnce
    } else if has_seq && tok_is(&toks[j], "choice") {
        RuleResultSeq::Choice
    } else {
        RuleResultSeq::All
    };
    if has_seq {
        j = j + 1;
    }
    let ghost j_args = j as int;
    if j >= tn {
        return Err(RuleResultParseError::NoMatch);
    }
    let mut args: Vec<String> = Vec::new();
    let mut k: usize = j;
    while k < tn
        invariant
            tv == tokens_of(part@),
            tn == toks@.len(),
            tn == tv.len(),
            forall|q: int| 0 <= q < tn ==> (#[trigger] toks@[q])@ == tv[q],
            j_args <= k as int <= tn,
            j_args == j as int,
            j_args < tn,
            args@.len() == k as int - j_args,
            forall|q: int|
                0 <= q < args@.len() ==> (#[trigger] args@[q])@ == tv[j_args + q],
            forall|q: int|
                j_args <= q < k as int ==> (#[trigger] tv[q]).len() > 0 && all_ident(tv[q]),
            spec_result_head(tv, iters, kind, seqd, j_args),
        decreases tn - k,
    {
        proof {
            assert(toks@[k as int]@ == tv[k as int]);
        }
        if !check_ident(&toks[k]) {
            proof {
                assert(tv.skip(j_args)[k as int - j_args] == tv[k as int]);
                assert(!(tv.skip(j_args)[k as int - j_args].len() > 0 && all_ident(
                    tv.skip(j_args)[k as int - j_args],
                )));
            }
            return Err(RuleResultParseError::NoMatch);
        }
        args.push(chars_to_string(&toks[k]));
        k += 1;
    }
    let g = match kind {
        RuleResultKind::Offer => 3,
        RuleResultKind::Reward => 2,
        _ => 1,
    };
    if args.len() % g != 0 {
        proof {
            assert(crate::compound_rule::str_seq_view(args@) =~= tv.skip(j_args));
        }
        return Err(RuleResultParseError::IncorrectContent);
    }
    let v = RuleResultValue::new(iters, kind, seqd, args);
    proof {
        assert(crate::compound_rule::str_seq_view(args@) =~= tv.skip(j_args));
        assert(spec_parse_result_part(part@) is Ok);
        assert(v@ =~~= spec_parse_result_part(part@)->Ok_0);
    }
    Ok(v)
}

/// The head of a result part was recognized as given: used to carry the
/// recognition across the argument scan.
pub open spec fn spec_result_head(
    tv: Seq<Seq<char>>,
    iters: i32,
    kind: RuleResultKind,
    seqd: RuleResultSeq,
    j_args: int,
) -> bool {
    match spec_parse_result_part_head(tv) {
        Ok((i2, k2, s2, j2)) => iters == i2 && kind == k2 && seqd == s2 && j_args == j2,
        Err(e) => false,
    }
}

/// The recognized head (iterations, kind, discipline, argument start) of a
/// result part's token list, when the head fits the grammar.
pub open spec fn spec_parse_result_part_head(toks: Seq<Seq<char>>) -> Result<
    (i32, RuleResultKind, RuleResultSeq, int),
    RuleResultParseError,
> {
    let iters: i32 = if toks.len() > 0 && toks[0] == "repeat"@ {
        -1i32
    } else {
        1i32
    };
    let j0: int = if toks.len() > 0 && toks[0] == "repeat"@ {
        1int
    } else {
        0int
    };
    if j0 >= toks.len() {
        Err(RuleResultParseError::NoMatch)
    } else {
        let kt = toks[j0];
        if !(kt == "msg"@ || kt == "reward"@ || kt == "offer"@ || kt == "open"@ || kt
            == "restart"@) {
            Err(RuleResultParseError::UnsupportedKind)
        } else {
            let kind: RuleResultKind = if kt == "msg"@ {
                RuleResultKind::Message
            } else if kt == "reward"@ {
                RuleResultKind::Reward
            } else if kt == "offer"@ {
                RuleResultKind::Offer
            } else if kt == "open"@ {
                RuleResultKind::Open
            } else {
                RuleResultKind::Restart
            };
            let j1 = j0 + 1;
            let has_seq = j1 < toks.len() && (toks[j1] == "all"@ || toks[j1] == "seq"@ || toks[j1]
                == "random"@ || toks[j1] == "random_once"@ || toks[j1] == "choice"@);
            let seqd: RuleResultSeq = if has_seq && toks[j1] == "seq"@ {
                RuleResultSeq::Order
            } else if has_seq && toks[j1] == "random"@ {
                RuleResultSeq::Random
            } else if has_seq && toks[j1] == "random_once"@ {
                RuleResultSeq::RandomOnce
            } else if has_seq && toks[j1] == "choice"@ {
                RuleResultSeq::Choice
            } else {
                RuleResultSeq::All
            };
            Ok((iters, kind, seqd, if has_seq {
                j1 + 1
            } else {
                j1
            }))
        }
    }
}

/// Reads one line of the rule-result grammar.
pub fn parse_rule_result(input: &str) -> (r: Result<NamedRuleResult, RuleResultParseError>)
    ensures
        match r {
            Ok(nr) => (spec_parse_rule_result(input@) == Ok::<_, RuleResultParseError>(
                (nr.name@, nr.res@),
            )),
            Err(e) => (spec_parse_rule_result(input@) == Err::<
                (Seq<char>, Seq<RuleResultValueModel>),
                _,
            >(e)),
        },
{
    let chars = str_chars(input);
    let ai = match find2_chars(&chars, '-', '>') {
        None => {
            return Err(RuleResultParseError::NoMatch);
        },
        Some(i) => i,
    };
    let leftc = copy_chars(&chars, 0, ai);
    proof {
        assert(leftc@ =~= input@.take(ai as int));
    }
    let left = tokenize(&leftc);
    if left.len() != 1 {
        return Err(RuleResultParseError::NoMatch);
    }
    if !check_ident(&left[0]) {
        return Err(RuleResultParseError::NoMatch);
    }
    let n = chars.len();
    let restc = copy_chars(&chars, ai + 2, n);
    proof {
        assert(restc@ =~= input@.skip(ai as int + 2));
    }
    let parts = split_chars(&restc, ';');
    let ghost pv = split_on(input@.skip(ai as int + 2), ';');
    let pn = parts.len();
    let mut vals: Vec<RuleResultValue> = Vec::new();
    let mut j: usize = 0;
    while j < pn
        invariant
            pv == split_on(input@.skip(ai as int + 2), ';'),
            find2(input@, '-', '>') == ai as int,
            tokens_of(input@.take(ai as int)).len() == 1,
            tokens_of(input@.take(ai as int))[0].len() > 0,
            all_ident(tokens_of(input@.take(ai as int))[0]),
            pn == parts@.len(),
            pn == pv.len(),
            pn >= 1,
            forall|q: int| 0 <= q < pn ==> (#[trigger] parts@[q])@ == pv[q],
            0 <= j <= pn,
            ({
                let full = spec_parse_result_parts(pv, 0);
                let rest2 = spec_parse_result_parts(pv, j as int);
                match rest2 {
                    Ok(vs) => (full == Ok::<_, RuleResultParseError>(
                        Seq::new(vals@.len(), |q: int| vals@[q]@) + vs,
                    )),
                    Err(e) => (full == Err::<Seq<RuleResultValueModel>, _>(e)),
                }
            }),
        decreases pn - j,
    {
        proof {
            assert(parts@[j as int]@ == pv[j as int]);
        }
        match parse_result_part(&parts[j]) {
            Err(e) => {
                return Err(e);
            },
            Ok(v) => {
                let ghost vals_before = Seq::new(vals@.len(), |q: int| vals@[q]@);
                vals.push(v);
                proof {
                    assert(Seq::new(vals@.len(), |q: int| vals@[q]@) =~= vals_before.push(v@));
                    if spec_parse_result_parts(pv, j as int + 1) is Ok {
                        let vs = spec_parse_result_parts(pv, j as int + 1)->Ok_0;
                        assert(spec_parse_result_parts(pv, j as int) == Ok::<
                            _,
                            RuleResultParseError,
                        >(seq![v@] + vs));
                        assert(vals_before + (seq![v@] + vs) =~= vals_before.push(v@) + vs);
                    }
                }
            },
        }
        j += 1;
    }
    if vals.len() == 0 {
        return Err(RuleResultParseError::NoMatch);
    }
    let name_s = chars_to_string(&left[0]);
    let res = RuleResult { values: vals };
    proof {
        assert(res@ =~= Seq::new(res.values@.len(), |q: int| res.values@[q]@));
        assert(Seq::new(res.values@.len(), |q: int| res.values@[q]@) + Seq::<
            RuleResultValueModel,
        >::empty() =~= Seq::new(res.values@.len(), |q: int| res.values@[q]@));
        assert(spec_parse_rule_result(input@) is Ok);
        assert(name_s@ == spec_parse_rule_result(input@)->Ok_0.0);
        assert(res@ =~= spec_parse_rule_result(input@)->Ok_0.1);
    }
    Ok(NamedRuleResult { name: name_s, res })
}

} // verus!
