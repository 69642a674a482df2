use vstd::prelude::*;

use crate::json::{json_wf, JVal, Json};
use crate::resolve::{get_progress, progress_of};
use vstd::string::{StrSliceExecFns, StringExecFns};

verus! {

/// The decimal digit `d` as a character.
pub open spec fn digit_char(d: nat) -> char {
    if d == 0 {
        '0'
    } else if d == 1 {
        '1'
    } else if d == 2 {
        '2'
    } else if d == 3 {
        '3'
    } else if d == 4 {
        '4'
    } else if d == 5 {
        '5'
    } else if d == 6 {
        '6'
    } else if d == 7 {
        '7'
    } else if d == 8 {
        '8'
    } else {
        '9'
    }
}

/// The decimal rendering of `n`, most significant digit first.
pub open spec fn decimal(n: nat) -> Seq<char>
    decreases n,
{
    if n < 10 {
        seq![digit_char(n)]
    } else {
        decimal(n / 10).push(digit_char(n % 10))
    }
}

fn digit_str(d: usize) -> (r: &'static str)
    requires
        d < 10,
    ensures
        r@ == seq![digit_char(d as nat)],
{
    let r: &'static str = if d == 0 {
        "0"
    } else if d == 1 {
        "1"
    } else if d == 2 {
        "2"
    } else if d == 3 {
        "3"
    } else if d == 4 {
        "4"
    } else if d == 5 {
        "5"
    } else if d == 6 {
        "6"
    } else if d == 7 {
        "7"
    } else if d == 8 {
        "8"
    } else {
        "9"
    };
    proof {
        reveal_strlit("0");
        reveal_strlit("1");
        reveal_strlit("2");
        reveal_strlit("3");
        reveal_strlit("4");
        reveal_strlit("5");
        reveal_strlit("6");
        reveal_strlit("7");
        reveal_strlit("8");
        reveal_strlit("9");
    }
    r
}

/// The least significant digits collected so far, read back to front.
spec fn digits_chars(ds: Seq<usize>) -> Seq<char> {
    Seq::new(ds.len(), |t: int| digit_char(ds[ds.len() - 1 - t] as nat))
}

/// Render a count in decimal.
pub fn to_decimal(n: usize) -> (r: String)
    ensures
        r@ == decimal(n as nat),
{
    let mut digits: Vec<usize> = Vec::new();
    let mut m = n;
    loop
        invariant_except_break
            forall|t: int| 0 <= t < digits@.len() ==> digits@[t] < 10,
            digits@.len() == 0 ==> m == n,
            digits@.len() > 0 ==> m > 0 && decimal(n as nat) == decimal(m as nat) + digits_chars(
                digits@,
            ),
        ensures
            digits@.len() > 0,
            forall|t: int| 0 <= t < digits@.len() ==> digits@[t] < 10,
            decimal(n as nat) == digits_chars(digits@),
        decreases m,
    {
        let ghost pre = digits@;
        let d = m % 10;
        digits.push(d);
        proof {
            assert(digits_chars(digits@) =~= seq![digit_char(d as nat)] + digits_chars(pre));
        }
        let next = m / 10;
        if next == 0 {
            proof {
                if pre.len() == 0 {
                    assert(m == n);
                    assert(m < 10);
                    assert(decimal(n as nat) =~= digits_chars(digits@));
                } else {
                    assert(m < 10);
                    assert(decimal(m as nat) =~= seq![digit_char(m as nat)]);
                    assert(decimal(n as nat) =~= digits_chars(digits@));
                }
            }
            break;
        }
        proof {
            if pre.len() == 0 {
                assert(m == n && m >= 10);
                assert(decimal(n as nat) == decimal((m / 10) as nat).push(digit_char((m % 10) as nat)));
                assert(decimal(n as nat) =~= decimal(next as nat) + digits_chars(digits@));
            } else {
                assert(m >= 10);
                assert(decimal(m as nat) == decimal((m / 10) as nat).push(digit_char((m % 10) as nat)));
                assert(decimal(n as nat) =~= decimal(next as nat) + digits_chars(digits@));
            }
        }
        m = next;
    }
    let mut out = String::new();
    let mut i = digits.len();
    while i > 0
        invariant
            i <= digits@.len(),
            forall|t: int| 0 <= t < digits@.len() ==> digits@[t] < 10,
            decimal(n as nat) == digits_chars(digits@),
            out@ =~= digits_chars(digits@).take(digits@.len() - i),
        decreases i,
    {
        i = i - 1;
        let ghost pre = out@;
        out.append(digit_str(digits[i]));
        proof {
            assert(out@ =~= digits_chars(digits@).take(digits@.len() - i));
        }
    }
    proof {
        assert(out@ =~= digits_chars(digits@));
    }
    out
}

/// `i` is where the first opening parenthesis of `s` stands.
pub open spec fn is_first_open(s: Seq<char>, i: int) -> bool {
    0 <= i < s.len() && s[i] == '(' && forall|j: int| 0 <= j < i ==> s[j] != '('
}

/// `j` is where the last closing parenthesis of `s` stands.
pub open spec fn is_last_close(s: Seq<char>, j: int) -> bool {
    0 <= j < s.len() && s[j] == ')' && forall|l: int| j < l < s.len() ==> s[l] != ')'
}

/// The template holds one greedy span: from its first `(` to its last `)`,
/// with at least one character between them.
pub open spec fn has_span(s: Seq<char>) -> bool {
    exists|i: int, j: int| is_first_open(s, i) && is_last_close(s, j) && i + 2 <= j
}

/// What substitution yields: the whole greedy span, parentheses included, is
/// replaced by the resolved progress count in decimal; an unresolvable
/// identifier, or a template without such a span, leaves the text unchanged.
pub open spec fn substituted(s: Seq<char>, t: JVal) -> Seq<char> {
    if has_span(s) {
        let (i, j) = choose|i: int, j: int|
            is_first_open(s, i) && is_last_close(s, j) && i + 2 <= j;
        match progress_of(t, s.subrange(i + 1, j)) {
            Some(n) => s.take(i) + decimal(n) + s.skip(j + 1),
            None => s,
        }
    } else {
        s
    }
}

proof fn lemma_span_unique(s: Seq<char>, i1: int, j1: int, i2: int, j2: int)
    requires
        is_first_open(s, i1),
        is_last_close(s, j1),
        is_first_open(s, i2),
        is_last_close(s, j2),
    ensures
        i1 == i2,
        j1 == j2,
{
}

fn find_first_open(s: &str) -> (r: Option<usize>)
    ensures
        match r {
            Some(i) => is_first_open(s@, i as int),
            None => forall|j: int| 0 <= j < s@.len() ==> s@[j] != '(',
        },
{
    let len = s.unicode_len();
    let mut x: usize = 0;
    while x < len
        invariant
            len == s@.len(),
            x <= len,
            forall|j: int| 0 <= j < x ==> s@[j] != '(',
        decreases len - x,
    {
        if s.get_char(x) == '(' {
            return Some(x);
        }
        x = x + 1;
    }
    None
}

fn find_last_close(s: &str) -> (r: Option<usize>)
    ensures
        match r {
            Some(j) => is_last_close(s@, j as int),
            None => forall|l: int| 0 <= l < s@.len() ==> s@[l] != ')',
        },
{
    let len = s.unicode_len();
    let mut y: usize = len;
    while y > 0
        invariant
            len == s@.len(),
            y <= len,
            forall|l: int| y <= l < len ==> s@[l] != ')',
        decreases y,
    {
        y = y - 1;
        if s.get_char(y) == ')' {
            return Some(y);
        }
    }
    None
}

/// Substitute the template's single greedy parenthesized identifier with its
/// progress count from the tree; total, and the identity wherever nothing
/// resolves.
pub fn replace_with_progress(string: &str, json: &Json) -> (r: String)
    requires
        json_wf(*json),
    ensures
        r@ == substituted(string@, json@),
{
    let len = string.unicode_len();
    let first = find_first_open(string);
    let last = find_last_close(string);
    match (first, last) {
        (Some(i), Some(j)) if i < j && j - i >= 2 => {
            proof {
                assert(has_span(string@));
                let (ci, cj) = choose|ci: int, cj: int|
                    is_first_open(string@, ci) && is_last_close(string@, cj) && ci + 2 <= cj;
                lemma_span_unique(string@, ci, cj, i as int, j as int);
            }
            let inner = string.substring_char(i + 1, j);
            match get_progress(json, inner) {
                Ok(c) => {
                    let mut out = string.substring_char(0, i).to_owned();
                    let count = to_decimal(c);
                    out.append(count.as_str());
                    out.append(string.substring_char(j + 1, len));
                    out
                },
                Err(_) => string.to_owned(),
            }
        },
        _ => {
            proof {
                if has_span(string@) {
                    let (ci, cj) = choose|ci: int, cj: int|
                        is_first_open(string@, ci) && is_last_close(string@, cj) && ci + 2 <= cj;
                    match (first, last) {
                        (Some(i), Some(j)) => {
                            lemma_span_unique(string@, ci, cj, i as int, j as int);
                        },
                        (_, None) => {
                            assert(string@[cj] == ')');
                        },
                        (None, _) => {
                            assert(string@[ci] == '(');
                        },
                    }
                }
            }
            string.to_owned()
        },
    }
}

/// Law: substitution is the identity on templates with no parentheses,
/// whatever the tree.
pub proof fn lemma_substitute_no_parens(s: Seq<char>, t: JVal)
    requires
        forall|i: int| 0 <= i < s.len() ==> s[i] != '(' && s[i] != ')',
    ensures
        substituted(s, t) == s,
{
    if has_span(s) {
        let (i, j) = choose|i: int, j: int|
            is_first_open(s, i) && is_last_close(s, j) && i + 2 <= j;
        assert(s[i] == '(');
    }
}

} // verus!
