use vstd::prelude::*;

verus! {

pub open spec fn is_digit(c: char) -> bool {
    '0' <= c && c <= '9'
}

/// The end of the run of digits that starts at `i`.
pub open spec fn digits_end(s: Seq<char>, i: int) -> int
    decreases s.len() - i,
{
    if 0 <= i < s.len() && is_digit(s[i]) {
        digits_end(s, i + 1)
    } else {
        i
    }
}

/// Where the integer part starts: after an optional minus sign.
pub open spec fn int_start(s: Seq<char>) -> int {
    if s.len() > 0 && s[0] == '-' { 1 } else { 0 }
}

/// Where the integer part ends.
pub open spec fn int_end(s: Seq<char>) -> int {
    digits_end(s, int_start(s))
}

pub open spec fn has_frac(s: Seq<char>) -> bool {
    int_end(s) < s.len() && s[int_end(s)] == '.'
}

/// Where the fraction ends (the integer's end when there is none).
pub open spec fn frac_end(s: Seq<char>) -> int {
    if has_frac(s) { digits_end(s, int_end(s) + 1) } else { int_end(s) }
}

pub open spec fn has_exp(s: Seq<char>) -> bool {
    frac_end(s) < s.len() && (s[frac_end(s)] == 'e' || s[frac_end(s)] == 'E')
}

/// Where the exponent's digits start, after `e` and an optional sign.
pub open spec fn exp_start(s: Seq<char>) -> int {
    let c = frac_end(s);
    if c + 1 < s.len() && (s[c + 1] == '+' || s[c + 1] == '-') { c + 2 } else { c + 1 }
}

/// Whether a text is a JSON number literal:
/// `-? (0 | [1-9][0-9]*) (. [0-9]+)? ([eE] [+-]? [0-9]+)?`.
pub open spec fn is_json_number(s: Seq<char>) -> bool {
    let a = int_start(s);
    let b = int_end(s);
    &&& b > a
    &&& (s[a] == '0' ==> b == a + 1)
    &&& (has_frac(s) ==> frac_end(s) > int_end(s) + 1)
    &&& (has_exp(s) ==> digits_end(s, exp_start(s)) > exp_start(s))
    &&& (if has_exp(s) { digits_end(s, exp_start(s)) } else { frac_end(s) }) == s.len()
}

pub proof fn lemma_digits_end(s: Seq<char>, i: int)
    requires
        0 <= i <= s.len(),
    ensures
        i <= digits_end(s, i) <= s.len(),
        forall|k: int| i <= k < digits_end(s, i) ==> is_digit(s[k]),
        digits_end(s, i) < s.len() ==> !is_digit(s[digits_end(s, i)]),
    decreases s.len() - i,
{
    if i < s.len() && is_digit(s[i]) {
        lemma_digits_end(s, i + 1);
    }
}

pub proof fn lemma_digits_end_all(s: Seq<char>, i: int)
    requires
        0 <= i <= s.len(),
        forall|k: int| i <= k < s.len() ==> is_digit(#[trigger] s[k]),
    ensures
        digits_end(s, i) == s.len(),
    decreases s.len() - i,
{
    if i < s.len() {
        lemma_digits_end_all(s, i + 1);
    }
}

/// A JSON number literal holds no newline.
pub proof fn lemma_number_one_line(s: Seq<char>)
    requires
        is_json_number(s),
    ensures
        forall|k: int| 0 <= k < s.len() ==> s[k] != '\n',
{
    let a = int_start(s);
    let b = int_end(s);
    lemma_digits_end(s, a);
    let c = frac_end(s);
    if has_frac(s) {
        lemma_digits_end(s, b + 1);
    }
    if has_exp(s) {
        lemma_digits_end(s, exp_start(s));
    }
    assert forall|k: int| 0 <= k < s.len() implies s[k] != '\n' by {
        if k < a {
        } else if k < b {
        } else if k < c {
            if k > b {
            }
        } else {
        }
    }
}

/// Finds the end of the run of digits that starts at `i`.
fn scan_digits(s: &str, n: usize, i: usize) -> (r: usize)
    requires
        n == s@.len(),
        i <= n,
    ensures
        r == digits_end(s@, i as int),
{
    let mut j = i;
    while j < n
        invariant
            n == s@.len(),
            i <= j <= n,
            digits_end(s@, i as int) == digits_end(s@, j as int),
        decreases n - j,
    {
        let c = s.get_char(j);
        if !('0' <= c && c <= '9') {
            return j;
        }
        j = j + 1;
    }
    j
}

/// Tells whether a text is a JSON number literal.
pub fn is_number_text(s: &str) -> (r: bool)
    ensures
        r == is_json_number(s@),
{
    let n: usize = s.unicode_len();
    let a: usize = if n > 0 && s.get_char(0) == '-' { 1 } else { 0 };
    let b = scan_digits(s, n, a);
    proof {
        lemma_digits_end(s@, a as int);
    }
    if b <= a {
        return false;
    }
    if s.get_char(a) == '0' && b != a + 1 {
        return false;
    }
    let mut c = b;
    if b < n && s.get_char(b) == '.' {
        c = scan_digits(s, n, b + 1);
        proof {
            lemma_digits_end(s@, b + 1);
        }
        if c <= b + 1 {
            return false;
        }
    }
    if c < n && (s.get_char(c) == 'e' || s.get_char(c) == 'E') {
        let d: usize = if c + 1 < n && (s.get_char(c + 1) == '+' || s.get_char(c + 1) == '-') {
            c + 2
        } else {
            c + 1
        };
        let e = scan_digits(s, n, d);
        proof {
            lemma_digits_end(s@, d as int);
        }
        e > d && e == n
    } else {
        c == n
    }
}

} // verus!
