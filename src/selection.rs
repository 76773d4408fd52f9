use vstd::prelude::*;
use vstd::string::*;

use crate::models::Match;

verus! {

/// Why no item was selected.
pub enum SelectError {
    /// The search found nothing.
    NoMatches,
    /// The user left the picker without choosing.
    Cancelled,
    /// The picker's answer names no candidate.
    InvalidChoice,
}

/// The first step of a selection.
pub enum Selection {
    /// The one match, taken without asking.
    Picked(Match),
    /// Two or more matches: the user must choose among them with the picker.
    Choose(Vec<Match>),
}

/// Starts the selection among `matches`: none is an error, one is taken at
/// once, and two or more go to the picker.
pub fn select_item(matches: Vec<Match>) -> (r: Result<Selection, SelectError>)
    ensures
        matches@.len() == 0 ==> r matches Err(SelectError::NoMatches),
        matches@.len() == 1 ==> (r matches Ok(Selection::Picked(m)) && m == matches@[0]),
        matches@.len() >= 2 ==> (r matches Ok(Selection::Choose(ms)) && ms@ == matches@),
{
    if matches.len() == 0 {
        Err(SelectError::NoMatches)
    } else if matches.len() == 1 {
        let mut matches = matches;
        Ok(Selection::Picked(matches.remove(0)))
    } else {
        Ok(Selection::Choose(matches))
    }
}

/// The decimal digits of `n`.
pub open spec fn decimal_of(n: nat) -> Seq<char>
    decreases n,
{
    if n < 10 {
        seq![digit_char(n)]
    } else {
        decimal_of(n / 10).push(digit_char(n % 10))
    }
}

pub open spec fn digit_char(d: nat) -> char {
    if d == 0 { '0' } else if d == 1 { '1' } else if d == 2 { '2' } else if d == 3 { '3' }
    else if d == 4 { '4' } else if d == 5 { '5' } else if d == 6 { '6' } else if d == 7 { '7' }
    else if d == 8 { '8' } else { '9' }
}

/// The text of the single digit `d`.
fn digit_text(d: usize) -> (r: String)
    requires
        d < 10,
    ensures
        r@ == seq![digit_char(d as nat)],
{
    let r = match d {
        0 => {
            proof {
                reveal_strlit("0");
            }
            String::from_str("0")
        },
        1 => {
            proof {
                reveal_strlit("1");
            }
            String::from_str("1")
        },
        2 => {
            proof {
                reveal_strlit("2");
            }
            String::from_str("2")
        },
        3 => {
            proof {
                reveal_strlit("3");
            }
            String::from_str("3")
        },
        4 => {
            proof {
                reveal_strlit("4");
            }
            String::from_str("4")
        },
        5 => {
            proof {
                reveal_strlit("5");
            }
            String::from_str("5")
        },
        6 => {
            proof {
                reveal_strlit("6");
            }
            String::from_str("6")
        },
        7 => {
            proof {
                reveal_strlit("7");
            }
            String::from_str("7")
        },
        8 => {
            proof {
                reveal_strlit("8");
            }
            String::from_str("8")
        },
        _ => {
            proof {
                reveal_strlit("9");
            }
            String::from_str("9")
        },
    };
    assert(r@ =~= seq![digit_char(d as nat)]);
    r
}

/// The decimal digits of `n`, with no sign and no padding.
fn decimal_text(n: usize) -> (r: String)
    ensures
        r@ == decimal_of(n as nat),
    decreases n,
{
    if n < 10 {
        digit_text(n)
    } else {
        let mut s = decimal_text(n / 10);
        let last = digit_text(n % 10);
        s.append(last.as_str());
        assert(s@ =~= decimal_of(n as nat));
        s
    }
}

/// What the picker shows for a match without a username.
pub open spec fn no_username() -> Seq<char> {
    seq!['(', 'n', 'o', ' ', 'u', 's', 'e', 'r', 'n', 'a', 'm', 'e', ')']
}

/// The picker line of match `m` at place `i`: `i|[vault] title — username`.
pub open spec fn candidate_line(i: nat, m: Match) -> Seq<char> {
    decimal_of(i) + seq!['|', '['] + m.vault_name@ + seq![']', ' '] + m.title@ + seq![' ', '\u{2014}', ' ']
        + match m.username {
        Some(u) => u@,
        None => no_username(),
    }
}

/// The picker input for the first `k` of `ms`: their lines, one per line.
pub open spec fn candidate_text(ms: Seq<Match>, k: nat) -> Seq<char>
    decreases k,
{
    if k == 0 {
        Seq::empty()
    } else if k == 1 {
        candidate_line(0, ms[0])
    } else {
        candidate_text(ms, (k - 1) as nat) + seq!['\n'] + candidate_line((k - 1) as nat, ms[k - 1])
    }
}

fn line_for(i: usize, m: &Match) -> (r: String)
    ensures
        r@ == candidate_line(i as nat, *m),
{
    let mut s = decimal_text(i);
    s.append("|[");
    s.append(m.vault_name.as_str());
    s.append("] ");
    s.append(m.title.as_str());
    s.append(" \u{2014} ");
    match &m.username {
        Some(u) => s.append(u.as_str()),
        None => s.append("(no username)"),
    }
    proof {
        reveal_strlit("|[");
        reveal_strlit("] ");
        reveal_strlit(" \u{2014} ");
        reveal_strlit("(no username)");
        assert(s@ =~= candidate_line(i as nat, *m));
    }
    s
}

/// The text handed to the picker: one line per match, in order, each
/// starting with the match's place.
pub fn candidate_lines(matches: &Vec<Match>) -> (r: String)
    ensures
        r@ == candidate_text(matches@, matches@.len()),
{
    let mut s = String::new();
    let mut i: usize = 0;
    while i < matches.len()
        invariant
            i <= matches@.len(),
            s@ == candidate_text(matches@, i as nat),
        decreases matches@.len() - i,
    {
        if i > 0 {
            s.append("\n");
            proof {
                reveal_strlit("\n");
            }
        }
        let line = line_for(i, &matches[i]);
        s.append(line.as_str());
        proof {
            if i == 0 {
                assert(s@ =~= candidate_text(matches@, 1));
            } else {
                assert(s@ =~= candidate_text(matches@, (i + 1) as nat));
            }
        }
        i = i + 1;
    }
    s
}

/// Unicode White_Space, the characters that `str::trim` drops.
pub open spec fn is_space(c: char) -> bool {
    ||| '\u{9}' <= c <= '\u{d}'
    ||| c == ' '
    ||| c == '\u{85}'
    ||| c == '\u{a0}'
    ||| c == '\u{1680}'
    ||| '\u{2000}' <= c <= '\u{200a}'
    ||| c == '\u{2028}'
    ||| c == '\u{2029}'
    ||| c == '\u{202f}'
    ||| c == '\u{205f}'
    ||| c == '\u{3000}'
}

fn is_space_char(c: char) -> (r: bool)
    ensures
        r == is_space(c),
{
    ('\u{9}' <= c && c <= '\u{d}') || c == ' ' || c == '\u{85}' || c == '\u{a0}' || c == '\u{1680}'
        || ('\u{2000}' <= c && c <= '\u{200a}') || c == '\u{2028}' || c == '\u{2029}' || c == '\u{202f}'
        || c == '\u{205f}' || c == '\u{3000}'
}

pub open spec fn is_digit(c: char) -> bool {
    '0' <= c <= '9'
}

/// Where the first `|` at or after `i` stands, or the length of `s` if none does.
pub open spec fn bar_index(s: Seq<char>, i: int) -> int
    decreases s.len() - i,
{
    if i >= s.len() || i < 0 {
        s.len() as int
    } else if s[i] == '|' {
        i
    } else {
        bar_index(s, i + 1)
    }
}

/// The first place in `[i, end)` that holds no space, or `end`.
pub open spec fn skip_spaces(s: Seq<char>, i: int, end: int) -> int
    decreases end - i,
{
    if i >= end || i < 0 || end > s.len() {
        i
    } else if is_space(s[i]) {
        skip_spaces(s, i + 1, end)
    } else {
        i
    }
}

/// The end of `[start, j)` once the spaces at its end are dropped.
pub open spec fn trim_back(s: Seq<char>, start: int, j: int) -> int
    decreases j - start,
{
    if j <= start || j > s.len() {
        j
    } else if is_space(s[j - 1]) {
        trim_back(s, start, j - 1)
    } else {
        j
    }
}

/// The number written in decimal by the characters in `[a, b)`.
pub open spec fn digits_value(s: Seq<char>, a: int, b: int) -> int
    decreases b - a,
{
    if b <= a {
        0
    } else {
        digits_value(s, a, b - 1) * 10 + (s[b - 1] as int - '0' as int)
    }
}

/// Where the text before the first `|` of `s` ends once trailing white space is dropped.
pub open spec fn digits_end(s: Seq<char>) -> int {
    let p = bar_index(s, 0);
    trim_back(s, skip_spaces(s, 0, p), p)
}

/// Where the digits of the text before the first `|` of `s` start: after
/// leading white space and after one `+` sign, if there is one.
pub open spec fn digits_start(s: Seq<char>) -> int {
    let a = skip_spaces(s, 0, bar_index(s, 0));
    if a < digits_end(s) && s[a] == '+' {
        a + 1
    } else {
        a
    }
}

/// The number that a picker answer names: the text before its first `|`,
/// with surrounding white space dropped and after one optional `+`, must be a
/// non-empty run of decimal digits whose value fits in `usize`.
pub open spec fn answer_index(s: Seq<char>) -> Option<int> {
    let d = digits_start(s);
    let b = digits_end(s);
    if d < b && (forall|k: int| d <= k < b ==> is_digit(#[trigger] s[k])) && digits_value(s, d, b) <= usize::MAX {
        Some(digits_value(s, d, b))
    } else {
        None
    }
}

proof fn lemma_digits_grow(s: Seq<char>, a: int, i: int, b: int)
    requires
        a <= i <= b <= s.len(),
        forall|k: int| a <= k < b ==> is_digit(#[trigger] s[k]),
    ensures
        digits_value(s, a, i) <= digits_value(s, a, b),
        0 <= digits_value(s, a, i),
    decreases b - i,
{
    if i < b {
        lemma_digits_grow(s, a, i + 1, b);
        assert(is_digit(s[i]));
        lemma_digits_grow(s, a, i, i);
    } else if i > a {
        lemma_digits_nonneg(s, a, i);
    }
}

proof fn lemma_digits_nonneg(s: Seq<char>, a: int, b: int)
    requires
        a <= b <= s.len(),
        forall|k: int| a <= k < b ==> is_digit(#[trigger] s[k]),
    ensures
        0 <= digits_value(s, a, b),
    decreases b - a,
{
    if a < b {
        lemma_digits_nonneg(s, a, b - 1);
        assert(is_digit(s[b - 1]));
    }
}

/// The place that the picker's answer `output` names, if it names one.
pub fn parse_choice(output: &str) -> (r: Option<usize>)
    ensures
        match answer_index(output@) {
            Some(n) => (r matches Some(i) && i as int == n),
            None => r is None,
        },
{
    let ghost s = output@;
    let n = output.unicode_len();
    let mut p: usize = 0;
    while p < n && output.get_char(p) != '|'
        invariant
            s == output@,
            n == s.len(),
            p <= n,
            bar_index(s, 0) == bar_index(s, p as int),
        decreases n - p,
    {
        p = p + 1;
    }
    let mut a: usize = 0;
    while a < p && is_space_char(output.get_char(a))
        invariant
            s == output@,
            n == s.len(),
            p <= n,
            p as int == bar_index(s, 0),
            a <= p,
            skip_spaces(s, 0, p as int) == skip_spaces(s, a as int, p as int),
        decreases p - a,
    {
        a = a + 1;
    }
    let mut b: usize = p;
    while b > a && is_space_char(output.get_char(b - 1))
        invariant
            s == output@,
            n == s.len(),
            p <= n,
            p as int == bar_index(s, 0),
            a as int == skip_spaces(s, 0, p as int),
            a <= b <= p,
            trim_back(s, a as int, p as int) == trim_back(s, a as int, b as int),
        decreases b - a,
    {
        b = b - 1;
    }
    assert(skip_spaces(s, a as int, p as int) == a as int);
    assert(trim_back(s, a as int, b as int) == b as int);
    assert(b as int == digits_end(s));
    let mut d: usize = a;
    if a < b && output.get_char(a) == '+' {
        d = a + 1;
    }
    assert(d as int == digits_start(s));
    if d >= b {
        proof {
            lemma_blank_answer(s);
        }
        return None;
    }
    let mut i: usize = d;
    while i < b
        invariant
            s == output@,
            n == s.len(),
            d <= i <= b <= n,
            d as int == digits_start(s),
            b as int == digits_end(s),
            forall|k: int| d <= k < i ==> is_digit(#[trigger] s[k]),
        decreases b - i,
    {
        let c = output.get_char(i);
        if !('0' <= c && c <= '9') {
            assert(!is_digit(s[i as int]));
            return None;
        }
        i = i + 1;
    }
    let mut v: usize = 0;
    let mut j: usize = d;
    while j < b
        invariant
            s == output@,
            n == s.len(),
            d <= j <= b <= n,
            d as int == digits_start(s),
            b as int == digits_end(s),
            forall|k: int| d <= k < b ==> is_digit(#[trigger] s[k]),
            v as int == digits_value(s, d as int, j as int),
        decreases b - j,
    {
        let c = output.get_char(j);
        let e = (c as u32 - '0' as u32) as usize;
        assert(is_digit(s[j as int]));
        proof {
            lemma_digits_grow(s, d as int, j as int + 1, b as int);
        }
        if v > (usize::MAX - e) / 10 {
            proof {
                assert(digits_value(s, d as int, j as int + 1) == v * 10 + e);
                assert(v * 10 + e > usize::MAX) by (nonlinear_arith)
                    requires
                        v > (usize::MAX - e) / 10,
                        e <= 9,
                ;
            }
            return None;
        }
        assert(v * 10 + e <= usize::MAX) by (nonlinear_arith)
            requires
                v <= (usize::MAX - e) / 10,
                e <= 9,
        ;
        v = v * 10 + e;
        j = j + 1;
    }
    proof {
        lemma_digits_nonneg(s, d as int, b as int);
    }
    Some(v)
}

/// The match that the user chose: `answer` is what the picker gave back, or
/// `None` when the user left it without choosing.
pub fn resolve_choice(matches: Vec<Match>, answer: Option<&str>) -> (r: Result<Match, SelectError>)
    ensures
        answer is None ==> (r matches Err(SelectError::Cancelled)),
        answer matches Some(out) ==> match answer_index(out@) {
            Some(i) => if i < matches@.len() {
                (r matches Ok(m) && m == matches@[i])
            } else {
                (r matches Err(SelectError::InvalidChoice))
            },
            None => (r matches Err(SelectError::InvalidChoice)),
        },
{
    if let Some(out) = answer {
        match parse_choice(out) {
            Some(i) => if i < matches.len() {
                let mut matches = matches;
                Ok(matches.remove(i))
            } else {
                Err(SelectError::InvalidChoice)
            },
            None => Err(SelectError::InvalidChoice),
        }
    } else {
        Err(SelectError::Cancelled)
    }
}

/// An answer with no digit place before its first `|` names no place.
proof fn lemma_blank_answer(s: Seq<char>)
    requires
        digits_start(s) >= digits_end(s),
    ensures
        answer_index(s) is None,
{
}

proof fn lemma_digits_agree(s: Seq<char>, t: Seq<char>, a: int, b: int)
    requires
        a <= b,
        forall|k: int| a <= k < b ==> s[k] == t[k],
    ensures
        digits_value(s, a, b) == digits_value(t, a, b),
    decreases b - a,
{
    if a < b {
        lemma_digits_agree(s, t, a, b - 1);
    }
}

/// The decimal digits of `n` are digits, at least one, and read back as `n`.
proof fn lemma_decimal(n: nat)
    ensures
        decimal_of(n).len() >= 1,
        forall|k: int| 0 <= k < decimal_of(n).len() ==> is_digit(#[trigger] decimal_of(n)[k]),
        digits_value(decimal_of(n), 0, decimal_of(n).len() as int) == n,
    decreases n,
{
    let d = decimal_of(n);
    if n < 10 {
        assert(digits_value(d, 0, 0) == 0);
    } else {
        let h = decimal_of(n / 10);
        lemma_decimal(n / 10);
        assert(d == h.push(digit_char(n % 10)));
        lemma_digits_agree(d, h, 0, h.len() as int);
        assert(digits_value(d, 0, d.len() as int) == digits_value(d, 0, h.len() as int) * 10 + (d[h.len() as int] as int - '0' as int));
    }
}

proof fn lemma_bar_index(s: Seq<char>, j: int, l: int)
    requires
        0 <= j <= l < s.len(),
        s[l] == '|',
        forall|k: int| 0 <= k < l ==> s[k] != '|',
    ensures
        bar_index(s, j) == l,
    decreases l - j,
{
    if j < l {
        lemma_bar_index(s, j + 1, l);
    }
}

/// A picker answer that starts with the line of place `i` names `i`: the
/// place that the user picks maps back to the match shown there.
pub proof fn lemma_choice_round_trip(i: usize, m: Match, rest: Seq<char>)
    ensures
        answer_index(candidate_line(i as nat, m) + rest) == Some(i as int),
{
    let d = decimal_of(i as nat);
    let s = candidate_line(i as nat, m) + rest;
    lemma_decimal(i as nat);
    let l = d.len() as int;
    assert(forall|k: int| 0 <= k < l ==> s[k] == d[k]);
    assert(s[l] == '|');
    assert forall|k: int| 0 <= k < l implies s[k] != '|' by {
        assert(is_digit(d[k]));
    }
    lemma_bar_index(s, 0, l);
    assert(is_digit(s[0]));
    assert(skip_spaces(s, 0, l) == 0);
    assert(is_digit(s[l - 1]));
    assert(trim_back(s, 0, l) == l);
    assert(s[0] != '+');
    assert(digits_start(s) == 0 && digits_end(s) == l);
    assert forall|k: int| 0 <= k < l implies is_digit(#[trigger] s[k]) by {
        assert(is_digit(d[k]));
    }
    lemma_digits_agree(s, d, 0, l);
}

} // verus!
