use vstd::prelude::*;
use vstd::string::*;

verus! {

/// Relies on String::push: appends one character.
#[verifier::external_body]
pub(crate) fn push_char(s: &mut String, c: char)
    ensures
        final(s)@ == old(s)@.push(c),
{
    s.push(c)
}

pub open spec fn digit_char(d: nat) -> char {
    if d == 0 { '0' } else if d == 1 { '1' } else if d == 2 { '2' } else if d == 3 { '3' }
    else if d == 4 { '4' } else if d == 5 { '5' } else if d == 6 { '6' } else if d == 7 { '7' }
    else if d == 8 { '8' } else { '9' }
}

/// The decimal digits of `n`, most significant first, with no leading zero.
pub open spec fn decimal(n: nat) -> Seq<char>
    decreases n,
{
    if n < 10 {
        seq![digit_char(n)]
    } else {
        decimal(n / 10).push(digit_char(n % 10))
    }
}

fn digit(d: u16) -> (c: char)
    requires
        d < 10,
    ensures
        c == digit_char(d as nat),
{
    if d == 0 { '0' } else if d == 1 { '1' } else if d == 2 { '2' } else if d == 3 { '3' }
    else if d == 4 { '4' } else if d == 5 { '5' } else if d == 6 { '6' } else if d == 7 { '7' }
    else if d == 8 { '8' } else { '9' }
}

/// Appends the decimal digits of `n`.
pub fn push_decimal(out: &mut String, n: u16)
    ensures
        final(out)@ == old(out)@ + decimal(n as nat),
    decreases n,
{
    if n >= 10 {
        push_decimal(out, n / 10);
    }
    push_char(out, digit(n % 10));
    assert(final(out)@ =~= old(out)@ + decimal(n as nat));
}

/// The position of the first `c` in `s`, if any.
pub open spec fn first_index_of(s: Seq<char>, c: char) -> Option<int> {
    if exists|i: int| 0 <= i < s.len() && s[i] == c {
        Some(choose|i: int| 0 <= i < s.len() && s[i] == c && forall|j: int| 0 <= j < i ==> s[j] != c)
    } else {
        None
    }
}

/// The characters of `s` before the first `c`, or all of `s` when there is none.
pub open spec fn before_first(s: Seq<char>, c: char) -> Seq<char> {
    match first_index_of(s, c) {
        Some(i) => s.subrange(0, i),
        None => s,
    }
}

pub fn find_char(s: &str, c: char) -> (r: Option<usize>)
    ensures
        match r {
            Some(i) => i < s@.len() && first_index_of(s@, c) == Some(i as int),
            None => first_index_of(s@, c).is_none(),
        },
{
    let n = s.unicode_len();
    let mut i: usize = 0;
    while i < n
        invariant
            n == s@.len(),
            0 <= i <= n,
            forall|j: int| 0 <= j < i ==> s@[j] != c,
        decreases n - i,
    {
        if s.get_char(i) == c {
            let ghost k = choose|k: int| 0 <= k < s@.len() && s@[k] == c && forall|j: int| 0 <= j < k ==> s@[j] != c;
            assert(0 <= i < s@.len() && s@[i as int] == c && forall|j: int| 0 <= j < i ==> s@[j] != c);
            assert(k == i) by {
                if k < i {
                    assert(s@[k] != c);
                } else if k > i {
                    assert(s@[i as int] != c);
                }
            }
            return Some(i);
        }
        i = i + 1;
    }
    None
}

/// The part of `s` before the first `c`.
pub fn prefix_before(s: &str, c: char) -> (r: String)
    ensures
        r@ == before_first(s@, c),
{
    match find_char(s, c) {
        Some(i) => String::from_str(s.substring_char(0, i)),
        None => String::from_str(s),
    }
}

/// Parameters after a `;` do not change what stands before it: `t;params`
/// and `t` have the same part before the first `;`.
pub proof fn lemma_parameters_ignored(t: Seq<char>, params: Seq<char>)
    requires
        !t.contains(';'),
    ensures
        before_first(t + seq![';'] + params, ';') == t,
        before_first(t, ';') == t,
{
    let s = t + seq![';'] + params;
    let n = t.len() as int;
    assert(s[n] == ';');
    let i = first_index_of(s, ';').unwrap();
    assert(i == n) by {
        if i < n {
            assert(t[i] == ';');
        } else if i > n {
            assert(s[n] != ';');
        }
    }
    assert(s.subrange(0, n) =~= t);
    assert(!(exists|i: int| 0 <= i < t.len() && t[i] == ';'));
}

/// Characters with the Unicode `White_Space` property, as `char::is_whitespace`
/// documents them.
pub open spec fn is_white_space(c: char) -> bool {
    c == '\t' || c == '\n' || c == '\u{0B}' || c == '\u{0C}' || c == '\r' || c == ' '
        || c == '\u{85}' || c == '\u{A0}' || c == '\u{1680}' || ('\u{2000}' <= c && c <= '\u{200A}')
        || c == '\u{2028}' || c == '\u{2029}' || c == '\u{202F}' || c == '\u{205F}' || c == '\u{3000}'
}

pub open spec fn trim_start_spec(s: Seq<char>) -> Seq<char>
    decreases s.len(),
{
    if s.len() > 0 && is_white_space(s[0]) {
        trim_start_spec(s.drop_first())
    } else {
        s
    }
}

pub open spec fn trim_end_spec(s: Seq<char>) -> Seq<char>
    decreases s.len(),
{
    if s.len() > 0 && is_white_space(s.last()) {
        trim_end_spec(s.drop_last())
    } else {
        s
    }
}

/// `s` without leading and trailing white space.
pub open spec fn trim_spec(s: Seq<char>) -> Seq<char> {
    trim_end_spec(trim_start_spec(s))
}

/// Relies on str::trim: leading and trailing white space removed.
#[verifier::external_body]
pub(crate) fn trim(s: &str) -> (r: &str)
    ensures
        r@ == trim_spec(s@),
{
    s.trim()
}

} // verus!
