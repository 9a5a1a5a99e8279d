//! The attributes of a single token.
use vstd::prelude::*;
use crate::text::{chars_of, is_word_char, joined, lower_of, lowercase, string_of, word_char};
use crate::vocab::{is_listed, listed, DIRECTIONS, STREET_SUFFIXES};

verus! {

/// A named feature with its weight; the weight is 0 or 1.
pub struct Attribute {
    pub name: String,
    pub weight: u8,
}

impl DeepView for Attribute {
    type V = (Seq<char>, u8);

    open spec fn deep_view(&self) -> (Seq<char>, u8) {
        (self.name@, self.weight)
    }
}

pub open spec fn flag(b: bool) -> u8 {
    if b {
        1
    } else {
        0
    }
}

/// Tokens kept as they are by cleaning: `&`, `#` and the one-half sign.
pub open spec fn is_literal_token(t: Seq<char>) -> bool {
    t == seq!['&'] || t == seq!['#'] || t == seq!['\u{bd}']
}

/// A dot or a word character: what cleaning keeps at a token's end.
pub open spec fn is_kept(c: char) -> bool {
    c == '.' || is_word_char(c)
}

/// The end of the run of non-word characters that starts at `i`.
pub open spec fn lead_end(t: Seq<char>, i: int) -> int
    decreases t.len() - i,
{
    if 0 <= i < t.len() && !is_word_char(t[i]) {
        lead_end(t, i + 1)
    } else {
        i
    }
}

/// The start of the run, ending at `j`, of characters that are neither dots nor word characters.
pub open spec fn tail_start(t: Seq<char>, j: int) -> int
    decreases j,
{
    if 0 < j <= t.len() && !is_kept(t[j - 1]) {
        tail_start(t, j - 1)
    } else {
        j
    }
}

/// The token without its leading non-word characters and its trailing characters that are
/// neither dots nor word characters.
pub open spec fn clean_form(t: Seq<char>) -> Seq<char> {
    if is_literal_token(t) {
        t
    } else {
        let l = lead_end(t, 0);
        let r = tail_start(t, t.len() as int);
        if l < r {
            t.subrange(l, r)
        } else {
            seq![]
        }
    }
}

/// `s` without its dots.
pub open spec fn drop_dots(s: Seq<char>) -> Seq<char>
    decreases s.len(),
{
    if s.len() == 0 {
        s
    } else if s.last() == '.' {
        drop_dots(s.drop_last())
    } else {
        drop_dots(s.drop_last()).push(s.last())
    }
}

/// The lookup form of a token: its clean form, lower-cased, without dots.
pub open spec fn abbrev_form(t: Seq<char>) -> Seq<char> {
    drop_dots(lower_of(clean_form(t)))
}

pub open spec fn is_digit(c: char) -> bool {
    '0' <= c && c <= '9'
}

pub open spec fn all_digits(a: Seq<char>) -> bool {
    a.len() > 0 && forall|k: int| 0 <= k < a.len() ==> is_digit(#[trigger] a[k])
}

pub open spec fn has_digit(a: Seq<char>) -> bool {
    exists|k: int| 0 <= k < a.len() && is_digit(#[trigger] a[k])
}

pub open spec fn has_non_digit(a: Seq<char>) -> bool {
    exists|k: int| 0 <= k < a.len() && !is_digit(#[trigger] a[k])
}

pub open spec fn digit_class(a: Seq<char>) -> Seq<char> {
    if all_digits(a) {
        "all_digits"@
    } else if has_digit(a) {
        "some_digits"@
    } else {
        "no_digits"@
    }
}

/// The start of the run of `0` characters that ends at `j`.
pub open spec fn zeros_start(a: Seq<char>, j: int) -> int
    decreases j,
{
    if 0 < j <= a.len() && a[j - 1] == '0' {
        zeros_start(a, j - 1)
    } else {
        j
    }
}

pub open spec fn trailing_zeros(a: Seq<char>) -> Seq<char> {
    a.subrange(zeros_start(a, a.len() as int), a.len() as int)
}

pub open spec fn digit_char(d: nat) -> char {
    if d == 0 { '0' }
    else if d == 1 { '1' }
    else if d == 2 { '2' }
    else if d == 3 { '3' }
    else if d == 4 { '4' }
    else if d == 5 { '5' }
    else if d == 6 { '6' }
    else if d == 7 { '7' }
    else if d == 8 { '8' }
    else { '9' }
}

/// The decimal digits of `n`.
pub open spec fn decimal(n: nat) -> Seq<char>
    decreases n,
{
    if n < 10 {
        seq![digit_char(n)]
    } else {
        decimal(n / 10).push(digit_char(n % 10))
    }
}

/// Whether some character after the first is neither a dot nor a word character.
pub open spec fn ends_in_punct(t: Seq<char>) -> bool {
    exists|j: int| 1 <= j < t.len() && !is_kept(#[trigger] t[j])
}

pub open spec fn is_vowel(c: char) -> bool {
    c == 'a' || c == 'e' || c == 'i' || c == 'o' || c == 'u'
}

/// Whether some character after the first is a vowel.
pub open spec fn has_late_vowel(a: Seq<char>) -> bool {
    exists|k: int| 1 <= k < a.len() && is_vowel(#[trigger] a[k])
}

/// The attributes of raw token `t`, given `lowered`, the lower-cased form of its clean form.
pub open spec fn attrs_with(t: Seq<char>, lowered: Seq<char>) -> Seq<(Seq<char>, u8)> {
    let clean = clean_form(t);
    let a = drop_dots(lowered);
    seq![
        ("abbrev"@, flag(clean.len() > 0 && clean.last() == '.')),
        ("digits:"@ + digit_class(a), 1u8),
        if has_non_digit(a) {
            ("word:"@ + a, 1u8)
        } else {
            ("word"@, 0u8)
        },
        if all_digits(a) {
            ("trailing.zeros:"@ + trailing_zeros(a), 1u8)
        } else {
            ("trailing.zeros"@, 0u8)
        },
        (if all_digits(a) {
            "length:d:"@
        } else {
            "length:w:"@
        } + decimal(a.len()), 1u8),
        if ends_in_punct(t) {
            ("endsinpunc:"@ + seq![t.last()], 1u8)
        } else {
            ("endsinpunc"@, 0u8)
        },
        ("directional"@, flag(listed(DIRECTIONS@, a))),
        ("street_name"@, flag(listed(STREET_SUFFIXES@, a))),
        ("has.vowels"@, flag(has_late_vowel(a))),
    ]
}

/// The attributes of raw token `t`.
pub open spec fn token_attrs(t: Seq<char>) -> Seq<(Seq<char>, u8)> {
    attrs_with(t, lower_of(clean_form(t)))
}

fn is_kept_exec(c: char) -> (r: bool)
    ensures
        r == is_kept(c),
{
    c == '.' || word_char(c)
}

/// The clean form of token `t`.
pub fn clean_token(t: &Vec<char>) -> (r: Vec<char>)
    ensures
        r@ == clean_form(t@),
{
    if t.len() == 1 && (t[0] == '&' || t[0] == '#' || t[0] == '\u{bd}') {
        assert(t@ =~= seq![t@[0]]);
        return t.clone();
    }
    assert(!is_literal_token(t@)) by {
        if is_literal_token(t@) {
            assert(t@.len() == 1 && t@[0] == t@[0]);
        }
    }
    let mut l: usize = 0;
    while l < t.len() && !word_char(t[l])
        invariant
            l <= t@.len(),
            lead_end(t@, 0) == lead_end(t@, l as int),
        decreases t@.len() - l,
    {
        l += 1;
    }
    let mut r: usize = t.len();
    while r > 0 && !is_kept_exec(t[r - 1])
        invariant
            r <= t@.len(),
            tail_start(t@, t@.len() as int) == tail_start(t@, r as int),
        decreases r,
    {
        r -= 1;
    }
    let mut out: Vec<char> = Vec::new();
    if l < r {
        let mut i: usize = l;
        while i < r
            invariant
                l <= i <= r <= t@.len(),
                out@ == t@.subrange(l as int, i as int),
            decreases r - i,
        {
            out.push(t[i]);
            i += 1;
            assert(out@ =~= t@.subrange(l as int, i as int));
        }
    } else {
        assert(out@ =~= seq![]);
    }
    out
}

/// `s` without its dots.
pub fn remove_dots(s: &Vec<char>) -> (r: Vec<char>)
    ensures
        r@ == drop_dots(s@),
{
    let mut r: Vec<char> = Vec::new();
    let mut i: usize = 0;
    assert(s@.take(0) =~= seq![]);
    while i < s.len()
        invariant
            i <= s@.len(),
            r@ == drop_dots(s@.take(i as int)),
        decreases s@.len() - i,
    {
        assert(s@.take(i + 1).drop_last() =~= s@.take(i as int));
        if s[i] != '.' {
            r.push(s[i]);
        }
        i += 1;
    }
    assert(s@.take(i as int) =~= s@);
    r
}

fn push_decimal(out: &mut Vec<char>, n: usize)
    ensures
        final(out)@ == old(out)@ + decimal(n as nat),
    decreases n,
{
    if n >= 10 {
        push_decimal(out, n / 10);
    }
    let d = n % 10;
    let c = if d == 0 { '0' }
        else if d == 1 { '1' }
        else if d == 2 { '2' }
        else if d == 3 { '3' }
        else if d == 4 { '4' }
        else if d == 5 { '5' }
        else if d == 6 { '6' }
        else if d == 7 { '7' }
        else if d == 8 { '8' }
        else { '9' };
    out.push(c);
    assert(final(out)@ =~= old(out)@ + decimal(n as nat));
}

pub(crate) fn push_attr(v: &mut Vec<Attribute>, name: String, weight: u8)
    ensures
        final(v).deep_view() == old(v).deep_view().push((name@, weight)),
{
    v.push(Attribute { name, weight });
    assert(final(v).deep_view() =~= old(v).deep_view().push((name@, weight)));
}

/// The attributes of raw token `token`, given `lowered`, the lower-cased form of its clean form.
pub fn token_features_lowered(token: &str, lowered: &str) -> (r: Vec<Attribute>)
    ensures
        r.deep_view() == attrs_with(token@, lowered@),
{
    let t = chars_of(token);
    let clean = clean_token(&t);
    let a = remove_dots(&chars_of(lowered));
    let mut any_digit = false;
    let mut any_other = false;
    let mut vowel = false;
    let mut i: usize = 0;
    while i < a.len()
        invariant
            i <= a@.len(),
            any_digit == exists|k: int| 0 <= k < i && is_digit(#[trigger] a@[k]),
            any_other == exists|k: int| 0 <= k < i && !is_digit(#[trigger] a@[k]),
            vowel == exists|k: int| 1 <= k < i && is_vowel(#[trigger] a@[k]),
        decreases a@.len() - i,
    {
        let c = a[i];
        if '0' <= c && c <= '9' {
            any_digit = true;
        } else {
            any_other = true;
        }
        if i >= 1 && (c == 'a' || c == 'e' || c == 'i' || c == 'o' || c == 'u') {
            vowel = true;
        }
        i += 1;
    }
    let all = a.len() > 0 && !any_other;
    let mut punct = false;
    let mut j: usize = 1;
    while j < t.len()
        invariant
            1 <= j,
            punct == exists|k: int| 1 <= k < j && k < t@.len() && !is_kept(#[trigger] t@[k]),
        decreases t@.len() - j,
    {
        if !is_kept_exec(t[j]) {
            punct = true;
        }
        j += 1;
    }
    let mut r: Vec<Attribute> = Vec::new();
    let ends_dot = clean.len() > 0 && clean[clean.len() - 1] == '.';
    push_attr(&mut r, "abbrev".to_owned(), if ends_dot { 1 } else { 0 });
    let class = if all {
        "digits:all_digits".to_owned()
    } else if any_digit {
        "digits:some_digits".to_owned()
    } else {
        "digits:no_digits".to_owned()
    };
    assert("digits:all_digits"@ == "digits:"@ + "all_digits"@) by {
        reveal_strlit("digits:all_digits");
        reveal_strlit("digits:");
        reveal_strlit("all_digits");
    }
    assert("digits:some_digits"@ == "digits:"@ + "some_digits"@) by {
        reveal_strlit("digits:some_digits");
        reveal_strlit("digits:");
        reveal_strlit("some_digits");
    }
    assert("digits:no_digits"@ == "digits:"@ + "no_digits"@) by {
        reveal_strlit("digits:no_digits");
        reveal_strlit("digits:");
        reveal_strlit("no_digits");
    }
    push_attr(&mut r, class, 1);
    if any_other {
        push_attr(&mut r, joined("word:", &a), 1);
    } else {
        push_attr(&mut r, "word".to_owned(), 0);
    }
    if all {
        let mut z: usize = a.len();
        while z > 0 && a[z - 1] == '0'
            invariant
                z <= a@.len(),
                zeros_start(a@, a@.len() as int) == zeros_start(a@, z as int),
            decreases z,
        {
            z -= 1;
        }
        let mut zeros: Vec<char> = Vec::new();
        let mut k: usize = z;
        while k < a.len()
            invariant
                z <= k <= a@.len(),
                zeros@ == a@.subrange(z as int, k as int),
            decreases a@.len() - k,
        {
            zeros.push(a[k]);
            k += 1;
            assert(zeros@ =~= a@.subrange(z as int, k as int));
        }
        push_attr(&mut r, joined("trailing.zeros:", &zeros), 1);
    } else {
        push_attr(&mut r, "trailing.zeros".to_owned(), 0);
    }
    let mut len_digits: Vec<char> = Vec::new();
    push_decimal(&mut len_digits, a.len());
    assert(len_digits@ =~= decimal(a@.len()));
    push_attr(&mut r, joined(if all { "length:d:" } else { "length:w:" }, &len_digits), 1);
    if punct {
        let last = vec![t[t.len() - 1]];
        assert(last@ =~= seq![token@.last()]);
        push_attr(&mut r, joined("endsinpunc:", &last), 1);
    } else {
        push_attr(&mut r, "endsinpunc".to_owned(), 0);
    }
    let dir = is_listed(&chars_of(DIRECTIONS), &a);
    push_attr(&mut r, "directional".to_owned(), if dir { 1 } else { 0 });
    let street = is_listed(&chars_of(STREET_SUFFIXES), &a);
    push_attr(&mut r, "street_name".to_owned(), if street { 1 } else { 0 });
    push_attr(&mut r, "has.vowels".to_owned(), if vowel { 1 } else { 0 });
    assert(r.deep_view() =~= attrs_with(token@, lowered@));
    r
}

/// The attributes of token `token`.
pub fn token_features(token: &str) -> (r: Vec<Attribute>)
    ensures
        r.deep_view() == token_attrs(token@),
{
    let clean = string_of(&clean_token(&chars_of(token)));
    let lowered = lowercase(clean.as_str());
    token_features_lowered(token, lowered.as_str())
}

} // verus!
