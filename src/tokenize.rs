//! Splitting a free-form address into tokens.
use vstd::prelude::*;
use crate::text::{chars_of, is_space, is_space_spec, string_of_range};

verus! {

/// Whether an escaped ampersand (`&amp;` or `&#38;`) starts at position `i` of `s`.
pub open spec fn entity_at(s: Seq<char>, i: int) -> bool {
    &&& 0 <= i && i + 5 <= s.len()
    &&& s[i] == '&'
    &&& (s[i + 1] == 'a' && s[i + 2] == 'm' && s[i + 3] == 'p') || (s[i + 1] == '#' && s[i + 2]
        == '3' && s[i + 3] == '8')
    &&& s[i + 4] == ';'
}

/// `s` with every escaped ampersand, taken from left to right, replaced by `&`.
pub open spec fn unescape(s: Seq<char>) -> Seq<char>
    decreases s.len(),
{
    if s.len() == 0 {
        s
    } else if entity_at(s, 0) {
        seq!['&'] + unescape(s.skip(5))
    } else {
        seq![s[0]] + unescape(s.skip(1))
    }
}

/// The character classes that make up a word token.
pub enum CharClass {
    /// `(`, which may open a token.
    Open,
    /// Anything but white space, `,`, `;`, `#`, `&` and parentheses: a token's body.
    Body,
    /// `.`, `,`, `;`, `)` and line feeds, which may close a token.
    Close,
}

pub open spec fn in_class(k: CharClass, c: char) -> bool {
    match k {
        CharClass::Open => c == '(',
        CharClass::Body => !is_space_spec(c) && c != ',' && c != ';' && c != '#' && c != '&'
            && c != '(' && c != ')',
        CharClass::Close => c == '.' || c == ',' || c == ';' || c == ')' || c == '\n',
    }
}

/// The end of the longest run of characters of class `k` that starts at `i`.
pub open spec fn run_end(t: Seq<char>, i: int, k: CharClass) -> int
    decreases t.len() - i,
{
    if 0 <= i < t.len() && in_class(k, t[i]) {
        run_end(t, i + 1, k)
    } else {
        i
    }
}

/// Whether a word token starts at `s`: a run of `(`, then a body character.
pub open spec fn word_token_at(t: Seq<char>, s: int) -> bool {
    let p = run_end(t, s, CharClass::Open);
    p < t.len() && in_class(CharClass::Body, t[p])
}

/// Where the word token that starts at `s` ends: after its body and its closing run.
pub open spec fn word_token_end(t: Seq<char>, s: int) -> int {
    run_end(t, run_end(t, run_end(t, s, CharClass::Open), CharClass::Body), CharClass::Close)
}

pub proof fn lemma_run_end(t: Seq<char>, i: int, k: CharClass)
    requires
        0 <= i <= t.len(),
    ensures
        i <= run_end(t, i, k) <= t.len(),
        i < t.len() && in_class(k, t[i]) ==> i < run_end(t, i, k),
        forall|j: int| i <= j < run_end(t, i, k) ==> in_class(k, #[trigger] t[j]),
    decreases t.len() - i,
{
    if i < t.len() && in_class(k, t[i]) {
        lemma_run_end(t, i + 1, k);
    }
}

pub proof fn lemma_word_token_end(t: Seq<char>, s: int)
    requires
        0 <= s < t.len(),
        word_token_at(t, s),
    ensures
        s < word_token_end(t, s) <= t.len(),
{
    let p = run_end(t, s, CharClass::Open);
    lemma_run_end(t, s, CharClass::Open);
    lemma_run_end(t, p, CharClass::Body);
    lemma_run_end(t, run_end(t, p, CharClass::Body), CharClass::Close);
}

/// The tokens of `t` found by scanning from position `s`: at each position, a word token if
/// one starts there, else a lone `#` or `&`, else nothing and the scan moves on.
pub open spec fn tokens_from(t: Seq<char>, s: int) -> Seq<Seq<char>>
    decreases t.len() - s,
{
    if s < 0 || s >= t.len() {
        seq![]
    } else if word_token_at(t, s) {
        let e = word_token_end(t, s);
        proof {
            lemma_word_token_end(t, s);
        }
        seq![t.subrange(s, e)] + tokens_from(t, e)
    } else if t[s] == '#' || t[s] == '&' {
        seq![seq![t[s]]] + tokens_from(t, s + 1)
    } else {
        tokens_from(t, s + 1)
    }
}

/// The tokens of a raw address: escaped ampersands are replaced, then the text is scanned.
pub open spec fn address_tokens(s: Seq<char>) -> Seq<Seq<char>> {
    tokens_from(unescape(s), 0)
}

/// How many times `c` occurs in `t` from position `s` on.
pub open spec fn count_from(t: Seq<char>, c: char, s: int) -> nat
    decreases t.len() - s,
{
    if s < 0 || s >= t.len() {
        0
    } else {
        (if t[s] == c {
            1nat
        } else {
            0nat
        }) + count_from(t, c, s + 1)
    }
}

/// How many of the tokens `ts` are exactly `tok`.
pub open spec fn token_count(ts: Seq<Seq<char>>, tok: Seq<char>) -> nat
    decreases ts.len(),
{
    if ts.len() == 0 {
        0
    } else {
        (if ts[0] == tok {
            1nat
        } else {
            0nat
        }) + token_count(ts.drop_first(), tok)
    }
}

proof fn lemma_count_skip(t: Seq<char>, c: char, s: int, e: int)
    requires
        0 <= s <= e <= t.len(),
        forall|j: int| s <= j < e ==> t[j] != c,
    ensures
        count_from(t, c, s) == count_from(t, c, e),
    decreases e - s,
{
    if s < e {
        lemma_count_skip(t, c, s + 1, e);
    }
}

proof fn lemma_word_token_chars(t: Seq<char>, s: int)
    requires
        0 <= s < t.len(),
        word_token_at(t, s),
    ensures
        forall|j: int| s <= j < word_token_end(t, s) ==> t[j] != '#' && t[j] != '&',
{
    let p = run_end(t, s, CharClass::Open);
    let b = run_end(t, p, CharClass::Body);
    lemma_run_end(t, s, CharClass::Open);
    lemma_run_end(t, p, CharClass::Body);
    lemma_run_end(t, b, CharClass::Close);
    assert forall|j: int| s <= j < word_token_end(t, s) implies t[j] != '#' && t[j] != '&' by {
        if j < p {
            assert(in_class(CharClass::Open, t[j]));
        } else if j < b {
            assert(in_class(CharClass::Body, t[j]));
        } else {
            assert(in_class(CharClass::Close, t[j]));
        }
    }
}

/// `#` and `&` always stand alone: a token that holds one of them is that one character, and
/// there are as many such tokens as the scanned text holds of each.
proof fn lemma_hash_ampersand_alone(t: Seq<char>, s: int, c: char)
    requires
        0 <= s <= t.len(),
        c == '#' || c == '&',
    ensures
        token_count(tokens_from(t, s), seq![c]) == count_from(t, c, s),
        forall|k: int| #![trigger tokens_from(t, s)[k]]
            0 <= k < tokens_from(t, s).len() && tokens_from(t, s)[k].contains(c)
                ==> tokens_from(t, s)[k] == seq![c],
    decreases t.len() - s,
{
    let ts = tokens_from(t, s);
    if s < t.len() {
        if word_token_at(t, s) {
            let e = word_token_end(t, s);
            lemma_word_token_end(t, s);
            lemma_word_token_chars(t, s);
            lemma_hash_ampersand_alone(t, e, c);
            lemma_count_skip(t, c, s, e);
            let tok = t.subrange(s, e);
            assert(!tok.contains(c));
            assert(tok != seq![c]) by {
                assert(seq![c].contains(c)) by {
                    assert(seq![c][0] == c);
                }
            }
            assert(ts.drop_first() =~= tokens_from(t, e));
        } else if t[s] == '#' || t[s] == '&' {
            lemma_hash_ampersand_alone(t, s + 1, c);
            assert(ts.drop_first() =~= tokens_from(t, s + 1));
            if t[s] != c {
                assert(seq![t[s]] != seq![c]) by {
                    assert(seq![t[s]][0] != seq![c][0]);
                }
                assert(!seq![t[s]].contains(c)) by {
                    assert(seq![t[s]].len() == 1);
                }
            }
        } else {
            lemma_hash_ampersand_alone(t, s + 1, c);
        }
    }
}

/// Text with no escaped ampersand is left as it is.
pub proof fn lemma_unescape_plain(s: Seq<char>)
    requires
        forall|i: int| !entity_at(s, i),
    ensures
        unescape(s) == s,
    decreases s.len(),
{
    if s.len() > 0 {
        assert(!entity_at(s, 0));
        let rest = s.skip(1);
        assert forall|i: int| !entity_at(rest, i) by {
            assert(!entity_at(s, i + 1));
        }
        lemma_unescape_plain(rest);
        assert(seq![s[0]] + rest =~= s);
    }
}

/// In an address with no escaped ampersand, `#` and `&` always stand alone: a token that holds
/// one of them is that one character, and there are as many such tokens as the address holds of
/// each.
pub proof fn lemma_address_hash_ampersand(s: Seq<char>, c: char)
    requires
        forall|i: int| !entity_at(s, i),
        c == '#' || c == '&',
    ensures
        token_count(address_tokens(s), seq![c]) == count_from(s, c, 0),
        forall|k: int| #![trigger address_tokens(s)[k]]
            0 <= k < address_tokens(s).len() && address_tokens(s)[k].contains(c)
                ==> address_tokens(s)[k] == seq![c],
{
    lemma_unescape_plain(s);
    lemma_hash_ampersand_alone(s, 0, c);
}

proof fn lemma_unescape_split(a: Seq<char>, r: Seq<char>)
    requires
        r.len() > 0,
        r[0] == '&',
    ensures
        unescape(a + r) == unescape(a) + unescape(r),
    decreases a.len(),
{
    let x = a + r;
    if a.len() == 0 {
        assert(x =~= r);
        assert(unescape(a) + unescape(r) =~= unescape(r));
    } else if entity_at(x, 0) {
        assert(a.len() >= 5) by {
            if a.len() < 5 {
                assert(x[a.len() as int] == '&');
            }
        }
        assert(entity_at(a, 0));
        assert(x.skip(5) =~= a.skip(5) + r);
        lemma_unescape_split(a.skip(5), r);
        assert(unescape(x) =~= unescape(a) + unescape(r));
    } else {
        assert(!entity_at(a, 0));
        assert(x.skip(1) =~= a.skip(1) + r);
        lemma_unescape_split(a.skip(1), r);
        assert(unescape(x) =~= unescape(a) + unescape(r));
    }
}

/// Writing an ampersand escaped, as `&amp;` or `&#38;`, yields the same tokens as writing it
/// plainly, unless the text after it reads `amp;` or `#38;` (the plain `&` would then start
/// an escape of its own).
pub proof fn lemma_escaped_ampersand_tokens(a: Seq<char>, b: Seq<char>)
    requires
        !entity_at(seq!['&'] + b, 0),
    ensures
        address_tokens(a + seq!['&', 'a', 'm', 'p', ';'] + b) == address_tokens(
            a + seq!['&'] + b,
        ),
        address_tokens(a + seq!['&', '#', '3', '8', ';'] + b) == address_tokens(
            a + seq!['&'] + b,
        ),
{
    let amp = seq!['&', 'a', 'm', 'p', ';'] + b;
    let num = seq!['&', '#', '3', '8', ';'] + b;
    let plain = seq!['&'] + b;
    assert(a + seq!['&', 'a', 'm', 'p', ';'] + b =~= a + amp);
    assert(a + seq!['&', '#', '3', '8', ';'] + b =~= a + num);
    assert(a + seq!['&'] + b =~= a + plain);
    lemma_unescape_split(a, amp);
    lemma_unescape_split(a, num);
    lemma_unescape_split(a, plain);
    assert(entity_at(amp, 0));
    assert(entity_at(num, 0));
    assert(amp.skip(5) =~= b);
    assert(num.skip(5) =~= b);
    assert(plain.skip(1) =~= b);
    assert(unescape(amp) == unescape(plain));
    assert(unescape(num) == unescape(plain));
}

/// Whether `s` is `t` with some, none or all of its `&` characters written as `&amp;` or
/// `&#38;`.
pub open spec fn escapes_of(s: Seq<char>, t: Seq<char>) -> bool
    decreases t.len(),
{
    if t.len() == 0 {
        s.len() == 0
    } else if s.len() > 0 && s[0] == t[0] && escapes_of(s.skip(1), t.skip(1)) {
        true
    } else {
        t[0] == '&' && entity_at(s, 0) && escapes_of(s.skip(5), t.skip(1))
    }
}

proof fn lemma_escapes_step(s: Seq<char>, t: Seq<char>)
    requires
        escapes_of(s, t),
        s.len() > 0,
        s[0] != '&',
    ensures
        t.len() > 0,
        t[0] == s[0],
        escapes_of(s.skip(1), t.skip(1)),
{
}

proof fn lemma_escapes_unescape(s: Seq<char>, t: Seq<char>)
    requires
        escapes_of(s, t),
        forall|i: int| !entity_at(t, i),
    ensures
        unescape(s) == t,
    decreases t.len(),
{
    if t.len() > 0 {
        let t1 = t.skip(1);
        assert forall|i: int| !entity_at(t1, i) by {
            assert(!entity_at(t, i + 1));
        }
        if s.len() > 0 && s[0] == t[0] && escapes_of(s.skip(1), t1) {
            if entity_at(s, 0) {
                let s1 = s.skip(1);
                let s2 = s1.skip(1);
                let s3 = s2.skip(1);
                let s4 = s3.skip(1);
                lemma_escapes_step(s1, t1);
                lemma_escapes_step(s2, t1.skip(1));
                lemma_escapes_step(s3, t1.skip(1).skip(1));
                lemma_escapes_step(s4, t1.skip(1).skip(1).skip(1));
                assert(entity_at(t, 0));
            }
            lemma_escapes_unescape(s.skip(1), t1);
            assert(seq![t[0]] + t1 =~= t);
        } else {
            lemma_escapes_unescape(s.skip(5), t1);
            assert(seq!['&'] + t1 =~= t);
        }
    }
}

/// An address with ampersands written as `&amp;` or `&#38;`, any number of them, yields the same
/// tokens as the address with plain ampersands.
pub proof fn lemma_escaped_address_tokens(s: Seq<char>, t: Seq<char>)
    requires
        escapes_of(s, t),
        forall|i: int| !entity_at(t, i),
    ensures
        address_tokens(s) == address_tokens(t),
{
    lemma_escapes_unescape(s, t);
    lemma_unescape_plain(t);
}

fn class_has(k: &CharClass, c: char) -> (r: bool)
    ensures
        r == in_class(*k, c),
{
    match k {
        CharClass::Open => c == '(',
        CharClass::Body => !is_space(c) && c != ',' && c != ';' && c != '#' && c != '&' && c
            != '(' && c != ')',
        CharClass::Close => c == '.' || c == ',' || c == ';' || c == ')' || c == '\n',
    }
}

fn skip_class(t: &Vec<char>, i: usize, k: CharClass) -> (r: usize)
    requires
        i <= t@.len(),
    ensures
        r == run_end(t@, i as int, k),
{
    let mut j: usize = i;
    while j < t.len() && class_has(&k, t[j])
        invariant
            i <= j <= t@.len(),
            run_end(t@, i as int, k) == run_end(t@, j as int, k),
        decreases t@.len() - j,
    {
        j += 1;
    }
    j
}

/// The text with every `&amp;` and `&#38;` replaced by `&`.
pub fn unescape_ampersands(s: &Vec<char>) -> (r: Vec<char>)
    ensures
        r@ == unescape(s@),
{
    let mut r: Vec<char> = Vec::new();
    let mut i: usize = 0;
    assert(s@.skip(0) =~= s@);
    assert(r@ + unescape(s@) =~= unescape(s@));
    while i < s.len()
        invariant
            i <= s@.len(),
            unescape(s@) == r@ + unescape(s@.skip(i as int)),
        decreases s@.len() - i,
    {
        let ghost rest = s@.skip(i as int);
        if s.len() - i >= 5 && s[i] == '&' && ((s[i + 1] == 'a' && s[i + 2] == 'm' && s[i + 3]
            == 'p') || (s[i + 1] == '#' && s[i + 2] == '3' && s[i + 3] == '8')) && s[i + 4] == ';' {
            assert(entity_at(rest, 0));
            assert(rest.skip(5) =~= s@.skip(i + 5));
            r.push('&');
            i += 5;
        } else {
            assert(!entity_at(rest, 0));
            assert(rest.skip(1) =~= s@.skip(i + 1));
            r.push(s[i]);
            i += 1;
        }
        assert(unescape(s@) =~= r@ + unescape(s@.skip(i as int)));
    }
    assert(r@ =~= r@ + unescape(s@.skip(i as int)));
    r
}

/// Splits an address into tokens, in order of appearance.
pub fn tokenize(address: &str) -> (r: Vec<String>)
    ensures
        r.deep_view() == address_tokens(address@),
{
    let t = unescape_ampersands(&chars_of(address));
    let mut r: Vec<String> = Vec::new();
    let mut s: usize = 0;
    while s < t.len()
        invariant
            s <= t@.len(),
            t@ == unescape(address@),
            address_tokens(address@) == r.deep_view() + tokens_from(t@, s as int),
        decreases t@.len() - s,
    {
        let p = skip_class(&t, s, CharClass::Open);
        proof {
            lemma_run_end(t@, s as int, CharClass::Open);
        }
        let at_word = p < t.len() && class_has(&CharClass::Body, t[p]);
        let ghost before = r.deep_view();
        if at_word {
            let b = skip_class(&t, p, CharClass::Body);
            proof {
                lemma_run_end(t@, p as int, CharClass::Body);
            }
            let e = skip_class(&t, b, CharClass::Close);
            proof {
                lemma_word_token_end(t@, s as int);
            }
            r.push(string_of_range(&t, s, e));
            s = e;
        } else if t[s] == '#' || t[s] == '&' {
            r.push(string_of_range(&t, s, s + 1));
            assert(t@.subrange(s as int, s + 1) =~= seq![t@[s as int]]);
            s = s + 1;
        } else {
            s = s + 1;
        }
        assert(r.deep_view() + tokens_from(t@, s as int) =~= address_tokens(address@));
    }
    r
}

} // verus!
