//! Combining each token's attributes with its neighbours' into the feature matrix.
use vstd::prelude::*;
use crate::features::{push_attr, token_attrs, token_features, Attribute};
use crate::text::{chars_of, joined};

verus! {

/// `v` with `p` put before every attribute name.
pub open spec fn prefixed(p: Seq<char>, v: Seq<(Seq<char>, u8)>) -> Seq<(Seq<char>, u8)> {
    Seq::new(v.len(), |k: int| (p + v[k].0, v[k].1))
}

/// A boundary marker of weight 1 named `name`, where `on` holds.
pub open spec fn marker(name: Seq<char>, on: bool) -> Seq<(Seq<char>, u8)> {
    if on {
        seq![(name, 1u8)]
    } else {
        seq![]
    }
}

/// The final attributes of token `i`: its own, those of its neighbours under a prefix, and
/// the boundary markers that apply to its position.
pub open spec fn context_row(base: Seq<Seq<(Seq<char>, u8)>>, i: int) -> Seq<(Seq<char>, u8)> {
    let n = base.len();
    base[i] + (if i > 0 {
        prefixed("previous:"@, base[i - 1])
    } else {
        seq![]
    }) + (if i + 1 < n {
        prefixed("next:"@, base[i + 1])
    } else {
        seq![]
    }) + marker("address.start"@, i == 0) + marker("address.end"@, i == n - 1) + marker(
        "previous:address.start"@,
        n >= 2 && i == 1,
    ) + marker("next:address.end"@, n >= 2 && i == n - 2)
}

/// The feature matrix built from the per-token attributes `base`.
pub open spec fn with_context(base: Seq<Seq<(Seq<char>, u8)>>) -> Seq<Seq<(Seq<char>, u8)>> {
    Seq::new(base.len(), |i: int| context_row(base, i))
}

/// The feature matrix of a token sequence.
pub open spec fn address_features(tokens: Seq<Seq<char>>) -> Seq<Seq<(Seq<char>, u8)>> {
    with_context(Seq::new(tokens.len(), |i: int| token_attrs(tokens[i])))
}

proof fn lemma_row_markers(base: Seq<Seq<(Seq<char>, u8)>>, i: int)
    requires
        0 <= i < base.len(),
    ensures
        i == 0 ==> context_row(base, i).contains(("address.start"@, 1u8)),
        i == base.len() - 1 ==> context_row(base, i).contains(("address.end"@, 1u8)),
        base.len() >= 2 && i == 1 ==> context_row(base, i).contains(
            ("previous:address.start"@, 1u8),
        ),
        base.len() >= 2 && i == base.len() - 2 ==> context_row(base, i).contains(
            ("next:address.end"@, 1u8),
        ),
{
    let n = base.len();
    let row = context_row(base, i);
    let own = base[i] + (if i > 0 {
        prefixed("previous:"@, base[i - 1])
    } else {
        seq![]
    }) + (if i + 1 < n {
        prefixed("next:"@, base[i + 1])
    } else {
        seq![]
    });
    let a = own + marker("address.start"@, i == 0);
    let b = a + marker("address.end"@, i == n - 1);
    let c = b + marker("previous:address.start"@, n >= 2 && i == 1);
    assert(row == c + marker("next:address.end"@, n >= 2 && i == n - 2));
    if i == 0 {
        assert(row[own.len() as int] == ("address.start"@, 1u8));
    }
    if i == n - 1 {
        assert(row[a.len() as int] == ("address.end"@, 1u8));
    }
    if n >= 2 && i == 1 {
        assert(row[b.len() as int] == ("previous:address.start"@, 1u8));
    }
    if n >= 2 && i == n - 2 {
        assert(row[c.len() as int] == ("next:address.end"@, 1u8));
    }
}

/// The boundary markers of a non-empty address of `n` tokens: its matrix has `n` rows; the
/// first row carries `address.start` and the last `address.end`; with two tokens or more the
/// second row carries `previous:address.start` and the one before the last `next:address.end`;
/// with a single token, neither of these two names occurs in its row.
pub proof fn lemma_boundary_markers(tokens: Seq<Seq<char>>)
    requires
        tokens.len() > 0,
    ensures
        ({
            let m = address_features(tokens);
            let n = tokens.len() as int;
            &&& m.len() == n
            &&& m[0].contains(("address.start"@, 1u8))
            &&& m[n - 1].contains(("address.end"@, 1u8))
            &&& n >= 2 ==> m[1].contains(("previous:address.start"@, 1u8))
            &&& n >= 2 ==> m[n - 2].contains(("next:address.end"@, 1u8))
            &&& n == 1 ==> forall|k: int|
                0 <= k < m[0].len() ==> m[0][k].0 != "previous:address.start"@ && m[0][k].0
                    != "next:address.end"@
        }),
{
    let base = Seq::new(tokens.len(), |i: int| token_attrs(tokens[i]));
    let m = address_features(tokens);
    let n = tokens.len() as int;
    assert(m == with_context(base));
    assert(m[0] == context_row(base, 0));
    lemma_row_markers(base, 0);
    assert(m[n - 1] == context_row(base, n - 1));
    lemma_row_markers(base, n - 1);
    if n >= 2 {
        assert(m[1] == context_row(base, 1));
        lemma_row_markers(base, 1);
        assert(m[n - 2] == context_row(base, n - 2));
        lemma_row_markers(base, n - 2);
    }
    if n == 1 {
        let row = m[0];
        let t = tokens[0];
        assert(row =~= token_attrs(t) + seq![("address.start"@, 1u8), ("address.end"@, 1u8)]);
        reveal_strlit("previous:address.start");
        reveal_strlit("next:address.end");
        reveal_strlit("address.start");
        reveal_strlit("address.end");
        reveal_strlit("abbrev");
        reveal_strlit("digits:");
        reveal_strlit("word:");
        reveal_strlit("word");
        reveal_strlit("trailing.zeros:");
        reveal_strlit("trailing.zeros");
        reveal_strlit("length:d:");
        reveal_strlit("length:w:");
        reveal_strlit("endsinpunc:");
        reveal_strlit("endsinpunc");
        reveal_strlit("directional");
        reveal_strlit("street_name");
        reveal_strlit("has.vowels");
        assert forall|k: int| 0 <= k < row.len() implies row[k].0[0] != 'p' && row[k].0[0]
            != 'n' by {}
    }
}

fn copy_prefixed(prefix: &str, v: &Vec<Attribute>, out: &mut Vec<Attribute>)
    ensures
        final(out).deep_view() == old(out).deep_view() + prefixed(prefix@, v.deep_view()),
{
    let ghost start = out.deep_view();
    let mut k: usize = 0;
    while k < v.len()
        invariant
            k <= v@.len(),
            out.deep_view() == start + prefixed(prefix@, v.deep_view()).take(k as int),
        decreases v@.len() - k,
    {
        let name = joined(prefix, &chars_of(v[k].name.as_str()));
        push_attr(out, name, v[k].weight);
        k += 1;
        assert(out.deep_view() =~= start + prefixed(prefix@, v.deep_view()).take(k as int));
    }
    assert(prefixed(prefix@, v.deep_view()).take(k as int) =~= prefixed(prefix@, v.deep_view()));
}

/// The feature matrix of `tokens`: one attribute list per token, in order.
pub fn tokens_to_features(tokens: &Vec<String>) -> (r: Vec<Vec<Attribute>>)
    ensures
        r.deep_view() == address_features(tokens.deep_view()),
{
    let ghost tv = tokens.deep_view();
    let mut base: Vec<Vec<Attribute>> = Vec::new();
    let mut i: usize = 0;
    while i < tokens.len()
        invariant
            i <= tokens@.len(),
            tv == tokens.deep_view(),
            base.deep_view() == Seq::new(tv.len(), |j: int| token_attrs(tv[j])).take(i as int),
        decreases tokens@.len() - i,
    {
        let row = token_features(tokens[i].as_str());
        let ghost prev = base.deep_view();
        let ghost added = row.deep_view();
        base.push(row);
        assert(base.deep_view() =~= prev.push(added));
        i += 1;
        assert(base.deep_view() =~= Seq::new(tv.len(), |j: int| token_attrs(tv[j])).take(
            i as int,
        ));
    }
    let ghost bv = base.deep_view();
    assert(bv =~= Seq::new(tv.len(), |j: int| token_attrs(tv[j])));
    let n = base.len();
    let mut r: Vec<Vec<Attribute>> = Vec::new();
    let mut i: usize = 0;
    while i < n
        invariant
            i <= n == bv.len(),
            bv == base.deep_view(),
            r.deep_view() == with_context(bv).take(i as int),
        decreases n - i,
    {
        let mut row: Vec<Attribute> = Vec::new();
        copy_prefixed("", &base[i], &mut row);
        assert(prefixed(""@, bv[i as int]) =~= bv[i as int]) by {
            reveal_strlit("");
            assert forall|k: int| 0 <= k < bv[i as int].len() implies ""@ + bv[i as int][k].0
                =~= bv[i as int][k].0 by {}
        }
        if i > 0 {
            copy_prefixed("previous:", &base[i - 1], &mut row);
        }
        if i + 1 < n {
            copy_prefixed("next:", &base[i + 1], &mut row);
        }
        if i == 0 {
            push_attr(&mut row, "address.start".to_owned(), 1);
        }
        if i == n - 1 {
            push_attr(&mut row, "address.end".to_owned(), 1);
        }
        if n >= 2 && i == 1 {
            push_attr(&mut row, "previous:address.start".to_owned(), 1);
        }
        if n >= 2 && i == n - 2 {
            push_attr(&mut row, "next:address.end".to_owned(), 1);
        }
        assert(row.deep_view() =~= context_row(bv, i as int));
        let ghost prev = r.deep_view();
        let ghost added = row.deep_view();
        r.push(row);
        assert(r.deep_view() =~= prev.push(added));
        i += 1;
        assert(r.deep_view() =~= with_context(bv).take(i as int));
    }
    assert(with_context(bv).take(n as int) =~= with_context(bv));
    r
}

} // verus!
