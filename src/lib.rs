//! Labelling the parts of a United States postal address.
//!
//! An address is split into tokens, each token gets a fixed set of attributes, and every
//! token's attributes are joined with its neighbours'. A sequence-labelling model then assigns
//! one label per token.
use vstd::prelude::*;

pub mod context;
pub mod error;
pub mod features;
pub mod text;
pub mod tokenize;
pub mod vocab;

pub use context::tokens_to_features;
pub use error::Error;
pub use features::Attribute;
pub use tokenize::tokenize;
use tokenize::address_tokens;

verus! {

/// A trained sequence-labelling model: given a feature matrix, it returns one label per row.
pub trait Tagger {
    fn tag(&self, features: &Vec<Vec<Attribute>>) -> Result<Vec<String>, Error>;
}

/// Each token paired with the label at the same position, up to the shorter of the two.
pub open spec fn zip_labels(tokens: Seq<Seq<char>>, labels: Seq<Seq<char>>) -> Seq<
    (Seq<char>, Seq<char>),
> {
    let n = if tokens.len() <= labels.len() {
        tokens.len()
    } else {
        labels.len()
    };
    Seq::new(n, |i: int| (tokens[i], labels[i]))
}

/// Pairs each token with the label at its position.
pub fn label_tokens(tokens: &Vec<String>, labels: &Vec<String>) -> (r: Vec<(String, String)>)
    ensures
        r.deep_view() == zip_labels(tokens.deep_view(), labels.deep_view()),
{
    let n = if tokens.len() <= labels.len() {
        tokens.len()
    } else {
        labels.len()
    };
    let ghost want = zip_labels(tokens.deep_view(), labels.deep_view());
    let mut r: Vec<(String, String)> = Vec::new();
    let mut i: usize = 0;
    while i < n
        invariant
            i <= n == want.len(),
            n <= tokens@.len(),
            n <= labels@.len(),
            want == zip_labels(tokens.deep_view(), labels.deep_view()),
            r.deep_view() == want.take(i as int),
        decreases n - i,
    {
        let ghost prev = r.deep_view();
        r.push((tokens[i].clone(), labels[i].clone()));
        assert(r.deep_view() =~= prev.push(want[i as int]));
        i += 1;
        assert(r.deep_view() =~= want.take(i as int));
    }
    assert(want.take(n as int) =~= want);
    r
}

/// Relies on `std::io::Error::new`: an error of kind `InvalidData` that carries `msg`.
#[verifier::external_body]
fn invalid_data(msg: &str) -> std::io::Error {
    std::io::Error::new(std::io::ErrorKind::InvalidData, msg)
}

/// What labelling makes of `tagged`, the tagger's outcome for tokens `toks`: with one label
/// per token, the tokens paired with their labels; with another number of labels, an error;
/// and the tagger's own error, unchanged.
pub open spec fn labelled(
    toks: Seq<Seq<char>>,
    tagged: Result<Vec<String>, Error>,
    r: Result<Vec<(String, String)>, Error>,
) -> bool {
    match tagged {
        Ok(labels) => if labels@.len() == toks.len() {
            r matches Ok(v) && v.deep_view() == zip_labels(toks, labels.deep_view())
        } else {
            r is Err
        },
        Err(e) => r == Err::<Vec<(String, String)>, Error>(e),
    }
}

/// Turns the tagger's outcome for `tokens` into the labelled tokens.
pub fn label_outcome(tokens: &Vec<String>, tagged: Result<Vec<String>, Error>) -> (r: Result<
    Vec<(String, String)>,
    Error,
>)
    ensures
        labelled(tokens.deep_view(), tagged, r),
{
    match tagged {
        Ok(labels) => {
            if labels.len() == tokens.len() {
                Ok(label_tokens(tokens, &labels))
            } else {
                Err(Error::CrfsError(invalid_data("the model gave a label count unlike the token count")))
            }
        },
        Err(e) => Err(e),
    }
}

/// Splits `address` into tokens and labels them with `tagger`.
///
/// The tagger is handed the feature matrix of the tokens. On success, each token of the address
/// is paired, in order, with the label that the tagger gave it; a failure of the tagger is
/// handed back unchanged (see `label_outcome`).
pub fn parse<T: Tagger>(tagger: &T, address: &str) -> (r: Result<Vec<(String, String)>, Error>)
    ensures
        r matches Ok(v) ==> {
            let toks = address_tokens(address@);
            &&& v.len() == toks.len()
            &&& forall|i: int| 0 <= i < v.len() ==> (#[trigger] v[i]).0@ == toks[i]
        },
{
    let tokens = tokenize(address);
    let features = tokens_to_features(&tokens);
    let r = label_outcome(&tokens, tagger.tag(&features));
    if let Ok(v) = &r {
        let ghost toks = tokens.deep_view();
        assert(toks == address_tokens(address@));
        assert(v.deep_view().len() == v@.len());
        assert forall|i: int| 0 <= i < v.len() implies (#[trigger] v[i]).0@ == toks[i] by {
            assert(v.deep_view()[i] == v@[i].deep_view());
        }
    }
    r
}

} // verus!
