use usaddress::features::token_features;
use usaddress::{label_outcome, parse, tokenize, tokens_to_features, Attribute, Error, Tagger};

fn attr(v: &[Attribute], key: &str) -> (String, u8) {
    // Each base attribute is found by its name up to the first `:`.
    let a = v
        .iter()
        .find(|a| a.name == key || a.name.starts_with(&format!("{}:", key)))
        .unwrap();
    (a.name.clone(), a.weight)
}

fn has(v: &[Attribute], name: &str) -> bool {
    v.iter().any(|a| a.name == name && a.weight == 1)
}

fn names(v: &[Attribute]) -> Vec<String> {
    v.iter().map(|a| a.name.clone()).collect()
}

#[test]
fn digit_classes() {
    assert_eq!(attr(&token_features("123"), "digits").0, "digits:all_digits");
    assert_eq!(attr(&token_features("12a"), "digits").0, "digits:some_digits");
    assert_eq!(attr(&token_features("abc"), "digits").0, "digits:no_digits");
    assert_eq!(attr(&token_features("#"), "digits").0, "digits:no_digits");
}

#[test]
fn trailing_zeros_of_numbers() {
    assert_eq!(attr(&token_features("1200"), "trailing.zeros"), ("trailing.zeros:00".to_string(), 1));
    assert_eq!(attr(&token_features("123"), "trailing.zeros"), ("trailing.zeros:".to_string(), 1));
    assert_eq!(attr(&token_features("12a0"), "trailing.zeros"), ("trailing.zeros".to_string(), 0));
}

#[test]
fn dictionary_membership() {
    let n = token_features("N");
    assert_eq!(attr(&n, "directional").1, 1);
    assert_eq!(attr(&n, "street_name").1, 0);
    let st = token_features("St.");
    assert_eq!(attr(&st, "street_name").1, 1);
    assert_eq!(attr(&st, "directional").1, 0);
    let main = token_features("Main");
    assert_eq!(attr(&main, "directional").1, 0);
    assert_eq!(attr(&main, "street_name").1, 0);
    assert_eq!(attr(&token_features("Southwest"), "directional").1, 1);
    assert_eq!(attr(&token_features("BLVD"), "street_name").1, 1);
}

#[test]
fn all_nine_attributes_of_a_word() {
    assert_eq!(
        names(&token_features("St.,")),
        vec![
            "abbrev",
            "digits:no_digits",
            "word:st",
            "trailing.zeros",
            "length:w:2",
            "endsinpunc:,",
            "directional",
            "street_name",
            "has.vowels",
        ]
    );
    let v = token_features("St.,");
    let weights: Vec<u8> = v.iter().map(|a| a.weight).collect();
    assert_eq!(weights, vec![1, 1, 1, 0, 1, 1, 0, 1, 0]);
}

#[test]
fn numbers_have_digit_length_and_no_word() {
    let v = token_features("(60601");
    assert_eq!(attr(&v, "word"), ("word".to_string(), 0));
    assert_eq!(attr(&v, "length").0, "length:d:5");
    assert_eq!(attr(&v, "abbrev").1, 0);
    assert_eq!(attr(&v, "endsinpunc"), ("endsinpunc".to_string(), 0));
    let long = token_features("123456789012");
    assert_eq!(attr(&long, "length").0, "length:d:12");
}

#[test]
fn raw_token_decides_trailing_punctuation() {
    assert_eq!(attr(&token_features("4);"), "endsinpunc"), ("endsinpunc:;".to_string(), 1));
    assert_eq!(attr(&token_features("a.b."), "endsinpunc"), ("endsinpunc".to_string(), 0));
    assert_eq!(attr(&token_features(")a"), "endsinpunc"), ("endsinpunc".to_string(), 0));
}

#[test]
fn vowels_after_the_first_letter() {
    assert_eq!(attr(&token_features("Ave"), "has.vowels").1, 1);
    assert_eq!(attr(&token_features("Apt"), "has.vowels").1, 0);
    assert_eq!(attr(&token_features("Blvd"), "has.vowels").1, 0);
}

#[test]
fn cleaning_and_lower_case() {
    assert_eq!(attr(&token_features("(MAIN),"), "word").0, "word:main");
    assert_eq!(attr(&token_features("N.E."), "word").0, "word:ne");
    assert_eq!(attr(&token_features("N.E."), "abbrev").1, 1);
    assert_eq!(attr(&token_features("N.E."), "directional").1, 1);
    assert_eq!(attr(&token_features("&"), "word").0, "word:&");
    assert_eq!(attr(&token_features("½"), "word").0, "word:½");
    assert_eq!(attr(&token_features("--"), "word"), ("word".to_string(), 0));
    assert_eq!(attr(&token_features("--"), "length").0, "length:w:0");
    assert_eq!(attr(&token_features("STRAßE"), "word").0, "word:straße");
}

#[test]
fn boundary_markers_of_three_tokens() {
    let m = tokens_to_features(&tokenize("123 Main St"));
    assert_eq!(m.len(), 3);
    assert!(has(&m[0], "address.start"));
    assert!(!has(&m[0], "address.end"));
    assert!(has(&m[1], "previous:address.start"));
    assert!(has(&m[1], "next:address.end"));
    assert!(has(&m[2], "address.end"));
    assert!(has(&m[0], "next:word:main"));
    assert!(has(&m[1], "previous:digits:all_digits"));
    assert!(has(&m[1], "next:street_name"));
    assert!(!m[0].iter().any(|a| a.name.starts_with("previous:")));
    assert!(!m[2].iter().any(|a| a.name.starts_with("next:")));
    assert_eq!(m[1].len(), 9 + 9 + 9 + 2);
}

#[test]
fn boundary_markers_of_one_token() {
    let m = tokens_to_features(&tokenize("Main"));
    assert_eq!(m.len(), 1);
    assert!(has(&m[0], "address.start"));
    assert!(has(&m[0], "address.end"));
    assert!(!m[0].iter().any(|a| a.name == "previous:address.start" || a.name == "next:address.end"));
    assert_eq!(m[0].len(), 11);
}

#[test]
fn boundary_markers_of_two_tokens() {
    let m = tokens_to_features(&tokenize("Main St"));
    assert!(has(&m[0], "address.start"));
    assert!(has(&m[0], "next:address.end"));
    assert!(has(&m[1], "previous:address.start"));
    assert!(has(&m[1], "address.end"));
}

#[test]
fn empty_matrix_for_empty_address() {
    assert!(tokens_to_features(&tokenize("")).is_empty());
}

struct Fixed(Vec<&'static str>);

impl Tagger for Fixed {
    fn tag(&self, features: &Vec<Vec<Attribute>>) -> Result<Vec<String>, Error> {
        assert_eq!(features.len(), 3);
        Ok(self.0.iter().map(|s| s.to_string()).collect())
    }
}

struct Broken;

impl Tagger for Broken {
    fn tag(&self, _features: &Vec<Vec<Attribute>>) -> Result<Vec<String>, Error> {
        Err(Error::from(std::io::Error::new(std::io::ErrorKind::InvalidData, "bad model")))
    }
}

#[test]
fn parse_pairs_tokens_with_labels() {
    let tagger = Fixed(vec!["AddressNumber", "StreetName", "StreetNamePostType"]);
    let r = parse(&tagger, "123 Main St").unwrap();
    assert_eq!(
        r,
        vec![
            ("123".to_string(), "AddressNumber".to_string()),
            ("Main".to_string(), "StreetName".to_string()),
            ("St".to_string(), "StreetNamePostType".to_string()),
        ]
    );
}

#[test]
fn parse_hands_back_tagger_failure() {
    let r = parse(&Broken, "123 Main St");
    match r {
        Err(e) => assert_eq!(e.message(), "USAddress Error: bad model"),
        Ok(_) => panic!("tagging should have failed"),
    }
}

#[test]
fn parse_refuses_a_label_count_unlike_the_token_count() {
    let tagger = Fixed(vec!["AddressNumber", "StreetName"]);
    assert!(parse(&tagger, "123 Main St").is_err());
}

#[test]
fn label_outcome_cases() {
    let toks = tokenize("Main St");
    let ok = label_outcome(&toks, Ok(vec!["StreetName".to_string(), "StreetNamePostType".to_string()]));
    assert_eq!(
        ok.unwrap(),
        vec![
            ("Main".to_string(), "StreetName".to_string()),
            ("St".to_string(), "StreetNamePostType".to_string()),
        ]
    );
    assert!(label_outcome(&toks, Ok(vec![])).is_err());
    let failed = label_outcome(
        &toks,
        Err(Error::from(std::io::Error::new(std::io::ErrorKind::Other, "no model"))),
    );
    match failed {
        Err(e) => assert_eq!(e.message(), "USAddress Error: no model"),
        Ok(_) => panic!("the tagger's error should come back"),
    }
}
