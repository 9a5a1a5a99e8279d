use usaddress::tokenize;

fn strings(v: &[&str]) -> Vec<String> {
    v.iter().map(|s| s.to_string()).collect()
}

/// The tokens that the address pattern, written for the regex crate, finds: for comparison.
fn regex_tokens(address: &str) -> Vec<String> {
    let amp = regex::Regex::new("(&#38;)|(&amp;)").unwrap();
    let toks = regex::Regex::new(r"\(*[^\s,;#&()]+[.,;)\n]*|[#&]").unwrap();
    let address = amp.replace_all(address, "&");
    toks.find_iter(&address).map(|m| m.as_str().to_string()).collect()
}

#[test]
fn test_hash() {
    assert_eq!(
        tokenize("# 1 abc st"),
        vec![
            "#".to_string(),
            "1".to_string(),
            "abc".to_string(),
            "st".to_string()
        ]
    );

    assert_eq!(
        tokenize("#1 abc st"),
        vec![
            "#".to_string(),
            "1".to_string(),
            "abc".to_string(),
            "st".to_string()
        ]
    );
}

#[test]
fn empty_address_has_no_tokens() {
    assert!(tokenize("").is_empty());
    assert!(tokenize("   \t ").is_empty());
}

#[test]
fn escaped_ampersands_read_as_plain() {
    let plain = tokenize("Main St & 1st Ave");
    assert_eq!(plain, strings(&["Main", "St", "&", "1st", "Ave"]));
    assert_eq!(tokenize("Main St &amp; 1st Ave"), plain);
    assert_eq!(tokenize("Main St &#38; 1st Ave"), plain);
    assert_eq!(tokenize("A&amp;B"), tokenize("A&B"));
}

#[test]
fn escape_is_replaced_once() {
    assert_eq!(tokenize("&amp;amp;"), strings(&["&", "amp;"]));
}

#[test]
fn punctuation_stays_on_tokens() {
    assert_eq!(
        tokenize("(123 Main St., Apt 4); Chicago, IL\n60601"),
        strings(&["(123", "Main", "St.,", "Apt", "4);", "Chicago,", "IL\n", "60601"])
    );
}

#[test]
fn leading_punctuation_stays_in_the_token() {
    assert_eq!(tokenize("((-x"), strings(&["((-x"]));
    assert_eq!(tokenize("(-5"), strings(&["(-5"]));
    assert_eq!(tokenize("-5"), strings(&["-5"]));
    assert_eq!(tokenize("½ Main"), strings(&["½", "Main"]));
    assert_eq!(tokenize("(( )"), strings(&[]));
}

#[test]
fn tokens_agree_with_regex_pattern() {
    let cases = [
        "123 Main St",
        "# 1 abc st",
        "#1 abc st",
        "1600 Pennsylvania Ave. NW, Washington, DC 20500",
        "PO Box 1234; Springfield, IL 62704",
        "(Rear) 45-B Elm St.,Unit #3",
        "Corner of 5th &amp; Main &#38; Oak",
        "((-x ..y -z- _a",
        "-5 (-5 ((-5 ½",
        "straße 12 Ünter-den-Linden ½",
        "a\u{00a0}b\u{2003}c",
        "x.y. ,;; )) ##&&",
        "trailing)\n\n,next",
    ];
    for c in cases.iter() {
        assert_eq!(tokenize(c), regex_tokens(c), "input {:?}", c);
    }
}

#[test]
fn many_escaped_ampersands_read_as_plain() {
    assert_eq!(
        tokenize("A &amp; B &#38; C &amp;&amp; D&#38;E"),
        tokenize("A & B & C && D&E")
    );
    assert_eq!(tokenize("A & B & C && D&E"), strings(&["A", "&", "B", "&", "C", "&", "&", "D", "&", "E"]));
}

#[test]
fn hash_and_ampersand_always_stand_alone() {
    let t = tokenize("#1 a#b&c ##(&)");
    assert_eq!(t, strings(&["#", "1", "a", "#", "b", "&", "c", "#", "#", "&"]));
    assert_eq!(t.iter().filter(|x| x.as_str() == "#").count(), 4);
    assert_eq!(t.iter().filter(|x| x.as_str() == "&").count(), 2);
}
