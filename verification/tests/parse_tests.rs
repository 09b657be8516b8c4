use minihtml::parse::Attribute;
use minihtml::parse::DotClass;
use minihtml::parse::HashId;
use minihtml::parse::HtmlElement;
use minihtml::parse::Hyphenated;
use minihtml::parse::Token;
use minihtml::parse::Value;

fn ident(s: &str) -> Token {
    Token::Ident(s.to_string())
}

fn text(s: &str) -> Token {
    Token::Value(Value::Text(s.to_string()))
}

#[test]
fn parse_simple_ident() {
    let tokens = vec![ident("abc")];
    let (parsed, _) = Hyphenated::parse(&tokens, 0).unwrap();
    assert_eq!(parsed.name.as_str(), "abc");
}

#[test]
fn parse_hyphenated_ident() {
    let tokens = vec![ident("abc"), Token::Hyphen, ident("def"), Token::Hyphen, ident("ghi")];
    let (parsed, _) = Hyphenated::parse(&tokens, 0).unwrap();
    assert_eq!(parsed.name.as_str(), "abc-def-ghi");
}

#[test]
fn parse_alphanum() {
    let tokens = vec![ident("abc"), Token::Hyphen, ident("de0"), Token::Hyphen, ident("g2i")];
    let (parsed, _) = Hyphenated::parse(&tokens, 0).unwrap();
    assert_eq!(parsed.name.as_str(), "abc-de0-g2i");
}

#[test]
fn parse_hash_id() {
    let tokens = vec![Token::Hash, ident("abc"), Token::Hyphen, ident("def")];
    let (parsed, _) = HashId::parse(&tokens, 0).unwrap();
    assert_eq!(parsed.name.as_str(), "abc-def");
}

#[test]
fn parse_dot_class() {
    let tokens = vec![Token::Dot, ident("abc"), Token::Hyphen, ident("def")];
    let (parsed, _) = DotClass::parse(&tokens, 0).unwrap();
    assert_eq!(parsed.name.as_str(), "abc-def");
}

#[test]
fn parse_static_with_value() {
    let tokens = vec![
        ident("a"),
        Token::Hyphen,
        ident("b"),
        Token::Hyphen,
        ident("c"),
        Token::Eq,
        text("3"),
    ];
    let (parsed, _) = Attribute::parse(&tokens, 0).unwrap();
    let attr = match parsed {
        Attribute::Static(x) => x,
        Attribute::Dyn(_) => panic!("expected a static attribute"),
    };
    assert_eq!(attr.name.as_str(), "a-b-c");
    let value = attr.value.unwrap();
    assert!(matches!(value, Value::Text(ref s) if s == "3"));
}

#[test]
fn parse_static_without_value() {
    let tokens = vec![ident("a"), Token::Hyphen, ident("b"), Token::Hyphen, ident("c")];
    let (parsed, _) = Attribute::parse(&tokens, 0).unwrap();
    let attr = match parsed {
        Attribute::Static(x) => x,
        Attribute::Dyn(_) => panic!("expected a static attribute"),
    };
    assert_eq!(attr.name.as_str(), "a-b-c");
    assert!(attr.value.is_none());
}

#[test]
fn parse_dyn_with_value() {
    let tokens = vec![Token::DynKw, text("a+b"), Token::Eq, text("c+d")];
    let (parsed, _) = Attribute::parse(&tokens, 0).unwrap();
    let attr = match parsed {
        Attribute::Dyn(x) => x,
        Attribute::Static(_) => panic!("expected a dynamic attribute"),
    };
    assert!(matches!(attr.name, Value::Text(ref s) if s == "a+b"));
    let value = attr.value.unwrap();
    assert!(matches!(value, Value::Text(ref s) if s == "c+d"));
}

#[test]
fn parse_dyn_without_value() {
    let tokens = vec![Token::DynKw, text("a+b")];
    let (parsed, _) = Attribute::parse(&tokens, 0).unwrap();
    let attr = match parsed {
        Attribute::Dyn(x) => x,
        Attribute::Static(_) => panic!("expected a dynamic attribute"),
    };
    assert!(matches!(attr.name, Value::Text(ref s) if s == "a+b"));
    assert!(attr.value.is_none());
}

#[test]
fn test_empty_single() {
    let tokens = vec![ident("foo")];
    let (parsed, _) = HtmlElement::parse(&tokens, 0).unwrap();
    assert_eq!(parsed.name.as_str(), "foo");
    assert_eq!(parsed.classes.len(), 0);
    assert!(parsed.id.is_none());
    assert!(parsed.attributes.is_none());
    assert!(parsed.children.is_none());
}

#[test]
fn test_empty_single_semi() {
    let tokens = vec![ident("foo"), Token::Semi];
    let (parsed, _) = HtmlElement::parse(&tokens, 0).unwrap();
    assert_eq!(parsed.name.as_str(), "foo");
    assert_eq!(parsed.classes.len(), 0);
    assert!(parsed.id.is_none());
    assert!(parsed.attributes.is_none());
    assert!(parsed.children.is_none());
}

#[test]
fn test_empty_block() {
    let tokens = vec![ident("foo"), Token::OpenBrace, Token::CloseBrace];
    let (parsed, _) = HtmlElement::parse(&tokens, 0).unwrap();
    assert_eq!(parsed.name.as_str(), "foo");
    assert_eq!(parsed.classes.len(), 0);
    assert!(parsed.id.is_none());
    assert!(parsed.attributes.is_none());
    assert_eq!(parsed.children.unwrap().nodes.into_iter().count(), 0);
}

#[test]
fn test_empty_block_semi() {
    let tokens = vec![ident("foo"), Token::OpenBrace, Token::CloseBrace, Token::Semi];
    let (parsed, _) = HtmlElement::parse(&tokens, 0).unwrap();
    assert_eq!(parsed.name.as_str(), "foo");
    assert_eq!(parsed.classes.len(), 0);
    assert!(parsed.id.is_none());
    assert!(parsed.attributes.is_none());
    assert_eq!(parsed.children.unwrap().nodes.into_iter().count(), 0);
}

#[test]
fn test_id() {
    let tokens = vec![
        ident("foo"),
        Token::Hash,
        ident("ab"),
        Token::Hyphen,
        ident("c"),
        Token::Semi,
    ];
    let (parsed, _) = HtmlElement::parse(&tokens, 0).unwrap();
    assert_eq!(parsed.name.as_str(), "foo");
    assert_eq!(parsed.classes.len(), 0);
    assert_eq!(parsed.id.unwrap().name.as_str(), "ab-c");
    assert!(parsed.attributes.is_none());
    assert!(parsed.children.is_none());
}

#[test]
fn test_classes() {
    let tokens = vec![
        ident("foo"),
        Token::Dot,
        ident("de"),
        Token::Hyphen,
        ident("f"),
        Token::Dot,
        ident("gh"),
        Token::Hyphen,
        ident("i"),
        Token::Semi,
    ];
    let (parsed, _) = HtmlElement::parse(&tokens, 0).unwrap();
    assert_eq!(parsed.name.as_str(), "foo");
    assert_eq!(
        parsed.classes.iter().map(|class| class.name.as_str().to_string()).collect::<Vec<String>>(),
        vec!["de-f".to_string(), "gh-i".to_string()]
    );
    assert!(parsed.id.is_none());
    assert!(parsed.attributes.is_none());
    assert!(parsed.children.is_none());
}

#[test]
fn test_classes_num() {
    let tokens = vec![
        ident("foo"),
        Token::Dot,
        ident("de"),
        Token::Hyphen,
        ident("f0"),
        Token::Dot,
        ident("gh"),
        Token::Hyphen,
        ident("i"),
        Token::Semi,
    ];
    let (parsed, _) = HtmlElement::parse(&tokens, 0).unwrap();
    assert_eq!(parsed.name.as_str(), "foo");
    assert_eq!(
        parsed.classes.iter().map(|class| class.name.as_str().to_string()).collect::<Vec<String>>(),
        vec!["de-f0".to_string(), "gh-i".to_string()]
    );
    assert!(parsed.id.is_none());
    assert!(parsed.attributes.is_none());
    assert!(parsed.children.is_none());
}

#[test]
fn test_id_classes_mixed() {
    let tokens = vec![
        ident("foo"),
        Token::Dot,
        ident("de"),
        Token::Hyphen,
        ident("f"),
        Token::Hash,
        ident("ab"),
        Token::Hyphen,
        ident("c"),
        Token::Dot,
        ident("gh"),
        Token::Hyphen,
        ident("i"),
        Token::Semi,
    ];
    let (parsed, _) = HtmlElement::parse(&tokens, 0).unwrap();
    assert_eq!(parsed.name.as_str(), "foo");
    assert_eq!(
        parsed.classes.iter().map(|class| class.name.as_str().to_string()).collect::<Vec<String>>(),
        vec!["de-f".to_string(), "gh-i".to_string()]
    );
    assert_eq!(parsed.id.unwrap().name.as_str(), "ab-c");
    assert!(parsed.attributes.is_none());
    assert!(parsed.children.is_none());
}
