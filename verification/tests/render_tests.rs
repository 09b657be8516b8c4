use minihtml::codegen::html;
use minihtml::parse::Ctx;
use minihtml::parse::ErrorKind;
use minihtml::parse::Token;
use minihtml::parse::Value;
use minihtml::HtmlString;
use minihtml::NoSpecial;

fn ident(s: &str) -> Token {
    Token::Ident(s.to_string())
}

fn text(s: &str) -> Token {
    Token::Value(Value::Text(s.to_string()))
}

fn compiled(tokens: &Vec<Token>) -> minihtml::codegen::Html {
    match html(tokens) {
        Ok(h) => h,
        Err(e) => panic!("expected the template to compile, got {:?}", e),
    }
}

fn compile_err(tokens: &Vec<Token>) -> minihtml::parse::CompileError {
    match html(tokens) {
        Ok(_) => panic!("expected a compile error"),
        Err(e) => e,
    }
}

fn render(tokens: &Vec<Token>) -> String {
    compiled(tokens).render_to_string()
}

#[test]
fn test_basic() {
    let variable = "quz qux";
    let is_enabled = false;
    let tokens = vec![
        ident("html"),
        Token::OpenBrace,
        ident("head"),
        Token::OpenBrace,
        ident("title"),
        Token::OpenBrace,
        Token::Plus,
        text("Test title"),
        Token::CloseBrace,
        Token::Semi,
        Token::CloseBrace,
        ident("body"),
        Token::OpenBrace,
        ident("img"),
        Token::OpenParen,
        ident("src"),
        Token::Eq,
        text("https://example.com"),
        Token::CloseParen,
        Token::Semi,
        ident("div"),
        Token::OpenParen,
        ident("class"),
        Token::Eq,
        text("foo bar"),
        Token::CloseParen,
        Token::OpenBrace,
        Token::Plus,
        text(variable),
        Token::CloseBrace,
        Token::Semi,
        ident("button"),
        Token::OpenParen,
        ident("disabled"),
        Token::Eq,
        Token::Value(Value::Bool(!is_enabled)),
        Token::CloseParen,
        Token::OpenBrace,
        Token::Plus,
        text("the button"),
        Token::CloseBrace,
        Token::CloseBrace,
        Token::CloseBrace,
    ];
    let ret = render(&tokens);
    assert_eq!(
        ret.as_str(),
        "<html>\
        <head>\
            <title>Test title</title>\
        </head>\
        <body>\
            <img src=\"https://example.com\"/>\
            <div class=\"foo bar\">quz qux</div>\
            <button disabled>the button</button>\
        </body>\
    </html>"
    );
}

#[test]
fn escapes_every_special_character() {
    let tokens = vec![ident("p"), Token::OpenBrace, Token::Plus, text("a&b<c>d'e\"f"), Token::CloseBrace];
    assert_eq!(render(&tokens), "<p>a&amp;b&lt;c&gt;d&apos;e&quot;f</p>");
}

#[test]
fn escapes_attribute_values() {
    let tokens = vec![
        ident("a"),
        Token::OpenParen,
        ident("href"),
        Token::Eq,
        text("x\"y<z>&"),
        Token::CloseParen,
    ];
    assert_eq!(render(&tokens), "<a href=\"x&quot;y&lt;z&gt;&amp;\"/>");
}

#[test]
fn class_markers_join_in_source_order() {
    let tokens = vec![
        ident("div"),
        Token::Dot,
        ident("a"),
        Token::Dot,
        ident("b"),
        Token::Dot,
        ident("a"),
    ];
    assert_eq!(render(&tokens), "<div class=\"a b a\"/>");
}

#[test]
fn class_markers_merge_after_explicit_value() {
    let tokens = vec![
        ident("div"),
        Token::Dot,
        ident("a"),
        Token::Dot,
        ident("b"),
        Token::OpenParen,
        ident("class"),
        Token::Eq,
        text("x y"),
        Token::CloseParen,
    ];
    assert_eq!(render(&tokens), "<div class=\"x y a b\"/>");
}

#[test]
fn class_markers_alone_when_explicit_value_empty() {
    let tokens = vec![
        ident("div"),
        Token::Dot,
        ident("a"),
        Token::Dot,
        ident("b"),
        Token::OpenParen,
        ident("class"),
        Token::Eq,
        text(""),
        Token::CloseParen,
    ];
    assert_eq!(render(&tokens), "<div class=\"a b\"/>");
}

#[test]
fn id_marker_becomes_id_attribute() {
    let tokens = vec![ident("div"), Token::Hash, ident("x")];
    assert_eq!(render(&tokens), "<div id=\"x\"/>");
}

#[test]
fn boolean_attributes_appear_only_when_true() {
    let tokens = vec![
        ident("input"),
        Token::OpenParen,
        ident("checked"),
        Token::Eq,
        Token::Value(Value::Bool(true)),
        Token::Comma,
        ident("disabled"),
        Token::Eq,
        Token::Value(Value::Bool(false)),
        Token::CloseParen,
    ];
    assert_eq!(render(&tokens), "<input checked/>");
}

#[test]
fn optional_attributes_appear_only_when_present() {
    let tokens = vec![
        ident("img"),
        Token::OpenParen,
        ident("alt"),
        Token::Eq,
        Token::Value(Value::OptText(Some("a<b".to_string()))),
        Token::Comma,
        ident("title"),
        Token::Eq,
        Token::Value(Value::OptText(None)),
        Token::CloseParen,
    ];
    assert_eq!(render(&tokens), "<img alt=\"a&lt;b\"/>");
}

#[test]
fn attribute_without_value_means_presence() {
    let tokens = vec![ident("input"), Token::OpenParen, ident("checked"), Token::CloseParen];
    assert_eq!(render(&tokens), "<input checked/>");
}

#[test]
fn rendered_markup_embeds_verbatim() {
    let tokens = vec![
        ident("div"),
        Token::OpenBrace,
        Token::Plus,
        Token::Value(Value::Rendered(HtmlString("<b>x</b>".to_string()))),
        Token::CloseBrace,
    ];
    assert_eq!(render(&tokens), "<div><b>x</b></div>");
}

#[test]
fn dynamic_attribute_renders_with_its_name() {
    let tokens = vec![
        ident("div"),
        Token::OpenParen,
        Token::DynKw,
        text("data-x"),
        Token::Eq,
        text("1<2"),
        Token::CloseParen,
    ];
    assert_eq!(render(&tokens), "<div data-x=\"1&lt;2\"/>");
}

#[test]
fn rendering_twice_gives_identical_output() {
    let tokens = vec![
        ident("div"),
        Token::Dot,
        ident("a"),
        Token::OpenBrace,
        Token::Plus,
        text("x&y"),
        Token::CloseBrace,
    ];
    let compiled = compiled(&tokens);
    let first = compiled.render_to_string();
    let second = compiled.render_to_string();
    assert_eq!(first, second);
    assert_eq!(first, "<div class=\"a\">x&amp;y</div>");
}

#[test]
fn empty_template_renders_empty() {
    let tokens: Vec<Token> = vec![];
    assert_eq!(render(&tokens), "");
}

#[test]
fn empty_block_renders_explicit_body() {
    let tokens = vec![ident("div"), Token::OpenBrace, Token::CloseBrace];
    assert_eq!(render(&tokens), "<div></div>");
}

#[test]
fn two_ids_fail_compilation() {
    let tokens = vec![ident("div"), Token::Hash, ident("x"), Token::Hash, ident("y")];
    let err = compile_err(&tokens);
    assert_eq!(err.kind, ErrorKind::DuplicateId);
    assert_eq!(err.pos, 3);
}

#[test]
fn duplicate_static_attributes_fail_compilation() {
    let tokens = vec![
        ident("div"),
        Token::OpenParen,
        ident("a"),
        Token::Eq,
        text("1"),
        Token::Comma,
        ident("a"),
        Token::Eq,
        text("2"),
        Token::CloseParen,
    ];
    let err = compile_err(&tokens);
    assert_eq!(err.kind, ErrorKind::DuplicateAttribute);
    assert_eq!(err.pos, 6);
}

#[test]
fn id_marker_collides_with_explicit_id_attribute() {
    let tokens = vec![
        ident("div"),
        Token::Dot,
        ident("a"),
        Token::Dot,
        ident("b"),
        Token::Hash,
        ident("x"),
        Token::OpenParen,
        ident("id"),
        Token::Eq,
        text("y"),
        Token::CloseParen,
    ];
    let err = compile_err(&tokens);
    assert_eq!(err.kind, ErrorKind::DuplicateAttribute);
    assert_eq!(err.pos, 5);
}

#[test]
fn dynamic_name_colliding_with_static_fails() {
    let tokens = vec![
        ident("div"),
        Token::Hash,
        ident("x"),
        Token::OpenParen,
        Token::DynKw,
        text("id"),
        Token::Eq,
        text("y"),
        Token::CloseParen,
    ];
    let err = compile_err(&tokens);
    assert_eq!(err.kind, ErrorKind::DuplicateAttribute);
    assert_eq!(err.pos, 4);
}

#[test]
fn dynamic_name_with_special_characters_fails() {
    let tokens = vec![
        ident("div"),
        Token::OpenParen,
        Token::DynKw,
        text("a\"b"),
        Token::CloseParen,
    ];
    let err = compile_err(&tokens);
    assert_eq!(err.kind, ErrorKind::BadDynName);
}

#[test]
fn boolean_in_node_position_fails() {
    let tokens = vec![Token::Plus, Token::Value(Value::Bool(true))];
    let err = compile_err(&tokens);
    assert_eq!(err.kind, ErrorKind::BadNodeValue);
}

#[test]
fn rendered_markup_in_attribute_position_fails() {
    let tokens = vec![
        ident("div"),
        Token::OpenParen,
        ident("a"),
        Token::Eq,
        Token::Value(Value::Rendered(HtmlString("x".to_string()))),
        Token::CloseParen,
    ];
    let err = compile_err(&tokens);
    assert_eq!(err.kind, ErrorKind::BadAttrValue);
}

#[test]
fn unterminated_block_fails() {
    let tokens = vec![ident("div"), Token::OpenBrace, ident("p")];
    let err = compile_err(&tokens);
    assert_eq!(err.kind, ErrorKind::UnexpectedEnd);
}

#[test]
fn errors_carry_context_innermost_first() {
    let tokens = vec![ident("div"), Token::OpenBrace, Token::Dot, Token::CloseBrace];
    let err = compile_err(&tokens);
    assert_eq!(err.kind, ErrorKind::ExpectedIdent);
    assert_eq!(err.pos, 2);
    assert_eq!(
        err.context,
        vec![Ctx::ElementName, Ctx::ElementNode, Ctx::NodeList, Ctx::InnerNodes, Ctx::ElementNode, Ctx::NodeList, Ctx::Input]
    );
}

#[test]
fn pre_validated_text_skips_escaping() {
    let tokens = vec![
        ident("div"),
        Token::OpenParen,
        ident("a"),
        Token::Eq,
        Token::Value(Value::NoSpec(NoSpecial("plain".to_string()))),
        Token::CloseParen,
        Token::OpenBrace,
        Token::Plus,
        Token::Value(Value::NoSpec(NoSpecial("body".to_string()))),
        Token::CloseBrace,
    ];
    assert_eq!(render(&tokens), "<div a=\"plain\">body</div>");
}

#[test]
fn trailing_comma_in_attribute_list_is_allowed() {
    let tokens = vec![
        ident("div"),
        Token::OpenParen,
        ident("a"),
        Token::Comma,
        ident("b"),
        Token::Comma,
        Token::CloseParen,
    ];
    assert_eq!(render(&tokens), "<div a b/>");
}

#[test]
fn unexpected_token_after_element_name_fails() {
    let tokens = vec![ident("foo"), Token::Eq];
    let err = compile_err(&tokens);
    assert_eq!(err.kind, ErrorKind::UnexpectedToken);
    assert_eq!(err.pos, 1);
}

#[test]
fn dynamic_attribute_without_value_means_presence() {
    let tokens = vec![
        ident("div"),
        Token::OpenParen,
        Token::DynKw,
        text("data-x"),
        Token::CloseParen,
    ];
    assert_eq!(render(&tokens), "<div data-x/>");
}

#[test]
fn debug_checked_wraps_clean_text() {
    let wrapped = NoSpecial::debug_checked("plain-text");
    assert_eq!(wrapped.0, "plain-text");
}

#[test]
fn has_special_chars_matches_the_table() {
    assert!(minihtml::has_special_chars("a&b"));
    assert!(minihtml::has_special_chars("<"));
    assert!(minihtml::has_special_chars(">"));
    assert!(minihtml::has_special_chars("'"));
    assert!(minihtml::has_special_chars("\""));
    assert!(!minihtml::has_special_chars("plain-text_0"));
}

#[test]
fn escape_into_writes_entities() {
    let mut out = String::new();
    minihtml::escape_into("x<y&z", &mut out);
    assert_eq!(out, "x&lt;y&amp;z");
}
