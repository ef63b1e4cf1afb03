use qrpc::grammar::{camel_to_snake, identifier_to_token, Node, SemanticAnalyzer, SyntaxError, TokenKind, Tokenizer};

fn kinds(input: &str) -> Vec<TokenKind> {
    let mut t = Tokenizer::new(input);
    let mut out = Vec::new();
    loop {
        let tok = t.next_token().unwrap();
        if tok.kind == TokenKind::End {
            break;
        }
        out.push(tok.kind);
    }
    out
}

#[test]
fn camel_case_becomes_snake_case() {
    assert_eq!(camel_to_snake("OrderService"), "order_service");
    assert_eq!(camel_to_snake("Restaurant"), "restaurant");
    assert_eq!(camel_to_snake("GetHTTPResponse"), "gethttp_response");
    assert_eq!(camel_to_snake("GetX"), "getx");
    assert_eq!(camel_to_snake("AB"), "ab");
    assert_eq!(camel_to_snake("ServiceA"), "servicea");
}

#[test]
fn keywords_and_identifiers() {
    assert_eq!(identifier_to_token("rpc".to_string()).kind, TokenKind::Rpc);
    assert_eq!(identifier_to_token("package".to_string()).kind, TokenKind::Package);
    let t = identifier_to_token("example.Order".to_string());
    assert_eq!(t.kind, TokenKind::Identifier);
    assert_eq!(t.value.as_deref(), Some("example.Order"));
}

#[test]
fn an_rpc_line_tokenizes() {
    assert_eq!(
        kinds("  rpc Submit(Order) returns (Acceptance);"),
        vec![
            TokenKind::Rpc,
            TokenKind::Identifier,
            TokenKind::LeftParenthesis,
            TokenKind::Identifier,
            TokenKind::RightParenthesis,
            TokenKind::Returns,
            TokenKind::LeftParenthesis,
            TokenKind::Identifier,
            TokenKind::RightParenthesis,
            TokenKind::Semicolon,
        ]
    );
    assert_eq!(kinds("A = 12;"), vec![TokenKind::Identifier, TokenKind::Equal, TokenKind::Number(12), TokenKind::Semicolon]);
}

#[test]
fn tokenizer_errors() {
    let mut t = Tokenizer::new("#");
    assert_eq!(t.next_token().unwrap_err(), SyntaxError::UnrecognizedCharacter('#'));
    let mut t = Tokenizer::new("300");
    assert_eq!(t.next_token().unwrap_err(), SyntaxError::NumberTooLarge);
    let mut t = Tokenizer::new("255");
    assert_eq!(t.next_token().unwrap().kind, TokenKind::Number(255));
}

#[test]
fn package_statement_parses() {
    let mut a = SemanticAnalyzer::new("package example;").unwrap();
    match a.parse().unwrap() {
        Node::Package(p) => assert_eq!(p, "example"),
        _ => panic!("expected a package"),
    }
}

#[test]
fn service_definition_parses() {
    let text = "service Restaurant{\n  rpc Submit(Order) returns (Acceptance);\n  rpc Finish(google.protobuf.Empty) returns (Total);\n  rpc Again(Order) returns (google.protobuf.Empty);\n}\n";
    let mut a = SemanticAnalyzer::new(text).unwrap();
    match a.parse().unwrap() {
        Node::Service { name, messages, rpcs } => {
            assert_eq!(name, "Restaurant");
            assert_eq!(messages, vec!["Acceptance".to_string(), "Order".to_string(), "Total".to_string()]);
            assert_eq!(rpcs.len(), 3);
            assert_eq!(rpcs[1].method, "Finish");
            assert_eq!(rpcs[1].request, "google.protobuf.Empty");
            assert_eq!(rpcs[1].response, "Total");
        },
        _ => panic!("expected a service"),
    }
}

#[test]
fn enum_definition_parses() {
    let mut a = SemanticAnalyzer::new("enum Fruit{\n  Apple = 0;\n  Banana = 1;\n}").unwrap();
    match a.parse().unwrap() {
        Node::Enum { name, elements } => {
            assert_eq!(name, "Fruit");
            assert_eq!(elements, vec!["Apple".to_string(), "Banana".to_string()]);
        },
        _ => panic!("expected an enum"),
    }
}

#[test]
fn enum_numbers_must_count_from_zero() {
    let mut a = SemanticAnalyzer::new("enum Fruit{ Apple = 1; }").unwrap();
    assert_eq!(
        a.parse().unwrap_err(),
        SyntaxError::Unexpected { expected: TokenKind::Number(0), found: TokenKind::Number(1) }
    );
}

#[test]
fn other_statements_are_refused() {
    let mut a = SemanticAnalyzer::new("message Order { }").unwrap();
    assert_eq!(a.parse().unwrap_err(), SyntaxError::UnexpectedStatement);
    let mut a = SemanticAnalyzer::new("package ;").unwrap();
    assert_eq!(
        a.parse().unwrap_err(),
        SyntaxError::Unexpected { expected: TokenKind::Identifier, found: TokenKind::Semicolon }
    );
}

#[test]
fn tokenizer_trims_its_line() {
    let t = Tokenizer::new("  rpc A;\t\n");
    assert_eq!(t.input, vec!['r', 'p', 'c', ' ', 'A', ';']);
    assert_eq!(t.cursor, 0);
    assert!(Tokenizer::new(" \u{3000} ").input.is_empty());
}

#[test]
fn a_well_formed_rpc_line_parses_to_its_names() {
    let mut a = SemanticAnalyzer::new("rpc Submit(Order) returns (Acceptance);").unwrap();
    let mut messages = Vec::new();
    let d = a.parse_rpc(&mut messages).unwrap();
    assert_eq!(d.method, "Submit");
    assert_eq!(d.request, "Order");
    assert_eq!(d.response, "Acceptance");
    assert_eq!(messages, vec!["Acceptance".to_string(), "Order".to_string()]);
    assert_eq!(a.token.kind, TokenKind::End);
}

#[test]
fn enum_element_numbers_are_checked() {
    let mut a = SemanticAnalyzer::new("BANANA = 2;").unwrap();
    assert_eq!(a.parse_enum(2).unwrap(), "BANANA");
    let mut a = SemanticAnalyzer::new("BANANA = 2;").unwrap();
    assert_eq!(
        a.parse_enum(1).unwrap_err(),
        SyntaxError::Unexpected { expected: TokenKind::Number(1), found: TokenKind::Number(2) }
    );
}

#[test]
fn mismatched_token_leaves_the_analyzer_unchanged() {
    let mut a = SemanticAnalyzer::new("package x;").unwrap();
    assert!(a.consume_token(TokenKind::Rpc).is_err());
    assert_eq!(a.token.kind, TokenKind::Package);
    assert_eq!(a.tokenizer.cursor, 7);
}
