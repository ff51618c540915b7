use macrokid_graphics::attr_parse::{parse_resource_attr, Delim, ResourceAttr, Tok};

fn ident(s: &str) -> Tok {
    Tok::Ident(s.to_string())
}
fn lit(s: &str) -> Tok {
    Tok::Literal(s.to_string())
}
fn attr(name: &str, params: Vec<Tok>) -> Vec<Tok> {
    vec![Tok::Punct('#'), Tok::Group(Delim::Bracket, vec![ident(name), Tok::Group(Delim::Parenthesis, params)])]
}

#[test]
fn test_parse_uniform() {
    let tokens = attr(
        "uniform",
        vec![
            ident("set"),
            Tok::Punct('='),
            lit("0"),
            Tok::Punct(','),
            ident("binding"),
            Tok::Punct('='),
            lit("1"),
            Tok::Punct(','),
            ident("stages"),
            Tok::Punct('='),
            lit("\"vs|fs\""),
        ],
    );
    let result = parse_resource_attr(&tokens).unwrap();
    match result {
        ResourceAttr::Uniform(u) => {
            assert_eq!(u.set, 0);
            assert_eq!(u.binding, 1);
            assert_eq!(u.stages, Some("vs|fs".to_string()));
        }
        _ => panic!("Expected Uniform variant"),
    }
}

#[test]
fn test_parse_texture() {
    let tokens = attr(
        "texture",
        vec![ident("set"), Tok::Punct('='), lit("0"), Tok::Punct(','), ident("binding"), Tok::Punct('='), lit("2")],
    );
    let result = parse_resource_attr(&tokens).unwrap();
    match result {
        ResourceAttr::Texture { set, binding, stages } => {
            assert_eq!(set, 0);
            assert_eq!(binding, 2);
            assert_eq!(stages, None);
        }
        _ => panic!("Expected Texture variant"),
    }
}

fn err_of(tokens: Vec<Tok>) -> String {
    match parse_resource_attr(&tokens) {
        Err(e) => e,
        Ok(a) => panic!("expected an error, got {:?}", a),
    }
}

#[test]
fn parse_errors_name_what_was_expected() {
    assert_eq!(err_of(vec![ident("x")]), "Expected '#'");
    assert_eq!(err_of(vec![Tok::Punct('#')]), "Expected '[...]'");
    assert_eq!(err_of(vec![Tok::Punct('#'), Tok::Group(Delim::Bracket, vec![])]), "Expected attribute name");
    assert_eq!(err_of(vec![Tok::Punct('#'), Tok::Group(Delim::Bracket, vec![ident("uniform")])]), "Expected '(...)'");
    assert_eq!(err_of(attr("uniform", vec![ident("set"), lit("0")])), "Expected '='");
    assert_eq!(err_of(attr("uniform", vec![lit("0")])), "Expected parameter name");
    assert_eq!(err_of(attr("uniform", vec![ident("color"), Tok::Punct('='), lit("0")])), "Unknown parameter: color");
    assert_eq!(err_of(attr("uniform", vec![ident("set"), Tok::Punct('='), lit("x1")])), "Invalid integer: x1");
    assert_eq!(err_of(attr("uniform", vec![ident("set"), Tok::Punct('='), ident("a")])), "Expected integer literal");
    assert_eq!(
        err_of(attr("uniform", vec![ident("stages"), Tok::Punct('='), lit("3")])),
        "Expected string literal, got: 3"
    );
    assert_eq!(err_of(attr("uniform", vec![ident("binding"), Tok::Punct('='), lit("1")])), "Missing 'set' parameter");
    assert_eq!(err_of(attr("uniform", vec![ident("set"), Tok::Punct('='), lit("1")])), "Missing 'binding' parameter");
    assert_eq!(
        err_of(attr("storage", vec![ident("set"), Tok::Punct('='), lit("0"), ident("binding"), Tok::Punct('='), lit("0")])),
        "Unknown attribute: storage"
    );
}

#[test]
fn later_values_replace_earlier_and_commas_are_optional() {
    let tokens = attr(
        "combined",
        vec![
            ident("set"),
            Tok::Punct('='),
            lit("1"),
            ident("binding"),
            Tok::Punct('='),
            lit("+4"),
            Tok::Punct(','),
            ident("set"),
            Tok::Punct('='),
            lit("2"),
        ],
    );
    match parse_resource_attr(&tokens).unwrap() {
        ResourceAttr::Combined { set, binding, stages } => {
            assert_eq!((set, binding, stages), (2, 4, None));
        }
        other => panic!("unexpected {:?}", other),
    }
}

#[test]
fn sampler_attribute() {
    let tokens = attr("sampler", vec![ident("set"), Tok::Punct('='), lit("3"), Tok::Punct(','), ident("binding"), Tok::Punct('='), lit("5")]);
    assert!(matches!(parse_resource_attr(&tokens).unwrap(), ResourceAttr::Sampler { set: 3, binding: 5, stages: None }));
}
