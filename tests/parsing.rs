use manyleb::{parse, tokenise, ParseError, Parser, Position, Schema, SyntaxKind, Type};

fn no_sources() -> Vec<(String, String)> {
    Vec::new()
}

fn parse_ok(text: &str) -> Schema {
    parse(text, false, &no_sources()).expect("text should parse")
}

fn sources(pairs: &[(&str, &str)]) -> Vec<(String, String)> {
    pairs.iter().map(|(p, t)| (p.to_string(), t.to_string())).collect()
}

const PETS: &str = "version \"1.0\"\ntitle \"Pets\"\ndescription \"A pet store\"\n\
object Pet {\n  property id int \"The id\"\n  property name string \"Name\"\n}\n\
route get \"/pets\" {\n  description \"List\"\n  tag \"pets\"\n  param limit int \"Max\"\n\
  query q ?string \"Search\"\n  body Pet\n  response 200 []Pet\n  response 204\n}\n";

#[test]
fn parse_full_document() {
    let s = parse_ok(PETS);
    assert_eq!(s.version.as_deref(), Some("1.0"));
    assert_eq!(s.title.as_deref(), Some("Pets"));
    assert_eq!(s.description.as_deref(), Some("A pet store"));
    assert_eq!(s.objects.len(), 1);
    assert_eq!(s.objects[0].id, "Pet");
    assert_eq!(s.objects[0].fields.len(), 2);
    assert_eq!(s.objects[0].fields[0].name, "id");
    assert!(matches!(s.objects[0].fields[0].field_type, Type::Integer));
    assert_eq!(s.objects[0].fields[1].description, "Name");
    let e = &s.endpoints[0];
    assert_eq!(e.id, "get_/pets");
    assert_eq!(e.method, "get");
    assert_eq!(e.path, "/pets");
    assert_eq!(e.description.as_deref(), Some("List"));
    assert_eq!(e.tags, vec!["pets".to_string()]);
    assert_eq!(e.params[0].name, "limit");
    assert!(matches!(&e.query[0].field_type, Type::Optional(t) if matches!(**t, Type::String)));
    assert!(matches!(&e.request_body, Some(Type::Reference(n)) if n == "Pet"));
    assert_eq!(e.responses.len(), 2);
    assert_eq!(e.responses[0].0, 200);
    assert!(matches!(&e.responses[0].1, Some(Type::Array(t)) if matches!(&**t, Type::Reference(n) if n == "Pet")));
    assert_eq!(e.responses[1].0, 204);
    assert!(e.responses[1].1.is_none());
}

#[test]
fn parse_nested_type() {
    let s = parse_ok("object A { property m []?<string, Foo> \"d\" }");
    match &s.objects[0].fields[0].field_type {
        Type::Array(a) => match &**a {
            Type::Optional(o) => match &**o {
                Type::Mapping(k, v) => {
                    assert!(matches!(**k, Type::String));
                    assert!(matches!(&**v, Type::Reference(n) if n == "Foo"));
                },
                other => panic!("unexpected {:?}", other),
            },
            other => panic!("unexpected {:?}", other),
        },
        other => panic!("unexpected {:?}", other),
    }
}

#[test]
fn parse_primitive_names_and_aliases() {
    let s = parse_ok("object A { property a any \"\" property b null \"\" property c str \"\" property d integer \"\" property e float \"\" property f bool \"\" property g boolean \"\" }");
    let f = &s.objects[0].fields;
    assert!(matches!(f[0].field_type, Type::Any));
    assert!(matches!(f[1].field_type, Type::Null));
    assert!(matches!(f[2].field_type, Type::String));
    assert!(matches!(f[3].field_type, Type::Integer));
    assert!(matches!(f[4].field_type, Type::Float));
    assert!(matches!(f[5].field_type, Type::Boolean));
    assert!(matches!(f[6].field_type, Type::Boolean));
}

#[test]
fn parse_rejects_second_version() {
    let r = parse("version \"1\" version \"2\"", false, &no_sources());
    assert!(matches!(r, Err(ParseError::Syntax { at: Some(Position { line: 1, column: 3 }), kind: SyntaxKind::DuplicateVersion })));
}

#[test]
fn parse_rejects_second_title_and_description() {
    assert!(matches!(parse("title \"a\"\ntitle \"b\"", false, &no_sources()), Err(ParseError::Syntax { at: Some(Position { line: 2, column: 1 }), kind: SyntaxKind::DuplicateTitle })));
    assert!(matches!(parse("description \"a\" description \"b\"", false, &no_sources()), Err(ParseError::Syntax { kind: SyntaxKind::DuplicateDescription, .. })));
}

#[test]
fn parse_reports_end_of_input_without_position() {
    assert!(matches!(parse("version", false, &no_sources()), Err(ParseError::Syntax { at: None, kind: SyntaxKind::EndAfterVersion })));
    assert!(matches!(parse("version title", false, &no_sources()), Err(ParseError::Syntax { at: Some(_), kind: SyntaxKind::ExpectedVersionString })));
}

#[test]
fn parse_rejects_unexpected_top_level_token() {
    assert!(matches!(parse("{", false, &no_sources()), Err(ParseError::Syntax { at: Some(Position { line: 1, column: 1 }), kind: SyntaxKind::UnexpectedTopLevel })));
}

#[test]
fn parse_rejects_missing_array_end_and_comma() {
    assert!(matches!(parse("object A { property x [ string \"d\" }", false, &no_sources()), Err(ParseError::Syntax { kind: SyntaxKind::ExpectedArrayEnd, .. })));
    assert!(matches!(parse("object A { property x <string int> \"d\" }", false, &no_sources()), Err(ParseError::Syntax { kind: SyntaxKind::ExpectedComma, .. })));
    assert!(matches!(parse("object A { property x <string, int \"d\" }", false, &no_sources()), Err(ParseError::Syntax { kind: SyntaxKind::ExpectedMapEnd, .. })));
}

#[test]
fn parse_rejects_bad_object_and_route_items() {
    assert!(matches!(parse("object A { tag \"x\" }", false, &no_sources()), Err(ParseError::Syntax { kind: SyntaxKind::UnexpectedInObject, .. })));
    assert!(matches!(parse("route get \"/\" { property }", false, &no_sources()), Err(ParseError::Syntax { kind: SyntaxKind::UnexpectedInRoute, .. })));
    assert!(matches!(parse("route get \"/\" { response x }", false, &no_sources()), Err(ParseError::Syntax { kind: SyntaxKind::ExpectedStatusCode, .. })));
    assert!(matches!(parse("route get \"/\" { response", false, &no_sources()), Err(ParseError::Syntax { at: None, kind: SyntaxKind::EndAfterResponse })));
    assert!(matches!(parse("object { }", false, &no_sources()), Err(ParseError::Syntax { kind: SyntaxKind::ExpectedIdentifier, .. })));
    assert!(matches!(parse("object A property", false, &no_sources()), Err(ParseError::Syntax { kind: SyntaxKind::ExpectedBlockStart, .. })));
    assert!(matches!(parse("object A { property x string 5 }", false, &no_sources()), Err(ParseError::Syntax { kind: SyntaxKind::ExpectedString, .. })));
    assert!(matches!(parse("object A { property x } }", false, &no_sources()), Err(ParseError::Syntax { kind: SyntaxKind::ExpectedType, .. })));
    assert!(matches!(parse("@ 5", false, &no_sources()), Err(ParseError::Syntax { kind: SyntaxKind::ExpectedImportPath, .. })));
}

#[test]
fn parse_reports_lex_errors() {
    assert!(matches!(parse("object $", false, &no_sources()), Err(ParseError::Lex(manyleb::LexError::UnexpectedCharacter('$')))));
}

#[test]
fn parse_rejects_object_without_closing_brace() {
    let r = parse("object A { property x string \"d\"", false, &no_sources());
    assert!(matches!(r, Err(ParseError::Syntax { at: None, kind: SyntaxKind::ExpectedBlockEnd })));
}

#[test]
fn parse_rejects_route_without_closing_brace() {
    let r = parse("route get \"/x\" { tag \"t\"", false, &no_sources());
    assert!(matches!(r, Err(ParseError::Syntax { at: None, kind: SyntaxKind::ExpectedBlockEnd })));
    let r = parse("route get \"/x\" {", false, &no_sources());
    assert!(matches!(r, Err(ParseError::Syntax { at: None, kind: SyntaxKind::ExpectedBlockEnd })));
}

#[test]
fn parse_accepts_duplicate_ids() {
    let s = parse_ok("object A {} object A {} route get \"/\" {} route get \"/\" {}");
    assert_eq!(s.objects.len(), 2);
    assert_eq!(s.endpoints.len(), 2);
    assert_eq!(s.endpoints[0].id, s.endpoints[1].id);
}

#[test]
fn parse_response_status_truncates_to_u16() {
    let s = parse_ok("route get \"/\" { response 65736 }");
    assert_eq!(s.endpoints[0].responses[0].0, 200);
}

#[test]
fn parse_ignores_imports_without_resolution() {
    let s = parse_ok("object A {} @\"other\" object B {}");
    assert_eq!(s.objects.len(), 2);
    assert_eq!(s.objects[1].id, "B");
}

#[test]
fn parse_merges_imported_objects_and_endpoints() {
    let src = sources(&[("x", "version \"9\" object B {} route get \"/b\" {}")]);
    let s = parse("object A {} @\"x\" object C {}", true, &src).expect("parses");
    let ids: Vec<&str> = s.objects.iter().map(|o| o.id.as_str()).collect();
    assert_eq!(ids, vec!["A", "B", "C"]);
    assert_eq!(s.endpoints.len(), 1);
    assert!(s.version.is_none());
}

#[test]
fn parse_detects_circular_import() {
    let src = sources(&[("a", "@\"b\""), ("b", "@\"a\"")]);
    let r = parse("@\"b\"", true, &src);
    assert!(matches!(r, Err(ParseError::CircularImport(p)) if p == "b"));
}

#[test]
fn parse_rejects_diamond_import() {
    let src = sources(&[("x", "@\"z\""), ("y", "@\"z\""), ("z", "object Z {}")]);
    let r = parse("@\"x\" @\"y\"", true, &src);
    assert!(matches!(r, Err(ParseError::CircularImport(p)) if p == "z"));
}

#[test]
fn parse_reports_missing_source() {
    let r = parse("@\"nowhere\"", true, &no_sources());
    assert!(matches!(r, Err(ParseError::MissingSource(p)) if p == "nowhere"));
}

#[test]
fn parse_reports_lex_error_in_import() {
    let src = sources(&[("x", "object #")]);
    assert!(matches!(parse("@\"x\"", true, &src), Err(ParseError::Lex(_))));
}

#[test]
fn parser_new_then_parse_shares_visited() {
    let tokens = tokenise("@\"x\"").expect("lexes");
    let mut parser = Parser::new(tokens);
    let mut visited: Vec<String> = Vec::new();
    let src = sources(&[("x", "object X {}")]);
    let s = parser.parse(true, &mut visited, &src).expect("parses");
    assert_eq!(s.objects[0].id, "X");
    assert_eq!(visited, vec!["x".to_string()]);
}
