use manyleb::docs::{endpoint_bullet, endpoint_heading, reference_link};
use manyleb::formatter::escape_string;
use manyleb::{generate_docs, generate_summary, parse, Schema, Type};

const PETS: &str = "version \"1.0\"\ntitle \"Pets\"\n\
object Pet {\n  property id int \"The id\"\n  property name string \"Name\"\n}\n\
route get \"/pets\" {\n  description \"List\"\n  tag \"pets\"\n  param limit int \"Max\"\n\
  query q ?string \"Search\"\n  body Pet\n  response 200 []Pet\n  response 204\n}\n";

fn parse_ok(text: &str) -> Schema {
    parse(text, false, &Vec::new()).expect("text should parse")
}

#[test]
fn format_aligns_columns_and_orders_blocks() {
    let expected = "version \"1.0\"\ntitle \"Pets\"\n\n\
object Pet {\n    prop id   integer \"The id\"\n    prop name string  \"Name\"\n}\n\n\
route get \"/pets\" {\n    description \"List\"\n\n    tag \"pets\"\n\n    param limit integer \"Max\"\n\n    \
query q ?string \"Search\"\n\n    body Pet\n\n    response 200 []Pet\n    response 204\n}\n";
    assert_eq!(manyleb::formatter::format(&parse_ok(PETS)), expected);
}

#[test]
fn format_empty_schema() {
    assert_eq!(manyleb::formatter::format(&Schema::new()), "\n");
}

#[test]
fn format_escapes_header_strings() {
    let s = parse_ok("description \"a\\\"b\\nc\"");
    assert_eq!(manyleb::formatter::format(&s), "description \"a\\\"b\\nc\"\n");
}

#[test]
fn format_nested_types() {
    let s = parse_ok("route get \"/\" { body <str, []?Foo> }");
    assert_eq!(manyleb::formatter::format(&s), "\nroute get \"/\" {\n    body <string, []?Foo>\n\n}\n");
}

#[test]
fn format_drops_imports() {
    let s = parse_ok("@\"other\" route get \"/\" {}");
    assert_eq!(manyleb::formatter::format(&s), "\nroute get \"/\" {\n}\n");
}

#[test]
fn escape_string_escapes_specials_only() {
    assert_eq!(escape_string(&"a\n\t\r\"\\\u{e9}".to_string()), "a\\n\\t\\r\\\"\\\\\u{e9}");
}

#[test]
fn round_trip_without_object_fields() {
    let text = "title \"T\\t\" description \"d\" object A {} route post \"/p\\\"q\" { description \"x\" tag \"a\" tag \"b\" param id int \"i\\n\" query f ?<str, []A> \"f\" body A response 201 A response 204 }";
    let first = parse_ok(text);
    let formatted = manyleb::formatter::format(&first);
    let second = parse_ok(&formatted);
    assert_eq!(second.title, first.title);
    assert_eq!(second.description, first.description);
    assert_eq!(second.objects.len(), 1);
    assert_eq!(second.endpoints[0].path, "/p\"q");
    assert_eq!(second.endpoints[0].params[0].description, "i\n");
    assert_eq!(manyleb::formatter::format(&second), formatted);
}

#[test]
fn formatting_is_idempotent() {
    let text = "version \"2\" route get \"/a\" { response 200 []int response 404 }";
    let once = manyleb::formatter::format(&parse_ok(text));
    let twice = manyleb::formatter::format(&parse_ok(&once));
    assert_eq!(once, twice);
}

#[test]
fn docs_full_document() {
    let expected = "# Pets\n\n**Version:** 1.0\n\n## Objects\n\n### Pet\n\n\
| Property | Type | Description |\n|----------|------|-------------|\n| id | integer | The id |\n| name | string | Name |\n\n\
## Endpoints\n\n### GET /pets\n\nList\n\n#### Parameters\n\n| Name | Type | Description |\n|------|------|-------------|\n| limit | integer | Max |\n\n\
#### Query Parameters\n\n| Name | Type | Description |\n|------|------|-------------|\n| q | ?string | Search |\n\n\
#### Responses\n\n| Status Code | Type |\n|-------------|------|\n| 200 | [][Pet](#pet) |\n| 204 | No Content |\n\n";
    assert_eq!(generate_docs(&parse_ok(PETS)), expected);
}

#[test]
fn docs_empty_response_body() {
    let docs = generate_docs(&parse_ok("route delete \"/x\" { response 204 }"));
    assert!(docs.contains("| 204 | No Content |\n"));
}

#[test]
fn docs_link_rendering() {
    let docs = generate_docs(&parse_ok("object Pet {} object Shop { property pets []Pet \"all\" }"));
    assert!(docs.contains("| pets | [][Pet](#pet) | all |\n"));
}

#[test]
fn docs_type_links_lowercase_the_anchor() {
    let t = Type::Mapping(Box::new(Type::String), Box::new(Type::Reference("PetOwner".to_string())));
    assert_eq!(manyleb::docs::format_type(&t), "<string, [PetOwner](#petowner)>");
}

#[test]
fn docs_empty_schema() {
    assert_eq!(generate_docs(&Schema::new()), "## Objects\n\n## Endpoints\n\n");
}

#[test]
fn summary_lists_objects_and_endpoints() {
    let s = parse_ok("object Pet {} object Shop {} route get \"/pets\" {} route post \"/shops\" {}");
    assert_eq!(
        generate_summary(&s),
        "# Summary\n\n## Objects\n\n- `Pet`\n- `Shop`\n\n## Endpoints\n\n- `GET /pets`\n- `POST /shops`\n"
    );
}

#[test]
fn formatted_property_lines_use_prop_keyword() {
    let formatted = manyleb::formatter::format(&parse_ok("object A { property x string \"d\" }"));
    assert_eq!(formatted, "\nobject A {\n    prop x string \"d\"\n}\n");
    let reparsed = parse(&formatted, false, &Vec::new());
    assert!(matches!(reparsed, Err(manyleb::ParseError::Syntax { kind: manyleb::SyntaxKind::UnexpectedInObject, .. })));
}

#[test]
fn format_escapes_property_descriptions() {
    let s = parse_ok("object A { property x string \"say \\\"hi\\\"\\n\" }");
    assert_eq!(s.objects[0].fields[0].description, "say \"hi\"\n");
    let formatted = manyleb::formatter::format(&s);
    assert_eq!(formatted, "\nobject A {\n    prop x string \"say \\\"hi\\\"\\n\"\n}\n");
}

#[test]
fn reference_link_and_endpoint_lines() {
    assert_eq!(reference_link(&"Pet".to_string(), &"pet".to_string()), "[Pet](#pet)");
    assert_eq!(endpoint_heading(&"GET".to_string(), &"/pets".to_string()), "### GET /pets\n\n");
    assert_eq!(endpoint_bullet(&"POST".to_string(), &"/a".to_string()), "- `POST /a`\n");
}
