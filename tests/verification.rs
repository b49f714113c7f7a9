use manyleb::{parse, Location, Wrapping};

fn check(text: &str) -> Result<(), manyleb::UndefinedReference> {
    parse(text, false, &Vec::new()).expect("text should parse").verify()
}

#[test]
fn self_reference_passes() {
    assert!(check("object Node { property next ?Node \"next\" }").is_ok());
}

#[test]
fn undefined_reference_rejected() {
    let e = check("object Box { property item Widget \"w\" }").unwrap_err();
    assert_eq!(e.reference, "Widget");
    assert_eq!(e.wrapping, Wrapping::Bare);
    assert!(matches!(&e.location, Location::ObjectField { object, field } if object == "Box" && field == "item"));
}

#[test]
fn optional_reference_not_checked() {
    assert!(check("object Box { property item ?Widget \"w\" }").is_ok());
    assert!(check("object Box { property item []?Widget \"w\" }").is_ok());
    assert!(check("object Box { property item <string, []Widget> \"w\" }").is_ok());
}

#[test]
fn array_and_mapping_references_checked() {
    assert_eq!(check("object Box { property item []Widget \"w\" }").unwrap_err().wrapping, Wrapping::ArrayItem);
    let key = check("object Box { property item <Widget, Gadget> \"w\" }").unwrap_err();
    assert_eq!(key.wrapping, Wrapping::MappingKey);
    assert_eq!(key.reference, "Widget");
    let value = check("object Box { property item <string, Gadget> \"w\" }").unwrap_err();
    assert_eq!(value.wrapping, Wrapping::MappingValue);
    assert_eq!(value.reference, "Gadget");
}

#[test]
fn endpoint_body_and_responses_checked() {
    let body = check("object A {} route post \"/a\" { body Missing response 200 Other }").unwrap_err();
    assert_eq!(body.reference, "Missing");
    assert!(matches!(&body.location, Location::RequestBody { endpoint } if endpoint == "post_/a"));
    let resp = check("object A {} route get \"/a\" { body A response 204 response 200 []Other }").unwrap_err();
    assert_eq!(resp.reference, "Other");
    assert_eq!(resp.wrapping, Wrapping::ArrayItem);
    assert!(matches!(&resp.location, Location::Response { endpoint } if endpoint == "get_/a"));
}

#[test]
fn first_undefined_reference_reported() {
    let e = check("object A { property x One \"\" property y Two \"\" } route get \"/\" { body Three }").unwrap_err();
    assert_eq!(e.reference, "One");
}

#[test]
fn parameters_not_checked() {
    assert!(check("route get \"/\" { param p Missing \"d\" query q Missing \"d\" }").is_ok());
}

#[test]
fn duplicate_object_ids_pass() {
    assert!(check("object A {} object A { property b A \"\" }").is_ok());
}
