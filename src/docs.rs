//! The documentation renderer: a schema to Markdown reference pages.

use vstd::prelude::*;

use crate::schema::{
    fields_view, responses_view, string_option_view, Endpoint, EndpointView, Field, FieldView, Object,
    ObjectView, Schema, SchemaView, Type, TypeView,
};
use crate::text::{decimal, push_decimal, push_str, push_string, string_of};

verus! {

/// What `str::to_lowercase` returns for `s`.
pub uninterp spec fn lower_of(s: Seq<char>) -> Seq<char>;

/// What `str::to_uppercase` returns for `s`.
pub uninterp spec fn upper_of(s: Seq<char>) -> Seq<char>;

/// Relies on `str::to_lowercase`: the lowercase form of `s`, which depends on its characters alone.
#[verifier::external_body]
fn lowercase(s: &str) -> (r: String)
    ensures
        r@ == lower_of(s@),
{
    s.to_lowercase()
}

/// Relies on `str::to_uppercase`: the uppercase form of `s`, which depends on its characters alone.
#[verifier::external_body]
fn uppercase(s: &str) -> (r: String)
    ensures
        r@ == upper_of(s@),
{
    s.to_uppercase()
}

/// The text of a type in the documentation: a reference becomes a link to
/// the object's heading.
pub open spec fn doc_type(t: TypeView) -> Seq<char>
    decreases t,
{
    match t {
        TypeView::Any => "any"@,
        TypeView::Null => "null"@,
        TypeView::String => "string"@,
        TypeView::Integer => "integer"@,
        TypeView::Float => "float"@,
        TypeView::Boolean => "boolean"@,
        TypeView::Reference(n) => "["@ + n + "](#"@ + lower_of(n) + ")"@,
        TypeView::Array(item) => "[]"@ + doc_type(*item),
        TypeView::Mapping(k, v) => "<"@ + doc_type(*k) + ", "@ + doc_type(*v) + ">"@,
        TypeView::Optional(inner) => "?"@ + doc_type(*inner),
    }
}

/// A table row `| <name> | <type> | <description> |`.
pub open spec fn field_row(f: FieldView) -> Seq<char> {
    "| "@ + f.name + " | "@ + doc_type(f.field_type) + " | "@ + f.description + " |\n"@
}

pub open spec fn field_rows(fs: Seq<FieldView>) -> Seq<char>
    decreases fs.len(),
{
    if fs.len() == 0 {
        Seq::empty()
    } else {
        field_rows(fs.drop_last()) + field_row(fs.last())
    }
}

/// The section of an object: a heading and a table of its properties.
pub open spec fn object_section(o: ObjectView) -> Seq<char> {
    "### "@ + o.id + "\n\n"@ + "| Property | Type | Description |\n"@ + "|----------|------|-------------|\n"@
        + field_rows(o.fields) + "\n"@
}

pub open spec fn object_sections(os: Seq<ObjectView>) -> Seq<char>
    decreases os.len(),
{
    if os.len() == 0 {
        Seq::empty()
    } else {
        object_sections(os.drop_last()) + object_section(os.last())
    }
}

/// A table of parameters under `heading`, where there are any.
pub open spec fn parameter_table(heading: Seq<char>, fs: Seq<FieldView>) -> Seq<char> {
    if fs.len() == 0 {
        Seq::empty()
    } else {
        heading + "| Name | Type | Description |\n"@ + "|------|------|-------------|\n"@ + field_rows(fs) + "\n"@
    }
}

/// A row of the responses table.
pub open spec fn response_row(r: (u16, Option<TypeView>)) -> Seq<char> {
    "| "@ + decimal(r.0 as nat) + " | "@ + match r.1 {
        Some(t) => doc_type(t),
        None => "No Content"@,
    } + " |\n"@
}

pub open spec fn response_rows(rs: Seq<(u16, Option<TypeView>)>) -> Seq<char>
    decreases rs.len(),
{
    if rs.len() == 0 {
        Seq::empty()
    } else {
        response_rows(rs.drop_last()) + response_row(rs.last())
    }
}

/// `prefix`, the value and a blank line, if the value is there.
pub open spec fn prefixed_line(prefix: Seq<char>, v: Option<Seq<char>>) -> Seq<char> {
    match v {
        Some(v) => prefix + v + "\n\n"@,
        None => Seq::empty(),
    }
}

pub open spec fn paragraph(d: Option<Seq<char>>) -> Seq<char> {
    match d {
        Some(d) => d + "\n\n"@,
        None => Seq::empty(),
    }
}

/// The section of an endpoint: a heading, its description, its parameter
/// tables, and its responses.
pub open spec fn endpoint_section(e: EndpointView) -> Seq<char> {
    "### "@ + upper_of(e.method) + " "@ + e.path + "\n\n"@ + paragraph(e.description) + parameter_table(
        "#### Parameters\n\n"@,
        e.params,
    ) + parameter_table("#### Query Parameters\n\n"@, e.query) + "#### Responses\n\n"@
        + "| Status Code | Type |\n"@ + "|-------------|------|\n"@ + response_rows(e.responses) + "\n"@
}

pub open spec fn endpoint_sections(es: Seq<EndpointView>) -> Seq<char>
    decreases es.len(),
{
    if es.len() == 0 {
        Seq::empty()
    } else {
        endpoint_sections(es.drop_last()) + endpoint_section(es.last())
    }
}

/// The documentation of a schema.
pub open spec fn docs_text(s: SchemaView) -> Seq<char> {
    prefixed_line("# "@, s.title) + prefixed_line("**Version:** "@, s.version) + paragraph(s.description) + "## Objects\n\n"@ + object_sections(s.objects) + "## Endpoints\n\n"@
        + endpoint_sections(s.endpoints)
}

pub open spec fn summary_objects(os: Seq<ObjectView>) -> Seq<char>
    decreases os.len(),
{
    if os.len() == 0 {
        Seq::empty()
    } else {
        summary_objects(os.drop_last()) + "- `"@ + os.last().id + "`\n"@
    }
}

pub open spec fn summary_endpoints(es: Seq<EndpointView>) -> Seq<char>
    decreases es.len(),
{
    if es.len() == 0 {
        Seq::empty()
    } else {
        summary_endpoints(es.drop_last()) + "- `"@ + upper_of(es.last().method) + " "@ + es.last().path
            + "`\n"@
    }
}

/// The summary of a schema: one bullet for each object and each endpoint.
pub open spec fn summary_text(s: SchemaView) -> Seq<char> {
    "# Summary\n\n## Objects\n\n"@ + summary_objects(s.objects) + "\n## Endpoints\n\n"@ + summary_endpoints(
        s.endpoints,
    )
}

/// A Markdown link to the heading of the object `name`, whose heading
/// anchor is `anchor` (the lowercase form of the name).
pub fn reference_link(name: &String, anchor: &String) -> (r: String)
    ensures
        r@ == "["@ + name@ + "](#"@ + anchor@ + ")"@,
{
    let mut out: Vec<char> = Vec::new();
    push_str(&mut out, "[");
    push_string(&mut out, name);
    push_str(&mut out, "](#");
    push_string(&mut out, anchor);
    push_str(&mut out, ")");
    assert(out@ =~= "["@ + name@ + "](#"@ + anchor@ + ")"@);
    string_of(&out)
}

/// The heading of an endpoint's section, from its method in upper case and its path.
pub fn endpoint_heading(method: &String, path: &String) -> (r: String)
    ensures
        r@ == "### "@ + method@ + " "@ + path@ + "\n\n"@,
{
    let mut out: Vec<char> = Vec::new();
    push_str(&mut out, "### ");
    push_string(&mut out, method);
    push_str(&mut out, " ");
    push_string(&mut out, path);
    push_str(&mut out, "\n\n");
    assert(out@ =~= "### "@ + method@ + " "@ + path@ + "\n\n"@);
    string_of(&out)
}

/// The summary bullet of an endpoint, from its method in upper case and its path.
pub fn endpoint_bullet(method: &String, path: &String) -> (r: String)
    ensures
        r@ == "- `"@ + method@ + " "@ + path@ + "`\n"@,
{
    let mut out: Vec<char> = Vec::new();
    push_str(&mut out, "- `");
    push_string(&mut out, method);
    push_str(&mut out, " ");
    push_string(&mut out, path);
    push_str(&mut out, "`\n");
    assert(out@ =~= "- `"@ + method@ + " "@ + path@ + "`\n"@);
    string_of(&out)
}

/// Appends the documentation text of `t`.
fn push_doc_type(out: &mut Vec<char>, t: &Type)
    ensures
        final(out)@ == old(out)@ + doc_type(t@),
    decreases t,
{
    match t {
        Type::Any => push_str(out, "any"),
        Type::Null => push_str(out, "null"),
        Type::String => push_str(out, "string"),
        Type::Integer => push_str(out, "integer"),
        Type::Float => push_str(out, "float"),
        Type::Boolean => push_str(out, "boolean"),
        Type::Reference(n) => {
            let lower = lowercase(n.as_str());
            push_string(out, &reference_link(n, &lower));
            assert(out@ =~= old(out)@ + doc_type(t@));
        },
        Type::Array(item) => {
            push_str(out, "[]");
            push_doc_type(out, item);
            assert(out@ =~= old(out)@ + doc_type(t@));
        },
        Type::Mapping(k, v) => {
            push_str(out, "<");
            push_doc_type(out, k);
            push_str(out, ", ");
            push_doc_type(out, v);
            push_str(out, ">");
            assert(out@ =~= old(out)@ + doc_type(t@));
        },
        Type::Optional(inner) => {
            push_str(out, "?");
            push_doc_type(out, inner);
            assert(out@ =~= old(out)@ + doc_type(t@));
        },
    }
}

/// The documentation text of a type.
pub fn format_type(t: &Type) -> (r: String)
    ensures
        r@ == doc_type(t@),
{
    let mut out: Vec<char> = Vec::new();
    push_doc_type(&mut out, t);
    assert(out@ =~= doc_type(t@));
    string_of(&out)
}

fn push_field_rows(out: &mut Vec<char>, fs: &Vec<Field>)
    ensures
        final(out)@ == old(out)@ + field_rows(fields_view(fs@)),
{
    let ghost v = fields_view(fs@);
    let mut i: usize = 0;
    assert(v.subrange(0, 0) =~= Seq::<FieldView>::empty());
    while i < fs.len()
        invariant
            v == fields_view(fs@),
            i <= v.len(),
            out@ == old(out)@ + field_rows(v.subrange(0, i as int)),
        decreases v.len() - i,
    {
        let f = &fs[i];
        assert(v.subrange(0, i + 1 as int).drop_last() == v.subrange(0, i as int));
        assert(v.subrange(0, i + 1 as int).last() == f@);
        let ghost before = out@;
        push_str(out, "| ");
        push_string(out, &f.name);
        push_str(out, " | ");
        push_doc_type(out, &f.field_type);
        push_str(out, " | ");
        push_string(out, &f.description);
        push_str(out, " |\n");
        assert(out@ =~= before + field_row(f@));
        i = i + 1;
    }
    assert(v.subrange(0, v.len() as int) == v);
}

fn push_object_section(out: &mut Vec<char>, o: &Object)
    ensures
        final(out)@ == old(out)@ + object_section(o@),
{
    push_str(out, "### ");
    push_string(out, &o.id);
    push_str(out, "\n\n");
    push_str(out, "| Property | Type | Description |\n");
    push_str(out, "|----------|------|-------------|\n");
    push_field_rows(out, &o.fields);
    push_str(out, "\n");
    assert(out@ =~= old(out)@ + object_section(o@));
}

fn push_parameter_table(out: &mut Vec<char>, heading: &str, fs: &Vec<Field>)
    ensures
        final(out)@ == old(out)@ + parameter_table(heading@, fields_view(fs@)),
{
    if fs.len() == 0 {
        assert(old(out)@ + Seq::<char>::empty() =~= old(out)@);
        return;
    }
    push_str(out, heading);
    push_str(out, "| Name | Type | Description |\n");
    push_str(out, "|------|------|-------------|\n");
    push_field_rows(out, fs);
    push_str(out, "\n");
    assert(out@ =~= old(out)@ + parameter_table(heading@, fields_view(fs@)));
}

fn push_response_rows(out: &mut Vec<char>, responses: &Vec<(u16, Option<Type>)>)
    ensures
        final(out)@ == old(out)@ + response_rows(responses_view(responses@)),
{
    let ghost rs = responses_view(responses@);
    let mut k: usize = 0;
    assert(rs.subrange(0, 0) =~= Seq::<(u16, Option<TypeView>)>::empty());
    while k < responses.len()
        invariant
            rs == responses_view(responses@),
            k <= rs.len(),
            out@ == old(out)@ + response_rows(rs.subrange(0, k as int)),
        decreases rs.len() - k,
    {
        let r = &responses[k];
        assert(rs.subrange(0, k + 1 as int).drop_last() == rs.subrange(0, k as int));
        assert(rs.subrange(0, k + 1 as int).last() == rs[k as int]);
        let ghost before = out@;
        push_str(out, "| ");
        push_decimal(out, r.0 as u64);
        push_str(out, " | ");
        match &r.1 {
            Some(t) => push_doc_type(out, t),
            None => push_str(out, "No Content"),
        }
        push_str(out, " |\n");
        assert(out@ =~= before + response_row(rs[k as int]));
        k = k + 1;
    }
    assert(rs.subrange(0, rs.len() as int) == rs);
}

fn push_paragraph(out: &mut Vec<char>, d: &Option<String>)
    ensures
        final(out)@ == old(out)@ + paragraph(string_option_view(*d)),
{
    match d {
        Some(d) => {
            push_string(out, d);
            push_str(out, "\n\n");
            assert(out@ =~= old(out)@ + (d@ + "\n\n"@));
        },
        None => {
            assert(old(out)@ + Seq::<char>::empty() =~= old(out)@);
        },
    }
}

fn push_prefixed_line(out: &mut Vec<char>, prefix: &str, v: &Option<String>)
    ensures
        final(out)@ == old(out)@ + prefixed_line(prefix@, string_option_view(*v)),
{
    match v {
        Some(v) => {
            push_str(out, prefix);
            push_string(out, v);
            push_str(out, "\n\n");
            assert(out@ =~= old(out)@ + (prefix@ + v@ + "\n\n"@));
        },
        None => {
            assert(old(out)@ + Seq::<char>::empty() =~= old(out)@);
        },
    }
}

#[verifier::rlimit(60)]
fn push_endpoint_section(out: &mut Vec<char>, e: &Endpoint)
    ensures
        final(out)@ == old(out)@ + endpoint_section(e@),
{
    let method = uppercase(e.method.as_str());
    push_string(out, &endpoint_heading(&method, &e.path));
    push_paragraph(out, &e.description);
    push_parameter_table(out, "#### Parameters\n\n", &e.params);
    push_parameter_table(out, "#### Query Parameters\n\n", &e.query);
    push_str(out, "#### Responses\n\n");
    push_str(out, "| Status Code | Type |\n");
    push_str(out, "|-------------|------|\n");
    push_response_rows(out, &e.responses);
    push_str(out, "\n");
    assert(out@ =~= old(out)@ + endpoint_section(e@));
}

/// The Markdown reference documentation of a schema.
pub fn generate_docs(schema: &Schema) -> (r: String)
    ensures
        r@ == docs_text(schema@),
{
    let mut out: Vec<char> = Vec::new();
    push_prefixed_line(&mut out, "# ", &schema.title);
    push_prefixed_line(&mut out, "**Version:** ", &schema.version);
    push_paragraph(&mut out, &schema.description);
    push_str(&mut out, "## Objects\n\n");
    let ghost head = out@;
    let ghost os = schema@.objects;
    let mut i: usize = 0;
    assert(os.subrange(0, 0) =~= Seq::<ObjectView>::empty());
    assert(head + Seq::<char>::empty() == head);
    while i < schema.objects.len()
        invariant
            os == schema@.objects,
            i <= os.len(),
            out@ == head + object_sections(os.subrange(0, i as int)),
        decreases os.len() - i,
    {
        assert(os.subrange(0, i + 1 as int).drop_last() == os.subrange(0, i as int));
        assert(os.subrange(0, i + 1 as int).last() == schema.objects@[i as int]@);
        let ghost before = out@;
        push_object_section(&mut out, &schema.objects[i]);
        assert(out@ =~= before + object_section(schema.objects@[i as int]@));
        i = i + 1;
    }
    assert(os.subrange(0, os.len() as int) == os);
    push_str(&mut out, "## Endpoints\n\n");
    let ghost mid = out@;
    let ghost es = schema@.endpoints;
    let mut k: usize = 0;
    assert(es.subrange(0, 0) =~= Seq::<EndpointView>::empty());
    assert(mid + Seq::<char>::empty() == mid);
    while k < schema.endpoints.len()
        invariant
            es == schema@.endpoints,
            k <= es.len(),
            out@ == mid + endpoint_sections(es.subrange(0, k as int)),
        decreases es.len() - k,
    {
        assert(es.subrange(0, k + 1 as int).drop_last() == es.subrange(0, k as int));
        assert(es.subrange(0, k + 1 as int).last() == schema.endpoints@[k as int]@);
        let ghost before = out@;
        push_endpoint_section(&mut out, &schema.endpoints[k]);
        assert(out@ =~= before + endpoint_section(schema.endpoints@[k as int]@));
        k = k + 1;
    }
    assert(es.subrange(0, es.len() as int) == es);
    assert(out@ =~= docs_text(schema@));
    string_of(&out)
}

/// The summary of a schema: one bullet for each object and each endpoint,
/// in declaration order.
pub fn generate_summary(schema: &Schema) -> (r: String)
    ensures
        r@ == summary_text(schema@),
{
    let mut out: Vec<char> = Vec::new();
    push_str(&mut out, "# Summary\n\n## Objects\n\n");
    let ghost head = out@;
    let ghost os = schema@.objects;
    let mut i: usize = 0;
    assert(os.subrange(0, 0) =~= Seq::<ObjectView>::empty());
    assert(head + Seq::<char>::empty() == head);
    while i < schema.objects.len()
        invariant
            os == schema@.objects,
            i <= os.len(),
            out@ == head + summary_objects(os.subrange(0, i as int)),
        decreases os.len() - i,
    {
        assert(os.subrange(0, i + 1 as int).drop_last() == os.subrange(0, i as int));
        assert(os.subrange(0, i + 1 as int).last() == schema.objects@[i as int]@);
        let ghost before = out@;
        push_str(&mut out, "- `");
        push_string(&mut out, &schema.objects[i].id);
        push_str(&mut out, "`\n");
        assert(out@ =~= before + "- `"@ + schema.objects@[i as int]@.id + "`\n"@);
        i = i + 1;
    }
    assert(os.subrange(0, os.len() as int) == os);
    push_str(&mut out, "\n## Endpoints\n\n");
    let ghost mid = out@;
    let ghost es = schema@.endpoints;
    let mut k: usize = 0;
    assert(es.subrange(0, 0) =~= Seq::<EndpointView>::empty());
    assert(mid + Seq::<char>::empty() == mid);
    while k < schema.endpoints.len()
        invariant
            es == schema@.endpoints,
            k <= es.len(),
            out@ == mid + summary_endpoints(es.subrange(0, k as int)),
        decreases es.len() - k,
    {
        let e = &schema.endpoints[k];
        assert(es.subrange(0, k + 1 as int).drop_last() == es.subrange(0, k as int));
        assert(es.subrange(0, k + 1 as int).last() == e@);
        let ghost before = out@;
        let method = uppercase(e.method.as_str());
        push_string(&mut out, &endpoint_bullet(&method, &e.path));
        assert(out@ =~= before + "- `"@ + upper_of(e@.method) + " "@ + e@.path + "`\n"@);
        k = k + 1;
    }
    assert(es.subrange(0, es.len() as int) == es);
    assert(out@ =~= summary_text(schema@));
    string_of(&out)
}

} // verus!
