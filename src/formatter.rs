//! The canonical formatter: a schema back to source text.

use vstd::prelude::*;

use crate::schema::{
    fields_view, strings_view, Endpoint, EndpointView, Field, FieldView, Object, ObjectView, Schema,
    SchemaView, Type, TypeView,
};
use crate::lexer::{escaped, lex_step, prefixed, string_close, unescape};
use crate::token::TokenView;
use crate::text::{chars_of, decimal, push_chars, push_decimal, push_str, push_string, string_of};
use vstd::string::StrSliceExecFns;

verus! {

/// The escape sequence, or the character itself, that stands for `c` in a string literal.
pub open spec fn escape_char(c: char) -> Seq<char> {
    if c == '\n' {
        "\\n"@
    } else if c == '\t' {
        "\\t"@
    } else if c == '\r' {
        "\\r"@
    } else if c == '"' {
        "\\\""@
    } else if c == '\\' {
        "\\\\"@
    } else {
        seq![c]
    }
}

/// `s` with its line feeds, tabs, carriage returns, quotes and backslashes escaped.
pub open spec fn escape(s: Seq<char>) -> Seq<char>
    decreases s.len(),
{
    if s.len() == 0 {
        Seq::empty()
    } else {
        escape(s.drop_last()) + escape_char(s.last())
    }
}

/// The canonical text of a type.
pub open spec fn type_text(t: TypeView) -> Seq<char>
    decreases t,
{
    match t {
        TypeView::Any => "any"@,
        TypeView::Null => "null"@,
        TypeView::String => "string"@,
        TypeView::Integer => "integer"@,
        TypeView::Float => "float"@,
        TypeView::Boolean => "boolean"@,
        TypeView::Reference(n) => escape(n),
        TypeView::Array(item) => "[]"@ + type_text(*item),
        TypeView::Mapping(k, v) => "<"@ + type_text(*k) + ", "@ + type_text(*v) + ">"@,
        TypeView::Optional(inner) => "?"@ + type_text(*inner),
    }
}

pub open spec fn spaces(n: nat) -> Seq<char> {
    Seq::new(n, |i: int| ' ')
}

/// `s` padded with spaces on the right to at least `w` characters.
pub open spec fn pad(s: Seq<char>, w: nat) -> Seq<char> {
    if s.len() < w {
        s + spaces((w - s.len()) as nat)
    } else {
        s
    }
}

/// The widest field name of `fs`.
pub open spec fn name_width(fs: Seq<FieldView>) -> nat
    decreases fs.len(),
{
    if fs.len() == 0 {
        0
    } else {
        let w = name_width(fs.drop_last());
        if fs.last().name.len() > w {
            fs.last().name.len()
        } else {
            w
        }
    }
}

/// The widest type text of `fs`.
pub open spec fn type_width(fs: Seq<FieldView>) -> nat
    decreases fs.len(),
{
    if fs.len() == 0 {
        0
    } else {
        let w = type_width(fs.drop_last());
        if type_text(fs.last().field_type).len() > w {
            type_text(fs.last().field_type).len()
        } else {
            w
        }
    }
}

/// One property line of an object block, its columns padded to the given widths.
pub open spec fn property_line(f: FieldView, name_w: nat, type_w: nat) -> Seq<char> {
    "    prop "@ + pad(f.name, name_w) + " "@ + pad(type_text(f.field_type), type_w) + " \""@ + escape(
        f.description,
    ) + "\"\n"@
}

pub open spec fn property_lines(fs: Seq<FieldView>, name_w: nat, type_w: nat) -> Seq<char>
    decreases fs.len(),
{
    if fs.len() == 0 {
        Seq::empty()
    } else {
        property_lines(fs.drop_last(), name_w, type_w) + property_line(fs.last(), name_w, type_w)
    }
}

/// The block of an object, its columns aligned within the block.
pub open spec fn object_text(o: ObjectView) -> Seq<char> {
    "object "@ + o.id + " {\n"@ + property_lines(o.fields, name_width(o.fields), type_width(o.fields))
        + "}\n"@
}

/// Lines of the form `    <keyword> <name> <type> "<description>"`.
pub open spec fn parameter_lines(keyword: Seq<char>, fs: Seq<FieldView>) -> Seq<char>
    decreases fs.len(),
{
    if fs.len() == 0 {
        Seq::empty()
    } else {
        parameter_lines(keyword, fs.drop_last()) + "    "@ + keyword + " "@ + fs.last().name + " "@
            + type_text(fs.last().field_type) + " \""@ + escape(fs.last().description) + "\"\n"@
    }
}

pub open spec fn tag_lines(ts: Seq<Seq<char>>) -> Seq<char>
    decreases ts.len(),
{
    if ts.len() == 0 {
        Seq::empty()
    } else {
        tag_lines(ts.drop_last()) + "    tag \""@ + escape(ts.last()) + "\"\n"@
    }
}

pub open spec fn response_line(r: (u16, Option<TypeView>)) -> Seq<char> {
    match r.1 {
        Some(t) => "    response "@ + decimal(r.0 as nat) + " "@ + type_text(t) + "\n"@,
        None => "    response "@ + decimal(r.0 as nat) + "\n"@,
    }
}

pub open spec fn response_lines(rs: Seq<(u16, Option<TypeView>)>) -> Seq<char>
    decreases rs.len(),
{
    if rs.len() == 0 {
        Seq::empty()
    } else {
        response_lines(rs.drop_last()) + response_line(rs.last())
    }
}

/// A blank line after a group that is not empty.
pub open spec fn group_end(n: nat) -> Seq<char> {
    if n > 0 {
        "\n"@
    } else {
        Seq::empty()
    }
}

/// The block of a route.
pub open spec fn route_text(e: EndpointView) -> Seq<char> {
    "route "@ + e.method + " \""@ + escape(e.path) + "\" {\n"@
        + description_text(e.description) + tag_lines(e.tags) + group_end(e.tags.len()) + parameter_lines("param"@, e.params) + group_end(
        e.params.len(),
    ) + parameter_lines("query"@, e.query) + group_end(e.query.len()) + body_text(e.request_body) + response_lines(e.responses) + "}\n"@
}

pub open spec fn objects_text(os: Seq<ObjectView>) -> Seq<char>
    decreases os.len(),
{
    if os.len() == 0 {
        Seq::empty()
    } else {
        objects_text(os.drop_last()) + object_text(os.last()) + "\n"@
    }
}

pub open spec fn routes_text(es: Seq<EndpointView>) -> Seq<char>
    decreases es.len(),
{
    if es.len() == 0 {
        Seq::empty()
    } else {
        routes_text(es.drop_last()) + route_text(es.last()) + "\n"@
    }
}

/// A header line `<keyword> "<value>"`, if the value is there.
pub open spec fn header_line(keyword: Seq<char>, v: Option<Seq<char>>) -> Seq<char> {
    match v {
        Some(s) => keyword + " \""@ + escape(s) + "\"\n"@,
        None => Seq::empty(),
    }
}

/// The text before the last character, where the text ends in a blank line.
pub open spec fn trim_blank_end(s: Seq<char>) -> Seq<char> {
    if s.len() >= 2 && s[s.len() - 1] == '\n' && s[s.len() - 2] == '\n' {
        s.drop_last()
    } else {
        s
    }
}

/// The canonical text of a schema.
pub open spec fn schema_text(s: SchemaView) -> Seq<char> {
    trim_blank_end(
        header_line("version"@, s.version) + header_line("title"@, s.title) + header_line(
            "description"@,
            s.description,
        ) + "\n"@ + objects_text(s.objects) + routes_text(s.endpoints),
    )
}

/// Appends `s` with its escapes to `out`.
fn push_escaped(out: &mut Vec<char>, s: &String)
    ensures
        final(out)@ == old(out)@ + escape(s@),
{
    let cs = chars_of(s.as_str());
    let mut i: usize = 0;
    while i < cs.len()
        invariant
            cs@ == s@,
            i <= cs@.len(),
            out@ == old(out)@ + escape(cs@.subrange(0, i as int)),
        decreases cs@.len() - i,
    {
        let c = cs[i];
        let ghost before = out@;
        if c == '\n' {
            push_str(out, "\\n");
        } else if c == '\t' {
            push_str(out, "\\t");
        } else if c == '\r' {
            push_str(out, "\\r");
        } else if c == '"' {
            push_str(out, "\\\"");
        } else if c == '\\' {
            push_str(out, "\\\\");
        } else {
            out.push(c);
            assert(out@ == before + seq![c]);
        }
        assert(cs@.subrange(0, i + 1 as int).drop_last() == cs@.subrange(0, i as int));
        i = i + 1;
    }
    assert(cs@.subrange(0, cs@.len() as int) == cs@);
}

/// `s` with its line feeds, tabs, carriage returns, quotes and backslashes escaped.
pub fn escape_string(s: &String) -> (r: String)
    ensures
        r@ == escape(s@),
{
    let mut out: Vec<char> = Vec::new();
    push_escaped(&mut out, s);
    string_of(&out)
}

/// Appends the canonical text of `t` to `out`.
fn push_type(out: &mut Vec<char>, t: &Type)
    ensures
        final(out)@ == old(out)@ + type_text(t@),
    decreases t,
{
    match t {
        Type::Any => push_str(out, "any"),
        Type::Null => push_str(out, "null"),
        Type::String => push_str(out, "string"),
        Type::Integer => push_str(out, "integer"),
        Type::Float => push_str(out, "float"),
        Type::Boolean => push_str(out, "boolean"),
        Type::Reference(n) => push_escaped(out, n),
        Type::Array(item) => {
            push_str(out, "[]");
            push_type(out, item);
            assert(out@ == old(out)@ + type_text(t@));
        },
        Type::Mapping(k, v) => {
            push_str(out, "<");
            push_type(out, k);
            push_str(out, ", ");
            push_type(out, v);
            push_str(out, ">");
            assert(out@ == old(out)@ + type_text(t@));
        },
        Type::Optional(inner) => {
            push_str(out, "?");
            push_type(out, inner);
            assert(out@ == old(out)@ + type_text(t@));
        },
    }
}

/// The canonical text of a type.
fn type_chars(t: &Type) -> (r: Vec<char>)
    ensures
        r@ == type_text(t@),
{
    let mut out: Vec<char> = Vec::new();
    push_type(&mut out, t);
    assert(out@ =~= type_text(t@));
    out
}

/// Appends `s` padded with spaces to `w` characters.
fn push_padded(out: &mut Vec<char>, s: &Vec<char>, w: usize)
    ensures
        final(out)@ == old(out)@ + pad(s@, w as nat),
{
    push_chars(out, s);
    let mut k: usize = s.len();
    while k < w
        invariant
            s@.len() <= k <= w || (k == s@.len() && k >= w),
            out@ == old(out)@ + s@ + spaces((k - s@.len()) as nat),
        decreases w - k,
    {
        out.push(' ');
        k = k + 1;
        assert(spaces((k - s@.len()) as nat) =~= spaces((k - 1 - s@.len()) as nat).push(' '));
    }
    proof {
        if s@.len() >= w {
            assert(spaces(0) =~= Seq::<char>::empty());
        }
        assert(out@ =~= old(out)@ + pad(s@, w as nat));
    }
}

/// Appends the block of an object.
fn push_object(out: &mut Vec<char>, o: &Object)
    ensures
        final(out)@ == old(out)@ + object_text(o@),
{
    let ghost fs = o@.fields;
    let mut name_w: usize = 0;
    let mut type_w: usize = 0;
    let mut i: usize = 0;
    while i < o.fields.len()
        invariant
            fs == o@.fields,
            i <= fs.len(),
            name_w == name_width(fs.subrange(0, i as int)),
            type_w == type_width(fs.subrange(0, i as int)),
        decreases fs.len() - i,
    {
        let f = &o.fields[i];
        assert(fs.subrange(0, i + 1 as int).drop_last() == fs.subrange(0, i as int));
        assert(fs.subrange(0, i + 1 as int).last() == f@);
        let name_len = f.name.as_str().unicode_len();
        if name_len > name_w {
            name_w = name_len;
        }
        let type_len = type_chars(&f.field_type).len();
        if type_len > type_w {
            type_w = type_len;
        }
        i = i + 1;
    }
    assert(fs.subrange(0, fs.len() as int) == fs);
    let ghost start = out@;
    push_str(out, "object ");
    push_string(out, &o.id);
    push_str(out, " {\n");
    let ghost head = out@;
    let mut j: usize = 0;
    while j < o.fields.len()
        invariant
            fs == o@.fields,
            j <= fs.len(),
            out@ == head + property_lines(fs.subrange(0, j as int), name_w as nat, type_w as nat),
        decreases fs.len() - j,
    {
        let f = &o.fields[j];
        assert(fs.subrange(0, j + 1 as int).drop_last() == fs.subrange(0, j as int));
        assert(fs.subrange(0, j + 1 as int).last() == f@);
        let name = chars_of(f.name.as_str());
        let ty = type_chars(&f.field_type);
        let ghost before = out@;
        push_str(out, "    prop ");
        push_padded(out, &name, name_w);
        push_str(out, " ");
        push_padded(out, &ty, type_w);
        push_str(out, " \"");
        push_escaped(out, &f.description);
        push_str(out, "\"\n");
        assert(out@ =~= before + property_line(f@, name_w as nat, type_w as nat));
        j = j + 1;
    }
    push_str(out, "}\n");
    assert(out@ =~= start + object_text(o@));
}

/// Appends lines of the form `    <keyword> <name> <type> "<description>"`.
fn push_parameters(out: &mut Vec<char>, keyword: &str, fs: &Vec<Field>)
    ensures
        final(out)@ == old(out)@ + parameter_lines(keyword@, fields_view(fs@)),
{
    let ghost v = fields_view(fs@);
    let mut i: usize = 0;
    assert(v.subrange(0, 0) =~= Seq::<FieldView>::empty());
    while i < fs.len()
        invariant
            v == fields_view(fs@),
            i <= v.len(),
            out@ == old(out)@ + parameter_lines(keyword@, v.subrange(0, i as int)),
        decreases v.len() - i,
    {
        let f = &fs[i];
        assert(v.subrange(0, i + 1 as int).drop_last() == v.subrange(0, i as int));
        assert(v.subrange(0, i + 1 as int).last() == f@);
        let ghost before = out@;
        push_str(out, "    ");
        push_str(out, keyword);
        push_str(out, " ");
        push_string(out, &f.name);
        push_str(out, " ");
        push_type(out, &f.field_type);
        push_str(out, " \"");
        push_escaped(out, &f.description);
        push_str(out, "\"\n");
        assert(out@ =~= before + "    "@ + keyword@ + " "@ + f@.name + " "@ + type_text(f@.field_type) + " \""@
            + escape(f@.description) + "\"\n"@);
        i = i + 1;
    }
    assert(v.subrange(0, v.len() as int) == v);
}

/// Appends a blank line after a group that is not empty.
fn push_group_end(out: &mut Vec<char>, n: usize)
    ensures
        final(out)@ == old(out)@ + group_end(n as nat),
{
    if n > 0 {
        push_str(out, "\n");
    } else {
        assert(old(out)@ + Seq::<char>::empty() =~= old(out)@);
    }
}

fn push_tags(out: &mut Vec<char>, tags: &Vec<String>)
    ensures
        final(out)@ == old(out)@ + tag_lines(strings_view(tags@)),
{
    let ghost ts = strings_view(tags@);
    let mut i: usize = 0;
    assert(ts.subrange(0, 0) =~= Seq::<Seq<char>>::empty());
    while i < tags.len()
        invariant
            ts == strings_view(tags@),
            i <= ts.len(),
            out@ == old(out)@ + tag_lines(ts.subrange(0, i as int)),
        decreases ts.len() - i,
    {
        assert(ts.subrange(0, i + 1 as int).drop_last() == ts.subrange(0, i as int));
        assert(ts.subrange(0, i + 1 as int).last() == tags@[i as int]@);
        let ghost before = out@;
        push_str(out, "    tag \"");
        push_escaped(out, &tags[i]);
        push_str(out, "\"\n");
        assert(out@ =~= before + "    tag \""@ + escape(tags@[i as int]@) + "\"\n"@);
        i = i + 1;
    }
    assert(ts.subrange(0, ts.len() as int) == ts);
}

fn push_responses(out: &mut Vec<char>, responses: &Vec<(u16, Option<Type>)>)
    ensures
        final(out)@ == old(out)@ + response_lines(crate::schema::responses_view(responses@)),
{
    let ghost rs = crate::schema::responses_view(responses@);
    let mut k: usize = 0;
    assert(rs.subrange(0, 0) =~= Seq::<(u16, Option<TypeView>)>::empty());
    while k < responses.len()
        invariant
            rs == crate::schema::responses_view(responses@),
            k <= rs.len(),
            out@ == old(out)@ + response_lines(rs.subrange(0, k as int)),
        decreases rs.len() - k,
    {
        let r = &responses[k];
        assert(rs.subrange(0, k + 1 as int).drop_last() == rs.subrange(0, k as int));
        assert(rs.subrange(0, k + 1 as int).last() == rs[k as int]);
        let ghost before = out@;
        push_str(out, "    response ");
        push_decimal(out, r.0 as u64);
        match &r.1 {
            Some(t) => {
                push_str(out, " ");
                push_type(out, t);
            },
            None => {},
        }
        push_str(out, "\n");
        assert(out@ =~= before + response_line(rs[k as int]));
        k = k + 1;
    }
    assert(rs.subrange(0, rs.len() as int) == rs);
}

/// The route's description line and the blank line after it, if it has one.
pub open spec fn description_text(d: Option<Seq<char>>) -> Seq<char> {
    match d {
        Some(d) => "    description \""@ + escape(d) + "\"\n\n"@,
        None => Seq::empty(),
    }
}

/// The route's body line and the blank line after it, if it has a body.
pub open spec fn body_text(b: Option<TypeView>) -> Seq<char> {
    match b {
        Some(t) => "    body "@ + type_text(t) + "\n\n"@,
        None => Seq::empty(),
    }
}

fn push_description(out: &mut Vec<char>, d: &Option<String>)
    ensures
        final(out)@ == old(out)@ + description_text(crate::schema::string_option_view(*d)),
{
    match d {
        Some(d) => {
            let ghost before = out@;
            push_str(out, "    description \"");
            push_escaped(out, d);
            push_str(out, "\"\n\n");
            assert(out@ =~= before + ("    description \""@ + escape(d@) + "\"\n\n"@));
        },
        None => {
            assert(old(out)@ + Seq::<char>::empty() =~= old(out)@);
        },
    }
}

fn push_body(out: &mut Vec<char>, b: &Option<Type>)
    ensures
        final(out)@ == old(out)@ + body_text(crate::schema::type_option_view(*b)),
{
    match b {
        Some(t) => {
            let ghost before = out@;
            push_str(out, "    body ");
            push_type(out, t);
            push_str(out, "\n\n");
            assert(out@ =~= before + ("    body "@ + type_text(t@) + "\n\n"@));
        },
        None => {
            assert(old(out)@ + Seq::<char>::empty() =~= old(out)@);
        },
    }
}

/// Appends the block of a route.
#[verifier::rlimit(60)]
fn push_route(out: &mut Vec<char>, e: &Endpoint)
    ensures
        final(out)@ == old(out)@ + route_text(e@),
{
    let ghost start = out@;
    push_str(out, "route ");
    push_string(out, &e.method);
    push_str(out, " \"");
    push_escaped(out, &e.path);
    push_str(out, "\" {\n");
    push_description(out, &e.description);
    push_tags(out, &e.tags);
    push_group_end(out, e.tags.len());
    push_parameters(out, "param", &e.params);
    push_group_end(out, e.params.len());
    push_parameters(out, "query", &e.query);
    push_group_end(out, e.query.len());
    push_body(out, &e.request_body);
    push_responses(out, &e.responses);
    push_str(out, "}\n");
    assert(out@ =~= start + route_text(e@));
}

/// Appends a header line `<keyword> "<value>"`, if the value is there.
fn push_header(out: &mut Vec<char>, keyword: &str, v: &Option<String>)
    ensures
        final(out)@ == old(out)@ + header_line(keyword@, crate::schema::string_option_view(*v)),
{
    match v {
        Some(s) => {
            let ghost before = out@;
            push_str(out, keyword);
            push_str(out, " \"");
            push_escaped(out, s);
            push_str(out, "\"\n");
            assert(out@ =~= before + (keyword@ + " \""@ + escape(s@) + "\"\n"@));
        },
        None => {
            assert(old(out)@ + Seq::<char>::empty() =~= old(out)@);
        },
    }
}

/// The canonical text of a schema: its header lines, a blank line, then one
/// block for each object and each route, in declaration order.
pub fn format(schema: &Schema) -> (r: String)
    ensures
        r@ == schema_text(schema@),
{
    let mut out: Vec<char> = Vec::new();
    push_header(&mut out, "version", &schema.version);
    push_header(&mut out, "title", &schema.title);
    push_header(&mut out, "description", &schema.description);
    push_str(&mut out, "\n");
    let ghost head = out@;
    let ghost os = schema@.objects;
    let mut i: usize = 0;
    assert(os.subrange(0, 0) =~= Seq::<ObjectView>::empty());
    assert(head + Seq::<char>::empty() == head);
    while i < schema.objects.len()
        invariant
            os == schema@.objects,
            i <= os.len(),
            out@ == head + objects_text(os.subrange(0, i as int)),
        decreases os.len() - i,
    {
        assert(os.subrange(0, i + 1 as int).drop_last() == os.subrange(0, i as int));
        assert(os.subrange(0, i + 1 as int).last() == schema.objects@[i as int]@);
        let ghost before = out@;
        push_object(&mut out, &schema.objects[i]);
        push_str(&mut out, "\n");
        assert(out@ =~= before + object_text(schema.objects@[i as int]@) + "\n"@);
        i = i + 1;
    }
    assert(os.subrange(0, os.len() as int) == os);
    let ghost mid = out@;
    let ghost es = schema@.endpoints;
    let mut k: usize = 0;
    assert(es.subrange(0, 0) =~= Seq::<EndpointView>::empty());
    assert(mid + Seq::<char>::empty() == mid);
    while k < schema.endpoints.len()
        invariant
            es == schema@.endpoints,
            k <= es.len(),
            out@ == mid + routes_text(es.subrange(0, k as int)),
        decreases es.len() - k,
    {
        assert(es.subrange(0, k + 1 as int).drop_last() == es.subrange(0, k as int));
        assert(es.subrange(0, k + 1 as int).last() == schema.endpoints@[k as int]@);
        let ghost before = out@;
        push_route(&mut out, &schema.endpoints[k]);
        push_str(&mut out, "\n");
        assert(out@ =~= before + route_text(schema.endpoints@[k as int]@) + "\n"@);
        k = k + 1;
    }
    assert(es.subrange(0, es.len() as int) == es);
    let n = out.len();
    if n >= 2 && out[n - 1] == '\n' && out[n - 2] == '\n' {
        out.pop();
    }
    assert(out@ =~= schema_text(schema@));
    string_of(&out)
}

/// Escaping distributes over a first character.
proof fn lemma_escape_cons(c: char, s: Seq<char>)
    ensures
        escape(seq![c] + s) == escape_char(c) + escape(s),
    decreases s.len(),
{
    if s.len() == 0 {
        assert(seq![c] + s =~= seq![c]);
        assert(seq![c].drop_last() =~= Seq::<char>::empty());
        assert(seq![c].last() == c);
        assert(escape(s) == Seq::<char>::empty());
        assert(escape(seq![c]) == escape(Seq::<char>::empty()) + escape_char(c));
        assert(Seq::<char>::empty() + escape_char(c) =~= escape_char(c));
        assert(escape_char(c) + Seq::<char>::empty() =~= escape_char(c));
    } else {
        lemma_escape_cons(c, s.drop_last());
        assert((seq![c] + s).drop_last() =~= seq![c] + s.drop_last());
        assert((seq![c] + s).last() == s.last());
        assert(escape_char(c) + escape(s.drop_last()) + escape_char(s.last()) =~= escape_char(c) + (escape(
            s.drop_last(),
        ) + escape_char(s.last())));
    }
}

proof fn lemma_escape_char_shape(c: char)
    ensures
        escape_char(c).len() >= 1,
        escape_char(c).len() == 1 ==> escape_char(c)[0] == c && c != '"' && c != '\\',
        escape_char(c).len() != 1 ==> escape_char(c).len() == 2 && escape_char(c)[0] == '\\' && escaped(
            escape_char(c)[1],
        ) == Some(c),
{
    reveal_strlit("\\n");
    reveal_strlit("\\t");
    reveal_strlit("\\r");
    reveal_strlit("\\\"");
    reveal_strlit("\\\\");
}

/// The lexer's unescaping undoes the formatter's escaping, whatever follows.
proof fn lemma_unescape_escape(s: Seq<char>, rest: Seq<char>)
    ensures
        unescape(escape(s) + rest) == prefixed(s, unescape(rest)),
    decreases s.len(),
{
    if s.len() == 0 {
        assert(escape(s) + rest =~= rest);
        if unescape(rest) is Ok {
            assert(s + unescape(rest)->Ok_0 =~= unescape(rest)->Ok_0);
        }
    } else {
        let c = s.last();
        let x = escape_char(c) + rest;
        assert(escape(s) + rest =~= escape(s.drop_last()) + x);
        lemma_unescape_escape(s.drop_last(), x);
        lemma_escape_char_shape(c);
        if escape_char(c).len() == 1 {
            assert(x.subrange(1, x.len() as int) =~= rest);
        } else {
            assert(x.subrange(2, x.len() as int) =~= rest);
        }
        assert(unescape(x) == prefixed(seq![c], unescape(rest)));
        if unescape(rest) is Ok {
            assert(s.drop_last() + (seq![c] + unescape(rest)->Ok_0) =~= s + unescape(rest)->Ok_0);
        }
    }
}

/// In a text that holds `escape(s)` and a quote from index `j`, the string
/// literal whose contents start at `j` closes at that quote.
proof fn lemma_string_close_escape(t: Seq<char>, j: nat, s: Seq<char>)
    requires
        j + escape(s).len() < t.len(),
        t.subrange(j as int, (j + escape(s).len()) as int) == escape(s),
        t[(j + escape(s).len()) as int] == '"',
    ensures
        string_close(t, j) == Some((j + escape(s).len()) as nat),
    decreases s.len(),
{
    let e = (j + escape(s).len()) as int;
    if s.len() > 0 {
        let c = s[0];
        let s2 = s.drop_first();
        assert(s =~= seq![c] + s2);
        lemma_escape_cons(c, s2);
        lemma_escape_char_shape(c);
        let k = escape_char(c).len() as int;
        assert(t[j as int] == escape(s)[0]);
        assert(t.subrange(j + k, e) =~= escape(s2)) by {
            assert forall|i: int| 0 <= i < escape(s2).len() implies t.subrange(j + k, e)[i] == escape(s2)[i] by {
                assert(t[j + k + i] == t.subrange(j as int, e)[k + i]);
            }
        }
        lemma_string_close_escape(t, (j + k) as nat, s2);
        if k == 2 {
            assert(t[j as int + 1] == escape(s)[1]);
        }
    }
}

/// A string literal that the formatter writes, `"` then `escape(s)` then
/// `"`, lexes back to a string token holding exactly `s`, whatever follows it.
pub proof fn lemma_string_literal_round_trip(s: Seq<char>, rest: Seq<char>, line: nat, column: nat)
    ensures
        lex_step(seq!['"'] + escape(s) + seq!['"'] + rest, 0, line, column) == Ok::<
            (Option<TokenView>, nat, nat, nat),
            crate::lexer::LexError,
        >((Some(TokenView::String(s)), escape(s).len() + 2, line, column)),
{
    let t = seq!['"'] + escape(s) + seq!['"'] + rest;
    let n = escape(s).len() as int;
    assert(t.subrange(1, 1 + n) =~= escape(s));
    assert(t[1 + n] == '"');
    lemma_string_close_escape(t, 1, s);
    lemma_unescape_escape(s, Seq::empty());
    assert(escape(s) + Seq::<char>::empty() =~= escape(s));
    assert(t.subrange(1, n + 1) =~= escape(s));
    assert(s + Seq::<char>::empty() =~= s);
}

} // verus!
