//! The schema model and the reference verifier.
//!
//! Verification is deliberately shallow: a bare reference is checked, and so
//! is a reference that stands directly as an array's item or a mapping's key
//! or value; anything nested deeper, and anything under an optional, is not.

use vstd::prelude::*;

verus! {

/// A value type of the schema language.
#[derive(Debug)]
pub enum Type {
    Any,
    Null,
    String,
    Integer,
    Float,
    Boolean,
    Reference(String),
    Array(Box<Type>),
    Mapping(Box<Type>, Box<Type>),
    Optional(Box<Type>),
}

/// The mathematical value of a [`Type`].
pub enum TypeView {
    Any,
    Null,
    String,
    Integer,
    Float,
    Boolean,
    Reference(Seq<char>),
    Array(Box<TypeView>),
    Mapping(Box<TypeView>, Box<TypeView>),
    Optional(Box<TypeView>),
}

impl View for Type {
    type V = TypeView;

    open spec fn view(&self) -> TypeView
        decreases self,
    {
        match self {
            Type::Any => TypeView::Any,
            Type::Null => TypeView::Null,
            Type::String => TypeView::String,
            Type::Integer => TypeView::Integer,
            Type::Float => TypeView::Float,
            Type::Boolean => TypeView::Boolean,
            Type::Reference(n) => TypeView::Reference(n@),
            Type::Array(t) => TypeView::Array(Box::new((**t).view())),
            Type::Mapping(k, v) => TypeView::Mapping(Box::new((**k).view()), Box::new((**v).view())),
            Type::Optional(t) => TypeView::Optional(Box::new((**t).view())),
        }
    }
}

/// A named, typed and described member: an object's property, or an
/// endpoint's path or query parameter.
#[derive(Debug)]
pub struct Field {
    pub name: String,
    pub description: String,
    pub field_type: Type,
}

pub struct FieldView {
    pub name: Seq<char>,
    pub description: Seq<char>,
    pub field_type: TypeView,
}

impl View for Field {
    type V = FieldView;

    open spec fn view(&self) -> FieldView {
        FieldView { name: self.name@, description: self.description@, field_type: self.field_type@ }
    }
}

pub open spec fn fields_view(v: Seq<Field>) -> Seq<FieldView> {
    v.map_values(|f: Field| f@)
}

pub open spec fn strings_view(v: Seq<String>) -> Seq<Seq<char>> {
    v.map_values(|s: String| s@)
}

pub open spec fn string_option_view(o: Option<String>) -> Option<Seq<char>> {
    match o {
        Some(s) => Some(s@),
        None => None,
    }
}

pub open spec fn type_option_view(o: Option<Type>) -> Option<TypeView> {
    match o {
        Some(t) => Some(t@),
        None => None,
    }
}

/// A named record type whose fields keep their declaration order.
#[derive(Debug)]
pub struct Object {
    pub id: String,
    pub fields: Vec<Field>,
}

pub struct ObjectView {
    pub id: Seq<char>,
    pub fields: Seq<FieldView>,
}

impl View for Object {
    type V = ObjectView;

    open spec fn view(&self) -> ObjectView {
        ObjectView { id: self.id@, fields: fields_view(self.fields@) }
    }
}

/// One documented route.
#[derive(Debug)]
pub struct Endpoint {
    pub id: String,
    pub method: String,
    pub path: String,
    pub description: Option<String>,
    pub tags: Vec<String>,
    pub params: Vec<Field>,
    pub query: Vec<Field>,
    pub request_body: Option<Type>,
    pub responses: Vec<(u16, Option<Type>)>,
}

pub struct EndpointView {
    pub id: Seq<char>,
    pub method: Seq<char>,
    pub path: Seq<char>,
    pub description: Option<Seq<char>>,
    pub tags: Seq<Seq<char>>,
    pub params: Seq<FieldView>,
    pub query: Seq<FieldView>,
    pub request_body: Option<TypeView>,
    pub responses: Seq<(u16, Option<TypeView>)>,
}

pub open spec fn responses_view(v: Seq<(u16, Option<Type>)>) -> Seq<(u16, Option<TypeView>)> {
    v.map_values(|r: (u16, Option<Type>)| (r.0, type_option_view(r.1)))
}

impl View for Endpoint {
    type V = EndpointView;

    open spec fn view(&self) -> EndpointView {
        EndpointView {
            id: self.id@,
            method: self.method@,
            path: self.path@,
            description: string_option_view(self.description),
            tags: strings_view(self.tags@),
            params: fields_view(self.params@),
            query: fields_view(self.query@),
            request_body: type_option_view(self.request_body),
            responses: responses_view(self.responses@),
        }
    }
}

/// The root value of one parsed document, imports merged in.
#[derive(Debug)]
pub struct Schema {
    pub version: Option<String>,
    pub title: Option<String>,
    pub description: Option<String>,
    pub objects: Vec<Object>,
    pub endpoints: Vec<Endpoint>,
}

pub struct SchemaView {
    pub version: Option<Seq<char>>,
    pub title: Option<Seq<char>>,
    pub description: Option<Seq<char>>,
    pub objects: Seq<ObjectView>,
    pub endpoints: Seq<EndpointView>,
}

pub open spec fn objects_view(v: Seq<Object>) -> Seq<ObjectView> {
    v.map_values(|o: Object| o@)
}

pub open spec fn endpoints_view(v: Seq<Endpoint>) -> Seq<EndpointView> {
    v.map_values(|e: Endpoint| e@)
}

impl View for Schema {
    type V = SchemaView;

    open spec fn view(&self) -> SchemaView {
        SchemaView {
            version: string_option_view(self.version),
            title: string_option_view(self.title),
            description: string_option_view(self.description),
            objects: objects_view(self.objects@),
            endpoints: endpoints_view(self.endpoints@),
        }
    }
}

/// How a checked reference stands in its type.
#[derive(Debug, Clone, Copy, PartialEq, Eq, Structural)]
pub enum Wrapping {
    /// The type is the reference itself.
    Bare,
    /// The type is an array of the reference.
    ArrayItem,
    /// The type is a mapping whose key is the reference.
    MappingKey,
    /// The type is a mapping whose value is the reference.
    MappingValue,
}

/// Where a checked type stands in a schema.
#[derive(Debug, Clone)]
pub enum Location {
    /// A field of an object.
    ObjectField { object: String, field: String },
    /// The request body of an endpoint.
    RequestBody { endpoint: String },
    /// A response of an endpoint.
    Response { endpoint: String },
}

pub enum LocationView {
    ObjectField { object: Seq<char>, field: Seq<char> },
    RequestBody { endpoint: Seq<char> },
    Response { endpoint: Seq<char> },
}

impl View for Location {
    type V = LocationView;

    open spec fn view(&self) -> LocationView {
        match self {
            Location::ObjectField { object, field } => LocationView::ObjectField {
                object: object@,
                field: field@,
            },
            Location::RequestBody { endpoint } => LocationView::RequestBody { endpoint: endpoint@ },
            Location::Response { endpoint } => LocationView::Response { endpoint: endpoint@ },
        }
    }
}

/// A reference to an object that the schema does not declare.
#[derive(Debug)]
pub struct UndefinedReference {
    pub location: Location,
    pub wrapping: Wrapping,
    pub reference: String,
}

pub struct UndefinedReferenceView {
    pub location: LocationView,
    pub wrapping: Wrapping,
    pub reference: Seq<char>,
}

impl View for UndefinedReference {
    type V = UndefinedReferenceView;

    open spec fn view(&self) -> UndefinedReferenceView {
        UndefinedReferenceView {
            location: self.location@,
            wrapping: self.wrapping,
            reference: self.reference@,
        }
    }
}

/// Whether some object of `objects` has the id `name`.
pub open spec fn declared(objects: Seq<ObjectView>, name: Seq<char>) -> bool {
    exists|i: int| 0 <= i < objects.len() && objects[i].id == name
}

/// The undeclared reference that the shallow check finds in `t`, if any.
pub open spec fn shallow_miss(objects: Seq<ObjectView>, t: TypeView) -> Option<(Wrapping, Seq<char>)> {
    match t {
        TypeView::Reference(n) => if declared(objects, n) {
            None
        } else {
            Some((Wrapping::Bare, n))
        },
        TypeView::Array(item) => match *item {
            TypeView::Reference(n) => if declared(objects, n) {
                None
            } else {
                Some((Wrapping::ArrayItem, n))
            },
            _ => None,
        },
        TypeView::Mapping(key, value) => {
            let key_miss = match *key {
                TypeView::Reference(n) => if declared(objects, n) {
                    None
                } else {
                    Some((Wrapping::MappingKey, n))
                },
                _ => None,
            };
            if key_miss is Some {
                key_miss
            } else {
                match *value {
                    TypeView::Reference(n) => if declared(objects, n) {
                        None
                    } else {
                        Some((Wrapping::MappingValue, n))
                    },
                    _ => None,
                }
            }
        },
        _ => None,
    }
}

pub open spec fn miss_at(location: LocationView, m: Option<(Wrapping, Seq<char>)>) -> Option<
    UndefinedReferenceView,
> {
    match m {
        Some((w, n)) => Some(UndefinedReferenceView { location, wrapping: w, reference: n }),
        None => None,
    }
}

/// The first undeclared reference among the fields `fs` of the object `id`.
pub open spec fn fields_miss(objects: Seq<ObjectView>, id: Seq<char>, fs: Seq<FieldView>) -> Option<
    UndefinedReferenceView,
>
    decreases fs.len(),
{
    if fs.len() == 0 {
        None
    } else {
        let here = miss_at(
            LocationView::ObjectField { object: id, field: fs[0].name },
            shallow_miss(objects, fs[0].field_type),
        );
        if here is Some {
            here
        } else {
            fields_miss(objects, id, fs.drop_first())
        }
    }
}

/// The first undeclared reference among the fields of the objects `os`.
pub open spec fn objects_miss(objects: Seq<ObjectView>, os: Seq<ObjectView>) -> Option<UndefinedReferenceView>
    decreases os.len(),
{
    if os.len() == 0 {
        None
    } else {
        let here = fields_miss(objects, os[0].id, os[0].fields);
        if here is Some {
            here
        } else {
            objects_miss(objects, os.drop_first())
        }
    }
}

/// The first undeclared reference among the responses `rs` of the endpoint `id`.
pub open spec fn responses_miss(
    objects: Seq<ObjectView>,
    id: Seq<char>,
    rs: Seq<(u16, Option<TypeView>)>,
) -> Option<UndefinedReferenceView>
    decreases rs.len(),
{
    if rs.len() == 0 {
        None
    } else {
        let here = match rs[0].1 {
            Some(t) => miss_at(LocationView::Response { endpoint: id }, shallow_miss(objects, t)),
            None => None,
        };
        if here is Some {
            here
        } else {
            responses_miss(objects, id, rs.drop_first())
        }
    }
}

/// The first undeclared reference of an endpoint: its request body, then its responses.
pub open spec fn endpoint_miss(objects: Seq<ObjectView>, e: EndpointView) -> Option<UndefinedReferenceView> {
    let body = match e.request_body {
        Some(t) => miss_at(LocationView::RequestBody { endpoint: e.id }, shallow_miss(objects, t)),
        None => None,
    };
    if body is Some {
        body
    } else {
        responses_miss(objects, e.id, e.responses)
    }
}

pub open spec fn endpoints_miss(objects: Seq<ObjectView>, es: Seq<EndpointView>) -> Option<
    UndefinedReferenceView,
>
    decreases es.len(),
{
    if es.len() == 0 {
        None
    } else {
        let here = endpoint_miss(objects, es[0]);
        if here is Some {
            here
        } else {
            endpoints_miss(objects, es.drop_first())
        }
    }
}

/// The first undeclared reference of a schema: objects first, then endpoints.
pub open spec fn schema_miss(s: SchemaView) -> Option<UndefinedReferenceView> {
    let in_objects = objects_miss(s.objects, s.objects);
    if in_objects is Some {
        in_objects
    } else {
        endpoints_miss(s.objects, s.endpoints)
    }
}

pub open spec fn verify_view(r: Result<(), UndefinedReference>) -> Option<UndefinedReferenceView> {
    match r {
        Ok(_) => None,
        Err(e) => Some(e@),
    }
}

impl Schema {
    /// An empty schema.
    pub fn new() -> (r: Schema)
        ensures
            r@ == (SchemaView {
                version: None,
                title: None,
                description: None,
                objects: Seq::empty(),
                endpoints: Seq::empty(),
            }),
    {
        let r = Schema {
            version: None,
            title: None,
            description: None,
            objects: Vec::new(),
            endpoints: Vec::new(),
        };
        assert(r@.objects =~= Seq::empty());
        assert(r@.endpoints =~= Seq::empty());
        r
    }

    /// Checks the schema's references under the shallow policy, and reports
    /// the first one that names no declared object.
    pub fn verify(&self) -> (r: Result<(), UndefinedReference>)
        ensures
            verify_view(r) == schema_miss(self@),
    {
        let ghost objects = self@.objects;
        let mut i: usize = 0;
        assert(objects.subrange(0, objects.len() as int) == objects);
        while i < self.objects.len()
            invariant
                objects == self@.objects,
                i <= objects.len(),
                objects_miss(objects, objects) == objects_miss(objects, objects.subrange(i as int, objects.len() as int)),
            decreases objects.len() - i,
        {
            let object = &self.objects[i];
            let ghost rest = objects.subrange(i as int, objects.len() as int);
            assert(rest[0] == object@);
            assert(rest.drop_first() == objects.subrange(i + 1, objects.len() as int));
            let ghost fs = object@.fields;
            let mut j: usize = 0;
            assert(fs.subrange(0, fs.len() as int) == fs);
            while j < object.fields.len()
                invariant
                    objects == self@.objects,
                    fs == object@.fields,
                    j <= fs.len(),
                    rest.len() > 0,
                    rest[0] == object@,
                    objects_miss(objects, objects) == objects_miss(objects, rest),
                    fields_miss(objects, object@.id, fs) == fields_miss(objects, object@.id, fs.subrange(j as int, fs.len() as int)),
                decreases fs.len() - j,
            {
                let field = &object.fields[j];
                let ghost frest = fs.subrange(j as int, fs.len() as int);
                assert(frest[0] == field@);
                assert(frest.drop_first() == fs.subrange(j + 1, fs.len() as int));
                match shallow_check(&self.objects, &field.field_type) {
                    Some((w, n)) => {
                        let r = UndefinedReference {
                            location: Location::ObjectField { object: object.id.clone(), field: field.name.clone() },
                            wrapping: w,
                            reference: n,
                        };
                        assert(fields_miss(objects, object@.id, fs) == Some(r@));
                        assert(objects_miss(objects, objects) == Some(r@));
                        return Err(r);
                    },
                    None => {},
                }
                j = j + 1;
            }
            assert(fs.subrange(j as int, fs.len() as int) =~= Seq::empty());
            i = i + 1;
        }
        assert(objects.subrange(i as int, objects.len() as int) =~= Seq::empty());
        let ghost endpoints = self@.endpoints;
        let mut k: usize = 0;
        assert(endpoints.subrange(0, endpoints.len() as int) == endpoints);
        while k < self.endpoints.len()
            invariant
                objects == self@.objects,
                endpoints == self@.endpoints,
                k <= endpoints.len(),
                objects_miss(objects, objects) is None,
                endpoints_miss(objects, endpoints) == endpoints_miss(objects, endpoints.subrange(k as int, endpoints.len() as int)),
            decreases endpoints.len() - k,
        {
            let endpoint = &self.endpoints[k];
            let ghost rest = endpoints.subrange(k as int, endpoints.len() as int);
            assert(rest[0] == endpoint@);
            assert(rest.drop_first() == endpoints.subrange(k + 1, endpoints.len() as int));
            match &endpoint.request_body {
                Some(t) => match shallow_check(&self.objects, t) {
                    Some((w, n)) => {
                        return Err(UndefinedReference {
                            location: Location::RequestBody { endpoint: endpoint.id.clone() },
                            wrapping: w,
                            reference: n,
                        });
                    },
                    None => {},
                },
                None => {},
            }
            let ghost rs = endpoint@.responses;
            let mut m: usize = 0;
            assert(rs.subrange(0, rs.len() as int) == rs);
            while m < endpoint.responses.len()
                invariant
                    objects == self@.objects,
                    rs == endpoint@.responses,
                    m <= rs.len(),
                    rest.len() > 0,
                    rest[0] == endpoint@,
                    endpoints == self@.endpoints,
                    endpoints_miss(objects, endpoints) == endpoints_miss(objects, rest),
                    endpoint_miss(objects, endpoint@) == responses_miss(objects, endpoint@.id, rs),
                    objects_miss(objects, objects) is None,
                    responses_miss(objects, endpoint@.id, rs) == responses_miss(objects, endpoint@.id, rs.subrange(m as int, rs.len() as int)),
                decreases rs.len() - m,
            {
                let response = &endpoint.responses[m];
                let ghost rrest = rs.subrange(m as int, rs.len() as int);
                assert(rrest[0] == (response.0, type_option_view(response.1)));
                assert(rrest.drop_first() == rs.subrange(m + 1, rs.len() as int));
                match &response.1 {
                    Some(t) => match shallow_check(&self.objects, t) {
                        Some((w, n)) => {
                            let r = UndefinedReference {
                                location: Location::Response { endpoint: endpoint.id.clone() },
                                wrapping: w,
                                reference: n,
                            };
                            assert(responses_miss(objects, endpoint@.id, rs) == Some(r@));
                            assert(endpoint_miss(objects, endpoint@) == Some(r@));
                            assert(endpoints_miss(objects, endpoints) == Some(r@));
                            return Err(r);
                        },
                        None => {},
                    },
                    None => {},
                }
                m = m + 1;
            }
            assert(rs.subrange(m as int, rs.len() as int) =~= Seq::empty());
            k = k + 1;
        }
        assert(endpoints.subrange(k as int, endpoints.len() as int) =~= Seq::empty());
        Ok(())
    }
}

/// Whether some object of `objects` has the id `name`.
fn is_declared(objects: &Vec<Object>, name: &String) -> (r: bool)
    ensures
        r == declared(objects_view(objects@), name@),
{
    let mut i: usize = 0;
    while i < objects.len()
        invariant
            i <= objects@.len(),
            forall|x: int| 0 <= x < i ==> objects@[x].id@ != name@,
        decreases objects@.len() - i,
    {
        if objects[i].id == *name {
            assert(objects_view(objects@)[i as int].id == name@);
            return true;
        }
        i = i + 1;
    }
    assert forall|x: int| 0 <= x < objects_view(objects@).len() implies objects_view(objects@)[x].id != name@ by {
        assert(objects_view(objects@)[x] == objects@[x]@);
    }
    false
}

/// The undeclared reference that the shallow check finds in `t`, if any.
fn shallow_check(objects: &Vec<Object>, t: &Type) -> (r: Option<(Wrapping, String)>)
    ensures
        match shallow_miss(objects_view(objects@), t@) {
            Some((w, n)) => r matches Some(p) && p.0 == w && p.1@ == n,
            None => r is None,
        },
{
    match t {
        Type::Reference(n) => {
            assert(t@ == TypeView::Reference(n@));
            if is_declared(objects, n) {
                None
            } else {
                Some((Wrapping::Bare, n.clone()))
            }
        },
        Type::Array(item) => match &**item {
            Type::Reference(n) => {
                assert((**item)@ == TypeView::Reference(n@));
                assert(t@ == TypeView::Array(Box::new((**item)@)));
                if is_declared(objects, n) {
                    None
                } else {
                    Some((Wrapping::ArrayItem, n.clone()))
                }
            },
            _ => None,
        },
        Type::Mapping(key, value) => {
            assert(t@ == TypeView::Mapping(Box::new((**key)@), Box::new((**value)@)));
            if let Type::Reference(n) = &**key {
                if !is_declared(objects, n) {
                    assert((**key)@ == TypeView::Reference(n@));
                    return Some((Wrapping::MappingKey, n.clone()));
                }
            }
            match &**value {
                Type::Reference(n) => {
                    assert((**value)@ == TypeView::Reference(n@));
                    if is_declared(objects, n) {
                        None
                    } else {
                        Some((Wrapping::MappingValue, n.clone()))
                    }
                },
                _ => None,
            }
        },
        _ => None,
    }
}

} // verus!
