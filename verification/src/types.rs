//! Protocol data types: resources, tools, prompts, content, capabilities.
//!
//! Each wire type's mathematical view is its canonical JSON encoding, so a
//! contract about a response pins the exact value on the wire.

use vstd::prelude::*;
use vstd::string::StringExecFns;
use crate::json::{Json, JsonVal, jfields_of, jvals_of, lemma_jfields_of_index,
    lemma_jvals_of_index, clone_json};

verus! {

broadcast use vstd::string::group_string_axioms;

/// An optional object member: present with its value or absent.
pub open spec fn opt_member(name: Seq<char>, v: Option<JsonVal>) -> Seq<(Seq<char>, JsonVal)> {
    match v {
        Some(x) => seq![(name, x)],
        None => Seq::empty(),
    }
}

/// The JSON value of an optional string.
pub open spec fn opt_str(v: Option<Seq<char>>) -> Option<JsonVal> {
    match v {
        Some(s) => Some(JsonVal::Str(s)),
        None => None,
    }
}

/// The JSON value of an optional boolean.
pub open spec fn opt_bool(v: Option<bool>) -> Option<JsonVal> {
    match v {
        Some(b) => Some(JsonVal::Bool(b)),
        None => None,
    }
}

/// A conversation role.
#[derive(Debug, Clone, Copy, PartialEq, Eq, Structural)]
pub enum Role {
    User,
    Assistant,
}

/// The JSON encoding of a role.
pub open spec fn spec_role_json(r: Role) -> JsonVal {
    match r {
        Role::User => JsonVal::Str("user"@),
        Role::Assistant => JsonVal::Str("assistant"@),
    }
}

impl Role {
    /// Encode this role as its JSON string.
    pub fn to_json(&self) -> (r: Json)
        ensures
            r@ == spec_role_json(*self),
    {
        match self {
            Role::User => Json::Str(String::from_str("user")),
            Role::Assistant => Json::Str(String::from_str("assistant")),
        }
    }
}

/// A logging severity, lowest to highest.
#[derive(Debug, Clone, Copy, PartialEq, Eq, Structural)]
pub enum LoggingLevel {
    Debug,
    Info,
    Notice,
    Warning,
    Error,
    Critical,
    Alert,
    Emergency,
}

/// Annotations on content or resources. The priority is kept in thousandths
/// of the unit interval, an integral representation of the wire's fraction.
#[derive(Debug)]
pub struct Annotations {
    pub audience: Option<Vec<Role>>,
    pub priority: Option<u32>,
}

/// The JSON encoding of annotations.
pub open spec fn spec_annotations_json(a: AnnotationsV) -> JsonVal {
    JsonVal::Obj(
        (match a.audience {
            Some(roles) => seq![
                ("audience"@, JsonVal::Arr(Seq::new(roles.len(), |i: int| spec_role_json(roles[i])))),
            ],
            None => Seq::empty(),
        }) + opt_member(
            "priority"@,
            match a.priority {
                Some(p) => Some(JsonVal::Int(p as int)),
                None => None,
            },
        ),
    )
}

/// Model of annotations.
pub struct AnnotationsV {
    pub audience: Option<Seq<Role>>,
    pub priority: Option<u32>,
}

impl View for Annotations {
    type V = AnnotationsV;

    open spec fn view(&self) -> AnnotationsV {
        AnnotationsV {
            audience: match self.audience {
                Some(ref v) => Some(v@),
                None => None,
            },
            priority: self.priority,
        }
    }
}

impl Annotations {
    /// Encode these annotations as JSON.
    #[verifier::loop_isolation(false)]
    pub fn to_json(&self) -> (r: Json)
        ensures
            r@ == spec_annotations_json(self@),
    {
        let mut fields: Vec<(String, Json)> = Vec::new();
        match &self.audience {
            Some(roles) => {
                let mut arr: Vec<Json> = Vec::new();
                let mut i: usize = 0;
                while i < roles.len()
                    invariant
                        i <= roles@.len(),
                        arr@.len() == i,
                        forall|k: int|
                            0 <= k < i ==> (#[trigger] arr[k].view_rec()) == spec_role_json(
                                roles[k],
                            ),
                    decreases roles@.len() - i,
                {
                    arr.push(roles[i].to_json());
                    i = i + 1;
                }
                proof {
                    lemma_jvals_of_index(arr@);
                    assert forall|k: int|
                        0 <= k < arr@.len() implies jvals_of(arr@)[k] == spec_role_json(
                        roles@[k],
                    ) by {
                        assert(arr[k].view_rec() == spec_role_json(roles[k]));
                    }
                    assert(jvals_of(arr@) =~= Seq::new(
                        roles@.len(),
                        |k: int| spec_role_json(roles@[k]),
                    ));
                }
                fields.push((String::from_str("audience"), Json::Arr(arr)));
            },
            None => (),
        }
        match self.priority {
            Some(p) => fields.push((String::from_str("priority"), Json::Int(p as i64))),
            None => (),
        }
        let r = Json::Obj(fields);
        proof {
            lemma_jfields_of_index(fields@);
            let want = spec_annotations_json(self@)->Obj_0;
            assert forall|k: int|
                0 <= k < jfields_of(fields@).len() implies jfields_of(fields@)[k] == want[k] by {
                assert(jfields_of(fields@)[k] == (fields[k].0@, fields[k].1.view_rec()));
            }
            assert(r@->Obj_0 =~= want);
        }
        r
    }

    /// Copy preserving the encoding.
    pub fn clone_annotations(&self) -> (r: Annotations)
        ensures
            r@ == self@,
    {
        Annotations {
            audience: match &self.audience {
                Some(v) => {
                    let mut out: Vec<Role> = Vec::new();
                    let mut i: usize = 0;
                    #[verifier::loop_isolation(false)]
                    while i < v.len()
                        invariant
                            i <= v@.len(),
                            out@ == v@.subrange(0, i as int),
                        decreases v@.len() - i,
                    {
                        out.push(v[i]);
                        i = i + 1;
                        proof {
                            assert(out@ =~= v@.subrange(0, i as int));
                        }
                    }
                    proof {
                        assert(out@ =~= v@);
                    }
                    Some(out)
                },
                None => None,
            },
            priority: self.priority,
        }
    }
}

/// A resource: a readable URI with presentation metadata. The URI is the
/// identity.
#[derive(Debug)]
pub struct Resource {
    pub uri: String,
    pub name: String,
    pub description: Option<String>,
    pub mime_type: Option<String>,
    pub annotations: Option<Annotations>,
    pub size: Option<u64>,
}

/// Model of a resource.
pub struct ResourceV {
    pub uri: Seq<char>,
    pub name: Seq<char>,
    pub description: Option<Seq<char>>,
    pub mime_type: Option<Seq<char>>,
    pub annotations: Option<AnnotationsV>,
    pub size: Option<u64>,
}

impl View for Resource {
    type V = ResourceV;

    open spec fn view(&self) -> ResourceV {
        ResourceV {
            uri: self.uri@,
            name: self.name@,
            description: match self.description {
                Some(ref s) => Some(s@),
                None => None,
            },
            mime_type: match self.mime_type {
                Some(ref s) => Some(s@),
                None => None,
            },
            annotations: match self.annotations {
                Some(ref a) => Some(a@),
                None => None,
            },
            size: self.size,
        }
    }
}

/// The JSON encoding of a resource.
pub open spec fn spec_resource_json(r: ResourceV) -> JsonVal {
    JsonVal::Obj(
        seq![("uri"@, JsonVal::Str(r.uri)), ("name"@, JsonVal::Str(r.name))] + opt_member(
            "description"@,
            opt_str(r.description),
        ) + opt_member("mimeType"@, opt_str(r.mime_type)) + opt_member(
            "annotations"@,
            match r.annotations {
                Some(a) => Some(spec_annotations_json(a)),
                None => None,
            },
        ) + opt_member(
            "size"@,
            match r.size {
                Some(s) => Some(
                    JsonVal::Int(
                        if s <= i64::MAX {
                            s as int
                        } else {
                            i64::MAX as int
                        },
                    ),
                ),
                None => None,
            },
        ),
    )
}

impl Resource {
    /// Encode this resource as JSON.
    pub fn to_json(&self) -> (r: Json)
        ensures
            r@ == spec_resource_json(self@),
    {
        let mut fields: Vec<(String, Json)> = Vec::new();
        fields.push((String::from_str("uri"), Json::Str(self.uri.clone())));
        fields.push((String::from_str("name"), Json::Str(self.name.clone())));
        match &self.description {
            Some(d) => fields.push((String::from_str("description"), Json::Str(d.clone()))),
            None => (),
        }
        match &self.mime_type {
            Some(m) => fields.push((String::from_str("mimeType"), Json::Str(m.clone()))),
            None => (),
        }
        match &self.annotations {
            Some(a) => fields.push((String::from_str("annotations"), a.to_json())),
            None => (),
        }
        match self.size {
            Some(s) => {
                let clamped: i64 = if s <= i64::MAX as u64 {
                    s as i64
                } else {
                    i64::MAX
                };
                fields.push((String::from_str("size"), Json::Int(clamped)));
            },
            None => (),
        }
        let r = Json::Obj(fields);
        proof {
            lemma_jfields_of_index(fields@);
            let want = spec_resource_json(self@)->Obj_0;
            assert forall|k: int|
                0 <= k < jfields_of(fields@).len() implies jfields_of(fields@)[k] == want[k] by {
                assert(jfields_of(fields@)[k] == (fields[k].0@, fields[k].1.view_rec()));
            }
            assert(r@->Obj_0 =~= want);
        }
        r
    }

    /// Copy preserving the model.
    pub fn clone_resource(&self) -> (r: Resource)
        ensures
            r@ == self@,
    {
        Resource {
            uri: self.uri.clone(),
            name: self.name.clone(),
            description: clone_opt_string(&self.description),
            mime_type: clone_opt_string(&self.mime_type),
            annotations: match &self.annotations {
                Some(a) => Some(a.clone_annotations()),
                None => None,
            },
            size: self.size,
        }
    }
}

/// Copy of an optional string.
pub fn clone_opt_string(s: &Option<String>) -> (r: Option<String>)
    ensures
        match (s, &r) {
            (Some(a), Some(b)) => a@ == b@,
            (None, None) => true,
            _ => false,
        },
{
    match s {
        Some(x) => Some(x.clone()),
        None => None,
    }
}

/// A resource template: a URI template with presentation metadata.
#[derive(Debug)]
pub struct ResourceTemplate {
    pub uri_template: String,
    pub name: String,
    pub description: Option<String>,
    pub mime_type: Option<String>,
    pub annotations: Option<Annotations>,
}

/// Model of a resource template.
pub struct ResourceTemplateV {
    pub uri_template: Seq<char>,
    pub name: Seq<char>,
    pub description: Option<Seq<char>>,
    pub mime_type: Option<Seq<char>>,
    pub annotations: Option<AnnotationsV>,
}

impl View for ResourceTemplate {
    type V = ResourceTemplateV;

    open spec fn view(&self) -> ResourceTemplateV {
        ResourceTemplateV {
            uri_template: self.uri_template@,
            name: self.name@,
            description: match self.description {
                Some(ref s) => Some(s@),
                None => None,
            },
            mime_type: match self.mime_type {
                Some(ref s) => Some(s@),
                None => None,
            },
            annotations: match self.annotations {
                Some(ref a) => Some(a@),
                None => None,
            },
        }
    }
}

/// The JSON encoding of a resource template.
pub open spec fn spec_template_json(t: ResourceTemplateV) -> JsonVal {
    JsonVal::Obj(
        seq![("uriTemplate"@, JsonVal::Str(t.uri_template)), ("name"@, JsonVal::Str(t.name))]
            + opt_member("description"@, opt_str(t.description)) + opt_member(
            "mimeType"@,
            opt_str(t.mime_type),
        ) + opt_member(
            "annotations"@,
            match t.annotations {
                Some(a) => Some(spec_annotations_json(a)),
                None => None,
            },
        ),
    )
}

impl ResourceTemplate {
    /// Encode this template as JSON.
    pub fn to_json(&self) -> (r: Json)
        ensures
            r@ == spec_template_json(self@),
    {
        let mut fields: Vec<(String, Json)> = Vec::new();
        fields.push((String::from_str("uriTemplate"), Json::Str(self.uri_template.clone())));
        fields.push((String::from_str("name"), Json::Str(self.name.clone())));
        match &self.description {
            Some(d) => fields.push((String::from_str("description"), Json::Str(d.clone()))),
            None => (),
        }
        match &self.mime_type {
            Some(m) => fields.push((String::from_str("mimeType"), Json::Str(m.clone()))),
            None => (),
        }
        match &self.annotations {
            Some(a) => fields.push((String::from_str("annotations"), a.to_json())),
            None => (),
        }
        let r = Json::Obj(fields);
        proof {
            lemma_jfields_of_index(fields@);
            let want = spec_template_json(self@)->Obj_0;
            assert forall|k: int|
                0 <= k < jfields_of(fields@).len() implies jfields_of(fields@)[k] == want[k] by {
                assert(jfields_of(fields@)[k] == (fields[k].0@, fields[k].1.view_rec()));
            }
            assert(r@->Obj_0 =~= want);
        }
        r
    }

    /// Copy preserving the model.
    pub fn clone_template(&self) -> (r: ResourceTemplate)
        ensures
            r@ == self@,
    {
        ResourceTemplate {
            uri_template: self.uri_template.clone(),
            name: self.name.clone(),
            description: clone_opt_string(&self.description),
            mime_type: clone_opt_string(&self.mime_type),
            annotations: match &self.annotations {
                Some(a) => Some(a.clone_annotations()),
                None => None,
            },
        }
    }
}

/// Contents read from a resource: text, or a base64 blob.
#[derive(Debug)]
pub enum ResourceContents {
    Text { uri: String, mime_type: Option<String>, text: String },
    Blob { uri: String, mime_type: Option<String>, blob: String },
}

/// Model of resource contents.
pub enum ResourceContentsV {
    Text { uri: Seq<char>, mime_type: Option<Seq<char>>, text: Seq<char> },
    Blob { uri: Seq<char>, mime_type: Option<Seq<char>>, blob: Seq<char> },
}

impl View for ResourceContents {
    type V = ResourceContentsV;

    open spec fn view(&self) -> ResourceContentsV {
        match self {
            ResourceContents::Text { uri, mime_type, text } => ResourceContentsV::Text {
                uri: uri@,
                mime_type: match mime_type {
                    Some(m) => Some(m@),
                    None => None,
                },
                text: text@,
            },
            ResourceContents::Blob { uri, mime_type, blob } => ResourceContentsV::Blob {
                uri: uri@,
                mime_type: match mime_type {
                    Some(m) => Some(m@),
                    None => None,
                },
                blob: blob@,
            },
        }
    }
}

/// The JSON encoding of resource contents, tagged by `type`.
pub open spec fn spec_contents_json(c: ResourceContentsV) -> JsonVal {
    match c {
        ResourceContentsV::Text { uri, mime_type, text } => JsonVal::Obj(
            seq![("type"@, JsonVal::Str("text"@)), ("uri"@, JsonVal::Str(uri))] + opt_member(
                "mimeType"@,
                opt_str(mime_type),
            ) + seq![("text"@, JsonVal::Str(text))],
        ),
        ResourceContentsV::Blob { uri, mime_type, blob } => JsonVal::Obj(
            seq![("type"@, JsonVal::Str("blob"@)), ("uri"@, JsonVal::Str(uri))] + opt_member(
                "mimeType"@,
                opt_str(mime_type),
            ) + seq![("blob"@, JsonVal::Str(blob))],
        ),
    }
}

impl ResourceContents {
    /// Encode these contents as JSON.
    pub fn to_json(&self) -> (r: Json)
        ensures
            r@ == spec_contents_json(self@),
    {
        let mut fields: Vec<(String, Json)> = Vec::new();
        match self {
            ResourceContents::Text { uri, mime_type, text } => {
                fields.push((String::from_str("type"), Json::Str(String::from_str("text"))));
                fields.push((String::from_str("uri"), Json::Str(uri.clone())));
                match mime_type {
                    Some(m) => fields.push((String::from_str("mimeType"), Json::Str(m.clone()))),
                    None => (),
                }
                fields.push((String::from_str("text"), Json::Str(text.clone())));
            },
            ResourceContents::Blob { uri, mime_type, blob } => {
                fields.push((String::from_str("type"), Json::Str(String::from_str("blob"))));
                fields.push((String::from_str("uri"), Json::Str(uri.clone())));
                match mime_type {
                    Some(m) => fields.push((String::from_str("mimeType"), Json::Str(m.clone()))),
                    None => (),
                }
                fields.push((String::from_str("blob"), Json::Str(blob.clone())));
            },
        }
        let r = Json::Obj(fields);
        proof {
            lemma_jfields_of_index(fields@);
            let want = spec_contents_json(self@)->Obj_0;
            assert forall|k: int|
                0 <= k < jfields_of(fields@).len() implies jfields_of(fields@)[k] == want[k] by {
                assert(jfields_of(fields@)[k] == (fields[k].0@, fields[k].1.view_rec()));
            }
            assert(r@->Obj_0 =~= want);
        }
        r
    }

    /// Copy preserving the model.
    pub fn clone_contents(&self) -> (r: ResourceContents)
        ensures
            r@ == self@,
    {
        match self {
            ResourceContents::Text { uri, mime_type, text } => ResourceContents::Text {
                uri: uri.clone(),
                mime_type: clone_opt_string(mime_type),
                text: text.clone(),
            },
            ResourceContents::Blob { uri, mime_type, blob } => ResourceContents::Blob {
                uri: uri.clone(),
                mime_type: clone_opt_string(mime_type),
                blob: blob.clone(),
            },
        }
    }
}

/// One content item of a tool result or a prompt message.
#[derive(Debug)]
pub enum Content {
    Text { text: String, annotations: Option<Annotations> },
    Image { data: String, mime_type: String, annotations: Option<Annotations> },
    Audio { data: String, mime_type: String, annotations: Option<Annotations> },
    Resource { resource: ResourceContents, annotations: Option<Annotations> },
}

/// Model of a content item.
pub enum ContentV {
    Text { text: Seq<char>, annotations: Option<AnnotationsV> },
    Image { data: Seq<char>, mime_type: Seq<char>, annotations: Option<AnnotationsV> },
    Audio { data: Seq<char>, mime_type: Seq<char>, annotations: Option<AnnotationsV> },
    Resource { resource: ResourceContentsV, annotations: Option<AnnotationsV> },
}

impl View for Content {
    type V = ContentV;

    open spec fn view(&self) -> ContentV {
        match self {
            Content::Text { text, annotations } => ContentV::Text {
                text: text@,
                annotations: match annotations {
                    Some(a) => Some(a@),
                    None => None,
                },
            },
            Content::Image { data, mime_type, annotations } => ContentV::Image {
                data: data@,
                mime_type: mime_type@,
                annotations: match annotations {
                    Some(a) => Some(a@),
                    None => None,
                },
            },
            Content::Audio { data, mime_type, annotations } => ContentV::Audio {
                data: data@,
                mime_type: mime_type@,
                annotations: match annotations {
                    Some(a) => Some(a@),
                    None => None,
                },
            },
            Content::Resource { resource, annotations } => ContentV::Resource {
                resource: resource@,
                annotations: match annotations {
                    Some(a) => Some(a@),
                    None => None,
                },
            },
        }
    }
}

/// The JSON encoding of an optional annotations member.
pub open spec fn opt_annotations(a: Option<AnnotationsV>) -> Option<JsonVal> {
    match a {
        Some(x) => Some(spec_annotations_json(x)),
        None => None,
    }
}

/// The JSON encoding of a content item, tagged by `type`.
pub open spec fn spec_content_json(c: ContentV) -> JsonVal {
    match c {
        ContentV::Text { text, annotations } => JsonVal::Obj(
            seq![("type"@, JsonVal::Str("text"@)), ("text"@, JsonVal::Str(text))] + opt_member(
                "annotations"@,
                opt_annotations(annotations),
            ),
        ),
        ContentV::Image { data, mime_type, annotations } => JsonVal::Obj(
            seq![
                ("type"@, JsonVal::Str("image"@)),
                ("data"@, JsonVal::Str(data)),
                ("mimeType"@, JsonVal::Str(mime_type)),
            ] + opt_member("annotations"@, opt_annotations(annotations)),
        ),
        ContentV::Audio { data, mime_type, annotations } => JsonVal::Obj(
            seq![
                ("type"@, JsonVal::Str("audio"@)),
                ("data"@, JsonVal::Str(data)),
                ("mimeType"@, JsonVal::Str(mime_type)),
            ] + opt_member("annotations"@, opt_annotations(annotations)),
        ),
        ContentV::Resource { resource, annotations } => JsonVal::Obj(
            seq![("type"@, JsonVal::Str("resource"@)), ("resource"@, spec_contents_json(resource))]
                + opt_member("annotations"@, opt_annotations(annotations)),
        ),
    }
}

impl Content {
    /// Encode this content item as JSON.
    pub fn to_json(&self) -> (r: Json)
        ensures
            r@ == spec_content_json(self@),
    {
        let mut fields: Vec<(String, Json)> = Vec::new();
        match self {
            Content::Text { text, annotations } => {
                fields.push((String::from_str("type"), Json::Str(String::from_str("text"))));
                fields.push((String::from_str("text"), Json::Str(text.clone())));
                match annotations {
                    Some(a) => fields.push((String::from_str("annotations"), a.to_json())),
                    None => (),
                }
            },
            Content::Image { data, mime_type, annotations } => {
                fields.push((String::from_str("type"), Json::Str(String::from_str("image"))));
                fields.push((String::from_str("data"), Json::Str(data.clone())));
                fields.push((String::from_str("mimeType"), Json::Str(mime_type.clone())));
                match annotations {
                    Some(a) => fields.push((String::from_str("annotations"), a.to_json())),
                    None => (),
                }
            },
            Content::Audio { data, mime_type, annotations } => {
                fields.push((String::from_str("type"), Json::Str(String::from_str("audio"))));
                fields.push((String::from_str("data"), Json::Str(data.clone())));
                fields.push((String::from_str("mimeType"), Json::Str(mime_type.clone())));
                match annotations {
                    Some(a) => fields.push((String::from_str("annotations"), a.to_json())),
                    None => (),
                }
            },
            Content::Resource { resource, annotations } => {
                fields.push((String::from_str("type"), Json::Str(String::from_str("resource"))));
                fields.push((String::from_str("resource"), resource.to_json()));
                match annotations {
                    Some(a) => fields.push((String::from_str("annotations"), a.to_json())),
                    None => (),
                }
            },
        }
        let r = Json::Obj(fields);
        proof {
            lemma_jfields_of_index(fields@);
            let want = spec_content_json(self@)->Obj_0;
            assert forall|k: int|
                0 <= k < jfields_of(fields@).len() implies jfields_of(fields@)[k] == want[k] by {
                assert(jfields_of(fields@)[k] == (fields[k].0@, fields[k].1.view_rec()));
            }
            assert(r@->Obj_0 =~= want);
        }
        r
    }

    /// Copy preserving the model.
    pub fn clone_content(&self) -> (r: Content)
        ensures
            r@ == self@,
    {
        match self {
            Content::Text { text, annotations } => Content::Text {
                text: text.clone(),
                annotations: clone_opt_annotations(annotations),
            },
            Content::Image { data, mime_type, annotations } => Content::Image {
                data: data.clone(),
                mime_type: mime_type.clone(),
                annotations: clone_opt_annotations(annotations),
            },
            Content::Audio { data, mime_type, annotations } => Content::Audio {
                data: data.clone(),
                mime_type: mime_type.clone(),
                annotations: clone_opt_annotations(annotations),
            },
            Content::Resource { resource, annotations } => Content::Resource {
                resource: resource.clone_contents(),
                annotations: clone_opt_annotations(annotations),
            },
        }
    }
}

/// Copy of optional annotations.
pub fn clone_opt_annotations(a: &Option<Annotations>) -> (r: Option<Annotations>)
    ensures
        match (a, &r) {
            (Some(x), Some(y)) => x@ == y@,
            (None, None) => true,
            _ => false,
        },
{
    match a {
        Some(x) => Some(x.clone_annotations()),
        None => None,
    }
}

/// A message produced by a prompt.
#[derive(Debug)]
pub struct PromptMessage {
    pub role: Role,
    pub content: Content,
}

/// Model of a prompt message.
pub struct PromptMessageV {
    pub role: Role,
    pub content: ContentV,
}

impl View for PromptMessage {
    type V = PromptMessageV;

    open spec fn view(&self) -> PromptMessageV {
        PromptMessageV { role: self.role, content: self.content@ }
    }
}

/// The JSON encoding of a prompt message.
pub open spec fn spec_prompt_message_json(m: PromptMessageV) -> JsonVal {
    JsonVal::Obj(
        seq![("role"@, spec_role_json(m.role)), ("content"@, spec_content_json(m.content))],
    )
}

impl PromptMessage {
    /// Encode this message as JSON.
    pub fn to_json(&self) -> (r: Json)
        ensures
            r@ == spec_prompt_message_json(self@),
    {
        let mut fields: Vec<(String, Json)> = Vec::new();
        fields.push((String::from_str("role"), self.role.to_json()));
        fields.push((String::from_str("content"), self.content.to_json()));
        let r = Json::Obj(fields);
        proof {
            lemma_jfields_of_index(fields@);
            let want = spec_prompt_message_json(self@)->Obj_0;
            assert forall|k: int|
                0 <= k < jfields_of(fields@).len() implies jfields_of(fields@)[k] == want[k] by {
                assert(jfields_of(fields@)[k] == (fields[k].0@, fields[k].1.view_rec()));
            }
            assert(r@->Obj_0 =~= want);
        }
        r
    }

    /// Copy preserving the model.
    pub fn clone_message(&self) -> (r: PromptMessage)
        ensures
            r@ == self@,
    {
        PromptMessage { role: self.role, content: self.content.clone_content() }
    }
}

/// Pagination request: an optional opaque cursor.
#[derive(Debug)]
pub struct PaginationParams {
    pub cursor: Option<String>,
}

/// Pagination result: the cursor of the next page, when one exists.
#[derive(Debug)]
pub struct PaginationResult {
    pub next_cursor: Option<String>,
}

/// Implementation name and version, as exchanged in the handshake.
#[derive(Debug)]
pub struct Implementation {
    pub name: String,
    pub version: String,
}

/// The JSON encoding of an implementation record.
pub open spec fn spec_implementation_json(name: Seq<char>, version: Seq<char>) -> JsonVal {
    JsonVal::Obj(seq![("name"@, JsonVal::Str(name)), ("version"@, JsonVal::Str(version))])
}

impl Implementation {
    /// Encode this record as JSON.
    pub fn to_json(&self) -> (r: Json)
        ensures
            r@ == spec_implementation_json(self.name@, self.version@),
    {
        let mut fields: Vec<(String, Json)> = Vec::new();
        fields.push((String::from_str("name"), Json::Str(self.name.clone())));
        fields.push((String::from_str("version"), Json::Str(self.version.clone())));
        let r = Json::Obj(fields);
        proof {
            lemma_jfields_of_index(fields@);
            let want = spec_implementation_json(self.name@, self.version@)->Obj_0;
            assert forall|k: int|
                0 <= k < jfields_of(fields@).len() implies jfields_of(fields@)[k] == want[k] by {
                assert(jfields_of(fields@)[k] == (fields[k].0@, fields[k].1.view_rec()));
            }
            assert(r@->Obj_0 =~= want);
        }
        r
    }
}

/// Capability of the prompts feature.
#[derive(Debug, Clone, Copy, PartialEq, Eq, Structural)]
pub struct PromptsCapability {
    pub list_changed: Option<bool>,
}

/// Capability of the resources feature.
#[derive(Debug, Clone, Copy, PartialEq, Eq, Structural)]
pub struct ResourcesCapability {
    pub subscribe: Option<bool>,
    pub list_changed: Option<bool>,
}

/// Capability of the tools feature.
#[derive(Debug, Clone, Copy, PartialEq, Eq, Structural)]
pub struct ToolsCapability {
    pub list_changed: Option<bool>,
}

/// Capability of the client's roots feature.
#[derive(Debug, Clone, Copy, PartialEq, Eq, Structural)]
pub struct RootsCapability {
    pub list_changed: Option<bool>,
}

} // verus!
