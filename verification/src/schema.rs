//! The internal representation of a JSON Typedef schema.

use vstd::prelude::*;

verus! {

/// Typedef primitive types.
#[derive(Debug, Clone, Copy, PartialEq, Eq, Structural)]
pub enum TypeSchema {
    Boolean,
    String,
    Timestamp,
    Float32,
    Float64,
    Int8,
    Uint8,
    Int16,
    Uint16,
    Int32,
    Uint32,
}

/// The wire name of each primitive type tag.
pub open spec fn spec_type_name(t: TypeSchema) -> Seq<char> {
    match t {
        TypeSchema::Boolean => "boolean"@,
        TypeSchema::String => "string"@,
        TypeSchema::Timestamp => "timestamp"@,
        TypeSchema::Float32 => "float32"@,
        TypeSchema::Float64 => "float64"@,
        TypeSchema::Int8 => "int8"@,
        TypeSchema::Uint8 => "uint8"@,
        TypeSchema::Int16 => "int16"@,
        TypeSchema::Uint16 => "uint16"@,
        TypeSchema::Int32 => "int32"@,
        TypeSchema::Uint32 => "uint32"@,
    }
}

impl TypeSchema {
    /// The name of the primitive type as it appears in a schema document.
    pub fn name(&self) -> (r: &'static str)
        ensures
            r@ == spec_type_name(*self),
    {
        match self {
            TypeSchema::Boolean => "boolean",
            TypeSchema::String => "string",
            TypeSchema::Timestamp => "timestamp",
            TypeSchema::Float32 => "float32",
            TypeSchema::Float64 => "float64",
            TypeSchema::Int8 => "int8",
            TypeSchema::Uint8 => "uint8",
            TypeSchema::Int16 => "int16",
            TypeSchema::Uint16 => "uint16",
            TypeSchema::Int32 => "int32",
            TypeSchema::Uint32 => "uint32",
        }
    }
}

/// A JSON value attachable as schema metadata. Numbers are modelled as
/// integers, which covers every value the engine itself ever handles.
#[derive(Debug)]
pub enum MetaValue {
    Null,
    Bool(bool),
    Int(i64),
    Str(String),
    Arr(Vec<MetaValue>),
    Obj(Vec<(String, MetaValue)>),
}

/// Mathematical mirror of [`MetaValue`].
#[verifier::ext_equal]
pub enum MetaValueS {
    Null,
    Bool(bool),
    Int(int),
    Str(Seq<char>),
    Arr(Seq<MetaValueS>),
    Obj(Seq<(Seq<char>, MetaValueS)>),
}

pub open spec fn meta_arr_view(vs: Seq<MetaValue>) -> Seq<MetaValueS>
    decreases vs,
{
    Seq::new(
        vs.len(),
        |i: int|
            if 0 <= i < vs.len() {
                meta_value_view(vs[i])
            } else {
                vstd::pervasive::arbitrary()
            },
    )
}

pub open spec fn meta_obj_view(vs: Seq<(String, MetaValue)>) -> Seq<(Seq<char>, MetaValueS)>
    decreases vs,
{
    Seq::new(
        vs.len(),
        |i: int|
            if 0 <= i < vs.len() {
                (vs[i].0@, meta_value_view(vs[i].1))
            } else {
                vstd::pervasive::arbitrary()
            },
    )
}

pub open spec fn meta_value_view(v: MetaValue) -> MetaValueS
    decreases v,
{
    match v {
        MetaValue::Null => MetaValueS::Null,
        MetaValue::Bool(b) => MetaValueS::Bool(b),
        MetaValue::Int(i) => MetaValueS::Int(i as int),
        MetaValue::Str(s) => MetaValueS::Str(s@),
        MetaValue::Arr(vs) => MetaValueS::Arr(meta_arr_view(vs@)),
        MetaValue::Obj(vs) => MetaValueS::Obj(meta_obj_view(vs@)),
    }
}

impl View for MetaValue {
    type V = MetaValueS;

    open spec fn view(&self) -> MetaValueS {
        meta_value_view(*self)
    }
}

impl Clone for MetaValue {
    #[verifier::loop_isolation(false)]
    fn clone(&self) -> (r: Self)
        ensures
            r@ == self@,
        decreases *self,
    {
        match self {
            MetaValue::Null => MetaValue::Null,
            MetaValue::Bool(b) => MetaValue::Bool(*b),
            MetaValue::Int(i) => MetaValue::Int(*i),
            MetaValue::Str(s) => MetaValue::Str(s.clone()),
            MetaValue::Arr(vs) => {
                let mut out: Vec<MetaValue> = Vec::new();
                let mut i: usize = 0;
                while i < vs.len()
                    invariant
                        i <= vs.len(),
                        out@.len() == i as int,
                        forall|j: int|
                            0 <= j < i as int ==> meta_value_view(#[trigger] out@[j])
                                == meta_value_view(vs@[j]),
                    decreases vs.len() - i,
                {
                    proof {
                        assert(decreases_to!(*vs => vs@[i as int]));
                    }
                    let item = vs[i].clone();
                    let ghost v1 = meta_value_view(item);
                    out.push(item);
                    proof {
                        assert(meta_value_view(out@[i as int]) == v1);
                    }
                    i = i + 1;
                }
                proof {
                    assert(meta_arr_view(out@) =~= meta_arr_view(vs@));
                }
                MetaValue::Arr(out)
            },
            MetaValue::Obj(vs) => {
                let mut out: Vec<(String, MetaValue)> = Vec::new();
                let mut i: usize = 0;
                while i < vs.len()
                    invariant
                        i <= vs.len(),
                        out@.len() == i as int,
                        forall|j: int|
                            0 <= j < i as int ==> (#[trigger] out@[j]).0@ == vs@[j].0@
                                && meta_value_view(out@[j].1) == meta_value_view(vs@[j].1),
                    decreases vs.len() - i,
                {
                    let p = &vs[i];
                    proof {
                        assert(decreases_to!(*vs => vs@[i as int]));
                        assert(decreases_to!(vs@[i as int] => vs@[i as int].1));
                    }
                    let pair = (p.0.clone(), p.1.clone());
                    let ghost k0 = pair.0@;
                    let ghost v1 = meta_value_view(pair.1);
                    out.push(pair);
                    proof {
                        assert(out@[i as int].0@ == k0);
                        assert(meta_value_view(out@[i as int].1) == v1);
                    }
                    i = i + 1;
                }
                proof {
                    assert(meta_obj_view(out@) =~= meta_obj_view(vs@));
                }
                MetaValue::Obj(out)
            },
        }
    }
}

/// Schema metadata: a freeform map from string keys to JSON values. The spec
/// does not say what might go in there; the engine only carries it along and
/// merges it. Later entries take precedence over earlier ones with the same
/// key when the document is written out.
#[derive(Debug)]
pub struct Metadata {
    pub entries: Vec<(String, MetaValue)>,
}

impl View for Metadata {
    type V = Seq<(Seq<char>, MetaValueS)>;

    open spec fn view(&self) -> Seq<(Seq<char>, MetaValueS)> {
        meta_obj_view(self.entries@)
    }
}

impl Metadata {
    /// An empty metadata map.
    pub fn new() -> (r: Self)
        ensures
            r@ == Seq::<(Seq<char>, MetaValueS)>::empty(),
    {
        let r = Metadata { entries: Vec::new() };
        proof {
            assert(r@ =~= Seq::<(Seq<char>, MetaValueS)>::empty());
        }
        r
    }

    /// Construct a [`Metadata`] object from a list of key-value entries.
    pub fn from_map(entries: Vec<(String, MetaValue)>) -> (r: Self)
        ensures
            r@ == meta_obj_view(entries@),
    {
        Metadata { entries }
    }

    /// Returns `true` if there are no metadata entries.
    pub fn is_empty(&self) -> (r: bool)
        ensures
            r == (self@.len() == 0),
    {
        self.entries.len() == 0
    }

    /// Merge another metadata map into this one. The other map's entries come
    /// later, so its values win on shared keys.
    pub fn extend(&mut self, other: Metadata)
        ensures
            final(self)@ == old(self)@ + other@,
    {
        let ghost orig = self.entries@;
        let ghost add = other.entries@;
        let mut rest = other.entries;
        self.entries.append(&mut rest);
        proof {
            assert(meta_obj_view(self.entries@) =~= meta_obj_view(orig) + meta_obj_view(add));
        }
    }
}

impl Clone for Metadata {
    #[verifier::loop_isolation(false)]
    fn clone(&self) -> (r: Self)
        ensures
            r@ == self@,
    {
        let mut out: Vec<(String, MetaValue)> = Vec::new();
        let mut i: usize = 0;
        while i < self.entries.len()
            invariant
                i <= self.entries.len(),
                out@.len() == i as int,
                forall|j: int|
                    0 <= j < i as int ==> #[trigger] out@[j].0@ == self.entries@[j].0@
                        && meta_value_view(out@[j].1) == meta_value_view(self.entries@[j].1),
            decreases self.entries.len() - i,
        {
            let p = &self.entries[i];
            let pair = (p.0.clone(), p.1.clone());
            out.push(pair);
            i = i + 1;
        }
        proof {
            assert(meta_obj_view(out@) =~= meta_obj_view(self.entries@));
        }
        Metadata { entries: out }
    }
}

impl Default for Metadata {
    /// An empty metadata map.
    fn default() -> (r: Self)
        ensures
            r@ == Seq::<(Seq<char>, MetaValueS)>::empty(),
    {
        Metadata::new()
    }
}

/// A JSON Typedef schema: metadata, one of the eight schema forms, and a
/// nullability flag.
#[derive(Debug)]
pub struct Schema {
    /// The metadata attached to this schema.
    pub metadata: Metadata,
    /// The actual schema form.
    pub ty: SchemaType,
    /// Whether this schema is nullable.
    pub nullable: bool,
}

/// The eight forms a schema can take.
#[derive(Debug)]
pub enum SchemaType {
    /// Accepts anything.
    Empty,
    /// A primitive type.
    Type { primitive: TypeSchema },
    /// A fixed set of string labels.
    Enum { labels: Vec<String> },
    /// A homogeneous sequence.
    Elements { elements: Box<Schema> },
    /// An object with required and optional properties.
    Properties {
        properties: Vec<(String, Schema)>,
        optional_properties: Vec<(String, Schema)>,
        additional_properties: bool,
    },
    /// A homogeneous string-keyed map.
    Values { values: Box<Schema> },
    /// A tagged union: the tag field's value selects among mapped schemas.
    Discriminator { discriminator: String, mapping: Vec<(String, Schema)> },
    /// A reference to an entry in the root document's definitions table.
    Ref { target: String },
}

/// Mathematical mirror of [`Schema`].
#[verifier::ext_equal]
pub struct SchemaS {
    pub metadata: Seq<(Seq<char>, MetaValueS)>,
    pub ty: SchemaTypeS,
    pub nullable: bool,
}

/// Mathematical mirror of [`SchemaType`].
#[verifier::ext_equal]
pub enum SchemaTypeS {
    Empty,
    Type { primitive: TypeSchema },
    Enum { labels: Seq<Seq<char>> },
    Elements { elements: Box<SchemaS> },
    Properties {
        properties: Seq<(Seq<char>, SchemaS)>,
        optional_properties: Seq<(Seq<char>, SchemaS)>,
        additional_properties: bool,
    },
    Values { values: Box<SchemaS> },
    Discriminator { discriminator: Seq<char>, mapping: Seq<(Seq<char>, SchemaS)> },
    Ref { target: Seq<char> },
}

pub open spec fn labels_view(vs: Seq<String>) -> Seq<Seq<char>> {
    Seq::new(vs.len(), |i: int| vs[i]@)
}

pub open spec fn schema_map_view(vs: Seq<(String, Schema)>) -> Seq<(Seq<char>, SchemaS)>
    decreases vs, 0int,
{
    Seq::new(
        vs.len(),
        |i: int|
            if 0 <= i < vs.len() {
                (vs[i].0@, schema_view(vs[i].1))
            } else {
                vstd::pervasive::arbitrary()
            },
    )
}

pub open spec fn schema_type_view(t: SchemaType) -> SchemaTypeS
    decreases t, 1int,
{
    match t {
        SchemaType::Empty => SchemaTypeS::Empty,
        SchemaType::Type { primitive } => SchemaTypeS::Type { primitive },
        SchemaType::Enum { labels } => SchemaTypeS::Enum { labels: labels_view(labels@) },
        SchemaType::Elements { elements } => SchemaTypeS::Elements {
            elements: Box::new(schema_view(*elements)),
        },
        SchemaType::Properties { properties, optional_properties, additional_properties } => {
            SchemaTypeS::Properties {
                properties: schema_map_view(properties@),
                optional_properties: schema_map_view(optional_properties@),
                additional_properties,
            }
        },
        SchemaType::Values { values } => SchemaTypeS::Values {
            values: Box::new(schema_view(*values)),
        },
        SchemaType::Discriminator { discriminator, mapping } => SchemaTypeS::Discriminator {
            discriminator: discriminator@,
            mapping: schema_map_view(mapping@),
        },
        SchemaType::Ref { target } => SchemaTypeS::Ref { target: target@ },
    }
}

pub open spec fn schema_view(s: Schema) -> SchemaS
    decreases s, 2int,
{
    SchemaS { metadata: s.metadata@, ty: schema_type_view(s.ty), nullable: s.nullable }
}

impl View for Schema {
    type V = SchemaS;

    open spec fn view(&self) -> SchemaS {
        schema_view(*self)
    }
}

impl View for SchemaType {
    type V = SchemaTypeS;

    open spec fn view(&self) -> SchemaTypeS {
        schema_type_view(*self)
    }
}

/// The empty schema: no metadata, the `Empty` form, not nullable. Empty
/// schemas accept any JSON data.
pub open spec fn spec_empty_schema() -> SchemaS {
    SchemaS {
        metadata: Seq::empty(),
        ty: SchemaTypeS::Empty,
        nullable: false,
    }
}

impl Default for Schema {
    /// Provides an empty schema, which accepts any JSON data.
    fn default() -> (r: Self)
        ensures
            r@ == spec_empty_schema(),
    {
        let r = Schema { metadata: Metadata::new(), ty: SchemaType::Empty, nullable: false };
        proof {
            assert(r@ =~= spec_empty_schema());
        }
        r
    }
}

#[verifier::loop_isolation(false)]
fn clone_schema_map(vs: &Vec<(String, Schema)>) -> (r: Vec<(String, Schema)>)
    ensures
        schema_map_view(r@) == schema_map_view(vs@),
    decreases *vs, 0int,
{
    let mut out: Vec<(String, Schema)> = Vec::new();
    let mut i: usize = 0;
    while i < vs.len()
        invariant
            i <= vs.len(),
            out@.len() == i as int,
            forall|j: int|
                0 <= j < i as int ==> (#[trigger] out@[j]).0@ == vs@[j].0@ && schema_view(
                    out@[j].1,
                ) == schema_view(vs@[j].1),
        decreases vs.len() - i,
    {
        let p = &vs[i];
        let pair = (p.0.clone(), p.1.clone());
        out.push(pair);
        i = i + 1;
    }
    proof {
        assert(schema_map_view(out@) =~= schema_map_view(vs@));
    }
    out
}

impl Clone for SchemaType {
    #[verifier::loop_isolation(false)]
    fn clone(&self) -> (r: Self)
        ensures
            r@ == self@,
        decreases *self, 1int,
    {
        match self {
            SchemaType::Empty => SchemaType::Empty,
            SchemaType::Type { primitive } => SchemaType::Type { primitive: *primitive },
            SchemaType::Enum { labels } => {
                let mut out: Vec<String> = Vec::new();
                let mut i: usize = 0;
                while i < labels.len()
                    invariant
                        i <= labels.len(),
                        out@.len() == i as int,
                        forall|j: int| 0 <= j < i as int ==> #[trigger] out@[j]@ == labels@[j]@,
                    decreases labels.len() - i,
                {
                    out.push(labels[i].clone());
                    i = i + 1;
                }
                proof {
                    assert(labels_view(out@) =~= labels_view(labels@));
                }
                SchemaType::Enum { labels: out }
            },
            SchemaType::Elements { elements } => SchemaType::Elements {
                elements: Box::new((**elements).clone()),
            },
            SchemaType::Properties { properties, optional_properties, additional_properties } => {
                SchemaType::Properties {
                    properties: clone_schema_map(properties),
                    optional_properties: clone_schema_map(optional_properties),
                    additional_properties: *additional_properties,
                }
            },
            SchemaType::Values { values } => SchemaType::Values {
                values: Box::new((**values).clone()),
            },
            SchemaType::Discriminator { discriminator, mapping } => SchemaType::Discriminator {
                discriminator: discriminator.clone(),
                mapping: clone_schema_map(mapping),
            },
            SchemaType::Ref { target } => SchemaType::Ref { target: target.clone() },
        }
    }
}

impl Clone for Schema {
    fn clone(&self) -> (r: Self)
        ensures
            r@ == self@,
        decreases *self, 2int,
    {
        let r = Schema {
            metadata: self.metadata.clone(),
            ty: self.ty.clone(),
            nullable: self.nullable,
        };
        proof {
            assert(r@ =~= self@);
        }
        r
    }
}

/// The top level of a JSON Typedef schema document.
#[derive(Debug)]
pub struct RootSchema {
    /// The top-level definitions table: definition id to schema.
    pub definitions: Vec<(String, Schema)>,
    /// The top-level schema.
    pub schema: Schema,
}

/// Mathematical mirror of [`RootSchema`].
#[verifier::ext_equal]
pub struct RootSchemaS {
    pub definitions: Seq<(Seq<char>, SchemaS)>,
    pub schema: SchemaS,
}

impl View for RootSchema {
    type V = RootSchemaS;

    open spec fn view(&self) -> RootSchemaS {
        RootSchemaS { definitions: schema_map_view(self.definitions@), schema: self.schema@ }
    }
}

} // verus!
