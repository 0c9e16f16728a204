//! The per-type registration surface: how participating types describe
//! themselves to the generator.
//!
//! Each participating type is registered under a [`TypeId`] with a
//! [`TypeInfo`]: whether the type is referenceable, its [`Names`] descriptor,
//! and a schema [`Fragment`]. A fragment is a schema template whose leaves may
//! request the sub-schema of another registered type ([`FragmentType::Sub`]);
//! the generator resolves such requests recursively, deciding between inlining
//! and referencing.

use vstd::prelude::*;

use crate::names::{names_view, Names, NamesS};
use crate::schema::{labels_view, Metadata, MetaValueS, TypeSchema};

verus! {

/// An identity for one concrete participating type, local to one process run.
/// It serves only as a memo-table key: the one required property is that two
/// registrations of distinct types use distinct ids within one run. It is not
/// stable across runs and not suitable for exporting.
#[derive(Debug, Clone, Copy, PartialEq, Eq, Structural)]
pub struct TypeId(pub u64);

/// A schema template, as supplied by a type's descriptor. It mirrors the
/// schema forms, and adds one leaf: a request for the sub-schema of another
/// registered type. The fragment's own metadata and nullability are applied to
/// whatever the leaf resolves to: the metadata is merged (the fragment's
/// entries win), and nullability is joined.
#[derive(Debug)]
pub struct Fragment {
    /// Metadata to attach: set on built forms, merged onto resolved requests.
    pub metadata: Metadata,
    /// Whether this occurrence is nullable.
    pub nullable: bool,
    /// The form of the template.
    pub ty: FragmentType,
}

/// The forms a fragment can take: the schema forms, plus a sub-schema request.
#[derive(Debug)]
pub enum FragmentType {
    /// The empty form: accepts anything.
    Empty,
    /// A primitive type.
    Type { primitive: TypeSchema },
    /// A fixed set of string labels.
    Enum { labels: Vec<String> },
    /// A homogeneous sequence.
    Elements { elements: Box<Fragment> },
    /// An object with required and optional properties.
    Properties {
        properties: Vec<(String, Fragment)>,
        optional_properties: Vec<(String, Fragment)>,
        additional_properties: bool,
    },
    /// A homogeneous string-keyed map.
    Values { values: Box<Fragment> },
    /// A tagged union.
    Discriminator { discriminator: String, mapping: Vec<(String, Fragment)> },
    /// A request for the sub-schema of the registered type `target`.
    Sub { target: TypeId },
}

/// Mathematical mirror of [`Fragment`].
#[verifier::ext_equal]
pub struct FragS {
    pub metadata: Seq<(Seq<char>, MetaValueS)>,
    pub nullable: bool,
    pub ty: FragTypeS,
}

/// Mathematical mirror of [`FragmentType`].
#[verifier::ext_equal]
pub enum FragTypeS {
    Empty,
    Type { primitive: TypeSchema },
    Enum { labels: Seq<Seq<char>> },
    Elements { elements: Box<FragS> },
    Properties {
        properties: Seq<(Seq<char>, FragS)>,
        optional_properties: Seq<(Seq<char>, FragS)>,
        additional_properties: bool,
    },
    Values { values: Box<FragS> },
    Discriminator { discriminator: Seq<char>, mapping: Seq<(Seq<char>, FragS)> },
    Sub { target: int },
}

pub open spec fn frag_map_view(vs: Seq<(String, Fragment)>) -> Seq<(Seq<char>, FragS)>
    decreases vs, 0int,
{
    Seq::new(
        vs.len(),
        |i: int|
            if 0 <= i < vs.len() {
                (vs[i].0@, frag_view(vs[i].1))
            } else {
                vstd::pervasive::arbitrary()
            },
    )
}

pub open spec fn frag_type_view(t: FragmentType) -> FragTypeS
    decreases t, 1int,
{
    match t {
        FragmentType::Empty => FragTypeS::Empty,
        FragmentType::Type { primitive } => FragTypeS::Type { primitive },
        FragmentType::Enum { labels } => FragTypeS::Enum { labels: labels_view(labels@) },
        FragmentType::Elements { elements } => FragTypeS::Elements {
            elements: Box::new(frag_view(*elements)),
        },
        FragmentType::Properties { properties, optional_properties, additional_properties } => {
            FragTypeS::Properties {
                properties: frag_map_view(properties@),
                optional_properties: frag_map_view(optional_properties@),
                additional_properties,
            }
        },
        FragmentType::Values { values } => FragTypeS::Values {
            values: Box::new(frag_view(*values)),
        },
        FragmentType::Discriminator { discriminator, mapping } => FragTypeS::Discriminator {
            discriminator: discriminator@,
            mapping: frag_map_view(mapping@),
        },
        FragmentType::Sub { target } => FragTypeS::Sub { target: target.0 as int },
    }
}

pub open spec fn frag_view(f: Fragment) -> FragS
    decreases f, 2int,
{
    FragS { metadata: f.metadata@, nullable: f.nullable, ty: frag_type_view(f.ty) }
}

impl View for Fragment {
    type V = FragS;

    open spec fn view(&self) -> FragS {
        frag_view(*self)
    }
}

impl View for FragmentType {
    type V = FragTypeS;

    open spec fn view(&self) -> FragTypeS {
        frag_type_view(*self)
    }
}

/// The size of a fragment tree: a termination measure for the traversal.
pub open spec fn frag_size(f: FragS) -> nat
    decreases f, 1int,
{
    1 + match f.ty {
        FragTypeS::Elements { elements } => frag_size(*elements),
        FragTypeS::Properties { properties, optional_properties, .. } => frag_list_size(properties)
            + frag_list_size(optional_properties),
        FragTypeS::Values { values } => frag_size(*values),
        FragTypeS::Discriminator { mapping, .. } => frag_list_size(mapping),
        _ => 0,
    }
}

/// The summed size of a list of keyed fragments.
pub open spec fn frag_list_size(s: Seq<(Seq<char>, FragS)>) -> nat
    decreases s, 0int,
{
    if s.len() == 0 {
        0
    } else {
        1 + frag_size(s[0].1) + frag_list_size(s.subrange(1, s.len() as int))
    }
}

/// Every element of a keyed fragment list is smaller than the whole list.
pub proof fn lemma_frag_list_size_le(s: Seq<(Seq<char>, FragS)>, i: int)
    requires
        0 <= i < s.len(),
    ensures
        frag_size(s[i].1) < frag_list_size(s),
    decreases s.len(),
{
    if i == 0 {
    } else {
        lemma_frag_list_size_le(s.subrange(1, s.len() as int), i - 1);
        assert(s.subrange(1, s.len() as int)[i - 1] == s[i]);
    }
}

/// A fragment is well-formed with respect to a registry when every sub-schema
/// request in it targets a registered, referenceable type.
pub open spec fn frag_wf(m: Map<int, TypeInfoS>, f: FragS) -> bool
    decreases f, 1int,
{
    match f.ty {
        FragTypeS::Sub { target } => m.contains_key(target) && m[target].referenceable,
        FragTypeS::Elements { elements } => frag_wf(m, *elements),
        FragTypeS::Values { values } => frag_wf(m, *values),
        FragTypeS::Properties { properties, optional_properties, .. } => frag_list_wf(m, properties)
            && frag_list_wf(m, optional_properties),
        FragTypeS::Discriminator { mapping, .. } => frag_list_wf(m, mapping),
        _ => true,
    }
}

/// Well-formedness of every fragment in a keyed fragment list.
pub open spec fn frag_list_wf(m: Map<int, TypeInfoS>, s: Seq<(Seq<char>, FragS)>) -> bool
    decreases s, 0int,
{
    forall|i: int| 0 <= i < s.len() ==> frag_wf(m, #[trigger] s[i].1)
}

/// What one registered type supplies to the generator: three facts the engine
/// depends on and never second-guesses.
#[derive(Debug)]
pub struct TypeInfo {
    /// Whether the type may be promoted to a named definition and referenced.
    /// Non-referenceable types are always inlined.
    pub referenceable: bool,
    /// How the type is displayed and referenced.
    pub names: Names,
    /// The type's schema template.
    pub fragment: Fragment,
}

/// Mathematical mirror of [`TypeInfo`].
#[verifier::ext_equal]
pub struct TypeInfoS {
    pub referenceable: bool,
    pub names: NamesS,
    pub fragment: FragS,
}

pub open spec fn info_view(info: TypeInfo) -> TypeInfoS {
    TypeInfoS {
        referenceable: info.referenceable,
        names: names_view(info.names),
        fragment: frag_view(info.fragment),
    }
}

impl View for TypeInfo {
    type V = TypeInfoS;

    open spec fn view(&self) -> TypeInfoS {
        info_view(*self)
    }
}

/// The registration table for one generation run: a map from type identity to
/// the type's descriptor. It stands in for a static association between a type
/// and its descriptor; it is populated before a generation run and read-only
/// during one.
#[derive(Debug)]
pub struct Registry {
    /// The registration list. Later entries for the same id win.
    pub entries: Vec<(TypeId, TypeInfo)>,
}

/// The map a registration list denotes: later registrations of the same id win.
pub open spec fn reg_map(entries: Seq<(TypeId, TypeInfo)>) -> Map<int, TypeInfoS>
    decreases entries,
{
    if entries.len() == 0 {
        Map::empty()
    } else {
        reg_map(entries.drop_last()).insert(
            entries.last().0.0 as int,
            info_view(entries.last().1),
        )
    }
}

impl View for Registry {
    type V = Map<int, TypeInfoS>;

    open spec fn view(&self) -> Map<int, TypeInfoS> {
        reg_map(self.entries@)
    }
}

/// A registry is well-formed when every fragment in it is: every sub-schema
/// request targets a registered, referenceable type.
pub open spec fn reg_wf(m: Map<int, TypeInfoS>) -> bool {
    forall|id: int| m.contains_key(id) ==> frag_wf(m, (#[trigger] m[id]).fragment)
}

proof fn lemma_reg_map_last(entries: Seq<(TypeId, TypeInfo)>, i: int)
    requires
        0 <= i < entries.len(),
        forall|j: int| i < j < entries.len() ==> (#[trigger] entries[j]).0 != entries[i].0,
    ensures
        reg_map(entries).contains_key(entries[i].0.0 as int),
        reg_map(entries)[entries[i].0.0 as int] == info_view(entries[i].1),
    decreases entries.len(),
{
    if i == entries.len() - 1 {
    } else {
        assert(entries.drop_last()[i] == entries[i]);
        lemma_reg_map_last(entries.drop_last(), i);
        assert(entries.last() == entries[entries.len() - 1]);
        assert(entries[entries.len() - 1].0 != entries[i].0);
        assert(entries[entries.len() - 1].0.0 != entries[i].0.0);
    }
}

proof fn lemma_reg_map_absent(entries: Seq<(TypeId, TypeInfo)>, id: TypeId)
    requires
        forall|j: int| 0 <= j < entries.len() ==> (#[trigger] entries[j]).0 != id,
    ensures
        !reg_map(entries).contains_key(id.0 as int),
    decreases entries.len(),
{
    if entries.len() > 0 {
        assert(forall|j: int|
            0 <= j < entries.drop_last().len() ==> (#[trigger] entries.drop_last()[j])
                == entries[j]);
        lemma_reg_map_absent(entries.drop_last(), id);
        assert(entries.last() == entries[entries.len() - 1]);
        assert(entries.last().0.0 != id.0);
    }
}

/// The map a registration list denotes has finitely many keys.
pub proof fn lemma_reg_map_finite(entries: Seq<(TypeId, TypeInfo)>)
    ensures
        reg_map(entries).dom().finite(),
    decreases entries.len(),
{
    if entries.len() > 0 {
        lemma_reg_map_finite(entries.drop_last());
    }
}

impl Registry {
    /// An empty registry.
    pub fn new() -> (r: Self)
        ensures
            r@ == Map::<int, TypeInfoS>::empty(),
    {
        Registry { entries: Vec::new() }
    }

    /// Register a type. Registering the same id again replaces the earlier
    /// descriptor.
    pub fn insert(&mut self, id: TypeId, info: TypeInfo)
        ensures
            final(self)@ == old(self)@.insert(id.0 as int, info@),
    {
        let ghost orig = self.entries@;
        self.entries.push((id, info));
        proof {
            assert(self.entries@.drop_last() =~= orig);
            assert(self.entries@.last() == self.entries@[orig.len() as int]);
        }
    }

    /// Look up a registered type's descriptor.
    pub fn get(&self, id: TypeId) -> (r: Option<&TypeInfo>)
        ensures
            match r {
                Some(info) => self@.contains_key(id.0 as int) && info@ == self@[id.0 as int],
                None => !self@.contains_key(id.0 as int),
            },
    {
        let mut i: usize = self.entries.len();
        while i > 0
            invariant
                i <= self.entries.len(),
                forall|j: int|
                    i as int <= j < self.entries@.len() ==> (#[trigger] self.entries@[j]).0 != id,
            decreases i,
        {
            i = i - 1;
            let e = &self.entries[i];
            if e.0.0 == id.0 {
                proof {
                    assert(e.0 == id);
                    lemma_reg_map_last(self.entries@, i as int);
                }
                return Some(&e.1);
            }
            proof {
                assert(self.entries@[i as int].0.0 != id.0);
                assert(self.entries@[i as int].0 != id);
            }
        }
        proof {
            lemma_reg_map_absent(self.entries@, id);
        }
        None
    }
}

} // verus!
