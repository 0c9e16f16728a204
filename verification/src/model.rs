//! The mathematical model of one generation run.
//!
//! The generator's behaviour is specified by a state-passing functional model:
//! [`m_sub`] models resolving one sub-schema request, [`m_build`] models
//! building one fragment, and [`m_build_list`] models building a keyed list of
//! fragments. The executable engine's contracts state that it computes exactly
//! what this model describes.

use vstd::prelude::*;

use crate::names::NamesS;
use crate::naming::{spec_render, NamingStrategy};
use crate::registry::{
    frag_list_size, frag_list_wf, frag_size, frag_wf, reg_wf, FragS, FragTypeS, TypeInfoS,
};
use crate::schema::{SchemaS, SchemaTypeS};

verus! {

/// The inlining policy: when the generator embeds a referenceable type's
/// schema at its point of use instead of emitting a reference to a named
/// definition.
#[derive(Debug, Clone, Copy, PartialEq, Eq, Structural)]
pub enum Inlining {
    /// Inline every referenceable type at every occurrence, except where a
    /// cycle forces a reference.
    Always,
    /// Inline only the root type; reference every other referenceable type.
    /// This is the default.
    Normal,
    /// Reference even the root type: the top-level schema is itself a ref.
    Never,
}

/// The lifecycle state of one memo-table entry, in the model.
#[verifier::ext_equal]
pub enum DefStateS {
    /// Schema construction has started but not completed. Seeing this state
    /// for a type signals recursion.
    Processing,
    /// Construction completed; the contained schema is the canonical one for
    /// the type.
    Finished(SchemaS),
}

/// One memo-table entry in the model: the type's names and lifecycle state.
#[verifier::ext_equal]
pub struct DefEntryS {
    pub names: NamesS,
    pub state: DefStateS,
}

/// The traversal state in the model: the memo table and the set of types for
/// which at least one ref was emitted.
#[verifier::ext_equal]
pub struct GenSt {
    pub defs: Map<int, DefEntryS>,
    pub refs: Set<int>,
}

/// Whether a call with the given policy inlines, at top level or below it.
pub open spec fn spec_inline(inl: Inlining, top: bool) -> bool {
    match inl {
        Inlining::Always => true,
        Inlining::Normal => top,
        Inlining::Never => false,
    }
}

/// The schema the generator synthesizes when it emits a reference: a bare ref
/// form carrying the rendered identifier, no metadata, not nullable.
pub open spec fn ref_schema_s(strat: NamingStrategy, names: NamesS) -> SchemaS {
    SchemaS {
        metadata: Seq::empty(),
        nullable: false,
        ty: SchemaTypeS::Ref { target: spec_render(strat, names) },
    }
}

/// The ids of registered referenceable types.
pub open spec fn ref_ids(reg: Map<int, TypeInfoS>) -> Set<int> {
    reg.dom().filter(|i: int| reg[i].referenceable)
}

/// How many referenceable registered types have no memo entry yet. The
/// traversal's primary termination measure.
pub open spec fn unprocessed(reg: Map<int, TypeInfoS>, defs: Map<int, DefEntryS>) -> nat {
    ref_ids(reg).difference(defs.dom()).len()
}

/// The conditions the model is specified under: a well-formed, finite registry.
pub open spec fn m_wf(reg: Map<int, TypeInfoS>) -> bool {
    reg_wf(reg) && reg.dom().finite()
}

/// The rank of a sub-schema request in the termination order: requests for
/// referenceable types sit below fragment building, others above it.
pub open spec fn sub_rank(reg: Map<int, TypeInfoS>, id: int) -> int {
    if reg.contains_key(id) && reg[id].referenceable {
        0
    } else {
        2
    }
}

/// The monotone closure of a traversal step: the step's result state, with
/// the start state folded back in. The traversal only ever grows the state,
/// so this is the step's result itself; folding the start state in makes the
/// growth evident to the termination checker.
pub open spec fn clamp(pre: GenSt, post: GenSt) -> GenSt {
    GenSt { defs: pre.defs.union_prefer_right(post.defs), refs: pre.refs.union(post.refs) }
}

pub proof fn lemma_ref_ids_finite(reg: Map<int, TypeInfoS>)
    requires
        reg.dom().finite(),
    ensures
        ref_ids(reg).finite(),
        ref_ids(reg).subset_of(reg.dom()),
{
    broadcast use vstd::set_lib::lemma_set_subset_finite;

    assert(ref_ids(reg).subset_of(reg.dom()));
}

/// Inserting a memo entry for a referenceable registered type strictly
/// decreases the count of unprocessed types.
pub proof fn lemma_unprocessed_insert(
    reg: Map<int, TypeInfoS>,
    defs: Map<int, DefEntryS>,
    id: int,
    e: DefEntryS,
)
    requires
        reg.dom().finite(),
        ref_ids(reg).contains(id),
        !defs.dom().contains(id),
    ensures
        unprocessed(reg, defs.insert(id, e)) < unprocessed(reg, defs),
{
    lemma_ref_ids_finite(reg);
    ref_ids(reg).lemma_set_insert_diff_decreases(defs.dom(), id);
    assert(defs.insert(id, e).dom() =~= defs.dom().insert(id));
}

/// Growing the memo table never increases the count of unprocessed types.
pub proof fn lemma_unprocessed_mono(
    reg: Map<int, TypeInfoS>,
    defs1: Map<int, DefEntryS>,
    defs2: Map<int, DefEntryS>,
)
    requires
        reg.dom().finite(),
        defs1.dom().subset_of(defs2.dom()),
    ensures
        unprocessed(reg, defs2) <= unprocessed(reg, defs1),
{
    lemma_ref_ids_finite(reg);
    let d1 = ref_ids(reg).difference(defs1.dom());
    let d2 = ref_ids(reg).difference(defs2.dom());
    vstd::set_lib::lemma_len_subset(d1, ref_ids(reg));
    vstd::set_lib::lemma_len_subset(d2, d1);
}

/// The start state folded into a grown state is the grown state itself.
pub proof fn lemma_clamp_grown(pre: GenSt, post: GenSt)
    requires
        forall|k: int| pre.defs.contains_key(k) ==> post.defs.contains_key(k),
        pre.refs.subset_of(post.refs),
    ensures
        clamp(pre, post) == post,
{
    assert(clamp(pre, post).defs =~= post.defs);
    assert(clamp(pre, post).refs =~= post.refs);
    assert(clamp(pre, post) =~= post);
}

/// What resolving the sub-schema request for `id` returns, and the traversal
/// state it leaves behind.
///
/// A request for a type with no memo entry builds the type's fragment - after
/// inserting a `Processing` entry first if the type is referenceable, and
/// finalizing it to `Finished` afterwards. A request for a type already
/// `Processing` is a cycle and unconditionally yields a ref. A request for a
/// `Finished` type yields the stored schema or a ref, depending on the
/// inlining decision. Every path that yields a ref records `id` in the
/// referenced set.
pub open spec fn m_sub(
    reg: Map<int, TypeInfoS>,
    inl: Inlining,
    strat: NamingStrategy,
    st: GenSt,
    id: int,
    top: bool,
) -> (SchemaS, GenSt)
    decreases unprocessed(reg, st.defs) as int, sub_rank(reg, id), 0int,
        when m_wf(reg) && reg.contains_key(id)
{
    let inline = spec_inline(inl, top);
    let info = reg[id];
    if st.defs.contains_key(id) {
        match st.defs[id].state {
            DefStateS::Finished(s) => {
                if !info.referenceable || (inline && !st.refs.contains(id)) {
                    (s, st)
                } else {
                    (ref_schema_s(strat, info.names), GenSt { refs: st.refs.insert(id), ..st })
                }
            },
            DefStateS::Processing => {
                (ref_schema_s(strat, info.names), GenSt { refs: st.refs.insert(id), ..st })
            },
        }
    } else {
        if info.referenceable {
            let st1 = GenSt {
                defs: st.defs.insert(
                    id,
                    DefEntryS { names: info.names, state: DefStateS::Processing },
                ),
                ..st
            };
            proof {
                lemma_unprocessed_insert(
                    reg,
                    st.defs,
                    id,
                    DefEntryS { names: info.names, state: DefStateS::Processing },
                );
            }
            let (s, st2r) = m_build(reg, inl, strat, st1, info.fragment);
            let st2 = clamp(st1, st2r);
            let st3 = GenSt {
                defs: st2.defs.insert(
                    id,
                    DefEntryS { names: info.names, state: DefStateS::Finished(s) },
                ),
                ..st2
            };
            if inline && !st3.refs.contains(id) {
                (s, st3)
            } else {
                (ref_schema_s(strat, info.names), GenSt { refs: st3.refs.insert(id), ..st3 })
            }
        } else {
            m_build(reg, inl, strat, st, info.fragment)
        }
    }
}

/// What building one fragment returns: the fragment's own form with nested
/// fragments built in place, or - for a sub-schema request - the resolved
/// schema with the fragment's nullability joined in and its metadata merged
/// on (the fragment's entries win).
pub open spec fn m_build(
    reg: Map<int, TypeInfoS>,
    inl: Inlining,
    strat: NamingStrategy,
    st: GenSt,
    f: FragS,
) -> (SchemaS, GenSt)
    decreases unprocessed(reg, st.defs) as int, 1int, frag_size(f) as int,
        when m_wf(reg) && frag_wf(reg, f)
{
    match f.ty {
        FragTypeS::Sub { target } => {
            let (s, st1r) = m_sub(reg, inl, strat, st, target, false);
            let st1 = clamp(st, st1r);
            (
                SchemaS {
                    metadata: s.metadata + f.metadata,
                    nullable: s.nullable || f.nullable,
                    ty: s.ty,
                },
                st1,
            )
        },
        FragTypeS::Empty => {
            (SchemaS { metadata: f.metadata, nullable: f.nullable, ty: SchemaTypeS::Empty }, st)
        },
        FragTypeS::Type { primitive } => {
            (
                SchemaS {
                    metadata: f.metadata,
                    nullable: f.nullable,
                    ty: SchemaTypeS::Type { primitive },
                },
                st,
            )
        },
        FragTypeS::Enum { labels } => {
            (
                SchemaS {
                    metadata: f.metadata,
                    nullable: f.nullable,
                    ty: SchemaTypeS::Enum { labels },
                },
                st,
            )
        },
        FragTypeS::Elements { elements } => {
            let (s, st1r) = m_build(reg, inl, strat, st, *elements);
            let st1 = clamp(st, st1r);
            (
                SchemaS {
                    metadata: f.metadata,
                    nullable: f.nullable,
                    ty: SchemaTypeS::Elements { elements: Box::new(s) },
                },
                st1,
            )
        },
        FragTypeS::Values { values } => {
            let (s, st1r) = m_build(reg, inl, strat, st, *values);
            let st1 = clamp(st, st1r);
            (
                SchemaS {
                    metadata: f.metadata,
                    nullable: f.nullable,
                    ty: SchemaTypeS::Values { values: Box::new(s) },
                },
                st1,
            )
        },
        FragTypeS::Properties { properties, optional_properties, additional_properties } => {
            let (ps, st1r) = m_build_list(reg, inl, strat, st, properties);
            let st1 = clamp(st, st1r);
            proof {
                lemma_unprocessed_mono(reg, st.defs, st1.defs);
            }
            let (os, st2r) = m_build_list(reg, inl, strat, st1, optional_properties);
            let st2 = clamp(st1, st2r);
            (
                SchemaS {
                    metadata: f.metadata,
                    nullable: f.nullable,
                    ty: SchemaTypeS::Properties {
                        properties: ps,
                        optional_properties: os,
                        additional_properties,
                    },
                },
                st2,
            )
        },
        FragTypeS::Discriminator { discriminator, mapping } => {
            let (ms, st1r) = m_build_list(reg, inl, strat, st, mapping);
            let st1 = clamp(st, st1r);
            (
                SchemaS {
                    metadata: f.metadata,
                    nullable: f.nullable,
                    ty: SchemaTypeS::Discriminator { discriminator, mapping: ms },
                },
                st1,
            )
        },
    }
}

/// What building a keyed list of fragments returns: the keys unchanged, each
/// fragment built in order, the state threaded left to right.
pub open spec fn m_build_list(
    reg: Map<int, TypeInfoS>,
    inl: Inlining,
    strat: NamingStrategy,
    st: GenSt,
    s: Seq<(Seq<char>, FragS)>,
) -> (Seq<(Seq<char>, SchemaS)>, GenSt)
    decreases unprocessed(reg, st.defs) as int, 1int, frag_list_size(s) as int,
        when m_wf(reg) && frag_list_wf(reg, s)
{
    if s.len() == 0 {
        (Seq::empty(), st)
    } else {
        let (s0, st1r) = m_build(reg, inl, strat, st, s[0].1);
        let st1 = clamp(st, st1r);
        proof {
            lemma_unprocessed_mono(reg, st.defs, st1.defs);
        }
        let (rest, st2r) = m_build_list(reg, inl, strat, st1, s.subrange(1, s.len() as int));
        let st2 = clamp(st1, st2r);
        (seq![(s[0].0, s0)] + rest, st2)
    }
}

/// The states that can actually arise during a run: every memo entry and
/// every recorded reference belongs to a registered referenceable type.
pub open spec fn st_inv(reg: Map<int, TypeInfoS>, st: GenSt) -> bool {
    &&& forall|k: int| #[trigger] st.defs.contains_key(k) ==> ref_ids(reg).contains(k)
    &&& forall|k: int| #[trigger] st.refs.contains(k) ==> ref_ids(reg).contains(k)
}

/// How a traversal step's result state relates to its start state: existing
/// memo entries are preserved exactly; new entries belong to registered
/// referenceable types, are `Finished`, and carry the registry's names; the
/// referenced set only grows, and only by registered referenceable types.
pub open spec fn st_grows(reg: Map<int, TypeInfoS>, pre: GenSt, post: GenSt) -> bool {
    &&& forall|k: int| #[trigger] pre.defs.contains_key(k) ==> post.defs.contains_key(k)
        && post.defs[k] == pre.defs[k]
    &&& forall|k: int| #[trigger] post.defs.contains_key(k) && !pre.defs.contains_key(k)
        ==> ref_ids(reg).contains(k) && (post.defs[k].state is Finished)
        && post.defs[k].names == reg[k].names
    &&& pre.refs.subset_of(post.refs)
    &&& forall|k: int| #[trigger] post.refs.contains(k) && !pre.refs.contains(k) ==> ref_ids(
        reg,
    ).contains(k)
}

/// Growing is transitive.
pub proof fn lemma_grows_trans(reg: Map<int, TypeInfoS>, a: GenSt, b: GenSt, c: GenSt)
    requires
        st_grows(reg, a, b),
        st_grows(reg, b, c),
    ensures
        st_grows(reg, a, c),
{
}

/// Growing preserves the run invariant.
pub proof fn lemma_grows_inv(reg: Map<int, TypeInfoS>, a: GenSt, b: GenSt)
    requires
        st_inv(reg, a),
        st_grows(reg, a, b),
    ensures
        st_inv(reg, b),
{
}

/// Resolving a sub-schema request only grows the traversal state.
pub proof fn lemma_sub_grows(
    reg: Map<int, TypeInfoS>,
    inl: Inlining,
    strat: NamingStrategy,
    st: GenSt,
    id: int,
    top: bool,
)
    requires
        m_wf(reg),
        reg.contains_key(id),
        st_inv(reg, st),
    ensures
        st_grows(reg, st, m_sub(reg, inl, strat, st, id, top).1),
        clamp(st, m_sub(reg, inl, strat, st, id, top).1) == m_sub(reg, inl, strat, st, id, top).1,
    decreases unprocessed(reg, st.defs) as int, sub_rank(reg, id), 0int,
{
    let inline = spec_inline(inl, top);
    let info = reg[id];
    let post = m_sub(reg, inl, strat, st, id, top).1;
    if st.defs.contains_key(id) {
        assert(st_grows(reg, st, post));
    } else {
        if info.referenceable {
            let e1 = DefEntryS { names: info.names, state: DefStateS::Processing };
            let st1 = GenSt { defs: st.defs.insert(id, e1), ..st };
            lemma_unprocessed_insert(reg, st.defs, id, e1);
            assert(ref_ids(reg).contains(id));
            assert(st_inv(reg, st1));
            lemma_build_grows(reg, inl, strat, st1, info.fragment);
            let (s, st2r) = m_build(reg, inl, strat, st1, info.fragment);
            lemma_clamp_grown(st1, st2r);
            let st2 = clamp(st1, st2r);
            assert(st2 == st2r);
            let e2 = DefEntryS { names: info.names, state: DefStateS::Finished(s) };
            let st3 = GenSt { defs: st2.defs.insert(id, e2), ..st2 };
            assert(st_grows(reg, st, st3));
            if inline && !st3.refs.contains(id) {
                assert(post == st3);
            } else {
                assert(post == GenSt { refs: st3.refs.insert(id), ..st3 });
                assert(st_grows(reg, st, post));
            }
        } else {
            lemma_build_grows(reg, inl, strat, st, info.fragment);
            let (s, st1r) = m_build(reg, inl, strat, st, info.fragment);
            assert(post == st1r);
        }
    }
    lemma_clamp_grown(st, post);
}

/// Building a fragment only grows the traversal state.
pub proof fn lemma_build_grows(
    reg: Map<int, TypeInfoS>,
    inl: Inlining,
    strat: NamingStrategy,
    st: GenSt,
    f: FragS,
)
    requires
        m_wf(reg),
        frag_wf(reg, f),
        st_inv(reg, st),
    ensures
        st_grows(reg, st, m_build(reg, inl, strat, st, f).1),
        clamp(st, m_build(reg, inl, strat, st, f).1) == m_build(reg, inl, strat, st, f).1,
    decreases unprocessed(reg, st.defs) as int, 1int, frag_size(f) as int,
{
    let post = m_build(reg, inl, strat, st, f).1;
    match f.ty {
        FragTypeS::Sub { target } => {
            lemma_sub_grows(reg, inl, strat, st, target, false);
            let (s, st1r) = m_sub(reg, inl, strat, st, target, false);
            lemma_clamp_grown(st, st1r);
            assert(post == st1r);
        },
        FragTypeS::Elements { elements } => {
            lemma_build_grows(reg, inl, strat, st, *elements);
            let (s, st1r) = m_build(reg, inl, strat, st, *elements);
            lemma_clamp_grown(st, st1r);
            assert(post == st1r);
        },
        FragTypeS::Values { values } => {
            lemma_build_grows(reg, inl, strat, st, *values);
            let (s, st1r) = m_build(reg, inl, strat, st, *values);
            lemma_clamp_grown(st, st1r);
            assert(post == st1r);
        },
        FragTypeS::Properties { properties, optional_properties, .. } => {
            lemma_build_list_grows(reg, inl, strat, st, properties);
            let (ps, st1r) = m_build_list(reg, inl, strat, st, properties);
            lemma_clamp_grown(st, st1r);
            let st1 = clamp(st, st1r);
            assert(st1 == st1r);
            lemma_unprocessed_mono(reg, st.defs, st1.defs);
            lemma_grows_inv(reg, st, st1);
            lemma_build_list_grows(reg, inl, strat, st1, optional_properties);
            let (os, st2r) = m_build_list(reg, inl, strat, st1, optional_properties);
            lemma_clamp_grown(st1, st2r);
            assert(post == st2r);
            lemma_grows_trans(reg, st, st1, post);
        },
        FragTypeS::Discriminator { mapping, .. } => {
            lemma_build_list_grows(reg, inl, strat, st, mapping);
            let (ms, st1r) = m_build_list(reg, inl, strat, st, mapping);
            lemma_clamp_grown(st, st1r);
            assert(post == st1r);
        },
        _ => {
            assert(post == st);
        },
    }
    lemma_clamp_grown(st, post);
}

/// Building a keyed fragment list only grows the traversal state.
pub proof fn lemma_build_list_grows(
    reg: Map<int, TypeInfoS>,
    inl: Inlining,
    strat: NamingStrategy,
    st: GenSt,
    s: Seq<(Seq<char>, FragS)>,
)
    requires
        m_wf(reg),
        frag_list_wf(reg, s),
        st_inv(reg, st),
    ensures
        st_grows(reg, st, m_build_list(reg, inl, strat, st, s).1),
        clamp(st, m_build_list(reg, inl, strat, st, s).1) == m_build_list(reg, inl, strat, st, s).1,
    decreases unprocessed(reg, st.defs) as int, 1int, frag_list_size(s) as int,
{
    let post = m_build_list(reg, inl, strat, st, s).1;
    if s.len() == 0 {
        assert(post == st);
    } else {
        assert(frag_wf(reg, s[0].1));
        lemma_build_grows(reg, inl, strat, st, s[0].1);
        let (s0, st1r) = m_build(reg, inl, strat, st, s[0].1);
        lemma_clamp_grown(st, st1r);
        let st1 = clamp(st, st1r);
        assert(st1 == st1r);
        lemma_unprocessed_mono(reg, st.defs, st1.defs);
        lemma_grows_inv(reg, st, st1);
        let rest = s.subrange(1, s.len() as int);
        assert(forall|i: int| 0 <= i < rest.len() ==> #[trigger] rest[i] == s[i + 1]);
        assert(frag_list_wf(reg, rest));
        lemma_build_list_grows(reg, inl, strat, st1, rest);
        let (rs, st2r) = m_build_list(reg, inl, strat, st1, rest);
        lemma_clamp_grown(st1, st2r);
        assert(post == st2r);
        lemma_grows_trans(reg, st, st1, post);
    }
    lemma_clamp_grown(st, post);
}


/// Every memo entry is `Finished`: no construction is underway. This holds
/// between runs and whenever no `sub_schema` call is active.
pub open spec fn all_finished(st: GenSt) -> bool {
    forall|k: int| #[trigger] st.defs.contains_key(k) ==> st.defs[k].state is Finished
}

/// The types whose definitions survive pruning: those with a memo entry that
/// were actually referenced at least once.
pub open spec fn surviving(st: GenSt) -> Set<int> {
    st.defs.dom().intersect(st.refs)
}

/// The schema held by a `Finished` entry.
pub open spec fn fin_schema(d: DefStateS) -> SchemaS {
    match d {
        DefStateS::Finished(s) => s,
        DefStateS::Processing => vstd::pervasive::arbitrary(),
    }
}


/// Memoization is idempotent: resolving a type whose schema is already built
/// never rebuilds it. The memo table is left exactly as it was, and the call
/// returns either the stored schema (to inline) or a ref to the type; at most
/// the referenced-set gains the type.
pub proof fn lemma_memoization_idempotent(
    reg: Map<int, TypeInfoS>,
    inl: Inlining,
    strat: NamingStrategy,
    st: GenSt,
    id: int,
    top: bool,
)
    requires
        m_wf(reg),
        reg.contains_key(id),
        st.defs.contains_key(id),
        st.defs[id].state is Finished,
    ensures
        ({
            let (s, st2) = m_sub(reg, inl, strat, st, id, top);
            &&& st2.defs == st.defs
            &&& s == fin_schema(st.defs[id].state) || s == ref_schema_s(strat, reg[id].names)
            &&& st2.refs == st.refs || st2.refs == st.refs.insert(id)
        }),
{
}

/// Cycle safety: a request for a type whose construction is already underway
/// returns a ref at once, whatever the inlining policy - recursive types are
/// never inlined - and marks the type referenced. The memo table is untouched.
pub proof fn lemma_cycle_ref(
    reg: Map<int, TypeInfoS>,
    inl: Inlining,
    strat: NamingStrategy,
    st: GenSt,
    id: int,
    top: bool,
)
    requires
        m_wf(reg),
        reg.contains_key(id),
        st.defs.contains_key(id),
        st.defs[id].state is Processing,
    ensures
        m_sub(reg, inl, strat, st, id, top) == (
            ref_schema_s(strat, reg[id].names),
            GenSt { refs: st.refs.insert(id), ..st },
        ),
{
}

/// Under the `Never` policy even the root is referenced: the run's top-level
/// schema is a bare ref to the root type, the root is marked referenced, it
/// has a memo entry, and so its definition survives pruning.
pub proof fn lemma_never_policy_root_ref(
    reg: Map<int, TypeInfoS>,
    strat: NamingStrategy,
    st: GenSt,
    root: int,
)
    requires
        m_wf(reg),
        reg.contains_key(root),
        reg[root].referenceable,
        !st.defs.contains_key(root),
        st_inv(reg, st),
    ensures
        ({
            let (s, st2) = m_sub(reg, Inlining::Never, strat, st, root, true);
            &&& s == ref_schema_s(strat, reg[root].names)
            &&& st2.refs.contains(root)
            &&& st2.defs.contains_key(root)
            &&& surviving(st2).contains(root)
        }),
{
    let e1 = DefEntryS { names: reg[root].names, state: DefStateS::Processing };
    let st1 = GenSt { defs: st.defs.insert(root, e1), ..st };
    lemma_unprocessed_insert(reg, st.defs, root, e1);
    assert(ref_ids(reg).contains(root));
    assert(st_inv(reg, st1));
    lemma_build_grows(reg, Inlining::Never, strat, st1, reg[root].fragment);
}

/// Pruning: a type for which no ref was ever emitted does not survive, so by
/// the soundness of the final document no definitions-table entry stands for
/// it - even though a finished memo entry may have existed mid-run.
pub proof fn lemma_unreferenced_pruned(st: GenSt, t: int)
    requires
        !st.refs.contains(t),
    ensures
        !surviving(st).contains(t),
{
}


/// Under the `Always` policy, a type whose schema is built and which was
/// never referenced is inlined, not referenced: only cycles (the
/// `Processing` case) and types already referenced can force a ref, so a
/// non-cyclic type inlined at every occurrence never gains a definition in
/// the final document.
pub proof fn lemma_always_inlines_finished(
    reg: Map<int, TypeInfoS>,
    strat: NamingStrategy,
    st: GenSt,
    id: int,
    top: bool,
)
    requires
        m_wf(reg),
        reg.contains_key(id),
        st.defs.contains_key(id),
        st.defs[id].state is Finished,
        !st.refs.contains(id),
    ensures
        m_sub(reg, Inlining::Always, strat, st, id, top) == (fin_schema(st.defs[id].state), st),
{
}


} // verus!
