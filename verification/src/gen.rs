//! Schema generator and its settings.

use vstd::prelude::*;

use crate::model::{
    all_finished, clamp, fin_schema, lemma_build_grows, lemma_build_list_grows, lemma_grows_inv,
    lemma_grows_trans, lemma_sub_grows, lemma_unprocessed_insert, lemma_unprocessed_mono, m_build,
    m_build_list, m_sub, m_wf, ref_ids, ref_schema_s, st_grows, st_inv, sub_rank, surviving,
    unprocessed, DefEntryS, DefStateS, GenSt, Inlining,
};
use crate::names::{names_view, Names};
use crate::naming::{spec_render, NamingStrategy};
use vstd::string::StringExecFns;
use crate::registry::{
    frag_list_size, frag_list_wf, frag_map_view, frag_size, frag_wf, lemma_frag_list_size_le,
    lemma_reg_map_finite, reg_wf, FragS, Fragment, FragmentType, Registry, TypeId, TypeInfoS,
};
use crate::schema::{
    labels_view, schema_map_view, schema_view, Metadata, RootSchema, Schema, SchemaS, SchemaType,
    SchemaTypeS,
};

verus! {

/// The lifecycle state of one memo-table entry. An entry is created as
/// `Processing` when schema construction for its type starts, and moves to
/// `Finished` exactly once, when construction completes; it never moves
/// backward.
#[derive(Debug)]
pub enum DefinitionState {
    /// Construction has started but not completed. Seeing this state for a
    /// type signals recursion.
    Processing,
    /// Construction completed; the contained schema is the canonical one.
    Finished(Schema),
}

pub open spec fn def_state_view(d: DefinitionState) -> DefStateS {
    match d {
        DefinitionState::Processing => DefStateS::Processing,
        DefinitionState::Finished(s) => DefStateS::Finished(schema_view(s)),
    }
}

impl View for DefinitionState {
    type V = DefStateS;

    open spec fn view(&self) -> DefStateS {
        def_state_view(*self)
    }
}

/// One memo-table entry: a type identity, its names, and its lifecycle state.
#[derive(Debug)]
pub struct DefEntry {
    pub id: TypeId,
    pub names: Names,
    pub state: DefinitionState,
}

pub open spec fn def_entry_view(e: DefEntry) -> DefEntryS {
    DefEntryS { names: names_view(e.names), state: def_state_view(e.state) }
}

impl View for DefEntry {
    type V = DefEntryS;

    open spec fn view(&self) -> DefEntryS {
        def_entry_view(*self)
    }
}

/// The memo table a definition list denotes.
pub open spec fn defs_map(entries: Seq<DefEntry>) -> Map<int, DefEntryS>
    decreases entries,
{
    if entries.len() == 0 {
        Map::empty()
    } else {
        defs_map(entries.drop_last()).insert(
            entries.last().id.0 as int,
            def_entry_view(entries.last()),
        )
    }
}

/// No two entries of the definition list share an id.
pub open spec fn defs_unique(entries: Seq<DefEntry>) -> bool {
    forall|i: int, j: int|
        0 <= i < j < entries.len() ==> (#[trigger] entries[i]).id.0 != (#[trigger] entries[j]).id.0
}

proof fn lemma_defs_map_index(entries: Seq<DefEntry>, i: int)
    requires
        defs_unique(entries),
        0 <= i < entries.len(),
    ensures
        defs_map(entries).contains_key(entries[i].id.0 as int),
        defs_map(entries)[entries[i].id.0 as int] == def_entry_view(entries[i]),
    decreases entries.len(),
{
    if i == entries.len() - 1 {
    } else {
        assert(entries.drop_last()[i] == entries[i]);
        lemma_defs_map_index(entries.drop_last(), i);
        assert(entries.last() == entries[entries.len() - 1]);
        assert(entries[entries.len() - 1].id.0 != entries[i].id.0);
    }
}

proof fn lemma_defs_map_absent(entries: Seq<DefEntry>, id: TypeId)
    requires
        forall|j: int| 0 <= j < entries.len() ==> (#[trigger] entries[j]).id.0 != id.0,
    ensures
        !defs_map(entries).contains_key(id.0 as int),
    decreases entries.len(),
{
    if entries.len() > 0 {
        assert(forall|j: int|
            0 <= j < entries.drop_last().len() ==> (#[trigger] entries.drop_last()[j])
                == entries[j]);
        lemma_defs_map_absent(entries.drop_last(), id);
        assert(entries.last() == entries[entries.len() - 1]);
    }
}

proof fn lemma_defs_map_contains(entries: Seq<DefEntry>, k: int)
    requires
        defs_map(entries).contains_key(k),
    ensures
        exists|i: int| 0 <= i < entries.len() && (#[trigger] entries[i]).id.0 as int == k,
    decreases entries.len(),
{
    if entries.len() > 0 {
        if entries.last().id.0 as int == k {
            assert(entries[entries.len() - 1].id.0 as int == k);
        } else {
            lemma_defs_map_contains(entries.drop_last(), k);
            let i = choose|i: int|
                0 <= i < entries.drop_last().len() && (#[trigger] entries.drop_last()[i]).id.0
                    as int == k;
            assert(entries[i].id.0 as int == k);
        }
    }
}

proof fn lemma_defs_map_update(entries: Seq<DefEntry>, i: int, e: DefEntry)
    requires
        defs_unique(entries),
        0 <= i < entries.len(),
        e.id == entries[i].id,
    ensures
        defs_map(entries.update(i, e)) == defs_map(entries).insert(e.id.0 as int, def_entry_view(e)),
        defs_unique(entries.update(i, e)),
    decreases entries.len(),
{
    let upd = entries.update(i, e);
    assert(forall|j: int| 0 <= j < entries.len() && j != i ==> #[trigger] upd[j] == entries[j]);
    if i == entries.len() - 1 {
        assert(upd.drop_last() =~= entries.drop_last());
        assert(upd.last() == e);
        assert(defs_map(upd) == defs_map(entries.drop_last()).insert(
            e.id.0 as int,
            def_entry_view(e),
        ));
        assert(defs_map(entries).insert(e.id.0 as int, def_entry_view(e)) =~= defs_map(
            entries.drop_last(),
        ).insert(e.id.0 as int, def_entry_view(e)));
    } else {
        assert(upd.drop_last() =~= entries.drop_last().update(i, e));
        assert(entries.drop_last()[i] == entries[i]);
        lemma_defs_map_update(entries.drop_last(), i, e);
        assert(upd.last() == entries.last());
        let klast = entries.last().id.0 as int;
        let ke = e.id.0 as int;
        assert(entries[entries.len() - 1].id.0 != entries[i].id.0);
        assert(klast != ke);
        assert(defs_map(upd) == defs_map(entries.drop_last()).insert(
            ke,
            def_entry_view(e),
        ).insert(klast, def_entry_view(entries.last())));
        assert(defs_map(entries.drop_last()).insert(ke, def_entry_view(e)).insert(
            klast,
            def_entry_view(entries.last()),
        ) =~= defs_map(entries.drop_last()).insert(klast, def_entry_view(entries.last())).insert(
            ke,
            def_entry_view(e),
        ));
    }
}

/// The set of ids a reference list denotes.
pub open spec fn refs_set(rs: Seq<TypeId>) -> Set<int>
    decreases rs,
{
    if rs.len() == 0 {
        Set::empty()
    } else {
        refs_set(rs.drop_last()).insert(rs.last().0 as int)
    }
}

proof fn lemma_refs_set_contains(rs: Seq<TypeId>, id: TypeId)
    ensures
        refs_set(rs).contains(id.0 as int) <==> (exists|i: int|
            0 <= i < rs.len() && (#[trigger] rs[i]).0 == id.0),
    decreases rs.len(),
{
    if rs.len() > 0 {
        lemma_refs_set_contains(rs.drop_last(), id);
        assert(forall|i: int|
            0 <= i < rs.drop_last().len() ==> #[trigger] rs.drop_last()[i] == rs[i]);
        assert(rs.last() == rs[rs.len() - 1]);
        if exists|i: int| 0 <= i < rs.len() && (#[trigger] rs[i]).0 == id.0 {
            let i = choose|i: int| 0 <= i < rs.len() && (#[trigger] rs[i]).0 == id.0;
            if i == rs.len() - 1 {
                assert(rs.last().0 == id.0);
                assert(refs_set(rs).contains(id.0 as int));
            } else {
                assert(rs.drop_last()[i].0 == id.0);
                assert(refs_set(rs.drop_last()).contains(id.0 as int));
                assert(refs_set(rs).contains(id.0 as int));
            }
        }
        if refs_set(rs).contains(id.0 as int) {
            if rs.last().0 == id.0 {
                assert(rs[rs.len() - 1].0 == id.0);
            } else {
                assert(refs_set(rs.drop_last()).contains(id.0 as int));
                let i = choose|i: int|
                    0 <= i < rs.drop_last().len() && (#[trigger] rs.drop_last()[i]).0 == id.0;
                assert(rs[i].0 == id.0);
            }
        }
    }
}

/// Schema generation errors.
#[derive(Debug, Clone, PartialEq, Eq, Hash)]
pub enum GenError {
    /// A name collision was detected: two distinct types have the same
    /// definition/ref identifier. The fields carry the shared identifier and
    /// the two types' long names.
    NameCollision { type1: String, type2: String, id: String },
}

/// What [`GenError::message`] says of an error.
pub open spec fn spec_message(e: GenError) -> Seq<char> {
    "definition/ref id \""@ + e->NameCollision_id@ + "\" is shared by types `"@
        + e->NameCollision_type1@ + "` and `"@ + e->NameCollision_type2@ + "`"@
}

impl GenError {
    /// A human-readable description of the error.
    pub fn message(&self) -> (r: String)
        ensures
            r@ == spec_message(*self),
    {
        match self {
            GenError::NameCollision { type1, type2, id } => {
                let mut out = "definition/ref id \"".to_owned();
                out.append(id.as_str());
                out.append("\" is shared by types `");
                out.append(type1.as_str());
                out.append("` and `");
                out.append(type2.as_str());
                out.append("`");
                out
            },
        }
    }
}

/// A configurable schema generator. An instance is meant to produce one
/// root schema document and be consumed in the process.
///
/// For sane defaults, use [`Generator::default()`]. Otherwise, configure
/// generation using [`Generator::builder()`].
#[derive(Debug)]
pub struct Generator {
    /// The naming strategy for definition ids and refs.
    pub naming_strategy: NamingStrategy,
    /// Types for which at least one ref was emitted during generation. By
    /// keeping track of these, unused definitions are cleaned up at the end.
    pub refs: Vec<TypeId>,
    /// The memo table: one entry per referenceable type encountered so far.
    pub definitions: Vec<DefEntry>,
    /// The inlining policy.
    pub inlining: Inlining,
}

impl Generator {
    /// The traversal state this generator holds, as the model sees it.
    pub open spec fn st(&self) -> GenSt {
        GenSt { defs: defs_map(self.definitions@), refs: refs_set(self.refs@) }
    }

    /// The generator's internal invariant: memo entries have distinct ids.
    pub open spec fn wf(&self) -> bool {
        defs_unique(self.definitions@)
    }

    /// Provide a `Generator` builder, allowing for some customization.
    pub fn builder() -> (r: GeneratorBuilder)
        ensures
            r.inlining == Inlining::Normal,
            r.naming_strategy == NamingStrategy::Long,
    {
        GeneratorBuilder { inlining: Inlining::Normal, naming_strategy: NamingStrategy::Long }
    }

    #[verifier::loop_isolation(false)]
    fn refs_contains(&self, id: TypeId) -> (r: bool)
        ensures
            r == self.st().refs.contains(id.0 as int),
    {
        let mut i: usize = 0;
        let mut found = false;
        while i < self.refs.len()
            invariant
                i <= self.refs.len(),
                found == (exists|j: int| 0 <= j < i as int && (#[trigger] self.refs@[j]).0 == id.0),
            decreases self.refs.len() - i,
        {
            if self.refs[i].0 == id.0 {
                found = true;
            }
            i = i + 1;
        }
        proof {
            lemma_refs_set_contains(self.refs@, id);
        }
        found
    }

    #[verifier::loop_isolation(false)]
    fn def_index(&self, id: TypeId) -> (r: Option<usize>)
        requires
            self.wf(),
        ensures
            match r {
                Some(i) => i < self.definitions@.len() && self.definitions@[i as int].id.0 == id.0
                    && self.st().defs.contains_key(id.0 as int) && self.st().defs[id.0 as int]
                    == def_entry_view(self.definitions@[i as int]),
                None => !self.st().defs.contains_key(id.0 as int),
            },
    {
        let mut i: usize = 0;
        while i < self.definitions.len()
            invariant
                i <= self.definitions.len(),
                forall|j: int|
                    0 <= j < i as int ==> (#[trigger] self.definitions@[j]).id.0 != id.0,
            decreases self.definitions.len() - i,
        {
            if self.definitions[i].id.0 == id.0 {
                proof {
                    lemma_defs_map_index(self.definitions@, i as int);
                }
                return Some(i);
            }
            i = i + 1;
        }
        proof {
            lemma_defs_map_absent(self.definitions@, id);
        }
        None
    }
}

impl Default for Generator {
    /// A generator with the default settings: `Normal` inlining and `long`
    /// naming, and empty run state.
    fn default() -> (r: Self)
        ensures
            r.inlining == Inlining::Normal,
            r.naming_strategy == NamingStrategy::Long,
            r.st() == (GenSt { defs: Map::<int, DefEntryS>::empty(), refs: Set::<int>::empty() }),
            r.wf(),
    {
        let r = Generator {
            naming_strategy: NamingStrategy::Long,
            refs: Vec::new(),
            definitions: Vec::new(),
            inlining: Inlining::Normal,
        };
        proof {
            assert(r.st() =~= GenSt {
                defs: Map::<int, DefEntryS>::empty(),
                refs: Set::<int>::empty(),
            });
        }
        r
    }
}

/// Builder for [`Generator`]. Fixes the policy choices before the run; the
/// configuration is not mutated after construction.
#[derive(Debug)]
pub struct GeneratorBuilder {
    /// The inlining policy to build with.
    pub inlining: Inlining,
    /// The naming strategy to build with.
    pub naming_strategy: NamingStrategy,
}

impl GeneratorBuilder {
    /// Always try to inline complex types rather than provide them using
    /// definitions/refs. The exception is recursive types - these cannot be
    /// expressed without a ref.
    pub fn prefer_inline(self) -> (r: Self)
        ensures
            r.inlining == Inlining::Always,
            r.naming_strategy == self.naming_strategy,
    {
        GeneratorBuilder { inlining: Inlining::Always, ..self }
    }

    /// Where possible, provide types by ref even for the top-level type.
    pub fn top_level_ref(self) -> (r: Self)
        ensures
            r.inlining == Inlining::Never,
            r.naming_strategy == self.naming_strategy,
    {
        GeneratorBuilder { inlining: Inlining::Never, ..self }
    }

    /// Use the `short` naming strategy: the stringified bare name of the type
    /// with type parameters and const parameters in angle brackets. Please
    /// note that this representation is prone to name collisions if you use
    /// identically named types in different modules or crates.
    pub fn naming_short(self) -> (r: Self)
        ensures
            r.naming_strategy == NamingStrategy::Short,
            r.inlining == self.inlining,
    {
        GeneratorBuilder { naming_strategy: NamingStrategy::short(), ..self }
    }

    /// Use the `long` naming strategy. This is the default. It renders the
    /// stringified full path of the type with type parameters and const
    /// parameters in angle brackets, which prevents name collisions under
    /// normal circumstances.
    pub fn naming_long(self) -> (r: Self)
        ensures
            r.naming_strategy == NamingStrategy::Long,
            r.inlining == self.inlining,
    {
        GeneratorBuilder { naming_strategy: NamingStrategy::long(), ..self }
    }

    /// Finalize the configuration and get a [`Generator`].
    pub fn build(self) -> (r: Generator)
        ensures
            r.inlining == self.inlining,
            r.naming_strategy == self.naming_strategy,
            r.st() == (GenSt { defs: Map::<int, DefEntryS>::empty(), refs: Set::<int>::empty() }),
            r.wf(),
    {
        let r = Generator {
            naming_strategy: self.naming_strategy,
            refs: Vec::new(),
            definitions: Vec::new(),
            inlining: self.inlining,
        };
        proof {
            assert(r.st() =~= GenSt {
                defs: Map::<int, DefEntryS>::empty(),
                refs: Set::<int>::empty(),
            });
        }
        r
    }
}

fn clone_labels(vs: &Vec<String>) -> (r: Vec<String>)
    ensures
        labels_view(r@) == labels_view(vs@),
{
    let mut out: Vec<String> = Vec::new();
    let mut i: usize = 0;
    while i < vs.len()
        invariant
            i <= vs.len(),
            out@.len() == i as int,
            forall|j: int| 0 <= j < i as int ==> #[trigger] out@[j]@ == vs@[j]@,
        decreases vs.len() - i,
    {
        out.push(vs[i].clone());
        i = i + 1;
    }
    proof {
        assert(labels_view(out@) =~= labels_view(vs@));
    }
    out
}

impl Generator {
    /// Generate a [`Schema`] for the given registered type, adding
    /// definitions to the generator as appropriate.
    ///
    /// This is meant to be called from within fragment construction for
    /// nested types during an active generation run; the run itself starts
    /// with [`Generator::into_root_schema`].
    pub fn sub_schema(&mut self, reg: &Registry, id: TypeId) -> (s: Schema)
        requires
            reg_wf(reg@),
            reg@.contains_key(id.0 as int),
            old(self).wf(),
            st_inv(reg@, old(self).st()),
        ensures
            final(self).wf(),
            st_inv(reg@, final(self).st()),
            final(self).naming_strategy == old(self).naming_strategy,
            final(self).inlining == old(self).inlining,
            ({
                let (ms, mst) = m_sub(
                    reg@,
                    old(self).inlining,
                    old(self).naming_strategy,
                    old(self).st(),
                    id.0 as int,
                    false,
                );
                s@ == ms && final(self).st() == mst
            }),
    {
        proof {
            lemma_reg_map_finite(reg.entries@);
        }
        self.sub_schema_impl(reg, id, false)
    }

    #[verifier::loop_isolation(false)]
    fn sub_schema_impl(&mut self, reg: &Registry, id: TypeId, top_level: bool) -> (s: Schema)
        requires
            m_wf(reg@),
            reg@.contains_key(id.0 as int),
            old(self).wf(),
            st_inv(reg@, old(self).st()),
        ensures
            final(self).wf(),
            st_inv(reg@, final(self).st()),
            final(self).naming_strategy == old(self).naming_strategy,
            final(self).inlining == old(self).inlining,
            ({
                let (ms, mst) = m_sub(
                    reg@,
                    old(self).inlining,
                    old(self).naming_strategy,
                    old(self).st(),
                    id.0 as int,
                    top_level,
                );
                s@ == ms && final(self).st() == mst
            }),
        decreases
            unprocessed(reg@, old(self).st().defs) as int,
            sub_rank(reg@, id.0 as int),
            0int,
    {
        let ghost st0 = self.st();
        let ghost inl = self.inlining;
        let ghost strat = self.naming_strategy;
        let ghost mm = m_sub(reg@, inl, strat, st0, id.0 as int, top_level);
        let inline = match self.inlining {
            Inlining::Always => true,
            Inlining::Normal => top_level,
            Inlining::Never => false,
        };
        let info = match reg.get(id) {
            Some(info) => info,
            None => vstd::pervasive::unreached(),
        };
        proof {
            assert(info@ == reg@[id.0 as int]);
        }
        let idx = self.def_index(id);
        match idx {
            Some(i) => {
                let entry = &self.definitions[i];
                let take_stored: bool = match &entry.state {
                    DefinitionState::Finished(_) => {
                        !info.referenceable || (inline && !self.refs_contains(id))
                    },
                    DefinitionState::Processing => false,
                };
                if take_stored {
                    let stored = match &self.definitions[i].state {
                        DefinitionState::Finished(s) => s,
                        DefinitionState::Processing => vstd::pervasive::unreached(),
                    };
                    let s = stored.clone();
                    proof {
                        assert(s@ == mm.0);
                        assert(self.st() =~= mm.1);
                    }
                    s
                } else {
                    let target = self.naming_strategy.fun(&info.names);
                    let s = Schema {
                        metadata: Metadata::new(),
                        ty: SchemaType::Ref { target },
                        nullable: false,
                    };
                    let ghost pre_refs = self.refs@;
                    self.refs.push(id);
                    proof {
                        assert(self.refs@.drop_last() =~= pre_refs);
                        assert(self.refs@.last() == id);
                        assert(self.st().refs =~= st0.refs.insert(id.0 as int));
                        assert(s@ =~= ref_schema_s(strat, reg@[id.0 as int].names));
                        assert(mm.0 == ref_schema_s(strat, reg@[id.0 as int].names));
                        assert(self.st() =~= mm.1);
                    }
                    s
                }
            },
            None => {
                if info.referenceable {
                    let names = info.names.clone();
                    let ghost pre_push = self.definitions@;
                    self.definitions.push(
                        DefEntry { id, names, state: DefinitionState::Processing },
                    );
                    proof {
                        // the pushed id is fresh, so uniqueness is preserved
                        assert forall|a: int, b: int|
                            0 <= a < b < self.definitions@.len() implies (
                        #[trigger] self.definitions@[a]).id.0 != (
                        #[trigger] self.definitions@[b]).id.0 by {
                            if b == self.definitions@.len() - 1 {
                                if self.definitions@[a].id.0 == id.0 {
                                    lemma_defs_map_index(pre_push, a);
                                }
                            }
                        }
                        assert(self.definitions@.drop_last() =~= pre_push);
                        let e1 = DefEntryS {
                            names: reg@[id.0 as int].names,
                            state: DefStateS::Processing,
                        };
                        assert(def_entry_view(self.definitions@.last()) =~= e1);
                        assert(self.st().defs =~= st0.defs.insert(id.0 as int, e1));
                        assert(self.st().refs == st0.refs);
                        assert(ref_ids(reg@).contains(id.0 as int));
                        lemma_unprocessed_insert(reg@, st0.defs, id.0 as int, e1);
                        assert(st_inv(reg@, self.st()));
                    }
                    let ghost st1 = self.st();
                    let built = self.build_fragment(reg, &info.fragment);
                    let ghost stb = self.st();
                    proof {
                        lemma_build_grows(reg@, inl, strat, st1, reg@[id.0 as int].fragment);
                        assert(clamp(st1, stb) == stb);
                        // the entry inserted before building is still Processing
                        assert(stb.defs.contains_key(id.0 as int));
                        assert(stb.defs[id.0 as int].state is Processing);
                    }
                    let j = match self.def_index(id) {
                        Some(j) => j,
                        None => vstd::pervasive::unreached(),
                    };
                    let stored_names = self.definitions[j].names.clone();
                    let finished = DefEntry {
                        id,
                        names: stored_names,
                        state: DefinitionState::Finished(built.clone()),
                    };
                    let ghost pre_fin = self.definitions@;
                    let _removed = self.definitions.remove(j);
                    self.definitions.insert(j, finished);
                    proof {
                        assert(self.definitions@ =~= pre_fin.update(j as int, finished));
                        lemma_defs_map_update(pre_fin, j as int, finished);
                        let e2 = DefEntryS {
                            names: reg@[id.0 as int].names,
                            state: DefStateS::Finished(built@),
                        };
                        assert(def_entry_view(finished) =~= e2);
                        assert(self.st().defs =~= stb.defs.insert(id.0 as int, e2));
                        assert(self.st().refs == stb.refs);
                        assert(st_inv(reg@, self.st()));
                    }
                    let ghost st3 = self.st();
                    if inline && !self.refs_contains(id) {
                        proof {
                            assert(built@ == mm.0);
                            assert(self.st() =~= mm.1);
                        }
                        built
                    } else {
                        let target = self.naming_strategy.fun(&info.names);
                        let s = Schema {
                            metadata: Metadata::new(),
                            ty: SchemaType::Ref { target },
                            nullable: false,
                        };
                        let ghost pre_refs = self.refs@;
                        self.refs.push(id);
                        proof {
                            assert(self.refs@.drop_last() =~= pre_refs);
                            assert(self.refs@.last() == id);
                            assert(self.st().refs =~= st3.refs.insert(id.0 as int));
                            assert(self.st().defs == st3.defs);
                            assert(s@ =~= ref_schema_s(strat, reg@[id.0 as int].names));
                            assert(self.st() =~= mm.1);
                        }
                        s
                    }
                } else {
                    let s = self.build_fragment(reg, &info.fragment);
                    proof {
                        assert(s@ == mm.0);
                        assert(self.st() == mm.1);
                    }
                    s
                }
            },
        }
    }

    #[verifier::loop_isolation(false)]
    fn build_fragment(&mut self, reg: &Registry, frag: &Fragment) -> (s: Schema)
        requires
            m_wf(reg@),
            frag_wf(reg@, frag@),
            old(self).wf(),
            st_inv(reg@, old(self).st()),
        ensures
            final(self).wf(),
            st_inv(reg@, final(self).st()),
            final(self).naming_strategy == old(self).naming_strategy,
            final(self).inlining == old(self).inlining,
            ({
                let (ms, mst) = m_build(
                    reg@,
                    old(self).inlining,
                    old(self).naming_strategy,
                    old(self).st(),
                    frag@,
                );
                s@ == ms && final(self).st() == mst
            }),
        decreases
            unprocessed(reg@, old(self).st().defs) as int,
            1int,
            frag_size(frag@) as int,
    {
        let ghost st0 = self.st();
        let ghost inl = self.inlining;
        let ghost strat = self.naming_strategy;
        let ghost mm = m_build(reg@, inl, strat, st0, frag@);
        match &frag.ty {
            FragmentType::Sub { target } => {
                let mut s = self.sub_schema_impl(reg, *target, false);
                proof {
                    lemma_sub_grows(reg@, inl, strat, st0, target.0 as int, false);
                }
                s.nullable = s.nullable || frag.nullable;
                s.metadata.extend(frag.metadata.clone());
                proof {
                    let (ms, mstr) = m_sub(reg@, inl, strat, st0, target.0 as int, false);
                    assert(clamp(st0, mstr) == mstr);
                    assert(s@ =~= mm.0);
                    assert(self.st() == mm.1);
                }
                s
            },
            FragmentType::Empty => {
                let s = Schema {
                    metadata: frag.metadata.clone(),
                    ty: SchemaType::Empty,
                    nullable: frag.nullable,
                };
                proof {
                    assert(s@ =~= mm.0);
                }
                s
            },
            FragmentType::Type { primitive } => {
                let s = Schema {
                    metadata: frag.metadata.clone(),
                    ty: SchemaType::Type { primitive: *primitive },
                    nullable: frag.nullable,
                };
                proof {
                    assert(s@ =~= mm.0);
                }
                s
            },
            FragmentType::Enum { labels } => {
                let s = Schema {
                    metadata: frag.metadata.clone(),
                    ty: SchemaType::Enum { labels: clone_labels(labels) },
                    nullable: frag.nullable,
                };
                proof {
                    assert(s@ =~= mm.0);
                }
                s
            },
            FragmentType::Elements { elements } => {
                let inner = self.build_fragment(reg, &**elements);
                let s = Schema {
                    metadata: frag.metadata.clone(),
                    ty: SchemaType::Elements { elements: Box::new(inner) },
                    nullable: frag.nullable,
                };
                proof {
                    lemma_build_grows(reg@, inl, strat, st0, *frag@.ty->Elements_elements);
                    assert(s@ =~= mm.0);
                    assert(self.st() == mm.1);
                }
                s
            },
            FragmentType::Values { values } => {
                let inner = self.build_fragment(reg, &**values);
                let s = Schema {
                    metadata: frag.metadata.clone(),
                    ty: SchemaType::Values { values: Box::new(inner) },
                    nullable: frag.nullable,
                };
                proof {
                    lemma_build_grows(reg@, inl, strat, st0, *frag@.ty->Values_values);
                    assert(s@ =~= mm.0);
                    assert(self.st() == mm.1);
                }
                s
            },
            FragmentType::Properties { properties, optional_properties, additional_properties } => {
                let props = self.build_map(reg, properties);
                let ghost stp = self.st();
                proof {
                    lemma_build_list_grows(reg@, inl, strat, st0, frag_map_view(properties@));
                    lemma_grows_inv(reg@, st0, stp);
                    lemma_unprocessed_mono(reg@, st0.defs, stp.defs);
                }
                let opts = self.build_map(reg, optional_properties);
                let s = Schema {
                    metadata: frag.metadata.clone(),
                    ty: SchemaType::Properties {
                        properties: props,
                        optional_properties: opts,
                        additional_properties: *additional_properties,
                    },
                    nullable: frag.nullable,
                };
                proof {
                    lemma_build_list_grows(reg@, inl, strat, stp, frag_map_view(
                        optional_properties@,
                    ));
                    assert(s@ =~= mm.0);
                    assert(self.st() == mm.1);
                }
                s
            },
            FragmentType::Discriminator { discriminator, mapping } => {
                let m = self.build_map(reg, mapping);
                let s = Schema {
                    metadata: frag.metadata.clone(),
                    ty: SchemaType::Discriminator {
                        discriminator: discriminator.clone(),
                        mapping: m,
                    },
                    nullable: frag.nullable,
                };
                proof {
                    lemma_build_list_grows(reg@, inl, strat, st0, frag_map_view(mapping@));
                    assert(s@ =~= mm.0);
                    assert(self.st() == mm.1);
                }
                s
            },
        }
    }

    #[verifier::loop_isolation(false)]
    fn build_map(&mut self, reg: &Registry, entries: &Vec<(String, Fragment)>) -> (r: Vec<
        (String, Schema),
    >)
        requires
            m_wf(reg@),
            frag_list_wf(reg@, frag_map_view(entries@)),
            old(self).wf(),
            st_inv(reg@, old(self).st()),
        ensures
            final(self).wf(),
            st_inv(reg@, final(self).st()),
            final(self).naming_strategy == old(self).naming_strategy,
            final(self).inlining == old(self).inlining,
            ({
                let (ms, mst) = m_build_list(
                    reg@,
                    old(self).inlining,
                    old(self).naming_strategy,
                    old(self).st(),
                    frag_map_view(entries@),
                );
                schema_map_view(r@) == ms && final(self).st() == mst
            }),
        decreases
            unprocessed(reg@, old(self).st().defs) as int,
            1int,
            frag_list_size(frag_map_view(entries@)) as int,
    {
        let ghost st0 = self.st();
        let ghost inl = self.inlining;
        let ghost strat = self.naming_strategy;
        let ghost full = frag_map_view(entries@);
        let ghost mm = m_build_list(reg@, inl, strat, st0, full);
        let mut out: Vec<(String, Schema)> = Vec::new();
        let mut i: usize = 0;
        proof {
            assert(full.subrange(0, full.len() as int) =~= full);
            assert(schema_map_view(out@) =~= Seq::<(Seq<char>, SchemaS)>::empty());
        }
        while i < entries.len()
            invariant
                i <= entries.len(),
                self.wf(),
                st_inv(reg@, self.st()),
                self.naming_strategy == strat,
                self.inlining == inl,
                st_grows(reg@, st0, self.st()),
                out@.len() == i as int,
                ({
                    let (msr, mstr) = m_build_list(
                        reg@,
                        inl,
                        strat,
                        self.st(),
                        full.subrange(i as int, full.len() as int),
                    );
                    mm.0 == schema_map_view(out@) + msr && mm.1 == mstr
                }),
            decreases entries.len() - i,
        {
            let ghost stp = self.st();
            let ghost tail = full.subrange(i as int, full.len() as int);
            proof {
                assert(forall|k: int| 0 <= k < tail.len() ==> #[trigger] tail[k] == full[i as int + k]);
                assert(frag_wf(reg@, full[i as int].1));
                lemma_unprocessed_mono(reg@, st0.defs, stp.defs);
                lemma_frag_list_size_le(full, i as int);
            }
            let p = &entries[i];
            let child = self.build_fragment(reg, &p.1);
            let key = p.0.clone();
            out.push((key, child));
            proof {
                let (cm, cst) = m_build(reg@, inl, strat, stp, full[i as int].1);
                lemma_build_grows(reg@, inl, strat, stp, full[i as int].1);
                assert(clamp(stp, cst) == cst);
                let tail2 = full.subrange(i as int + 1, full.len() as int);
                assert(tail.subrange(1, tail.len() as int) =~= tail2);
                assert(tail[0] == full[i as int]);
                // unfold one step of the list model at the pre-iteration state
                let (msr, mstr) = m_build_list(reg@, inl, strat, stp, tail);
                let (msr2, mstr2) = m_build_list(reg@, inl, strat, cst, tail2);
                assert(msr == seq![(tail[0].0, cm)] + msr2 && mstr == mstr2);
                assert(schema_map_view(out@) =~= schema_map_view(out@.drop_last()) + seq![
                    (full[i as int].0, cm),
                ]);
                assert(schema_map_view(out@.drop_last()) + (seq![(full[i as int].0, cm)] + msr2)
                    =~= (schema_map_view(out@.drop_last()) + seq![(full[i as int].0, cm)]) + msr2);
                lemma_grows_trans(reg@, st0, stp, cst);
            }
            i = i + 1;
        }
        proof {
            assert(full.subrange(i as int, full.len() as int) =~= Seq::<(Seq<char>, FragS)>::empty());
            assert(mm.0 =~= schema_map_view(out@));
        }
        out
    }
}

impl Generator {
    /// Remove every memo entry whose type was never actually referenced.
    /// This happens when a type was finished but subsequently always inlined.
    #[verifier::loop_isolation(false)]
    #[verifier::rlimit(60)]
    fn clean_up_defs(&mut self)
        requires
            old(self).wf(),
        ensures
            final(self).wf(),
            final(self).refs == old(self).refs,
            final(self).naming_strategy == old(self).naming_strategy,
            final(self).inlining == old(self).inlining,
            ({
                let nd = final(self).definitions@;
                let od = old(self).definitions@;
                let rs = refs_set(old(self).refs@);
                &&& forall|i: int|
                    0 <= i < nd.len() ==> (exists|j: int|
                        0 <= j < od.len() && (#[trigger] nd[i]).id == od[j].id && nd[i]@
                            == od[j]@) && rs.contains(nd[i].id.0 as int)
                &&& forall|j: int|
                    0 <= j < od.len() && rs.contains((#[trigger] od[j]).id.0 as int)
                        ==> exists|i: int|
                        0 <= i < nd.len() && (#[trigger] nd[i]).id == od[j].id && nd[i]@ == od[j]@
            }),
    {
        let mut kept: Vec<DefEntry> = Vec::new();
        let mut i: usize = 0;
        while i < self.definitions.len()
            invariant
                i <= self.definitions.len(),
                forall|a: int|
                    0 <= a < kept@.len() ==> (exists|j: int|
                        0 <= j < i as int && (#[trigger] kept@[a]).id == self.definitions@[j].id
                            && kept@[a]@ == self.definitions@[j]@) && refs_set(self.refs@).contains(
                        kept@[a].id.0 as int,
                    ),
                forall|j: int|
                    0 <= j < i as int && refs_set(self.refs@).contains(
                        (#[trigger] self.definitions@[j]).id.0 as int,
                    ) ==> exists|a: int|
                        0 <= a < kept@.len() && (#[trigger] kept@[a]).id == self.definitions@[j].id
                            && kept@[a]@ == self.definitions@[j]@,
                defs_unique(kept@),
            decreases self.definitions.len() - i,
        {
            if self.refs_contains(self.definitions[i].id) {
                let e = &self.definitions[i];
                let entry = DefEntry {
                    id: e.id,
                    names: e.names.clone(),
                    state: match &e.state {
                        DefinitionState::Processing => DefinitionState::Processing,
                        DefinitionState::Finished(s) => DefinitionState::Finished(s.clone()),
                    },
                };
                proof {
                    assert(def_entry_view(entry) =~= def_entry_view(self.definitions@[i as int]));
                }
                let ghost pre_kept = kept@;
                kept.push(entry);
                proof {
                    let defs = self.definitions@;
                    assert(kept@[pre_kept.len() as int] == entry);
                    assert(kept@[pre_kept.len() as int].id == defs[i as int].id && kept@[pre_kept.len() as int]@ == defs[i as int]@);
                    assert forall|a: int, b: int|
                        0 <= a < b < kept@.len() implies (#[trigger] kept@[a]).id.0 != (
                    #[trigger] kept@[b]).id.0 by {
                        if b == kept@.len() - 1 {
                            let j = choose|j: int|
                                0 <= j < i as int && (#[trigger] kept@[a]).id == defs[j].id
                                    && kept@[a]@ == defs[j]@;
                            assert(defs[j].id.0 != defs[i as int].id.0);
                        }
                    }
                    assert forall|j: int|
                        0 <= j < i as int + 1 && refs_set(self.refs@).contains(
                            (#[trigger] defs[j]).id.0 as int,
                        ) implies exists|a: int|
                            0 <= a < kept@.len() && (#[trigger] kept@[a]).id == defs[j].id
                                && kept@[a]@ == defs[j]@ by {
                        if j == i as int {
                            let a = pre_kept.len() as int;
                            assert(0 <= a < kept@.len() && kept@[a].id == defs[j].id && kept@[a]@
                                == defs[j]@);
                        } else {
                            let a = choose|a: int|
                                0 <= a < pre_kept.len() && (#[trigger] pre_kept[a]).id == defs[j].id
                                    && pre_kept[a]@ == defs[j]@;
                            assert(kept@[a] == pre_kept[a]);
                            assert(0 <= a < kept@.len() && kept@[a].id == defs[j].id && kept@[a]@
                                == defs[j]@);
                        }
                    }
                }
            }
            i = i + 1;
        }
        self.definitions = kept;
    }
}


/// Render every definition's id under the strategy, building the final
/// definitions table, and detect id collisions: if two entries render to the
/// same id, report the shared id and both types' long names.
#[verifier::loop_isolation(false)]
#[verifier::rlimit(60)]
fn render_defs(strat: &NamingStrategy, defs: &Vec<DefEntry>) -> (r: Result<
    Vec<(String, Schema)>,
    GenError,
>)
    requires
        forall|i: int| 0 <= i < defs@.len() ==> (#[trigger] defs@[i])@.state is Finished,
    ensures
        ({
            match r {
                Ok(rendered) => {
                    &&& rendered@.len() == defs@.len()
                    &&& forall|k: int|
                        0 <= k < defs@.len() ==> (#[trigger] rendered@[k]).0@ == spec_render(
                            *strat,
                            defs@[k]@.names,
                        ) && rendered@[k].1@ == fin_schema(defs@[k]@.state)
                    &&& forall|a: int, b: int|
                        0 <= a < b < rendered@.len() ==> (#[trigger] rendered@[a]).0@ != (
                        #[trigger] rendered@[b]).0@
                },
                Err(e) => {
                    exists|a: int, b: int|
                        #![trigger defs@[a], defs@[b]]
                        0 <= a < b < defs@.len() && spec_render(*strat, defs@[a]@.names)
                            == spec_render(*strat, defs@[b]@.names) && e->NameCollision_id@
                            == spec_render(*strat, defs@[a]@.names) && e->NameCollision_type1@
                            == spec_render(NamingStrategy::Long, defs@[a]@.names)
                            && e->NameCollision_type2@ == spec_render(
                            NamingStrategy::Long,
                            defs@[b]@.names,
                        )
                },
            }
        }),
{
    let mut rendered: Vec<(String, Schema)> = Vec::new();
    let mut i: usize = 0;
    while i < defs.len()
        invariant
            i <= defs.len(),
            rendered@.len() == i as int,
            forall|k: int|
                0 <= k < i as int ==> (#[trigger] rendered@[k]).0@ == spec_render(
                    *strat,
                    defs@[k]@.names,
                ) && rendered@[k].1@ == fin_schema(defs@[k]@.state),
            forall|a: int, b: int|
                0 <= a < b < i as int ==> (#[trigger] rendered@[a]).0@ != (
                #[trigger] rendered@[b]).0@,
        decreases defs.len() - i,
    {
        let id_str = strat.fun(&defs[i].names);
        let mut j: usize = 0;
        while j < i
            invariant
                j <= i,
                i < defs@.len(),
                rendered@.len() == i as int,
                id_str@ == spec_render(*strat, defs@[i as int]@.names),
                forall|k: int|
                    0 <= k < i as int ==> (#[trigger] rendered@[k]).0@ == spec_render(
                        *strat,
                        defs@[k]@.names,
                    ) && rendered@[k].1@ == fin_schema(defs@[k]@.state),
                forall|jj: int| 0 <= jj < j as int ==> (#[trigger] rendered@[jj]).0@ != id_str@,
            decreases i - j,
        {
            if rendered[j].0 == id_str {
                let long_strat = NamingStrategy::long();
                let type1 = long_strat.fun(&defs[j].names);
                let type2 = long_strat.fun(&defs[i].names);
                let e = GenError::NameCollision { type1, type2, id: id_str };
                proof {
                    assert(spec_render(*strat, defs@[j as int]@.names) == spec_render(
                        *strat,
                        defs@[i as int]@.names,
                    ));
                }
                return Err(e);
            }
            j = j + 1;
        }
        let entry_schema = match &defs[i].state {
            DefinitionState::Finished(s) => s.clone(),
            DefinitionState::Processing => {
                proof {
                    assert(defs@[i as int]@.state is Processing);
                    assert(false);
                }
                vstd::pervasive::unreached()
            },
        };
        rendered.push((id_str, entry_schema));
        i = i + 1;
    }
    Ok(rendered)
}

/// One definitions-table entry is the rendering of surviving type `t`.
pub open spec fn entry_for(
    e: (String, Schema),
    t: int,
    mst: GenSt,
    strat: NamingStrategy,
) -> bool {
    e.0@ == spec_render(strat, mst.defs[t].names) && e.1@ == fin_schema(mst.defs[t].state)
}

/// The definitions table has pairwise distinct ids.
pub open spec fn doc_ids_distinct(defs: Seq<(String, Schema)>) -> bool {
    forall|i: int, j: int|
        0 <= i < j < defs.len() ==> (#[trigger] defs[i]).0@ != (#[trigger] defs[j]).0@
}

/// Type `t` appears in the definitions table under its rendered id, with its
/// finished schema.
pub open spec fn surv_in_doc(
    t: int,
    defs: Seq<(String, Schema)>,
    mst: GenSt,
    strat: NamingStrategy,
) -> bool {
    exists|i: int| 0 <= i < defs.len() && entry_for(#[trigger] defs[i], t, mst, strat)
}

/// Every surviving definition appears in the table.
pub open spec fn doc_complete(
    defs: Seq<(String, Schema)>,
    mst: GenSt,
    strat: NamingStrategy,
) -> bool {
    forall|t: int| #[trigger] surviving(mst).contains(t) ==> surv_in_doc(t, defs, mst, strat)
}

/// Table entry `i` renders some surviving definition.
pub open spec fn entry_is_surviving(
    i: int,
    defs: Seq<(String, Schema)>,
    mst: GenSt,
    strat: NamingStrategy,
) -> bool {
    exists|t: int|
        #![trigger mst.defs[t]]
        surviving(mst).contains(t) && entry_for(defs[i], t, mst, strat)
}

/// Every table entry renders a surviving definition: nothing unreferenced
/// remains in the document.
pub open spec fn doc_sound(defs: Seq<(String, Schema)>, mst: GenSt, strat: NamingStrategy) -> bool {
    forall|i: int| 0 <= i < defs.len() ==> #[trigger] entry_is_surviving(i, defs, mst, strat)
}

/// No two distinct surviving types render to the same id.
pub open spec fn no_surv_collision(mst: GenSt, strat: NamingStrategy) -> bool {
    forall|t1: int, t2: int|
        #![trigger surviving(mst).contains(t1), surviving(mst).contains(t2)]
        surviving(mst).contains(t1) && surviving(mst).contains(t2) && t1 != t2 ==> spec_render(
            strat,
            mst.defs[t1].names,
        ) != spec_render(strat, mst.defs[t2].names)
}

/// The reported collision is real: two distinct surviving types render to the
/// reported id under the active strategy, and the error carries both types'
/// long names.
pub open spec fn collision_reported(e: GenError, mst: GenSt, strat: NamingStrategy) -> bool {
    exists|t1: int, t2: int|
        #![trigger mst.defs[t1], mst.defs[t2]]
        t1 != t2 && surviving(mst).contains(t1) && surviving(mst).contains(t2) && spec_render(
            strat,
            mst.defs[t1].names,
        ) == spec_render(strat, mst.defs[t2].names) && e->NameCollision_id@ == spec_render(
            strat,
            mst.defs[t1].names,
        ) && e->NameCollision_type1@ == spec_render(NamingStrategy::Long, mst.defs[t1].names)
            && e->NameCollision_type2@ == spec_render(NamingStrategy::Long, mst.defs[t2].names)
}

#[verifier::rlimit(100)]
proof fn lemma_root_doc(
    cleaned: Seq<DefEntry>,
    rendered: Seq<(String, Schema)>,
    mst: GenSt,
    strat: NamingStrategy,
)
    requires
        rendered.len() == cleaned.len(),
        forall|i: int|
            0 <= i < cleaned.len() ==> surviving(mst).contains(
                (#[trigger] cleaned[i]).id.0 as int,
            ) && mst.defs.contains_key(cleaned[i].id.0 as int) && mst.defs[cleaned[i].id.0 as int]
                == cleaned[i]@,
        forall|t: int|
            #[trigger] surviving(mst).contains(t) ==> exists|i: int|
                0 <= i < cleaned.len() && (#[trigger] cleaned[i]).id.0 as int == t,
        forall|k: int|
            0 <= k < cleaned.len() ==> (#[trigger] rendered[k]).0@ == spec_render(
                strat,
                cleaned[k]@.names,
            ) && rendered[k].1@ == fin_schema(cleaned[k]@.state),
        doc_ids_distinct(rendered),
    ensures
        doc_complete(rendered, mst, strat),
        doc_sound(rendered, mst, strat),
        no_surv_collision(mst, strat),
{
    assert forall|t: int| #[trigger] surviving(mst).contains(t) implies surv_in_doc(
        t,
        rendered,
        mst,
        strat,
    ) by {
        let i = choose|i: int| 0 <= i < cleaned.len() && (#[trigger] cleaned[i]).id.0 as int == t;
        assert(mst.defs[t] == cleaned[i]@);
        assert(entry_for(rendered[i], t, mst, strat));
    }
    assert forall|i: int| 0 <= i < rendered.len() implies #[trigger] entry_is_surviving(
        i,
        rendered,
        mst,
        strat,
    ) by {
        let t = cleaned[i].id.0 as int;
        assert(mst.defs[t] == cleaned[i]@);
        assert(surviving(mst).contains(t));
        assert(entry_for(rendered[i], t, mst, strat));
    }
    assert forall|t1: int, t2: int|
        #![trigger surviving(mst).contains(t1), surviving(mst).contains(t2)]
        surviving(mst).contains(t1) && surviving(mst).contains(t2) && t1 != t2 implies spec_render(
        strat,
        mst.defs[t1].names,
    ) != spec_render(strat, mst.defs[t2].names) by {
        let i1 = choose|i: int| 0 <= i < cleaned.len() && (#[trigger] cleaned[i]).id.0 as int == t1;
        let i2 = choose|i: int| 0 <= i < cleaned.len() && (#[trigger] cleaned[i]).id.0 as int == t2;
        assert(i1 != i2);
        assert(mst.defs[t1] == cleaned[i1]@);
        assert(mst.defs[t2] == cleaned[i2]@);
        assert(rendered[i1].0@ == spec_render(strat, mst.defs[t1].names));
        assert(rendered[i2].0@ == spec_render(strat, mst.defs[t2].names));
        if i1 < i2 {
            assert(rendered[i1].0@ != rendered[i2].0@);
        } else {
            assert(rendered[i2].0@ != rendered[i1].0@);
        }
    }
}

/// Growing from a state with only finished entries leaves only finished
/// entries: the run never leaves an entry mid-construction behind.
proof fn lemma_finished_after(reg: Map<int, TypeInfoS>, st0: GenSt, mst: GenSt)
    requires
        all_finished(st0),
        st_grows(reg, st0, mst),
    ensures
        all_finished(mst),
{
    assert forall|k: int| #[trigger] mst.defs.contains_key(k) implies mst.defs[k].state
        is Finished by {
        if st0.defs.contains_key(k) {
            assert(mst.defs[k] == st0.defs[k]);
        }
    }
}

#[verifier::rlimit(100)]
proof fn lemma_cleaned_surv(
    pre_clean: Seq<DefEntry>,
    cleaned: Seq<DefEntry>,
    rs: Seq<TypeId>,
    mst: GenSt,
)
    requires
        defs_unique(pre_clean),
        mst.defs == defs_map(pre_clean),
        mst.refs == refs_set(rs),
        forall|i: int|
            0 <= i < cleaned.len() ==> (exists|j: int|
                0 <= j < pre_clean.len() && (#[trigger] cleaned[i]).id == pre_clean[j].id
                    && cleaned[i]@ == pre_clean[j]@) && refs_set(rs).contains(
                cleaned[i].id.0 as int,
            ),
        forall|j: int|
            0 <= j < pre_clean.len() && refs_set(rs).contains(
                (#[trigger] pre_clean[j]).id.0 as int,
            ) ==> exists|i: int|
                0 <= i < cleaned.len() && (#[trigger] cleaned[i]).id == pre_clean[j].id
                    && cleaned[i]@ == pre_clean[j]@,
    ensures
        forall|i: int|
            0 <= i < cleaned.len() ==> surviving(mst).contains(
                (#[trigger] cleaned[i]).id.0 as int,
            ) && mst.defs.contains_key(cleaned[i].id.0 as int) && mst.defs[cleaned[i].id.0 as int]
                == cleaned[i]@,
        forall|t: int|
            #[trigger] surviving(mst).contains(t) ==> exists|i: int|
                0 <= i < cleaned.len() && (#[trigger] cleaned[i]).id.0 as int == t,
{
    assert forall|i: int| 0 <= i < cleaned.len() implies surviving(mst).contains(
        (#[trigger] cleaned[i]).id.0 as int,
    ) && mst.defs.contains_key(cleaned[i].id.0 as int) && mst.defs[cleaned[i].id.0 as int]
        == cleaned[i]@ by {
        let j = choose|j: int|
            0 <= j < pre_clean.len() && (#[trigger] cleaned[i]).id == pre_clean[j].id && cleaned[i]@
                == pre_clean[j]@;
        lemma_defs_map_index(pre_clean, j);
    }
    assert forall|t: int| #[trigger] surviving(mst).contains(t) implies exists|i: int|
        0 <= i < cleaned.len() && (#[trigger] cleaned[i]).id.0 as int == t by {
        lemma_defs_map_contains(pre_clean, t);
        let j = choose|j: int|
            0 <= j < pre_clean.len() && (#[trigger] pre_clean[j]).id.0 as int == t;
        assert(refs_set(rs).contains(pre_clean[j].id.0 as int));
        let i = choose|i: int|
            0 <= i < cleaned.len() && (#[trigger] cleaned[i]).id == pre_clean[j].id && cleaned[i]@
                == pre_clean[j]@;
        assert(cleaned[i].id.0 as int == t);
    }
}

#[verifier::rlimit(100)]
proof fn lemma_collision_case(
    cleaned: Seq<DefEntry>,
    mst: GenSt,
    strat: NamingStrategy,
    e: GenError,
)
    requires
        defs_unique(cleaned),
        forall|i: int|
            0 <= i < cleaned.len() ==> surviving(mst).contains(
                (#[trigger] cleaned[i]).id.0 as int,
            ) && mst.defs.contains_key(cleaned[i].id.0 as int) && mst.defs[cleaned[i].id.0 as int]
                == cleaned[i]@,
        exists|a: int, b: int|
            #![trigger cleaned[a], cleaned[b]]
            0 <= a < b < cleaned.len() && spec_render(strat, cleaned[a]@.names) == spec_render(
                strat,
                cleaned[b]@.names,
            ) && e->NameCollision_id@ == spec_render(strat, cleaned[a]@.names)
                && e->NameCollision_type1@ == spec_render(NamingStrategy::Long, cleaned[a]@.names)
                && e->NameCollision_type2@ == spec_render(NamingStrategy::Long, cleaned[b]@.names),
    ensures
        collision_reported(e, mst, strat),
{
    let (a, b) = choose|a: int, b: int|
        #![trigger cleaned[a], cleaned[b]]
        0 <= a < b < cleaned.len() && spec_render(strat, cleaned[a]@.names) == spec_render(
            strat,
            cleaned[b]@.names,
        ) && e->NameCollision_id@ == spec_render(strat, cleaned[a]@.names)
            && e->NameCollision_type1@ == spec_render(NamingStrategy::Long, cleaned[a]@.names)
            && e->NameCollision_type2@ == spec_render(NamingStrategy::Long, cleaned[b]@.names);
    let t1 = cleaned[a].id.0 as int;
    let t2 = cleaned[b].id.0 as int;
    assert(t1 != t2);
    assert(mst.defs[t1] == cleaned[a]@);
    assert(mst.defs[t2] == cleaned[b]@);
    assert(surviving(mst).contains(t1) && surviving(mst).contains(t2));
    assert(spec_render(strat, mst.defs[t1].names) == spec_render(strat, mst.defs[t2].names));
}

impl Generator {
    /// Generate the root schema document for the given registered root type
    /// according to the settings. This consumes the generator.
    ///
    /// The resulting document holds the root type's schema as computed by the
    /// traversal model, and one definition per type that was both memoized and
    /// actually referenced; definitions that were never referenced are pruned.
    /// It fails with the one defined error exactly when two distinct surviving
    /// types render to the same id under the configured naming strategy, and
    /// the error carries the shared id and both types' long names.
    #[verifier::rlimit(100)]
    pub fn into_root_schema(self, reg: &Registry, root: TypeId) -> (r: Result<
        RootSchema,
        GenError,
    >)
        requires
            reg_wf(reg@),
            reg@.contains_key(root.0 as int),
            self.wf(),
            st_inv(reg@, self.st()),
            all_finished(self.st()),
        ensures
            ({
                let (ms, mst) = m_sub(
                    reg@,
                    self.inlining,
                    self.naming_strategy,
                    self.st(),
                    root.0 as int,
                    true,
                );
                let strat = self.naming_strategy;
                match r {
                    Ok(doc) => {
                        &&& doc.schema@ == ms
                        &&& doc_ids_distinct(doc.definitions@)
                        &&& doc_complete(doc.definitions@, mst, strat)
                        &&& doc_sound(doc.definitions@, mst, strat)
                        &&& no_surv_collision(mst, strat)
                    },
                    Err(e) => collision_reported(e, mst, strat),
                }
            }),
    {
        let ghost st0 = self.st();
        let ghost inl = self.inlining;
        let ghost strat_g = self.naming_strategy;
        let ghost mm = m_sub(reg@, inl, strat_g, st0, root.0 as int, true);
        let mut g = self;
        proof {
            lemma_reg_map_finite(reg.entries@);
        }
        let schema = g.sub_schema_impl(reg, root, true);
        let ghost mst = g.st();
        proof {
            lemma_sub_grows(reg@, inl, strat_g, st0, root.0 as int, true);
            lemma_finished_after(reg@, st0, mst);
        }
        let ghost pre_clean = g.definitions@;
        g.clean_up_defs();
        let ghost cleaned = g.definitions@;
        proof {
            lemma_cleaned_surv(pre_clean, cleaned, g.refs@, mst);
            assert forall|i: int| 0 <= i < cleaned.len() implies (#[trigger] cleaned[i])@.state
                is Finished by {
                assert(mst.defs[cleaned[i].id.0 as int] == cleaned[i]@);
            }
        }
        let rendered = match render_defs(&g.naming_strategy, &g.definitions) {
            Ok(rendered) => rendered,
            Err(e) => {
                proof {
                    lemma_collision_case(cleaned, mst, strat_g, e);
                }
                return Err(e);
            },
        };
        let doc = RootSchema { definitions: rendered, schema };
        proof {
            lemma_root_doc(cleaned, rendered@, mst, strat_g);
            assert(doc.schema@ == mm.0);
            assert(doc.definitions@ == rendered@);
        }
        Ok(doc)
    }
}

} // verus!
