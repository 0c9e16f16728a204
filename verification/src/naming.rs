//! Naming strategies: how types are named in definitions and refs in the
//! generated schema document.

use vstd::prelude::*;

use crate::names::{names_seq_view, names_view, Names, NamesS};
use vstd::string::StringExecFns;

verus! {

/// The naming strategy. The strategy decides how types are named in
/// definitions/refs in the generated schema.
#[derive(Debug, Clone, Copy, PartialEq, Eq, Structural)]
pub enum NamingStrategy {
    /// Renders the fully qualified path of the type, with type parameters and
    /// const parameters in angle brackets.
    Long,
    /// Renders the bare name of the type, with type parameters and const
    /// parameters in angle brackets.
    Short,
}

/// The pieces a rendered parameter list is joined from: every type parameter
/// rendered under the strategy, followed by the stringified const parameters.
pub open spec fn spec_render_parts(strat: NamingStrategy, ps: Seq<NamesS>) -> Seq<Seq<char>>
    decreases ps, 0int,
{
    Seq::new(
        ps.len(),
        |i: int|
            if 0 <= i < ps.len() {
                spec_render(strat, ps[i])
            } else {
                vstd::pervasive::arbitrary()
            },
    )
}

/// What a naming strategy produces for a given `Names` tree: the base name,
/// followed by the comma-joined parameter names in angle brackets if any
/// parameters exist.
pub open spec fn spec_render(strat: NamingStrategy, n: NamesS) -> Seq<char>
    decreases n, 1int,
{
    let base = match strat {
        NamingStrategy::Long => n.long,
        NamingStrategy::Short => n.short,
    };
    if n.type_params.len() == 0 && n.const_params.len() == 0 {
        base
    } else {
        base + seq!['<'] + join_parts(spec_render_parts(strat, n.type_params) + n.const_params)
            + seq!['>']
    }
}

/// Sequences joined by a comma and a space.
pub open spec fn join_parts(parts: Seq<Seq<char>>) -> Seq<char>
    decreases parts.len(),
{
    if parts.len() == 0 {
        Seq::empty()
    } else if parts.len() == 1 {
        parts[0]
    } else {
        parts[0] + seq![',', ' '] + join_parts(parts.subrange(1, parts.len() as int))
    }
}

/// Joining one more piece on the right appends a separator and the piece,
/// except when there was nothing to separate it from.
pub proof fn lemma_join_parts_push(parts: Seq<Seq<char>>, x: Seq<char>)
    ensures
        join_parts(parts.push(x)) == if parts.len() == 0 {
            x
        } else {
            join_parts(parts) + seq![',', ' '] + x
        },
    decreases parts.len(),
{
    if parts.len() == 0 {
        assert(parts.push(x)[0] == x);
        assert(join_parts(parts.push(x)) == x);
    } else if parts.len() == 1 {
        let p = parts.push(x);
        assert(p.len() == 2);
        assert(p.subrange(1, 2) =~= seq![x]);
        assert(join_parts(p.subrange(1, 2)) == x);
        assert(join_parts(p) == parts[0] + seq![',', ' '] + x);
    } else {
        let p = parts.push(x);
        assert(p.subrange(1, p.len() as int) =~= parts.subrange(1, parts.len() as int).push(x));
        lemma_join_parts_push(parts.subrange(1, parts.len() as int), x);
        assert(join_parts(p) == p[0] + seq![',', ' '] + join_parts(
            p.subrange(1, p.len() as int),
        ));
        assert(join_parts(parts) + seq![',', ' '] + x == parts[0] + seq![',', ' '] + (join_parts(
            parts.subrange(1, parts.len() as int),
        ) + seq![',', ' '] + x));
    }
}

/// Rendering is a pure function of the strategy and the `Names` tree: the same
/// identity rendered twice under one fixed strategy yields identical text.
pub proof fn lemma_render_deterministic(strat: NamingStrategy, a: NamesS, b: NamesS)
    requires
        a == b,
    ensures
        spec_render(strat, a) == spec_render(strat, b),
{
}

impl NamingStrategy {
    /// The `long` naming strategy: the stringified full path of the type with
    /// type parameters and const parameters in angle brackets. This is the
    /// default, because it minimizes collisions: identically named types in
    /// different modules have different qualified paths.
    pub fn long() -> (r: Self)
        ensures
            r == NamingStrategy::Long,
    {
        NamingStrategy::Long
    }

    /// The `short` naming strategy: the stringified bare name of the type with
    /// type parameters and const parameters in angle brackets. This
    /// representation is prone to name collisions if identically named types
    /// from different modules or crates take part.
    pub fn short() -> (r: Self)
        ensures
            r == NamingStrategy::Short,
    {
        NamingStrategy::Short
    }

    /// Apply the strategy: render the identifier for the given `Names`.
    pub fn fun(&self, names: &Names) -> (r: String)
        ensures
            r@ == spec_render(*self, names@),
    {
        render_names(*self, names)
    }
}

impl Default for NamingStrategy {
    /// The default strategy is `long`.
    fn default() -> (r: Self)
        ensures
            r == NamingStrategy::Long,
    {
        NamingStrategy::Long
    }
}

fn render_names(strat: NamingStrategy, n: &Names) -> (r: String)
    ensures
        r@ == spec_render(strat, n@),
    decreases *n,
{
    let mut out: String = match strat {
        NamingStrategy::Long => n.long.clone(),
        NamingStrategy::Short => n.short.clone(),
    };
    if n.type_params.len() == 0 && n.const_params.len() == 0 {
        return out;
    }
    let ghost tp_len = n.type_params@.len() as int;
    let ghost cp_len = n.const_params@.len() as int;
    let ghost parts = spec_render_parts(strat, names_seq_view(n.type_params@)) + Seq::new(
        n.const_params@.len(),
        |i: int| n.const_params@[i]@,
    );
    out.append("<");
    proof {
        reveal_strlit("<");
        assert("<"@ =~= seq!['<']);
        assert(parts.subrange(0, 0) =~= Seq::<Seq<char>>::empty());
        assert(out@ =~= spec_render_base(strat, n@) + seq!['<'] + join_parts(
            parts.subrange(0, 0),
        ));
    }
    let mut i: usize = 0;
    while i < n.type_params.len()
        invariant
            i <= n.type_params.len(),
            tp_len == n.type_params@.len() as int,
            cp_len == n.const_params@.len() as int,
            parts.len() == tp_len + cp_len,
            forall|j: int|
                0 <= j < tp_len ==> #[trigger] parts[j] == spec_render(
                    strat,
                    names_view(n.type_params@[j]),
                ),
            forall|j: int| 0 <= j < cp_len ==> #[trigger] parts[tp_len + j] == n.const_params@[j]@,
            out@ == spec_render_base(strat, n@) + seq!['<'] + join_parts(
                parts.subrange(0, i as int),
            ),
        decreases n.type_params.len() - i,
    {
        if i > 0 {
            out.append(", ");
        }
        let piece = render_names(strat, &n.type_params[i]);
        out.append(piece.as_str());
        proof {
            reveal_strlit(", ");
            assert(", "@ =~= seq![',', ' ']);
            lemma_join_parts_push(parts.subrange(0, i as int), parts[i as int]);
            assert(parts.subrange(0, i as int + 1) =~= parts.subrange(0, i as int).push(
                parts[i as int],
            ));
            assert(out@ =~= spec_render_base(strat, n@) + seq!['<'] + join_parts(
                parts.subrange(0, i as int + 1),
            ));
        }
        i = i + 1;
    }
    let mut k: usize = 0;
    while k < n.const_params.len()
        invariant
            k <= n.const_params.len(),
            tp_len == n.type_params@.len() as int,
            cp_len == n.const_params@.len() as int,
            parts.len() == tp_len + cp_len,
            forall|j: int| 0 <= j < cp_len ==> #[trigger] parts[tp_len + j] == n.const_params@[j]@,
            out@ == spec_render_base(strat, n@) + seq!['<'] + join_parts(
                parts.subrange(0, tp_len + k as int),
            ),
        decreases n.const_params.len() - k,
    {
        if n.type_params.len() > 0 || k > 0 {
            out.append(", ");
        }
        out.append(n.const_params[k].as_str());
        proof {
            reveal_strlit(", ");
            assert(", "@ =~= seq![',', ' ']);
            let pos = tp_len + k as int;
            lemma_join_parts_push(parts.subrange(0, pos), parts[pos]);
            assert(parts.subrange(0, pos + 1) =~= parts.subrange(0, pos).push(parts[pos]));
            assert(out@ =~= spec_render_base(strat, n@) + seq!['<'] + join_parts(
                parts.subrange(0, pos + 1),
            ));
        }
        k = k + 1;
    }
    out.append(">");
    proof {
        reveal_strlit(">");
        assert(">"@ =~= seq!['>']);
        assert(parts.subrange(0, tp_len + cp_len) =~= parts);
        assert(parts =~= spec_render_parts(strat, n@.type_params) + n@.const_params);
        assert(out@ =~= spec_render(strat, n@));
    }
    out
}

/// The base identifier the strategy starts from: the long or the short name.
pub open spec fn spec_render_base(strat: NamingStrategy, n: NamesS) -> Seq<char> {
    match strat {
        NamingStrategy::Long => n.long,
        NamingStrategy::Short => n.short,
    }
}

} // verus!
