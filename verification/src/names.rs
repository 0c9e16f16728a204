//! The descriptor that says how a type is displayed and referenced.

use vstd::prelude::*;

verus! {

/// Mathematical mirror of [`Names`]: the same tree over sequences.
#[verifier::ext_equal]
pub struct NamesS {
    pub short: Seq<char>,
    pub long: Seq<char>,
    pub nullable: bool,
    pub type_params: Seq<NamesS>,
    pub const_params: Seq<Seq<char>>,
}

/// How to refer to a given schema. Used mostly for referring to a schema
/// definition using the "ref" form.
///
/// The [`Generator`](crate::gen::Generator) decides how to use this
/// information to generate an actual identifier.
#[derive(Debug)]
pub struct Names {
    /// The short name. Most of the time this is just the bare name of the type.
    pub short: String,
    /// The long name. Most of the time this is the fully qualified path of the
    /// type, starting with the crate name.
    pub long: String,
    /// Nullability.
    pub nullable: bool,
    /// Names of any type arguments applied to the generic type.
    pub type_params: Vec<Names>,
    /// The values of constant arguments represented as strings.
    pub const_params: Vec<String>,
}

pub open spec fn names_seq_view(ns: Seq<Names>) -> Seq<NamesS>
    decreases ns,
{
    Seq::new(
        ns.len(),
        |i: int|
            if 0 <= i < ns.len() {
                names_view(ns[i])
            } else {
                vstd::pervasive::arbitrary()
            },
    )
}

pub open spec fn names_view(n: Names) -> NamesS
    decreases n,
{
    NamesS {
        short: n.short@,
        long: n.long@,
        nullable: n.nullable,
        type_params: names_seq_view(n.type_params@),
        const_params: Seq::new(n.const_params@.len(), |i: int| n.const_params@[i]@),
    }
}

impl View for Names {
    type V = NamesS;

    open spec fn view(&self) -> NamesS {
        names_view(*self)
    }
}

impl Clone for Names {
    fn clone(&self) -> (r: Self)
        ensures
            r@ == self@,
        decreases *self,
    {
        let mut type_params: Vec<Names> = Vec::new();
        let mut i: usize = 0;
        while i < self.type_params.len()
            invariant
                i <= self.type_params.len(),
                type_params@.len() == i as int,
                forall|j: int|
                    0 <= j < i as int ==> names_view(#[trigger] type_params@[j]) == names_view(
                        self.type_params@[j],
                    ),
            decreases self.type_params.len() - i,
        {
            type_params.push(self.type_params[i].clone());
            i = i + 1;
        }
        let mut const_params: Vec<String> = Vec::new();
        let mut k: usize = 0;
        while k < self.const_params.len()
            invariant
                k <= self.const_params.len(),
                const_params@.len() == k as int,
                forall|j: int|
                    0 <= j < k as int ==> #[trigger] const_params@[j]@ == self.const_params@[j]@,
            decreases self.const_params.len() - k,
        {
            const_params.push(self.const_params[k].clone());
            k = k + 1;
        }
        let r = Names {
            short: self.short.clone(),
            long: self.long.clone(),
            nullable: self.nullable,
            type_params,
            const_params,
        };
        proof {
            assert(names_seq_view(r.type_params@) =~= names_seq_view(self.type_params@));
            assert(Seq::new(r.const_params@.len(), |i: int| r.const_params@[i]@) =~= Seq::new(
                self.const_params@.len(),
                |i: int| self.const_params@[i]@,
            ));
            assert(r@ =~= self@);
        }
        r
    }
}

} // verus!
