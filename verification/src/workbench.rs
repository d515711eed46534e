//! Recipe tables and the craft lookup: a mapping from an input layout to
//! an output layout, keyed by exact multiset match. The table is
//! populated at startup and read-only during play.

use vstd::prelude::*;

use crate::inventory::{first_from, lemma_first_from};
use crate::item::BundleView;
use crate::layout::{layout_matches, ItemsLayout};

verus! {

/// Which recipe table a workbench consults. Different benches share the
/// one generic craft algorithm and differ only in this tag.
#[derive(Clone, Copy, PartialEq, Eq, Structural, Debug, Hash)]
pub enum WorkbenchTag {
    Classical,
    Second,
}

/// Mathematical value of a [`Recipe`].
pub struct RecipeView {
    pub input: Seq<BundleView>,
    pub output: Seq<BundleView>,
}

/// One entry of a recipe table.
#[derive(Debug)]
pub struct Recipe {
    pub input: ItemsLayout,
    pub output: ItemsLayout,
}

impl View for Recipe {
    type V = RecipeView;

    open spec fn view(&self) -> RecipeView {
        RecipeView { input: self.input@, output: self.output@ }
    }
}

/// A recipe table: input layout to output layout, with keys compared as
/// multisets.
#[derive(Debug)]
pub struct CraftsMap {
    pub entries: Vec<Recipe>,
}

impl View for CraftsMap {
    type V = Seq<RecipeView>;

    open spec fn view(&self) -> Seq<RecipeView> {
        Seq::new(self.entries@.len(), |i: int| self.entries@[i]@)
    }
}

/// Entry predicate for lookup: the entry's input names the same multiset
/// of (item, stack) pairs as the presented layout.
pub open spec fn recipe_matches(m: Seq<RecipeView>, input: Seq<BundleView>) -> spec_fn(
    int,
) -> bool {
    |i: int| m[i].input.to_multiset() == input.to_multiset()
}

/// The craft lookup: the output of the first entry whose input matches
/// the presented layout as a multiset, or nothing. No partial crafting,
/// substitution or quantity scaling: the match is exact.
pub open spec fn spec_craft(m: Seq<RecipeView>, input: Seq<BundleView>) -> Option<
    Seq<BundleView>,
> {
    match first_from(m.len() as int, recipe_matches(m, input), 0) {
        Some(i) => Some(m[i].output),
        None => None,
    }
}

/// Table invariant: no two entries share a key, so the table reads as a
/// map from canonical input to output.
pub open spec fn crafts_wf(m: Seq<RecipeView>) -> bool {
    forall|i: int, j: int|
        0 <= i < j < m.len() ==> #[trigger] m[i].input.to_multiset() != #[trigger] m[
            j
        ].input.to_multiset()
}

/// Pointwise equal predicates find the same first index.
pub proof fn lemma_first_from_congruence(
    len: int,
    p1: spec_fn(int) -> bool,
    p2: spec_fn(int) -> bool,
    from: int,
)
    requires
        forall|i: int| #[trigger] p1(i) == #[trigger] p2(i),
    ensures
        first_from(len, p1, from) == first_from(len, p2, from),
    decreases len - from,
{
    if from >= 0 && from < len && !p1(from) {
        lemma_first_from_congruence(len, p1, p2, from + 1);
    }
}

/// Layout canonicalization: two layouts naming one multiset of
/// ingredients are the same recipe key — the lookup cannot tell them
/// apart, whatever order they were built in.
pub proof fn lemma_craft_canonical(m: Seq<RecipeView>, a: Seq<BundleView>, b: Seq<BundleView>)
    requires
        a.to_multiset() == b.to_multiset(),
    ensures
        spec_craft(m, a) == spec_craft(m, b),
{
    assert(forall|i: int| #[trigger] recipe_matches(m, a)(i) == #[trigger] recipe_matches(m, b)(i));
    lemma_first_from_congruence(m.len() as int, recipe_matches(m, a), recipe_matches(m, b), 0);
}

/// A marker plus its recipe table: the stateless craft algorithm
/// parameterized over which table to consult.
#[derive(Debug)]
pub struct Workbench {
    pub name: String,
    pub tag: WorkbenchTag,
    pub recipes: CraftsMap,
}

impl Workbench {
    /// An empty bench for `tag`; recipes are registered one by one at
    /// startup.
    pub fn new(name: String, tag: WorkbenchTag) -> (r: Self)
        ensures
            r.recipes@ == Seq::<RecipeView>::empty(),
            r.name == name,
            r.tag == tag,
            crafts_wf(r.recipes@),
    {
        let r = Workbench { name, tag, recipes: CraftsMap { entries: Vec::new() } };
        proof {
            assert(r.recipes@ =~= Seq::<RecipeView>::empty());
        }
        r
    }

    /// Register a recipe. A second recipe under an already-registered
    /// key is refused, keeping the table a map.
    pub fn add_recipe(&mut self, input: ItemsLayout, output: ItemsLayout) -> (ok: bool)
        ensures
            ok <==> spec_craft(old(self).recipes@, input@) is None,
            ok ==> final(self).recipes@ == old(self).recipes@.push(
                RecipeView { input: input@, output: output@ },
            ),
            !ok ==> final(self).recipes@ == old(self).recipes@,
            final(self).name == old(self).name && final(self).tag == old(self).tag,
            crafts_wf(old(self).recipes@) ==> crafts_wf(final(self).recipes@),
    {
        match self.craft(&input) {
            Some(_) => false,
            None => {
                proof {
                    lemma_first_from(
                        self.recipes@.len() as int,
                        recipe_matches(self.recipes@, input@),
                        0,
                    );
                }
                let ghost m0 = self.recipes@;
                self.recipes.entries.push(Recipe { input, output });
                proof {
                    assert(self.recipes@ =~= m0.push(
                        RecipeView { input: input@, output: output@ },
                    ));
                    if crafts_wf(m0) {
                        let m1 = self.recipes@;
                        assert forall|i: int, j: int| 0 <= i < j < m1.len() implies #[trigger] m1[
                            i
                        ].input.to_multiset() != #[trigger] m1[j].input.to_multiset() by {
                            if j == m0.len() {
                                assert(!recipe_matches(m0, input@)(i));
                                assert(m1[j].input == input@);
                            }
                        }
                    }
                }
                true
            },
        }
    }

    /// The craft lookup: the registered output for this exact (by
    /// canonical multiset) input layout, by value, or nothing.
    pub fn craft(&self, layout: &ItemsLayout) -> (r: Option<ItemsLayout>)
        ensures
            match r {
                Some(out) => spec_craft(self.recipes@, layout@) == Some(out@),
                None => spec_craft(self.recipes@, layout@) is None,
            },
    {
        let ghost pred = recipe_matches(self.recipes@, layout@);
        proof {
            lemma_first_from(self.recipes@.len() as int, pred, 0);
        }
        let mut i: usize = 0;
        while i < self.recipes.entries.len()
            invariant
                i <= self.recipes@.len(),
                pred == recipe_matches(self.recipes@, layout@),
                forall|j: int| 0 <= j < i ==> !(#[trigger] pred(j)),
            decreases self.recipes@.len() - i,
        {
            if layout_matches(&self.recipes.entries[i].input, layout) {
                proof {
                    assert(pred(i as int));
                    lemma_first_from(self.recipes@.len() as int, pred, 0);
                    match first_from(self.recipes@.len() as int, pred, 0) {
                        Some(k) => {
                            if k < i as int {
                                assert(!pred(k));
                            }
                        },
                        None => {
                            assert(!pred(i as int));
                        },
                    }
                }
                return Some(self.recipes.entries[i].output.duplicate());
            }
            proof {
                assert(!pred(i as int));
            }
            i = i + 1;
        }
        None
    }
}

} // verus!
