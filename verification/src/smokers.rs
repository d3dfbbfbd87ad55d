//! The cigarette smokers: a table holds two of the three ingredients, and the
//! smoker who owns the missing one may smoke and then lays out two new ones.
use rand::Rng;
use vstd::prelude::*;

verus! {

/// One of the three things a cigarette is made of.
#[allow(non_camel_case_types)]
#[derive(Clone, Copy, Debug, PartialEq, Eq, Structural)]
pub enum Ingredient {
    PAPER,
    TOBACCO,
    MATCH,
}

pub open spec fn ingredient_number(i: Ingredient) -> nat {
    match i {
        Ingredient::PAPER => 0,
        Ingredient::TOBACCO => 1,
        Ingredient::MATCH => 2,
    }
}

impl Ingredient {
    /// The ingredient's number, which is also its smoker's number.
    pub fn as_usize(&self) -> (n: usize)
        ensures
            n == ingredient_number(*self),
    {
        match self {
            Ingredient::PAPER => 0,
            Ingredient::TOBACCO => 1,
            Ingredient::MATCH => 2,
        }
    }
}

/// The three ingredients, in the order the table lays them out from.
pub open spec fn all_ingredients() -> Seq<Ingredient> {
    seq![Ingredient::PAPER, Ingredient::TOBACCO, Ingredient::MATCH]
}

/// A smoker who owns `smoker_ingredient` may smoke when the table lacks it.
pub open spec fn can_smoke(table: Seq<Ingredient>, smoker_ingredient: Ingredient) -> bool {
    !table.contains(smoker_ingredient)
}

/// The table after the agent takes the ingredient at `idx` away from the three.
pub open spec fn replenished(idx: int) -> Seq<Ingredient> {
    all_ingredients().remove(idx)
}

/// The ingredients on the table; callers share it behind a lock.
pub struct SmokerTable {
    ingredients: Vec<Ingredient>,
}

impl View for SmokerTable {
    type V = Seq<Ingredient>;

    closed spec fn view(&self) -> Seq<Ingredient> {
        self.ingredients@
    }
}

/// Calls `rand::Rng::random_range(0..n)` on the thread-local generator
/// `rand::rng()`. The contract claims what the crate documents: the number
/// lies in `0..n` (the call panics on an empty range, which `requires`
/// rules out). Which number comes back rests on chance and is left open.
#[verifier::external_body]
fn random_index(n: usize) -> (r: usize)
    requires
        n > 0,
    ensures
        r < n,
{
    rand::rng().random_range(0..n)
}

impl SmokerTable {
    /// A table that holds `ingredients`.
    pub fn new(ingredients: Vec<Ingredient>) -> (t: SmokerTable)
        ensures
            t@ == ingredients@,
    {
        SmokerTable { ingredients }
    }

    /// The ingredients on the table.
    pub fn ingredients(&self) -> (r: &Vec<Ingredient>)
        ensures
            r@ == self@,
    {
        &self.ingredients
    }

    /// Whether the smoker who owns `smoker_ingredient` may smoke now: the
    /// table must not hold that ingredient; otherwise the smoker waits.
    pub fn acquire_ingredients(&self, smoker_ingredient: Ingredient) -> (may_smoke: bool)
        ensures
            may_smoke == can_smoke(self@, smoker_ingredient),
    {
        let n = self.ingredients.len();
        let mut i: usize = 0;
        while i < n
            invariant
                n == self@.len(),
                i <= n,
                forall|j: int| 0 <= j < i ==> self@[j] != smoker_ingredient,
            decreases n - i,
        {
            if self.ingredients[i] == smoker_ingredient {
                assert(self@[i as int] == smoker_ingredient);
                return false;
            }
            i = i + 1;
        }
        true
    }

    /// Lays out the three ingredients without the one at `idx`.
    pub fn replenish_with(&mut self, idx: usize)
        requires
            idx < 3,
        ensures
            final(self)@ == replenished(idx as int),
    {
        let mut all = vec![Ingredient::PAPER, Ingredient::TOBACCO, Ingredient::MATCH];
        assert(all@ == all_ingredients());
        all.remove(idx);
        self.ingredients = all;
    }

    /// Clears the table and lays out two of the three ingredients, leaving
    /// out one that is picked at random.
    pub fn replenish_ingredients(&mut self)
        ensures
            exists|k: int| 0 <= k < 3 && final(self)@ == #[trigger] replenished(k),
    {
        let idx = random_index(3);
        self.replenish_with(idx);
    }
}

/// A smoker may smoke exactly when his ingredient lies nowhere on the table,
/// whatever the order of what lies there.
pub proof fn lemma_can_smoke_iff_absent(table: Seq<Ingredient>, smoker_ingredient: Ingredient)
    ensures
        can_smoke(table, smoker_ingredient) <==> forall|j: int|
            0 <= j < table.len() ==> table[j] != smoker_ingredient,
{
    if !can_smoke(table, smoker_ingredient) {
        let j = choose|j: int| 0 <= j < table.len() && table[j] == smoker_ingredient;
        assert(table[j] == smoker_ingredient);
    }
}

/// After any replenishing, exactly one smoker may smoke: the owner of the
/// ingredient that was left out.
pub proof fn lemma_exactly_one_smoker(idx: int, smoker_ingredient: Ingredient)
    requires
        0 <= idx < 3,
    ensures
        can_smoke(replenished(idx), smoker_ingredient) <==> smoker_ingredient == all_ingredients()[idx],
{
    let t = replenished(idx);
    if idx == 0 {
        assert(t =~= seq![Ingredient::TOBACCO, Ingredient::MATCH]);
    } else if idx == 1 {
        assert(t =~= seq![Ingredient::PAPER, Ingredient::MATCH]);
    } else {
        assert(t =~= seq![Ingredient::PAPER, Ingredient::TOBACCO]);
    }
    if smoker_ingredient != all_ingredients()[idx] {
        let j: int = if ingredient_number(smoker_ingredient) < idx {
            ingredient_number(smoker_ingredient) as int
        } else {
            ingredient_number(smoker_ingredient) - 1
        };
        assert(t[j] == smoker_ingredient);
    }
}

/// A smoker who owns `ingredient`.
pub struct Smoker {
    pub id: usize,
    pub ingredient: Ingredient,
}

impl Smoker {
    pub fn new(id: usize, ingredient: Ingredient) -> (s: Smoker)
        ensures
            s.id == id,
            s.ingredient == ingredient,
    {
        Smoker { id, ingredient }
    }
}

} // verus!
