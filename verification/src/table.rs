//! A table of named kinds, each chosen in proportion to its weight.

use vstd::prelude::*;
use vstd::string::StringExecFns;
use bracket_lib::random::RandomNumberGenerator;
use crate::rng::roll_dice;

verus! {

/// One kind and its weight.
pub struct RandomEntry {
    pub name: String,
    pub weight: i32,
}

impl View for RandomEntry {
    type V = (Seq<char>, int);

    open spec fn view(&self) -> (Seq<char>, int) {
        (self.name@, self.weight as int)
    }
}

impl RandomEntry {
    /// The entry for `name` with `weight`.
    pub fn new(name: &str, weight: i32) -> (e: RandomEntry)
        ensures
            e@ == (name@, weight as int),
    {
        RandomEntry { name: String::from_str(name), weight }
    }
}

/// The weights of the first `k` entries added up.
pub open spec fn weight_before(entries: Seq<(Seq<char>, int)>, k: int) -> int
    decreases k,
{
    if k <= 0 {
        0
    } else {
        weight_before(entries, k - 1) + entries[k - 1].1
    }
}

/// The kind that `roll` falls on, looking from entry `from` on: the first
/// entry whose weight exceeds what is left of the roll after the weights
/// before it. `"None"` if the roll is used up by no entry.
pub open spec fn pick_from(entries: Seq<(Seq<char>, int)>, roll: int, from: int) -> Seq<char>
    decreases entries.len() - from,
{
    if from < 0 || from >= entries.len() {
        "None"@
    } else if roll < entries[from].1 {
        entries[from].0
    } else {
        pick_from(entries, roll - entries[from].1, from + 1)
    }
}

/// The kind that `roll` falls on.
pub open spec fn picked(entries: Seq<(Seq<char>, int)>, roll: int) -> Seq<char> {
    pick_from(entries, roll, 0)
}

/// Every weight is positive.
pub open spec fn weights_positive(entries: Seq<(Seq<char>, int)>) -> bool {
    forall|k: int| 0 <= k < entries.len() ==> (#[trigger] entries[k]).1 > 0
}

proof fn lemma_pick_from(entries: Seq<(Seq<char>, int)>, k: int, roll: int, from: int)
    requires
        weights_positive(entries),
        0 <= from <= k < entries.len(),
        weight_before(entries, k) - weight_before(entries, from) <= roll < weight_before(
            entries,
            k + 1,
        ) - weight_before(entries, from),
    ensures
        pick_from(entries, roll, from) == entries[k].0,
    decreases k - from,
{
    if from < k {
        lemma_weight_grows(entries, from + 1, k);
        lemma_pick_from(entries, k, roll - entries[from].1, from + 1);
    }
}

/// The sum of the weights only grows with the number of entries counted.
pub proof fn lemma_weight_grows(entries: Seq<(Seq<char>, int)>, a: int, b: int)
    requires
        weights_positive(entries),
        0 <= a <= b <= entries.len(),
    ensures
        weight_before(entries, a) <= weight_before(entries, b),
    decreases b - a,
{
    if a < b {
        lemma_weight_grows(entries, a, b - 1);
    }
}

/// A roll from zero up to the sum of the weights left falls on one of the
/// entries left, never on `"None"`.
pub proof fn lemma_pick_is_an_entry(entries: Seq<(Seq<char>, int)>, roll: int, from: int)
    requires
        weights_positive(entries),
        0 <= from <= entries.len(),
        0 <= roll < weight_before(entries, entries.len() as int) - weight_before(entries, from),
    ensures
        exists|k: int| from <= k < entries.len() && pick_from(entries, roll, from) == entries[k].0,
    decreases entries.len() - from,
{
    if from >= entries.len() {
        assert(false);
    } else if roll < entries[from].1 {
        assert(from <= from < entries.len() && pick_from(entries, roll, from) == entries[from].0);
    } else {
        lemma_weight_step(entries, from);
        lemma_pick_is_an_entry(entries, roll - entries[from].1, from + 1);
        let k = choose|k: int|
            from + 1 <= k < entries.len() && pick_from(entries, roll - entries[from].1, from + 1)
                == entries[k].0;
        assert(from <= k < entries.len() && pick_from(entries, roll, from) == entries[k].0);
    }
}

/// One entry more adds its weight to the sum.
pub proof fn lemma_weight_step(entries: Seq<(Seq<char>, int)>, k: int)
    requires
        0 <= k < entries.len(),
    ensures
        weight_before(entries, k + 1) == weight_before(entries, k) + entries[k].1,
{
}

/// Each kind gets its share: entry `k` is picked by exactly the rolls from
/// the sum of the weights before it up to that sum plus its own weight, so
/// by as many rolls as its weight says, out of a total of rolls that is the
/// sum of all weights.
pub proof fn lemma_pick_by_share(entries: Seq<(Seq<char>, int)>, k: int, roll: int)
    requires
        weights_positive(entries),
        0 <= k < entries.len(),
        weight_before(entries, k) <= roll < weight_before(entries, k) + entries[k].1,
    ensures
        picked(entries, roll) == entries[k].0,
        0 <= roll < weight_before(entries, entries.len() as int),
{
    lemma_pick_from(entries, k, roll, 0);
    lemma_weight_grows(entries, 0, k);
    lemma_weight_grows(entries, k + 1, entries.len() as int);
}

/// A table of kinds to pick from. Only positive weights are kept, and
/// `total_weight` is their sum.
pub struct RandomTable {
    entries: Vec<RandomEntry>,
    total_weight: i32,
}

impl View for RandomTable {
    type V = Seq<(Seq<char>, int)>;

    closed spec fn view(&self) -> Seq<(Seq<char>, int)> {
        Seq::new(self.entries@.len(), |i: int| self.entries@[i]@)
    }
}

impl RandomTable {
    #[verifier::type_invariant]
    spec fn wf(self) -> bool {
        &&& weights_positive(self@)
        &&& self.total_weight == weight_before(self@, self@.len() as int)
        &&& self.total_weight < i32::MAX
    }

    /// The sum of the weights.
    pub closed spec fn total(self) -> int {
        self.total_weight as int
    }

    /// A table with no entries.
    pub fn new() -> (t: RandomTable)
        ensures
            t@ == Seq::<(Seq<char>, int)>::empty(),
            t.total() == 0,
    {
        let t = RandomTable { entries: Vec::new(), total_weight: 0 };
        assert(t@ =~= Seq::<(Seq<char>, int)>::empty());
        t
    }

    /// The table with one kind more. A weight that is not positive gives
    /// the kind no share, and the table stays as it is.
    pub fn add(self, name: &str, weight: i32) -> (t: RandomTable)
        requires
            self.total() + weight < i32::MAX,
        ensures
            t@ == if weight > 0 {
                self@.push((name@, weight as int))
            } else {
                self@
            },
            t.total() == if weight > 0 {
                self.total() + weight
            } else {
                self.total()
            },
    {
        proof {
            use_type_invariant(&self);
        }
        if weight > 0 {
            let ghost before = self@;
            let total: i32 = self.total_weight + weight;
            let mut entries = self.entries;
            entries.push(RandomEntry::new(name, weight));
            proof {
                let after = Seq::new(entries@.len(), |i: int| entries@[i]@);
                assert(after =~= before.push((name@, weight as int)));
                lemma_weight_before_push(before, (name@, weight as int));
            }
            RandomTable { entries, total_weight: total }
        } else {
            self
        }
    }

    /// The sum of the weights, all of which are positive.
    pub fn total_weight(&self) -> (w: i32)
        ensures
            w == self.total(),
            w == weight_before(self@, self@.len() as int),
            weights_positive(self@),
    {
        proof {
            use_type_invariant(self);
        }
        self.total_weight
    }

    /// The kind that `roll` falls on.
    pub fn pick(&self, roll: i32) -> (name: String)
        ensures
            name@ == picked(self@, roll as int),
    {
        proof {
            use_type_invariant(self);
        }
        let mut left: i32 = roll;
        let mut index: usize = 0;
        while index < self.entries.len()
            invariant
                0 <= index <= self.entries@.len(),
                weights_positive(self@),
                self@.len() == self.entries@.len(),
                left <= roll,
                picked(self@, roll as int) == pick_from(self@, left as int, index as int),
            decreases self.entries@.len() - index,
        {
            assert(self@[index as int] == self.entries@[index as int]@);
            if left < self.entries[index].weight {
                return self.entries[index].name.clone();
            }
            left -= self.entries[index].weight;
            index += 1;
        }
        String::from_str("None")
    }

    /// Draws one kind, each in proportion to its weight. A table whose
    /// weights sum to zero gives `"None"`.
    pub fn roll(&self, rng: &mut RandomNumberGenerator) -> (name: String)
        ensures
            self.total() == weight_before(self@, self@.len() as int),
            self.total() == 0 ==> name@ == "None"@,
            self.total() != 0 ==> exists|roll: int|
                0 <= roll < self.total() && name@ == #[trigger] picked(self@, roll),
    {
        proof {
            use_type_invariant(self);
            lemma_weight_grows(self@, 0, self@.len() as int);
        }
        if self.total_weight == 0 {
            return String::from_str("None");
        }
        let roll: i32 = roll_dice(rng, 1, self.total_weight) - 1;
        self.pick(roll)
    }
}

proof fn lemma_weight_before_prefix(entries: Seq<(Seq<char>, int)>, e: (Seq<char>, int), k: int)
    requires
        0 <= k <= entries.len(),
    ensures
        weight_before(entries.push(e), k) == weight_before(entries, k),
    decreases k,
{
    if k > 0 {
        lemma_weight_before_prefix(entries, e, k - 1);
        assert(entries.push(e)[k - 1] == entries[k - 1]);
    }
}

proof fn lemma_weight_before_push(entries: Seq<(Seq<char>, int)>, e: (Seq<char>, int))
    ensures
        weight_before(entries.push(e), entries.len() as int + 1) == weight_before(
            entries,
            entries.len() as int,
        ) + e.1,
        weights_positive(entries) && e.1 > 0 ==> weights_positive(entries.push(e)),
{
    lemma_weight_before_prefix(entries, e, entries.len() as int);
    assert(entries.push(e)[entries.len() as int] == e);
    if weights_positive(entries) && e.1 > 0 {
        assert forall|j: int| 0 <= j < entries.push(e).len() implies (#[trigger] entries.push(
            e,
        )[j]).1 > 0 by {
            if j < entries.len() {
                assert(entries.push(e)[j] == entries[j]);
            }
        }
    }
}

} // verus!
