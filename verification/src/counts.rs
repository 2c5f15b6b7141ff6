//! Counting diagnostics by name.

use vstd::prelude::*;

verus! {

/// How often each diagnostic occurred, by the name of the diagnostic.
///
/// The names stand in the order in which they first occurred.
#[derive(Debug, PartialEq, Eq)]
pub struct CheckCounts {
    entries: Vec<(String, usize)>,
}

/// Whether `i` is the first position of `entries` that holds `name`.
pub open spec fn holds_at(entries: Seq<(Seq<char>, nat)>, name: Seq<char>, i: int) -> bool {
    &&& 0 <= i < entries.len()
    &&& entries[i].0 == name
    &&& forall|k: int| 0 <= k < i ==> (#[trigger] entries[k]).0 != name
}

/// The first position of `entries` that holds `name`, or the length of
/// `entries` where none does.
pub open spec fn position_of(entries: Seq<(Seq<char>, nat)>, name: Seq<char>) -> int {
    if exists|i: int| holds_at(entries, name, i) {
        choose|i: int| holds_at(entries, name, i)
    } else {
        entries.len() as int
    }
}

/// The count that `entries` holds for `name`; 0 where it holds none.
pub open spec fn count_in(entries: Seq<(Seq<char>, nat)>, name: Seq<char>) -> nat {
    let at = position_of(entries, name);
    if at < entries.len() {
        entries[at].1
    } else {
        0
    }
}

/// The sum of all counts of `entries`.
pub open spec fn total_of(entries: Seq<(Seq<char>, nat)>) -> nat
    decreases entries.len(),
{
    if entries.len() == 0 {
        0
    } else {
        total_of(entries.drop_last()) + entries.last().1
    }
}

/// `entries` after one more occurrence of `name`: its count is one higher,
/// or it enters at the end with the count 1.
pub open spec fn bumped(entries: Seq<(Seq<char>, nat)>, name: Seq<char>) -> Seq<
    (Seq<char>, nat),
> {
    let at = position_of(entries, name);
    if at < entries.len() {
        entries.update(at, (name, entries[at].1 + 1))
    } else {
        entries.push((name, 1))
    }
}

/// `entries` after one more occurrence of each of `names`, in their order.
pub open spec fn bumped_all(entries: Seq<(Seq<char>, nat)>, names: Seq<Seq<char>>) -> Seq<
    (Seq<char>, nat),
>
    decreases names.len(),
{
    if names.len() == 0 {
        entries
    } else {
        bumped(bumped_all(entries, names.drop_last()), names.last())
    }
}

/// `entries` after `times` more occurrences of `name`.
pub open spec fn bumped_times(entries: Seq<(Seq<char>, nat)>, name: Seq<char>, times: nat) -> Seq<
    (Seq<char>, nat),
>
    decreases times,
{
    if times == 0 {
        entries
    } else {
        bumped(bumped_times(entries, name, (times - 1) as nat), name)
    }
}

/// Whether no name occurs twice in `entries`.
pub open spec fn distinct_names(entries: Seq<(Seq<char>, nat)>) -> bool {
    forall|i: int, j: int|
        0 <= i < j < entries.len() ==> (#[trigger] entries[i]).0 != (#[trigger] entries[j]).0
}

/// What a list of names and machine counts stands for.
pub open spec fn entries_view(entries: Seq<(String, usize)>) -> Seq<(Seq<char>, nat)> {
    entries.map_values(|e: (String, usize)| (e.0@, e.1 as nat))
}

/// The position that [`position_of`] gives is the one that a search from
/// the front finds.
pub proof fn lemma_position_of(entries: Seq<(Seq<char>, nat)>, name: Seq<char>, i: int)
    requires
        0 <= i <= entries.len(),
        forall|k: int| 0 <= k < i ==> (#[trigger] entries[k]).0 != name,
        i < entries.len() ==> entries[i].0 == name,
    ensures
        position_of(entries, name) == i,
{
    if i < entries.len() {
        assert(holds_at(entries, name, i));
        let at = choose|at: int| holds_at(entries, name, at);
        if at < i {
            assert(entries[at].0 != name);
        } else if i < at {
            assert(entries[i].0 != name);
        }
    } else {
        if exists|at: int| holds_at(entries, name, at) {
            let at = choose|at: int| holds_at(entries, name, at);
            assert(entries[at].0 != name);
        }
    }
}

/// One count more at one position is one more in the sum.
pub proof fn lemma_total_of_update(entries: Seq<(Seq<char>, nat)>, at: int, name: Seq<char>)
    requires
        0 <= at < entries.len(),
    ensures
        total_of(entries.update(at, (name, entries[at].1 + 1))) == total_of(entries) + 1,
    decreases entries.len(),
{
    let after = entries.update(at, (name, entries[at].1 + 1));
    if at == entries.len() - 1 {
        assert(after.drop_last() =~= entries.drop_last());
    } else {
        lemma_total_of_update(entries.drop_last(), at, name);
        assert(after.drop_last() =~= entries.drop_last().update(
            at,
            (name, entries.drop_last()[at].1 + 1),
        ));
    }
}

/// One more occurrence is one more in the sum.
pub proof fn lemma_total_of_bumped(entries: Seq<(Seq<char>, nat)>, name: Seq<char>)
    ensures
        total_of(bumped(entries, name)) == total_of(entries) + 1,
{
    let at = position_of(entries, name);
    if at < entries.len() {
        if exists|i: int| holds_at(entries, name, i) {
            lemma_total_of_update(entries, at, name);
        }
    } else {
        assert(entries.push((name, 1nat)).drop_last() =~= entries);
    }
}

/// Each occurrence of a list of names is one more in the sum.
pub proof fn lemma_total_of_bumped_all(entries: Seq<(Seq<char>, nat)>, names: Seq<Seq<char>>)
    ensures
        total_of(bumped_all(entries, names)) == total_of(entries) + names.len(),
    decreases names.len(),
{
    if names.len() > 0 {
        lemma_total_of_bumped_all(entries, names.drop_last());
        lemma_total_of_bumped(bumped_all(entries, names.drop_last()), names.last());
    }
}

/// Each of a number of occurrences is one more in the sum.
pub proof fn lemma_total_of_bumped_times(
    entries: Seq<(Seq<char>, nat)>,
    name: Seq<char>,
    times: nat,
)
    ensures
        total_of(bumped_times(entries, name, times)) == total_of(entries) + times,
    decreases times,
{
    if times > 0 {
        lemma_total_of_bumped_times(entries, name, (times - 1) as nat);
        lemma_total_of_bumped(bumped_times(entries, name, (times - 1) as nat), name);
    }
}

/// No count is above the sum of all counts.
pub proof fn lemma_count_within_total(entries: Seq<(Seq<char>, nat)>, at: int)
    requires
        0 <= at < entries.len(),
    ensures
        entries[at].1 <= total_of(entries),
    decreases entries.len(),
{
    if at < entries.len() - 1 {
        lemma_count_within_total(entries.drop_last(), at);
    }
}

/// One more occurrence of a name leaves the names distinct.
pub proof fn lemma_bumped_keeps_distinct(entries: Seq<(Seq<char>, nat)>, name: Seq<char>)
    requires
        distinct_names(entries),
    ensures
        distinct_names(bumped(entries, name)),
{
    let at = position_of(entries, name);
    let after = bumped(entries, name);
    if exists|i: int| holds_at(entries, name, i) {
        assert(holds_at(entries, name, at));
        assert forall|i: int, j: int| 0 <= i < j < after.len() implies (#[trigger] after[i]).0 != (
        #[trigger] after[j]).0 by {
            assert(after[i].0 == entries[i].0);
            assert(after[j].0 == entries[j].0);
        }
    } else {
        assert forall|i: int, j: int| 0 <= i < j < after.len() implies (#[trigger] after[i]).0 != (
        #[trigger] after[j]).0 by {
            if j == entries.len() {
                if entries[i].0 == name {
                    lemma_first_holder(entries, name, i);
                }
            } else {
                assert(after[i] == entries[i]);
                assert(after[j] == entries[j]);
            }
        }
    }
}

/// Where some position holds `name`, a first one does.
pub proof fn lemma_first_holder(entries: Seq<(Seq<char>, nat)>, name: Seq<char>, i: int)
    requires
        0 <= i < entries.len(),
        entries[i].0 == name,
    ensures
        exists|at: int| holds_at(entries, name, at),
    decreases i,
{
    if forall|k: int| 0 <= k < i ==> (#[trigger] entries[k]).0 != name {
        assert(holds_at(entries, name, i));
    } else {
        let k = choose|k: int| 0 <= k < i && (#[trigger] entries[k]).0 == name;
        lemma_first_holder(entries, name, k);
    }
}

impl View for CheckCounts {
    type V = Seq<(Seq<char>, nat)>;

    closed spec fn view(&self) -> Seq<(Seq<char>, nat)> {
        entries_view(self.entries@)
    }
}

impl Clone for CheckCounts {
    fn clone(&self) -> (copy: CheckCounts)
        ensures
            copy@ == self@,
    {
        let mut entries: Vec<(String, usize)> = Vec::new();
        let mut i: usize = 0;
        while i < self.entries.len()
            invariant
                i <= self.entries.len(),
                entries@.len() == i,
                forall|k: int|
                    0 <= k < i ==> (#[trigger] entries@[k]).0@ == self.entries@[k].0@
                        && entries@[k].1 == self.entries@[k].1,
            decreases self.entries.len() - i,
        {
            let name = self.entries[i].0.clone();
            entries.push((name, self.entries[i].1));
            i = i + 1;
        }
        let copy = CheckCounts { entries };
        assert(copy@ =~= self@);
        copy
    }
}

impl CheckCounts {
    /// Returns counts that hold no name.
    pub fn new() -> (counts: CheckCounts)
        ensures
            counts@ == Seq::<(Seq<char>, nat)>::empty(),
    {
        let counts = CheckCounts { entries: Vec::new() };
        assert(counts@ =~= Seq::<(Seq<char>, nat)>::empty());
        counts
    }

    fn find(&self, name: &str) -> (at: usize)
        ensures
            at == position_of(self@, name@),
            at <= self.entries@.len(),
            self@.len() == self.entries@.len(),
    {
        let key = String::from_str(name);
        let mut i: usize = 0;
        while i < self.entries.len()
            invariant
                i <= self.entries.len(),
                key@ == name@,
                forall|k: int| 0 <= k < i ==> (#[trigger] self@[k]).0 != name@,
            decreases self.entries.len() - i,
        {
            if self.entries[i].0 == key {
                proof {
                    lemma_position_of(self@, name@, i as int);
                }
                return i;
            }
            i = i + 1;
        }
        proof {
            lemma_position_of(self@, name@, i as int);
        }
        i
    }

    /// Counts one more occurrence of `name`.
    pub fn record(&mut self, name: &str)
        requires
            total_of(old(self)@) < usize::MAX,
        ensures
            final(self)@ == bumped(old(self)@, name@),
    {
        let at = self.find(name);
        if at < self.entries.len() {
            proof {
                lemma_count_within_total(self@, at as int);
            }
            let count = self.entries[at].1;
            let entry_name = self.entries[at].0.clone();
            self.entries.set(at, (entry_name, count + 1));
            assert(self@ =~= bumped(old(self)@, name@));
        } else {
            self.entries.push((String::from_str(name), 1));
            assert(self@ =~= bumped(old(self)@, name@));
        }
    }

    /// Returns how often `name` occurred.
    pub fn get(&self, name: &str) -> (count: usize)
        ensures
            count == count_in(self@, name@),
    {
        let at = self.find(name);
        if at < self.entries.len() {
            self.entries[at].1
        } else {
            0
        }
    }

    /// Tells whether `name` occurred.
    pub fn contains_key(&self, name: &str) -> (found: bool)
        ensures
            found == (position_of(self@, name@) < self@.len()),
    {
        let at = self.find(name);
        at < self.entries.len()
    }

    /// Returns the number of names.
    pub fn len(&self) -> (n: usize)
        ensures
            n == self@.len(),
    {
        self.entries.len()
    }

    /// Tells whether no name occurred.
    pub fn is_empty(&self) -> (empty: bool)
        ensures
            empty == (self@.len() == 0),
    {
        self.entries.len() == 0
    }

    /// Returns the sum of all counts, or `None` where it does not fit in
    /// `usize`.
    pub fn total(&self) -> (sum: Option<usize>)
        ensures
            sum == if total_of(self@) <= usize::MAX {
                Some(total_of(self@) as usize)
            } else {
                None
            },
    {
        let mut sum: usize = 0;
        let mut i: usize = 0;
        while i < self.entries.len()
            invariant
                i <= self.entries.len(),
                self@.len() == self.entries@.len(),
                sum == total_of(self@.take(i as int)),
            decreases self.entries.len() - i,
        {
            let count = self.entries[i].1;
            proof {
                assert(self@.take(i + 1).drop_last() =~= self@.take(i as int));
                assert(self@.take(i + 1).last().1 == count);
            }
            if count > usize::MAX - sum {
                proof {
                    lemma_total_of_grows(self@, i + 1);
                }
                return None;
            }
            sum = sum + count;
            i = i + 1;
        }
        assert(self@.take(i as int) =~= self@);
        Some(sum)
    }

    /// Returns the names with their counts, in the order in which the names
    /// first occurred.
    pub fn as_slice(&self) -> (entries: &[(String, usize)])
        ensures
            entries_view(entries@) == self@,
    {
        self.entries.as_slice()
    }
}

/// The sum of all counts is at least the sum of the counts of a prefix.
pub proof fn lemma_total_of_grows(entries: Seq<(Seq<char>, nat)>, k: int)
    requires
        0 <= k <= entries.len(),
    ensures
        total_of(entries.take(k)) <= total_of(entries),
    decreases entries.len() - k,
{
    if k == entries.len() {
        assert(entries.take(k) =~= entries);
    } else {
        lemma_total_of_grows(entries, k + 1);
        assert(entries.take(k + 1).drop_last() =~= entries.take(k));
    }
}

} // verus!
