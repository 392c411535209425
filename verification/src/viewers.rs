//! Participant sets and the diff between two observations.

use vstd::prelude::*;

verus! {

/// The mathematical content of a list of participant names: the sequence of
/// their character sequences.
pub open spec fn names_of(s: Seq<String>) -> Seq<Seq<char>> {
    s.map_values(|x: String| x@)
}

/// A set of participant names. Duplicates are never stored: two entries with
/// the same characters are the same participant.
#[derive(Debug)]
pub struct ViewerSet {
    names: Vec<String>,
}

impl ViewerSet {
    /// The set of names held, as a mathematical set of character sequences.
    pub closed spec fn view(&self) -> Set<Seq<char>> {
        names_of(self.names@).to_set()
    }

    /// The names held, in storage order (first insertion first).
    pub closed spec fn name_seq(&self) -> Seq<Seq<char>> {
        names_of(self.names@)
    }

    /// Well-formed: no two stored entries spell the same name.
    pub closed spec fn wf(&self) -> bool {
        forall|i: int, j: int|
            0 <= i < j < self.names@.len() ==> self.names@[i]@ != self.names@[j]@
    }

    proof fn lemma_index(&self)
        ensures
            self.name_seq().len() == self.names@.len(),
            forall|i: int|
                0 <= i < self.names@.len() ==> #[trigger] self.name_seq()[i] == self.names@[i]@,
    {
    }

    /// A name is in the set exactly when some position of the stored order
    /// holds it.
    pub proof fn lemma_seq_membership(&self, n: Seq<char>)
        ensures
            self@.contains(n) <==> exists|i: int|
                0 <= i < self.name_seq().len() && self.name_seq()[i] == n,
    {
        let m = names_of(self.names@);
        self.lemma_index();
        if self@.contains(n) {
            assert(m.contains(n));
            let i = choose|i: int| 0 <= i < m.len() && m[i] == n;
            assert(self.name_seq()[i] == n);
        }
        if exists|i: int| 0 <= i < self.name_seq().len() && self.name_seq()[i] == n {
            let i = choose|i: int| 0 <= i < self.name_seq().len() && self.name_seq()[i] == n;
            assert(m[i] == n);
            assert(m.contains(n));
        }
    }

    pub fn new() -> (r: ViewerSet)
        ensures
            r.wf(),
            r@ == Set::<Seq<char>>::empty(),
            r.name_seq() == Seq::<Seq<char>>::empty(),
    {
        let r = ViewerSet { names: Vec::new() };
        proof {
            assert(r.name_seq() =~= Seq::<Seq<char>>::empty());
            assert(r@ =~= Set::<Seq<char>>::empty());
        }
        r
    }

    /// Whether `name` is in the set.
    pub fn contains(&self, name: &String) -> (r: bool)
        ensures
            r == self@.contains(name@),
    {
        proof {
            self.lemma_index();
            self.lemma_seq_membership(name@);
        }
        let mut k: usize = 0;
        while k < self.names.len()
            invariant
                0 <= k <= self.names@.len(),
                forall|i: int| 0 <= i < k ==> self.names@[i]@ != name@,
            decreases self.names@.len() - k,
        {
            if self.names[k] == *name {
                proof {
                    self.lemma_index();
                    self.lemma_seq_membership(name@);
                    assert(self.name_seq()[k as int] == name@);
                }
                return true;
            }
            k += 1;
        }
        proof {
            self.lemma_index();
            self.lemma_seq_membership(name@);
            assert forall|i: int| 0 <= i < self.name_seq().len() implies self.name_seq()[i]
                != name@ by {
                assert(self.names@[i]@ != name@);
            }
        }
        false
    }

    /// Adds `name` unless an entry with the same characters is already held.
    pub fn insert(&mut self, name: String)
        requires
            old(self).wf(),
        ensures
            final(self).wf(),
            final(self)@ == old(self)@.insert(name@),
            final(self).name_seq() == if old(self)@.contains(name@) {
                old(self).name_seq()
            } else {
                old(self).name_seq().push(name@)
            },
    {
        if self.contains(&name) {
            proof {
                assert(self@ =~= old(self)@.insert(name@));
            }
        } else {
            let ghost pre = self.names@;
            proof {
                old(self).lemma_index();
                old(self).lemma_seq_membership(name@);
            }
            self.names.push(name);
            proof {
                self.lemma_index();
                assert(self.names@ == pre.push(name));
                assert forall|i: int, j: int|
                    0 <= i < j < self.names@.len() implies self.names@[i]@ != self.names@[j]@ by {
                    if j < pre.len() {
                        assert(old(self).names@[i]@ != old(self).names@[j]@);
                    } else {
                        assert(self.names@[j]@ == name@);
                        assert(old(self).name_seq()[i] != name@);
                        assert(self.names@[i]@ == old(self).names@[i]@);
                    }
                }
                assert(self.name_seq() =~= old(self).name_seq().push(name@));
                assert forall|n: Seq<char>| #[trigger]
                    self@.contains(n) implies old(self)@.insert(name@).contains(n) by {
                    self.lemma_seq_membership(n);
                    old(self).lemma_seq_membership(n);
                    let i = choose|i: int|
                        0 <= i < self.name_seq().len() && self.name_seq()[i] == n;
                    if i < pre.len() {
                        assert(old(self).name_seq()[i] == n);
                    } else {
                        assert(n == name@);
                    }
                }
                assert forall|n: Seq<char>| #[trigger]
                    old(self)@.insert(name@).contains(n) implies self@.contains(n) by {
                    self.lemma_seq_membership(n);
                    old(self).lemma_seq_membership(n);
                    if n == name@ {
                        assert(self.name_seq()[pre.len() as int] == n);
                    } else {
                        let i = choose|i: int|
                            0 <= i < old(self).name_seq().len() && old(self).name_seq()[i] == n;
                        assert(self.name_seq()[i] == n);
                    }
                }
                assert(self@ =~= old(self)@.insert(name@));
            }
        }
    }

    /// How many distinct names are held.
    pub fn len(&self) -> (n: usize)
        requires
            self.wf(),
        ensures
            n == self@.len(),
            n == self.name_seq().len(),
    {
        proof {
            self.lemma_cardinality();
            self.lemma_index();
        }
        self.names.len()
    }

    /// A well-formed set holds exactly as many names as its stored order.
    pub proof fn lemma_cardinality(&self)
        requires
            self.wf(),
        ensures
            self@.len() == self.name_seq().len(),
            self@.finite(),
    {
        let mapped = names_of(self.names@);
        self.lemma_index();
        assert(mapped.no_duplicates()) by {
            assert forall|i: int, j: int|
                0 <= i < mapped.len() && 0 <= j < mapped.len() && i != j implies mapped[i]
                != mapped[j] by {
                if i < j {
                    assert(self.names@[i]@ != self.names@[j]@);
                } else {
                    assert(self.names@[j]@ != self.names@[i]@);
                }
            }
        }
        mapped.unique_seq_to_set();
    }

    /// The names held, in storage order.
    pub fn as_vec(&self) -> (r: &Vec<String>)
        ensures
            names_of(r@) == self.name_seq(),
    {
        &self.names
    }

}

/// The changes between the previous observation and the current one:
/// `new_viewers` are present now but were absent before, `left_viewers`
/// were present before but are absent now.
#[derive(Debug)]
pub struct ViewersDiff {
    pub new_viewers: ViewerSet,
    pub left_viewers: ViewerSet,
}

impl ViewersDiff {
    pub open spec fn wf(&self) -> bool {
        self.new_viewers.wf() && self.left_viewers.wf()
    }

    /// The diff exactly describes the transition from `prev` to `curr`.
    pub open spec fn is_diff_of(&self, prev: Set<Seq<char>>, curr: Set<Seq<char>>) -> bool {
        self.new_viewers@ == curr.difference(prev) && self.left_viewers@ == prev.difference(curr)
    }
}

/// No name is both new and departed: whatever the two observed sets were,
/// the diff between them keeps its two sets disjoint.
pub proof fn lemma_diff_disjoint(d: ViewersDiff, prev: Set<Seq<char>>, curr: Set<Seq<char>>)
    requires
        d.is_diff_of(prev, curr),
    ensures
        d.new_viewers@.disjoint(d.left_viewers@),
{
}

/// When nothing was observed before, nothing can have left, whatever was
/// fetched now: the first cycle's diff has no departures.
pub proof fn lemma_first_cycle_no_departures(d: ViewersDiff, curr: Set<Seq<char>>)
    requires
        d.is_diff_of(Set::<Seq<char>>::empty(), curr),
    ensures
        d.left_viewers@ == Set::<Seq<char>>::empty(),
{
    assert(Set::<Seq<char>>::empty().difference(curr) =~= Set::<Seq<char>>::empty());
}

/// If two consecutive fetches return identical sets, the second diff is
/// empty in both directions: the first poll leaves the fetched set as the
/// baseline, so the second poll diffs that set against itself.
pub proof fn lemma_idempotence_under_no_change(second: ViewersDiff, curr: Set<Seq<char>>)
    requires
        second.is_diff_of(curr, curr),
    ensures
        second.new_viewers@ == Set::<Seq<char>>::empty(),
        second.left_viewers@ == Set::<Seq<char>>::empty(),
{
    assert(curr.difference(curr) =~= Set::<Seq<char>>::empty());
}

/// Those of `a` that are not in `b`.
pub fn set_difference(a: &ViewerSet, b: &ViewerSet) -> (r: ViewerSet)
    requires
        a.wf(),
        b.wf(),
    ensures
        r.wf(),
        r@ == a@.difference(b@),
{
    let mut r = ViewerSet::new();
    let mut k: usize = 0;
    while k < a.names.len()
        invariant
            0 <= k <= a.names@.len(),
            a.wf(),
            b.wf(),
            r.wf(),
            forall|n: Seq<char>| #[trigger]
                r@.contains(n) <==> exists|i: int|
                    0 <= i < k && a.names@[i]@ == n && !b@.contains(n),
        decreases a.names@.len() - k,
    {
        let ghost r_pre = r@;
        let name = &a.names[k];
        if !b.contains(name) {
            r.insert(name.clone());
        }
        k += 1;
        proof {
            assert forall|n: Seq<char>| #[trigger] r@.contains(n) implies exists|i: int|
                0 <= i < k && a.names@[i]@ == n && !b@.contains(n) by {
                if r_pre.contains(n) {
                    let i = choose|i: int|
                        0 <= i < k - 1 && a.names@[i]@ == n && !b@.contains(n);
                    assert(0 <= i < k && a.names@[i]@ == n && !b@.contains(n));
                } else {
                    assert(a.names@[k - 1]@ == n && !b@.contains(n));
                }
            }
            assert forall|n: Seq<char>|
                (exists|i: int| 0 <= i < k && a.names@[i]@ == n && !b@.contains(n)) implies
                #[trigger] r@.contains(n) by {
                let i = choose|i: int| 0 <= i < k && a.names@[i]@ == n && !b@.contains(n);
                if i < k - 1 {
                    assert(r_pre.contains(n));
                } else {
                    assert(a.names@[k - 1]@ == n);
                }
            }
        }
    }
    proof {
        a.lemma_index();
        assert forall|n: Seq<char>| #[trigger] a@.difference(b@).contains(n) implies r@.contains(
            n,
        ) by {
            a.lemma_seq_membership(n);
            let i = choose|i: int| 0 <= i < a.name_seq().len() && a.name_seq()[i] == n;
            assert(a.names@[i]@ == n);
        }
        assert forall|n: Seq<char>| #[trigger] r@.contains(n) implies a@.difference(b@).contains(
            n,
        ) by {
            a.lemma_seq_membership(n);
            let i = choose|i: int| 0 <= i < a.names@.len() && a.names@[i]@ == n && !b@.contains(n);
            assert(a.name_seq()[i] == n);
        }
        assert(r@ =~= a@.difference(b@));
    }
    r
}

} // verus!
