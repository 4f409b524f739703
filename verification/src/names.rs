//! File names that do not collide: `slug.html`, then `slug-1.html`,
//! `slug-2.html`, and so on.

use vstd::prelude::*;
use vstd::set_lib::lemma_len_subset;
use crate::text::{decimal, lemma_decimal_injective, lemma_decimal_len, push_decimal};

verus! {

/// The `n`-th candidate file name for `base`.
pub open spec fn file_name(base: Seq<char>, n: nat) -> Seq<char> {
    if n == 0 {
        base + seq!['.', 'h', 't', 'm', 'l']
    } else {
        base + seq!['-'] + decimal(n) + seq!['.', 'h', 't', 'm', 'l']
    }
}

/// Different candidates for one base are different names.
pub proof fn lemma_file_name_injective(base: Seq<char>, j: nat, k: nat)
    requires
        file_name(base, j) == file_name(base, k),
    ensures
        j == k,
{
    lemma_decimal_len(j);
    lemma_decimal_len(k);
    let a = file_name(base, j);
    if j != 0 && k != 0 {
        let lo = base.len() + 1;
        assert(a.subrange(lo as int, a.len() - 5) == decimal(j));
        assert(file_name(base, k).subrange(lo as int, a.len() - 5) == decimal(k));
        lemma_decimal_injective(j, k);
    } else if j != 0 || k != 0 {
        assert(file_name(base, j).len() != file_name(base, k).len());
    }
}

/// The first `n` candidates for `base`.
pub open spec fn candidates_below(base: Seq<char>, n: nat) -> Set<Seq<char>>
    decreases n,
{
    if n == 0 {
        Set::empty()
    } else {
        candidates_below(base, (n - 1) as nat).insert(file_name(base, (n - 1) as nat))
    }
}

proof fn lemma_candidates_below(base: Seq<char>, n: nat)
    ensures
        candidates_below(base, n).finite(),
        candidates_below(base, n).len() == n,
        forall|x: Seq<char>| #[trigger]
            candidates_below(base, n).contains(x) <==> exists|k: nat|
                k < n && x == file_name(base, k),
    decreases n,
{
    if n > 0 {
        let m = (n - 1) as nat;
        lemma_candidates_below(base, m);
        if candidates_below(base, m).contains(file_name(base, m)) {
            let k = choose|k: nat| k < m && file_name(base, m) == file_name(base, k);
            lemma_file_name_injective(base, m, k);
        }
        assert forall|x: Seq<char>| #[trigger]
            candidates_below(base, n).contains(x) implies exists|k: nat|
                k < n && x == file_name(base, k) by {
            if x != file_name(base, m) {
                let k = choose|k: nat| k < m && x == file_name(base, k);
                assert(k < n && x == file_name(base, k));
            } else {
                assert(m < n && x == file_name(base, m));
            }
        }
        assert forall|x: Seq<char>|
            (exists|k: nat| k < n && x == file_name(base, k)) implies #[trigger] candidates_below(
            base,
            n,
        ).contains(x) by {
            let k = choose|k: nat| k < n && x == file_name(base, k);
            if k < m {
                assert(candidates_below(base, m).contains(x));
            }
        }
    }
}

/// The mathematical form of a [`NameRegistry`]: for each base, the number of
/// its last candidate handed out, and the set of names in use.
pub struct NamesModel {
    pub counts: Map<Seq<char>, nat>,
    pub used: Set<Seq<char>>,
}

/// The map that a list of distinct keys and their counts stands for.
pub open spec fn counts_map(s: Seq<(String, usize)>) -> Map<Seq<char>, nat>
    decreases s.len(),
{
    if s.len() == 0 {
        Map::empty()
    } else {
        counts_map(s.drop_last()).insert(s.last().0@, s.last().1 as nat)
    }
}

/// The set of the names in `s`.
pub open spec fn name_set(s: Seq<String>) -> Set<Seq<char>> {
    s.map_values(|x: String| x@).to_set()
}

/// A registry moves from `before` to `after` by handing out `name` for `base`:
/// the first candidate from the base's count on that was not in use.
pub open spec fn hands_out(before: NamesModel, after: NamesModel, base: Seq<char>, name: Seq<char>) -> bool {
    let n0: nat = if before.counts.contains_key(base) {
        before.counts[base]
    } else {
        0
    };
    &&& exists|n: nat|
        {
            &&& n0 <= n
            &&& name == file_name(base, n)
            &&& !before.used.contains(name)
            &&& forall|k: nat| n0 <= k < n ==> before.used.contains(#[trigger] file_name(base, k))
            &&& after.counts == before.counts.insert(base, n)
        }
    &&& after.used == before.used.insert(name)
}

/// The names handed out so far, and for each base the count of the candidate
/// to try next.
pub struct NameRegistry {
    counts: Vec<(String, usize)>,
    used: Vec<String>,
}

proof fn lemma_counts_map_domain(s: Seq<(String, usize)>)
    ensures
        forall|k: Seq<char>| #[trigger]
            counts_map(s).contains_key(k) <==> exists|i: int| 0 <= i < s.len() && s[i].0@ == k,
    decreases s.len(),
{
    if s.len() > 0 {
        lemma_counts_map_domain(s.drop_last());
        assert forall|k: Seq<char>| #[trigger] counts_map(s).contains_key(k) implies exists|i: int|
            0 <= i < s.len() && s[i].0@ == k by {
            let t = s.drop_last();
            if k != s.last().0@ {
                assert(counts_map(t).contains_key(k));
                let i = choose|i: int| 0 <= i < t.len() && #[trigger] t[i].0@ == k;
                assert(s[i] == t[i]);
            } else {
                assert(s[s.len() - 1].0@ == k);
            }
        }
        assert forall|k: Seq<char>| (exists|i: int| 0 <= i < s.len() && s[i].0@ == k) implies #[trigger]
            counts_map(s).contains_key(k) by {
            let i = choose|i: int| 0 <= i < s.len() && s[i].0@ == k;
            let t = s.drop_last();
            if i < s.len() - 1 {
                assert(t[i].0@ == k);
                assert(counts_map(t).contains_key(k));
            }
        }
    }
}

/// With distinct keys, the count of the key at `j` is the one stored there.
proof fn lemma_counts_map_at(s: Seq<(String, usize)>, j: int)
    requires
        0 <= j < s.len(),
        forall|a: int, b: int| 0 <= a < b < s.len() ==> s[a].0@ != s[b].0@,
    ensures
        counts_map(s).contains_key(s[j].0@),
        counts_map(s)[s[j].0@] == s[j].1 as nat,
    decreases s.len(),
{
    if j < s.len() - 1 {
        lemma_counts_map_at(s.drop_last(), j);
        assert(s.drop_last()[j] == s[j]);
    }
}

/// Storing a new count for the key at `j` updates the map at that key.
proof fn lemma_counts_map_update(s: Seq<(String, usize)>, j: int, e: (String, usize))
    requires
        0 <= j < s.len(),
        e.0@ == s[j].0@,
        forall|a: int, b: int| 0 <= a < b < s.len() ==> s[a].0@ != s[b].0@,
    ensures
        counts_map(s.update(j, e)) == counts_map(s).insert(e.0@, e.1 as nat),
    decreases s.len(),
{
    let t = s.update(j, e);
    if j == s.len() - 1 {
        assert(t.drop_last() == s.drop_last());
    } else {
        assert(t.drop_last() == s.drop_last().update(j, e));
        lemma_counts_map_update(s.drop_last(), j, e);
        assert(s.last().0@ != e.0@);
        assert(counts_map(t) == counts_map(s.drop_last()).insert(e.0@, e.1 as nat).insert(
            s.last().0@,
            s.last().1 as nat,
        ));
    }
}

impl NameRegistry {
    /// The model of this registry.
    pub closed spec fn model(&self) -> NamesModel {
        NamesModel { counts: counts_map(self.counts@), used: name_set(self.used@) }
    }

    /// No base is counted twice, no name is held twice, and for each base
    /// every candidate up to its count is in use.
    pub closed spec fn wf(&self) -> bool {
        &&& forall|a: int, b: int|
            0 <= a < b < self.counts@.len() ==> self.counts@[a].0@ != self.counts@[b].0@
        &&& forall|a: int, b: int| 0 <= a < b < self.used@.len() ==> self.used@[a]@ != self.used@[b]@
        &&& forall|base: Seq<char>, k: nat| #[trigger]
            self.model().counts.contains_key(base) && k <= self.model().counts[base]
                ==> self.model().used.contains(#[trigger] file_name(base, k))
    }

    /// A registry with no names.
    pub fn new() -> (r: NameRegistry)
        ensures
            r.wf(),
            r.model().used.finite(),
            r.model().counts == Map::<Seq<char>, nat>::empty(),
            r.model().used == Set::<Seq<char>>::empty(),
    {
        let r = NameRegistry { counts: Vec::new(), used: Vec::new() };
        assert(r.model().used =~= Set::<Seq<char>>::empty());
        r
    }

    /// The position of `base` among the counted bases.
    fn find_base(&self, base: &String) -> (r: Option<usize>)
        ensures
            r matches Some(j) ==> j < self.counts@.len() && self.counts@[j as int].0@ == base@,
            r is None ==> forall|j: int| 0 <= j < self.counts@.len() ==> self.counts@[j].0@ != base@,
    {
        let mut j: usize = 0;
        while j < self.counts.len()
            invariant
                j <= self.counts@.len(),
                forall|i: int| 0 <= i < j ==> self.counts@[i].0@ != base@,
            decreases self.counts@.len() - j,
        {
            if self.counts[j].0 == *base {
                return Some(j);
            }
            j = j + 1;
        }
        None
    }

    /// Whether `name` is in use.
    fn is_used(&self, name: &String) -> (r: bool)
        ensures
            r == self.model().used.contains(name@),
    {
        let mut j: usize = 0;
        while j < self.used.len()
            invariant
                j <= self.used@.len(),
                forall|i: int| 0 <= i < j ==> self.used@[i]@ != name@,
            decreases self.used@.len() - j,
        {
            if self.used[j] == *name {
                proof {
                    assert(self.used@.map_values(|x: String| x@)[j as int] == name@);
                }
                return true;
            }
            j = j + 1;
        }
        proof {
            let vs = self.used@.map_values(|x: String| x@);
            if name_set(self.used@).contains(name@) {
                let i = choose|i: int| 0 <= i < vs.len() && #[trigger] vs[i] == name@;
                assert(self.used@[i]@ == name@);
            }
        }
        false
    }

    /// A registry holds finitely many names, no more than it has handed out.
    pub proof fn law_used_names_finite(&self)
        ensures
            self.model().used.finite(),
    {
        self.lemma_used_len();
    }

    proof fn lemma_used_len(&self)
        ensures
            self.model().used.finite(),
            self.model().used.len() <= self.used@.len(),
    {
        let s = self.used@.map_values(|x: String| x@);
        s.lemma_cardinality_of_set();
    }

    /// Hands out the first candidate for `base`, from its count on, that is not
    /// in use yet, and records it.
    pub fn unique_name(&mut self, base: &str) -> (r: String)
        requires
            old(self).wf(),
        ensures
            final(self).wf(),
            final(self).model().used.finite(),
            hands_out(old(self).model(), final(self).model(), base@, r@),
    {
        let b = String::from_str(base);
        let idx = self.find_base(&b);
        proof {
            lemma_counts_map_domain(self.counts@);
            if idx is Some {
                lemma_counts_map_at(self.counts@, idx->0 as int);
            }
        }
        let ghost m = self.model();
        let n0: usize = match idx {
            Some(j) => self.counts[j].1,
            None => 0,
        };
        assert(n0 as nat == if m.counts.contains_key(base@) {
            m.counts[base@]
        } else {
            0
        });
        let mut n: usize = n0;
        loop
            invariant
                self.wf(),
                self.model() == m,
                m == old(self).model(),
                n0 <= n,
                forall|k: nat| k < n ==> m.used.contains(#[trigger] file_name(base@, k)),
                b@ == base@,
                n0 as nat == (if m.counts.contains_key(base@) {
                    m.counts[base@]
                } else {
                    0
                }),
                idx matches Some(j) ==> j < self.counts@.len() && self.counts@[j as int].0@ == base@,
                idx is None ==> forall|j: int|
                    0 <= j < self.counts@.len() ==> self.counts@[j].0@ != base@,
            decreases self.used@.len() - n,
        {
            proof {
                lemma_candidates_below(base@, n as nat);
                self.lemma_used_len();
                assert(candidates_below(base@, n as nat).subset_of(m.used));
                lemma_len_subset(candidates_below(base@, n as nat), m.used);
            }
            let mut name = String::from_str(base);
            if n != 0 {
                name.push('-');
                push_decimal(&mut name, n);
            }
            name.append(".html");
            proof {
                reveal_strlit(".html");
                assert(".html"@ == seq!['.', 'h', 't', 'm', 'l']);
            }
            assert(name@ == file_name(base@, n as nat));
            if !self.is_used(&name) {
                let ghost old_used = self.used@;
                let ghost old_counts = self.counts@;
                self.used.push(name.clone());
                proof {
                    assert(self.used@.map_values(|x: String| x@) == old_used.map_values(
                        |x: String| x@,
                    ).push(name@));
                    old_used.map_values(|x: String| x@).lemma_push_to_set_commute(name@);
                    assert(name_set(self.used@) == name_set(old_used).insert(name@));
                }
                match idx {
                    Some(j) => {
                        self.counts.set(j, (b, n));
                        proof {
                            lemma_counts_map_update(old_counts, j as int, (b, n));
                            assert(self.counts@ == old_counts.update(j as int, (b, n)));
                        }
                    },
                    None => {
                        self.counts.push((b, n));
                        assert(self.counts@.drop_last() == old_counts);
                    },
                }
                proof {
                    assert(self.model().counts == m.counts.insert(base@, n as nat));
                    assert forall|base2: Seq<char>, k: nat| #[trigger]
                        self.model().counts.contains_key(base2) && k <= self.model().counts[base2]
                            implies self.model().used.contains(#[trigger] file_name(base2, k)) by {
                        if base2 != base@ {
                            assert(m.counts.contains_key(base2) && k <= m.counts[base2]);
                        } else if k < n {
                        } else {
                            assert(k == n);
                        }
                    }
                    assert forall|a: int, c: int|
                        0 <= a < c < self.used@.len() implies self.used@[a]@ != self.used@[c]@ by {
                        if c == self.used@.len() - 1 {
                            assert(self.used@[c]@ == name@);
                            assert(old_used.map_values(|x: String| x@)[a] == self.used@[a]@);
                        } else {
                            assert(self.used@[a] == old_used[a] && self.used@[c] == old_used[c]);
                        }
                    }
                    assert(self.wf());
                    assert(self.model().used == m.used.insert(name@));
                    let nn = n as nat;
                    assert(n0 <= nn && name@ == file_name(base@, nn) && !m.used.contains(name@));
                    assert(forall|k: nat| n0 <= k < nn ==> m.used.contains(#[trigger] file_name(base@, k)));
                    assert(hands_out(m, self.model(), base@, name@));
                    self.lemma_used_len();
                }
                return name;
            }
            let used_len = self.used.len();
            proof {
                lemma_candidates_below(base@, (n + 1) as nat);
                self.lemma_used_len();
                assert(candidates_below(base@, (n + 1) as nat).subset_of(m.used));
                lemma_len_subset(candidates_below(base@, (n + 1) as nat), m.used);
            }
            n = n + 1;
        }
    }
}

/// A registry never hands out one name twice: the name of a second call
/// differs from that of the first.
pub proof fn law_names_are_unique(
    m0: NamesModel,
    m1: NamesModel,
    m2: NamesModel,
    base1: Seq<char>,
    name1: Seq<char>,
    base2: Seq<char>,
    name2: Seq<char>,
)
    requires
        hands_out(m0, m1, base1, name1),
        hands_out(m1, m2, base2, name2),
    ensures
        name1 != name2,
        m2.used.contains(name1) && m2.used.contains(name2),
{
}

} // verus!
