//! A set of task slugs with deterministic, lexicographic iteration order.
//!
//! The set is kept as a strictly sorted vector of strings, so membership is
//! unambiguous and iteration order is the lexicographic order of the slugs.

use vstd::prelude::*;
use crate::strings::{cmp_str, str_lt, sorted_strict, lemma_str_lt_trans, lemma_str_lt_asymm, lemma_sorted_distinct};

verus! {

/// Whether a sequence of slugs holds the given one.
pub open spec fn slugs_contain(ss: Seq<Seq<char>>, s: Seq<char>) -> bool {
    exists|i: int| 0 <= i < ss.len() && ss[i] == s
}

/// The sequence with the first occurrence of a slug removed.
pub open spec fn remove_slug(ss: Seq<Seq<char>>, s: Seq<char>) -> Seq<Seq<char>>
    decreases ss.len(),
{
    if ss.len() == 0 {
        ss
    } else if ss[0] == s {
        ss.skip(1)
    } else {
        seq![ss[0]] + remove_slug(ss.skip(1), s)
    }
}

/// When position `i` holds the first occurrence of a slug, removing the
/// first occurrence removes exactly that position.
proof fn lemma_remove_slug_at(ss: Seq<Seq<char>>, s: Seq<char>, i: int)
    requires
        0 <= i < ss.len(),
        ss[i] == s,
        forall|j: int| 0 <= j < i ==> ss[j] != s,
    ensures
        remove_slug(ss, s) =~= ss.remove(i),
    decreases i,
{
    if i > 0 {
        lemma_remove_slug_at(ss.skip(1), s, i - 1);
        assert(ss.skip(1).remove(i - 1) =~= ss.remove(i).skip(1));
        assert(remove_slug(ss, s) =~= seq![ss[0]] + remove_slug(ss.skip(1), s));
    }
}

/// Removing a slug that is not present changes nothing.
proof fn lemma_remove_slug_absent(ss: Seq<Seq<char>>, s: Seq<char>)
    requires
        forall|j: int| 0 <= j < ss.len() ==> ss[j] != s,
    ensures
        remove_slug(ss, s) =~= ss,
    decreases ss.len(),
{
    if ss.len() > 0 {
        lemma_remove_slug_absent(ss.skip(1), s);
    }
}

/// The kept slugs are exactly those of the first `upto` inputs that the
/// other set lacks.
spec fn kept_matches(
    kept: Seq<Seq<char>>,
    all: Seq<Seq<char>>,
    upto: int,
    other: Seq<Seq<char>>,
) -> bool {
    forall|x: Seq<char>|
        slugs_contain(kept, x) <==> (exists|j: int| 0 <= j < upto && all[j] == x)
            && !slugs_contain(other, x)
}

/// A sorted, duplicate-free collection of task slugs.
#[derive(Debug)]
pub struct TaskSet {
    items: Vec<String>,
}

impl View for TaskSet {
    type V = Seq<Seq<char>>;

    closed spec fn view(&self) -> Seq<Seq<char>> {
        self.items.deep_view()
    }
}

impl Clone for TaskSet {
    /// A clone holds the same slugs.
    fn clone(&self) -> (r: TaskSet)
        ensures
            r@ == self@,
    {
        let items = crate::task_config::clone_string_vec(&self.items);
        TaskSet { items }
    }
}

impl TaskSet {
    /// The slugs are strictly sorted, hence free of duplicates.
    pub open spec fn wf(&self) -> bool {
        sorted_strict(self@)
    }

    /// Whether the slug sequence `s` is a member.
    pub open spec fn spec_contains(&self, s: Seq<char>) -> bool {
        slugs_contain(self@, s)
    }

    /// An empty set.
    pub fn new() -> (r: TaskSet)
        ensures
            r@.len() == 0,
            r.wf(),
    {
        TaskSet { items: Vec::new() }
    }

    pub fn len(&self) -> (r: usize)
        ensures
            r == self@.len(),
    {
        self.items.len()
    }

    pub fn is_empty(&self) -> (r: bool)
        ensures
            r == (self@.len() == 0),
    {
        self.items.len() == 0
    }

    /// The slug at position `i` in lexicographic order.
    pub fn index(&self, i: usize) -> (r: &String)
        requires
            i < self@.len(),
        ensures
            r@ == self@[i as int],
    {
        &self.items[i]
    }

    pub fn contains(&self, slug: &str) -> (r: bool)
        ensures
            r == self.spec_contains(slug@),
    {
        let n = self.items.len();
        let mut i: usize = 0;
        while i < n
            invariant
                0 <= i <= n,
                n == self@.len(),
                forall|j: int| 0 <= j < i ==> self@[j] != slug@,
            decreases n - i,
        {
            proof {
                assert(self@[i as int] == self.items@[i as int]@);
            }
            if cmp_str(self.items[i].as_str(), slug) == 0 {
                return true;
            }
            i = i + 1;
        }
        false
    }

    /// Inserts a slug at its sorted position; present slugs are left alone.
    pub fn insert(&mut self, slug: String)
        requires
            old(self).wf(),
        ensures
            final(self).wf(),
            forall|x: Seq<char>|
                final(self).spec_contains(x) <==> old(self).spec_contains(x) || x == slug@,
            final(self)@.len() == old(self)@.len() + (if old(self).spec_contains(slug@) {
                0int
            } else {
                1int
            }),
    {
        let n = self.items.len();
        let mut i: usize = 0;
        let mut past = false;
        while i < n && !past
            invariant
                0 <= i <= n,
                n == self@.len(),
                self.wf(),
                forall|j: int| 0 <= j < i ==> str_lt(#[trigger] self@[j], slug@),
                past ==> i < n && str_lt(slug@, self@[i as int]),
                self == old(self),
            decreases n - i + (if past { 0int } else { 1int }),
        {
            proof {
                assert(self@[i as int] == self.items@[i as int]@);
            }
            let c = cmp_str(self.items[i].as_str(), slug.as_str());
            if c == 0 {
                assert(self.spec_contains(slug@));
                assert(self.wf());
                return ;
            }
            if c == 1 {
                past = true;
            } else {
                i = i + 1;
            }
        }
        proof {
            // slug is strictly between the prefix and the suffix, so it is new
            assert forall|j: int| 0 <= j < self@.len() implies self@[j] != slug@ by {
                if j < i {
                    lemma_str_lt_asymm(self@[j], slug@);
                } else {
                    if j > i {
                        lemma_str_lt_trans(slug@, self@[i as int], self@[j]);
                    }
                    lemma_str_lt_asymm(slug@, self@[j]);
                }
            }
        }
        let ghost pre = self@;
        proof {
            assert(sorted_strict(pre));
            assert(forall|j: int| 0 <= j < i ==> str_lt(#[trigger] pre[j], slug@));
            assert(i < pre.len() ==> str_lt(slug@, pre[i as int]));
        }
        self.items.insert(i, slug);
        proof {
            assert(self@ =~= pre.insert(i as int, slug@));
            assert forall|p: int, q: int| 0 <= p < q < self@.len() implies str_lt(
                self@[p],
                self@[q],
            ) by {
                if p == i && q > i && q - 1 > i {
                    lemma_str_lt_trans(slug@, pre[i as int], pre[q - 1]);
                }
            }
            assert forall|x: Seq<char>|
                old(self).spec_contains(x) || x == slug@ implies self.spec_contains(x) by {
                if x == slug@ {
                    assert(self@[i as int] == slug@);
                } else {
                    let j = choose|j: int| 0 <= j < pre.len() && pre[j] == x;
                    if j < i {
                        assert(self@[j] == x);
                    } else {
                        assert(self@[j + 1] == x);
                    }
                }
            }
            assert forall|x: Seq<char>|
                self.spec_contains(x) implies old(self).spec_contains(x) || x == slug@ by {
                let j = choose|j: int| 0 <= j < self@.len() && self@[j] == x;
                if j < i {
                    assert(pre[j] == x);
                } else if j > i {
                    assert(pre[j - 1] == x);
                }
            }
        }
    }

    /// Removes a slug; reports whether it was present.
    pub fn remove(&mut self, slug: &str) -> (r: bool)
        requires
            old(self).wf(),
        ensures
            final(self).wf(),
            r == old(self).spec_contains(slug@),
            final(self)@ == remove_slug(old(self)@, slug@),
            forall|x: Seq<char>|
                final(self).spec_contains(x) <==> old(self).spec_contains(x) && x != slug@,
            final(self)@.len() == old(self)@.len() - (if old(self).spec_contains(slug@) {
                1int
            } else {
                0int
            }),
    {
        let n = self.items.len();
        let mut i: usize = 0;
        while i < n
            invariant
                0 <= i <= n,
                n == self@.len(),
                self.wf(),
                forall|j: int| 0 <= j < i ==> self@[j] != slug@,
                self == old(self),
            decreases n - i,
        {
            proof {
                assert(self@[i as int] == self.items@[i as int]@);
            }
            if cmp_str(self.items[i].as_str(), slug) == 0 {
                let ghost pre = self@;
                proof {
                    assert(sorted_strict(pre));
                    assert(pre[i as int] == slug@);
                }
                self.items.remove(i);
                proof {
                    assert(self@ =~= pre.remove(i as int));
                    lemma_remove_slug_at(pre, slug@, i as int);
                    assert forall|p: int, q: int| 0 <= p < q < self@.len() implies str_lt(
                        self@[p],
                        self@[q],
                    ) by {
                        let po = if p < i { p } else { p + 1 };
                        let qo = if q < i { q } else { q + 1 };
                        assert(self@[p] == pre[po]);
                        assert(self@[q] == pre[qo]);
                    }
                    assert forall|x: Seq<char>|
                        self.spec_contains(x) implies old(self).spec_contains(x) && x
                        != slug@ by {
                        let j = choose|j: int| 0 <= j < self@.len() && self@[j] == x;
                        let jo = if j < i {
                            j
                        } else {
                            j + 1
                        };
                        assert(pre[jo] == x);
                        if jo != i {
                            lemma_sorted_distinct(pre, jo, i as int);
                        }
                    }
                    assert forall|x: Seq<char>|
                        old(self).spec_contains(x) && x != slug@ implies self.spec_contains(
                        x,
                    ) by {
                        let j = choose|j: int| 0 <= j < pre.len() && pre[j] == x;
                        if j < i {
                            assert(self@[j] == x);
                        } else {
                            assert(self@[j - 1] == x);
                        }
                    }
                }
                return true;
            }
            i = i + 1;
        }
        proof {
            lemma_remove_slug_absent(self@, slug@);
        }
        false
    }

    /// Empties the set.
    pub fn clear(&mut self)
        ensures
            final(self)@.len() == 0,
            final(self).wf(),
    {
        self.items.clear();
    }

    /// The members, in lexicographic order.
    pub fn to_vec(&self) -> (r: Vec<String>)
        ensures
            r.deep_view() == self@,
    {
        let r = self.items.clone();
        proof {
            assert(r.deep_view() =~= self.items.deep_view());
        }
        r
    }


    /// The members of this set that the other set lacks, in order.
    pub fn difference(&self, other: &TaskSet) -> (r: TaskSet)
        requires
            self.wf(),
        ensures
            r.wf(),
            forall|x: Seq<char>|
                r.spec_contains(x) <==> self.spec_contains(x) && !other.spec_contains(x),
    {
        let n = self.items.len();
        let mut kept: Vec<String> = Vec::new();
        let mut i: usize = 0;
        while i < n
            invariant
                0 <= i <= n,
                n == self@.len(),
                self.wf(),
                sorted_strict(kept.deep_view()),
                forall|p: int, j: int|
                    0 <= p < kept.deep_view().len() && i <= j < self@.len() ==> str_lt(
                        #[trigger] kept.deep_view()[p],
                        #[trigger] self@[j],
                    ),
                kept_matches(kept.deep_view(), self@, i as int, other@),
            decreases n - i,
        {
            proof {
                assert(self@[i as int] == self.items@[i as int]@);
            }
            let ghost pre = kept.deep_view();
            let in_other = other.contains(self.items[i].as_str());
            if !in_other {
                kept.push(self.items[i].clone());
                proof {
                    assert(kept.deep_view() =~= pre.push(self@[i as int]));
                }
            }
            proof {
                assert(kept_matches(pre, self@, i as int, other@));
                assert(kept_matches(kept.deep_view(), self@, i + 1, other@)) by {
                    assert forall|x: Seq<char>|
                        slugs_contain(kept.deep_view(), x) <==> (exists|j: int|
                            0 <= j < i + 1 && self@[j] == x) && !slugs_contain(other@, x) by {
                        if slugs_contain(kept.deep_view(), x) {
                            let p = choose|p: int|
                                0 <= p < kept.deep_view().len() && kept.deep_view()[p] == x;
                            if p < pre.len() {
                                assert(slugs_contain(pre, x));
                            } else {
                                assert(x == self@[i as int]);
                            }
                        }
                        if (exists|j: int| 0 <= j < i + 1 && self@[j] == x) && !slugs_contain(
                            other@,
                            x,
                        ) {
                            let j = choose|j: int| 0 <= j < i + 1 && self@[j] == x;
                            if j == i {
                                assert(!in_other);
                                assert(kept.deep_view()[kept.deep_view().len() - 1] == x);
                            } else {
                                assert(slugs_contain(pre, x));
                                let p = choose|p: int| 0 <= p < pre.len() && pre[p] == x;
                                assert(kept.deep_view()[p] == x);
                            }
                        }
                    }
                }
            }
            i = i + 1;
        }
        proof {
            assert(kept_matches(kept.deep_view(), self@, n as int, other@));
        }
        TaskSet { items: kept }
    }

    /// Inserts every slug of `more`.
    pub fn extend(&mut self, more: Vec<String>)
        requires
            old(self).wf(),
        ensures
            final(self).wf(),
            forall|x: Seq<char>|
                final(self).spec_contains(x) <==> old(self).spec_contains(x)
                    || more.deep_view().contains(x),
    {
        let n = more.len();
        let mut k: usize = 0;
        let mut more = more;
        proof {
            assert(more.deep_view().len() == more@.len());
        }
        while k < n
            invariant
                0 <= k <= n,
                n == more@.len(),
                more.deep_view().len() == n,
                self.wf(),
                forall|x: Seq<char>|
                    self.spec_contains(x) <==> old(self).spec_contains(x) || exists|j: int|
                        0 <= j < k && more.deep_view()[j] == x,
            decreases n - k,
        {
            let ghost pre_deep = more.deep_view();
            let s = more[k].clone();
            proof {
                assert(cloned(more@[k as int], s));
                assert(s@ == more.deep_view()[k as int]);
            }
            self.insert(s);
            k = k + 1;
        }
        proof {
            assert forall|x: Seq<char>| more.deep_view().contains(x) implies exists|j: int|
                0 <= j < n && more.deep_view()[j] == x by {
            }
        }
    }
}

} // verus!
