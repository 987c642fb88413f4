//! A set of strings that remembers the order of insertion.

use vstd::prelude::*;

use crate::text;

verus! {

/// `s` with `x` appended, unless it holds `x` already.
pub open spec fn appended(s: Seq<Seq<char>>, x: Seq<char>) -> Seq<Seq<char>> {
    if s.contains(x) {
        s
    } else {
        s.push(x)
    }
}

/// `s` without the occurrences of `x`.
pub open spec fn without(s: Seq<Seq<char>>, x: Seq<char>) -> Seq<Seq<char>>
    decreases s.len(),
{
    if s.len() == 0 {
        s
    } else if s.last() == x {
        without(s.drop_last(), x)
    } else {
        without(s.drop_last(), x).push(s.last())
    }
}

/// Taking out what is not there changes nothing.
pub proof fn lemma_without_absent(s: Seq<Seq<char>>, x: Seq<char>)
    requires
        forall|i: int| 0 <= i < s.len() ==> s[i] != x,
    ensures
        without(s, x) == s,
    decreases s.len(),
{
    if s.len() > 0 {
        lemma_without_absent(s.drop_last(), x);
        assert(s.drop_last().push(s.last()) =~= s);
    }
}

proof fn lemma_without_one(s: Seq<Seq<char>>, i: int)
    requires
        s.no_duplicates(),
        0 <= i < s.len(),
    ensures
        without(s, s[i]) == s.remove(i),
    decreases s.len(),
{
    let t = s.drop_last();
    if i == s.len() - 1 {
        lemma_without_absent(t, s[i]);
        assert(s.remove(i) =~= t);
    } else {
        assert(t.no_duplicates());
        lemma_without_one(t, i);
        assert(t.remove(i).push(s.last()) =~= s.remove(i));
    }
}

/// Appending leaves everything where it is, and the appended text is there.
pub proof fn lemma_appended(s: Seq<Seq<char>>, x: Seq<char>, y: Seq<char>)
    ensures
        appended(s, x).contains(y) <==> s.contains(y) || y == x,
        forall|i: int| 0 <= i < s.len() ==> #[trigger] appended(s, x)[i] == s[i],
        s.contains(x) ==> appended(s, x) == s,
        !s.contains(x) ==> appended(s, x).len() == s.len() + 1,
{
    let a = appended(s, x);
    if s.contains(y) {
        let i = choose|i: int| 0 <= i < s.len() && s[i] == y;
        assert(a[i] == y);
    }
    if y == x && !s.contains(x) {
        assert(a[s.len() as int] == y);
    }
    if a.contains(y) {
        let i = choose|i: int| 0 <= i < a.len() && a[i] == y;
        if i < s.len() {
            assert(s[i] == y);
        }
    }
}

/// Taking out a text takes out every occurrence of it and of nothing else.
pub proof fn lemma_without(s: Seq<Seq<char>>, x: Seq<char>, y: Seq<char>)
    ensures
        without(s, x).contains(y) <==> s.contains(y) && y != x,
    decreases s.len(),
{
    if s.len() > 0 {
        let t = s.drop_last();
        lemma_without(t, x, y);
        let w = without(t, x);
        let r = without(s, x);
        if s.contains(y) && y != x {
            let i = choose|i: int| 0 <= i < s.len() && s[i] == y;
            if i < t.len() {
                assert(t[i] == y);
                let k = choose|k: int| 0 <= k < w.len() && w[k] == y;
                assert(r[k] == y);
            } else {
                assert(r[r.len() - 1] == y);
            }
        }
        if r.contains(y) {
            let i = choose|i: int| 0 <= i < r.len() && r[i] == y;
            if i < w.len() {
                assert(w[i] == y);
                let k = choose|k: int| 0 <= k < t.len() && t[k] == y;
                assert(s[k] == y);
            } else {
                assert(s[s.len() - 1] == y);
            }
        }
    }
}

/// A finite set of strings.
#[derive(Debug)]
pub struct TextSet {
    items: Vec<String>,
}

impl Clone for TextSet {
    fn clone(&self) -> (r: TextSet)
        ensures
            r.order() == self.order(),
    {
        TextSet { items: text::clone_texts(&self.items) }
    }
}

impl View for TextSet {
    type V = Set<Seq<char>>;

    open spec fn view(&self) -> Set<Seq<char>> {
        self.order().to_set()
    }
}

impl TextSet {
    /// The members in the order in which they came in.
    pub closed spec fn order(&self) -> Seq<Seq<char>> {
        text::texts(self.items@)
    }

    /// No member is held twice.
    pub open spec fn wf(&self) -> bool {
        self.order().no_duplicates()
    }

    /// The empty set.
    pub fn new() -> (r: TextSet)
        ensures
            r.wf(),
            r.order() == Seq::<Seq<char>>::empty(),
            r@ == Set::<Seq<char>>::empty(),
    {
        let r = TextSet { items: Vec::new() };
        assert(r.order() =~= Seq::<Seq<char>>::empty());
        assert(r@ =~= Set::<Seq<char>>::empty());
        r
    }

    /// How many members there are.
    pub fn len(&self) -> (r: usize)
        ensures
            r == self.order().len(),
    {
        self.items.len()
    }

    /// Whether there are no members.
    pub fn is_empty(&self) -> (r: bool)
        ensures
            r == (self.order().len() == 0),
    {
        self.items.len() == 0
    }

    fn index_of(&self, s: &str) -> (r: usize)
        ensures
            r <= self.order().len(),
            r < self.order().len() ==> self.order()[r as int] == s@,
            r == self.order().len() ==> !self.order().contains(s@),
    {
        let mut i: usize = 0;
        while i < self.items.len()
            invariant
                i <= self.items@.len(),
                forall|j: int| 0 <= j < i ==> self.order()[j] != s@,
            decreases self.items.len() - i,
        {
            if text::same_text(self.items[i].as_str(), s) {
                return i;
            }
            i = i + 1;
        }
        i
    }

    /// Whether `s` is a member.
    pub fn contains(&self, s: &str) -> (r: bool)
        ensures
            r == self@.contains(s@),
            r == self.order().contains(s@),
    {
        let i = self.index_of(s);
        if i < self.items.len() {
            assert(self.order()[i as int] == s@);
            true
        } else {
            false
        }
    }

    /// Adds `s`; says whether it was missing.
    pub fn insert(&mut self, s: String) -> (r: bool)
        requires
            old(self).wf(),
        ensures
            final(self).wf(),
            final(self).order() == appended(old(self).order(), s@),
            final(self)@ == old(self)@.insert(s@),
            r == !old(self)@.contains(s@),
    {
        if self.contains(s.as_str()) {
            assert(self@ =~= old(self)@.insert(s@));
            false
        } else {
            let ghost x = s@;
            self.items.push(s);
            proof {
                assert(self.order() =~= old(self).order().push(x));
                assert forall|y: Seq<char>| self.order().contains(y) == old(
                    self,
                )@.insert(x).contains(y) by {
                    if old(self).order().contains(y) {
                        let i = choose|i: int|
                            0 <= i < old(self).order().len() && old(self).order()[i] == y;
                        assert(self.order()[i] == y);
                    }
                    if y == x {
                        assert(self.order()[self.order().len() - 1] == y);
                    }
                }
                assert(self@ =~= old(self)@.insert(x));
            }
            true
        }
    }

    /// Takes `s` out, if it is a member.
    pub fn remove(&mut self, s: &str)
        requires
            old(self).wf(),
        ensures
            final(self).wf(),
            final(self)@ == old(self)@.remove(s@),
            final(self).order() == without(old(self).order(), s@),
    {
        let i = self.index_of(s);
        if i < self.items.len() {
            let _gone = self.items.remove(i);
            proof {
                let before = old(self).order();
                let after = self.order();
                assert(after =~= before.remove(i as int));
                assert(before[i as int] == s@);
                lemma_without_one(before, i as int);
                assert forall|y: Seq<char>| after.contains(y) == old(self)@.remove(s@).contains(
                    y,
                ) by {
                    if after.contains(y) {
                        let k = choose|k: int| 0 <= k < after.len() && after[k] == y;
                        if k < i {
                            assert(before[k] == y);
                        } else {
                            assert(before[k + 1] == y);
                        }
                    }
                    if before.contains(y) && y != s@ {
                        let k = choose|k: int| 0 <= k < before.len() && before[k] == y;
                        if k < i {
                            assert(after[k] == y);
                        } else {
                            assert(after[k - 1] == y);
                        }
                    }
                }
                assert(self@ =~= old(self)@.remove(s@));
            }
        } else {
            proof {
                lemma_without_absent(self.order(), s@);
            }
            assert(self@ =~= old(self)@.remove(s@));
        }
    }

    /// Takes every member out.
    pub fn clear(&mut self)
        ensures
            final(self).wf(),
            final(self).order() == Seq::<Seq<char>>::empty(),
            final(self)@ == Set::<Seq<char>>::empty(),
    {
        self.items.clear();
        assert(self.order() =~= Seq::<Seq<char>>::empty());
        assert(self@ =~= Set::<Seq<char>>::empty());
    }

    /// The members, in the order in which they came in.
    pub fn to_vec(&self) -> (r: Vec<String>)
        ensures
            text::texts(r@) == self.order(),
    {
        let mut out: Vec<String> = Vec::new();
        let mut i: usize = 0;
        while i < self.items.len()
            invariant
                i <= self.items@.len(),
                text::texts(out@) == self.order().take(i as int),
            decreases self.items.len() - i,
        {
            let ghost before = out@;
            out.push(self.items[i].clone());
            assert(text::texts(out@) =~= text::texts(before).push(self.items@[i as int]@));
            assert(self.order().take(i + 1) =~= self.order().take(i as int).push(
                self.order()[i as int],
            ));
            i = i + 1;
        }
        assert(self.order().take(self.order().len() as int) =~= self.order());
        out
    }
}

} // verus!
