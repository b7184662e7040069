//! Headers as the browser hands them over: each name once, sorted by name.

use vstd::prelude::*;

use crate::headers::pairs_view;
use crate::text;

verus! {

/// Whether a text comes before another, character by character.
pub open spec fn before(a: Seq<char>, b: Seq<char>) -> bool
    decreases a.len(),
{
    if b.len() == 0 {
        false
    } else if a.len() == 0 {
        true
    } else if a[0] != b[0] {
        a[0] < b[0]
    } else {
        before(a.drop_first(), b.drop_first())
    }
}

proof fn lemma_before_total(a: Seq<char>, b: Seq<char>)
    ensures
        before(a, b) || before(b, a) || a == b,
        before(a, b) ==> !before(b, a) && a != b,
    decreases a.len(),
{
    if a.len() == 0 && b.len() == 0 {
        assert(a =~= b);
    } else if a.len() > 0 && b.len() > 0 && a[0] == b[0] {
        lemma_before_total(a.drop_first(), b.drop_first());
        if a.drop_first() == b.drop_first() {
            assert(a =~= seq![a[0]] + a.drop_first());
            assert(b =~= seq![b[0]] + b.drop_first());
        }
    }
}

proof fn lemma_before_transitive(a: Seq<char>, b: Seq<char>, c: Seq<char>)
    requires
        before(a, b),
        before(b, c),
    ensures
        before(a, c),
    decreases a.len(),
{
    if a.len() > 0 && a[0] == b[0] && b[0] == c[0] {
        lemma_before_transitive(a.drop_first(), b.drop_first(), c.drop_first());
    }
}

fn is_before(a: &[char], b: &[char]) -> (r: bool)
    ensures
        r == before(a@, b@),
{
    let mut i: usize = 0;
    assert(a@.skip(0) =~= a@);
    assert(b@.skip(0) =~= b@);
    while i < a.len() && i < b.len() && a[i] == b[i]
        invariant
            i <= a.len(),
            i <= b.len(),
            before(a@, b@) == before(a@.skip(i as int), b@.skip(i as int)),
        decreases a.len() - i,
    {
        i = i + 1;
        assert(a@.skip(i - 1).drop_first() =~= a@.skip(i as int));
        assert(b@.skip(i - 1).drop_first() =~= b@.skip(i as int));
    }
    if i == b.len() {
        false
    } else if i == a.len() {
        true
    } else {
        a[i] < b[i]
    }
}

/// Where `key` goes: past the names, from position `i` on, that come before it.
pub open spec fn place(pairs: Seq<(Seq<char>, Seq<char>)>, key: Seq<char>, i: int) -> int
    decreases pairs.len() - i,
{
    if 0 <= i < pairs.len() && before(pairs[i].0, key) {
        place(pairs, key, i + 1)
    } else {
        i
    }
}

/// Names in order, each once.
pub open spec fn sorted(pairs: Seq<(Seq<char>, Seq<char>)>) -> bool {
    forall|i: int, j: int|
        0 <= i < j < pairs.len() ==> before((#[trigger] pairs[i]).0, (#[trigger] pairs[j]).0)
}

/// The pairs after `key` was given `value`.
pub open spec fn inserted(
    pairs: Seq<(Seq<char>, Seq<char>)>,
    key: Seq<char>,
    value: Seq<char>,
) -> Seq<(Seq<char>, Seq<char>)> {
    let at = place(pairs, key, 0);
    if at < pairs.len() && pairs[at].0 == key {
        pairs.update(at, (key, value))
    } else {
        pairs.insert(at, (key, value))
    }
}

/// Headers by name, sorted.
#[derive(Debug, Clone, PartialEq, Eq)]
pub struct HeaderList {
    pairs: Vec<(String, String)>,
}

impl View for HeaderList {
    type V = Seq<(Seq<char>, Seq<char>)>;

    closed spec fn view(&self) -> Seq<(Seq<char>, Seq<char>)> {
        pairs_view(self.pairs@)
    }
}

proof fn lemma_place(pairs: Seq<(Seq<char>, Seq<char>)>, key: Seq<char>, i: int, at: int)
    requires
        0 <= i <= at <= pairs.len(),
        forall|k: int| i <= k < at ==> before((#[trigger] pairs[k]).0, key),
        at < pairs.len() ==> !before(pairs[at].0, key),
    ensures
        place(pairs, key, i) == at,
    decreases at - i,
{
    if i < at {
        lemma_place(pairs, key, i + 1, at);
    }
}

/// Giving a name a value keeps the list in order; the name has that value, and
/// every other name keeps its own.
pub proof fn law_insert_keeps_the_order(
    pairs: Seq<(Seq<char>, Seq<char>)>,
    key: Seq<char>,
    value: Seq<char>,
)
    requires
        sorted(pairs),
    ensures
        sorted(inserted(pairs, key, value)),
        inserted(pairs, key, value).contains((key, value)),
        forall|i: int|
            0 <= i < pairs.len() && (#[trigger] pairs[i]).0 != key ==> inserted(
                pairs,
                key,
                value,
            ).contains(pairs[i]),
{
    lemma_place_bounds(pairs, key, 0);
    let at = place(pairs, key, 0);
    let after = inserted(pairs, key, value);
    assert(after[at] == (key, value));
    if at < pairs.len() {
        lemma_before_total(pairs[at].0, key);
    }
    assert forall|i: int| 0 <= i < pairs.len() && (#[trigger] pairs[i]).0 != key implies
        after.contains(pairs[i]) by {
        if after.len() == pairs.len() || i < at {
            assert(after[i] == pairs[i]);
        } else {
            assert(after[i + 1] == pairs[i]);
        }
    }
    assert forall|i: int, j: int| 0 <= i < j < after.len() implies before(
        (#[trigger] after[i]).0,
        (#[trigger] after[j]).0,
    ) by {
        if after.len() == pairs.len() {
            assert(pairs[i].0 == after[i].0);
            assert(pairs[j].0 == after[j].0);
        } else {
            let i0 = if i < at { i } else { i - 1 };
            let j0 = if j < at { j } else { j - 1 };
            if i != at && j != at {
                assert(after[i] == pairs[i0]);
                assert(after[j] == pairs[j0]);
            } else if i == at {
                assert(after[j] == pairs[j0]);
                if j0 > at {
                    assert(before(pairs[at].0, pairs[j0].0));
                    lemma_before_transitive(key, pairs[at].0, pairs[j0].0);
                }
            } else {
                assert(after[i] == pairs[i0]);
                assert(before(pairs[i].0, key));
            }
        }
    }
}

proof fn lemma_place_bounds(pairs: Seq<(Seq<char>, Seq<char>)>, key: Seq<char>, i: int)
    requires
        0 <= i <= pairs.len(),
    ensures
        i <= place(pairs, key, i) <= pairs.len(),
        forall|k: int| i <= k < place(pairs, key, i) ==> before((#[trigger] pairs[k]).0, key),
        place(pairs, key, i) < pairs.len() ==> !before(pairs[place(pairs, key, i)].0, key),
    decreases pairs.len() - i,
{
    if i < pairs.len() && before(pairs[i].0, key) {
        lemma_place_bounds(pairs, key, i + 1);
    }
}

impl HeaderList {
    pub fn new() -> (r: HeaderList)
        ensures
            r@ == Seq::<(Seq<char>, Seq<char>)>::empty(),
            sorted(r@),
    {
        let r = HeaderList { pairs: Vec::new() };
        assert(r@ =~= Seq::<(Seq<char>, Seq<char>)>::empty());
        r
    }

    fn place_of(&self, key: &[char]) -> (r: usize)
        ensures
            r == place(self@, key@, 0),
            r <= self@.len(),
    {
        let mut i: usize = 0;
        while i < self.pairs.len()
            invariant
                i <= self.pairs.len(),
                forall|k: int| 0 <= k < i ==> before((#[trigger] self@[k]).0, key@),
            decreases self.pairs.len() - i,
        {
            let name = text::chars_of(self.pairs[i].0.as_str());
            assert(self@[i as int].0 == name@);
            if !is_before(name.as_slice(), key) {
                proof {
                    lemma_place(self@, key@, 0, i as int);
                }
                return i;
            }
            i = i + 1;
        }
        proof {
            lemma_place(self@, key@, 0, i as int);
        }
        i
    }

    /// Give a name a value, in place of the one it had.
    pub fn insert(&mut self, key: String, value: String)
        requires
            sorted(old(self)@),
        ensures
            final(self)@ == inserted(old(self)@, key@, value@),
            sorted(final(self)@),
    {
        let chars = text::chars_of(key.as_str());
        let at: usize = self.place_of(chars.as_slice());
        let ghost was = self@;
        let replace = at < self.pairs.len() && text::same_text(
            self.pairs[at].0.as_str(),
            key.as_str(),
        );
        proof {
            law_insert_keeps_the_order(was, key@, value@);
        }
        if replace {
            let _ = self.pairs.remove(at);
            self.pairs.insert(at, (key, value));
            assert(self@ =~= was.update(at as int, (key@, value@)));
        } else {
            self.pairs.insert(at, (key, value));
            assert(self@ =~= was.insert(at as int, (key@, value@)));
        }
    }

    pub fn len(&self) -> (r: usize)
        ensures
            r == self@.len(),
    {
        self.pairs.len()
    }

    pub fn is_empty(&self) -> (r: bool)
        ensures
            r == (self@.len() == 0),
    {
        self.pairs.len() == 0
    }

    /// The value of a name.
    pub fn get(&self, key: &str) -> (r: Option<&str>)
        requires
            sorted(self@),
        ensures
            match r {
                Some(v) => self@.contains((key@, v@)),
                None => forall|i: int| 0 <= i < self@.len() ==> (#[trigger] self@[i]).0 != key@,
            },
    {
        let mut i: usize = 0;
        while i < self.pairs.len()
            invariant
                i <= self.pairs.len(),
                forall|k: int| 0 <= k < i ==> (#[trigger] self@[k]).0 != key@,
            decreases self.pairs.len() - i,
        {
            if text::same_text(self.pairs[i].0.as_str(), key) {
                let v = self.pairs[i].1.as_str();
                assert(self@[i as int] == (key@, v@));
                return Some(v);
            }
            i = i + 1;
        }
        None
    }

    /// The pairs, in order.
    pub fn pairs(&self) -> (r: &Vec<(String, String)>)
        ensures
            pairs_view(r@) == self@,
    {
        &self.pairs
    }

    /// A copy of this list.
    pub fn copied(&self) -> (r: HeaderList)
        ensures
            r@ == self@,
    {
        let mut out: Vec<(String, String)> = Vec::new();
        let mut i: usize = 0;
        while i < self.pairs.len()
            invariant
                i <= self.pairs.len(),
                out.len() == i,
                forall|k: int|
                    0 <= k < i ==> (#[trigger] out[k]).0@ == self.pairs[k].0@ && out[k].1@
                        == self.pairs[k].1@,
            decreases self.pairs.len() - i,
        {
            out.push((self.pairs[i].0.clone(), self.pairs[i].1.clone()));
            i = i + 1;
        }
        let r = HeaderList { pairs: out };
        assert(r@ =~= self@);
        r
    }
}

} // verus!
