//! Directories: entries under text keys, in the order in which the keys came.

use vstd::prelude::*;
use vstd::string::*;

use crate::text::same;

verus! {

/// Where a key first stands; the length if it stands nowhere.
pub open spec fn position<T>(s: Seq<(Seq<char>, T)>, key: Seq<char>) -> int
    decreases s.len(),
{
    if s.len() == 0 || s[0].0 == key {
        0
    } else {
        1 + position(s.drop_first(), key)
    }
}

/// Whether a key has an entry.
pub open spec fn has_key<T>(s: Seq<(Seq<char>, T)>, key: Seq<char>) -> bool {
    position(s, key) < s.len()
}

/// The entry under a key.
pub open spec fn lookup<T>(s: Seq<(Seq<char>, T)>, key: Seq<char>) -> Option<T> {
    if has_key(s, key) {
        Some(s[position(s, key)].1)
    } else {
        None
    }
}

/// The directory with an entry put under a key, in place of any other.
pub open spec fn with_entry<T>(s: Seq<(Seq<char>, T)>, key: Seq<char>, value: T) -> Seq<
    (Seq<char>, T),
> {
    if has_key(s, key) {
        s.update(position(s, key), (key, value))
    } else {
        s.push((key, value))
    }
}

/// The directory without a key.
pub open spec fn without_key<T>(s: Seq<(Seq<char>, T)>, key: Seq<char>) -> Seq<(Seq<char>, T)> {
    if has_key(s, key) {
        s.remove(position(s, key))
    } else {
        s
    }
}

/// No key has two entries.
pub open spec fn unique_keys<T>(s: Seq<(Seq<char>, T)>) -> bool {
    forall|i: int, j: int| 0 <= i < j < s.len() ==> #[trigger] s[i].0 != #[trigger] s[j].0
}

/// `position` is where the key first stands, if it stands anywhere.
pub proof fn lemma_position<T>(s: Seq<(Seq<char>, T)>, key: Seq<char>)
    ensures
        0 <= position(s, key) <= s.len(),
        has_key(s, key) ==> s[position(s, key)].0 == key,
        forall|j: int| 0 <= j < position(s, key) ==> #[trigger] s[j].0 != key,
    decreases s.len(),
{
    if s.len() > 0 && s[0].0 != key {
        let rest = s.drop_first();
        lemma_position(rest, key);
        assert forall|j: int| 0 <= j < position(s, key) implies #[trigger] s[j].0 != key by {
            if j > 0 {
                assert(rest[j - 1] == s[j]);
            }
        }
    }
}

/// A position with the first occurrence of a key is the key's position.
pub proof fn lemma_position_is<T>(s: Seq<(Seq<char>, T)>, key: Seq<char>, i: int)
    requires
        0 <= i <= s.len(),
        forall|j: int| 0 <= j < i ==> #[trigger] s[j].0 != key,
        i < s.len() ==> s[i].0 == key,
    ensures
        position(s, key) == i,
{
    lemma_position(s, key);
    let p = position(s, key);
    if p < i {
        assert(s[p].0 != key);
    } else if i < p {
        assert(s[i].0 != key);
    }
}

/// A directory is a map: an entry put under a key is found there, no other
/// entry is touched, a removed key has no entry, and keys stay unique.
pub proof fn law_directory<T>(
    s: Seq<(Seq<char>, T)>,
    key: Seq<char>,
    value: T,
    other: Seq<char>,
)
    requires
        unique_keys(s),
    ensures
        lookup(with_entry(s, key, value), key) == Some(value),
        other != key ==> lookup(with_entry(s, key, value), other) == lookup(s, other),
        unique_keys(with_entry(s, key, value)),
        lookup(without_key(s, key), key) is None,
        other != key ==> lookup(without_key(s, key), other) == lookup(s, other),
        unique_keys(without_key(s, key)),
{
    lemma_position(s, key);
    lemma_position(s, other);
    let p = position(s, key);
    let q = position(s, other);
    let added = with_entry(s, key, value);
    let taken = without_key(s, key);
    assert forall|i: int, j: int| 0 <= i < j < added.len() implies #[trigger] added[i].0
        != #[trigger] added[j].0 by {
        assert(i < s.len() ==> s[i].0 == added[i].0);
        assert(j < s.len() ==> s[j].0 == added[j].0);
        if j == s.len() {
            assert(s[i].0 != key);
        }
    }
    lemma_position_is(added, key, p);
    if has_key(s, key) {
        assert forall|i: int, j: int| 0 <= i < j < taken.len() implies #[trigger] taken[i].0
            != #[trigger] taken[j].0 by {
            let a = if i < p { i } else { i + 1 };
            let b = if j < p { j } else { j + 1 };
            assert(taken[i] == s[a] && taken[j] == s[b]);
        }
        assert forall|j: int| 0 <= j < taken.len() implies #[trigger] taken[j].0 != key by {
            let b = if j < p { j } else { j + 1 };
            assert(taken[j] == s[b]);
            if b < p {
                assert(s[b].0 != s[p].0);
            } else {
                assert(s[p].0 != s[b].0);
            }
        }
        lemma_position_is(taken, key, taken.len() as int);
    }
    if other != key {
        assert forall|j: int| 0 <= j < q implies #[trigger] added[j].0 != other by {
            if j < s.len() {
                assert(added[j].0 == s[j].0);
            }
        }
        if has_key(s, other) {
            lemma_position_is(added, other, q);
        } else {
            assert forall|j: int| 0 <= j < added.len() implies #[trigger] added[j].0 != other by {
                if j < s.len() {
                    assert(added[j].0 == s[j].0);
                }
            }
            lemma_position_is(added, other, added.len() as int);
        }
        if has_key(s, key) {
            if has_key(s, other) {
                let r = if q < p { q } else { q - 1 };
                assert(taken[r] == s[q]);
                assert forall|j: int| 0 <= j < r implies #[trigger] taken[j].0 != other by {
                    let b = if j < p { j } else { j + 1 };
                    assert(taken[j] == s[b]);
                    assert(s[b].0 != other);
                }
                lemma_position_is(taken, other, r);
            } else {
                assert forall|j: int| 0 <= j < taken.len() implies #[trigger] taken[j].0 != other by {
                    let b = if j < p { j } else { j + 1 };
                    assert(taken[j] == s[b]);
                    assert(s[b].0 != other);
                }
                lemma_position_is(taken, other, taken.len() as int);
            }
        }
    }
}

/// Entries stand in the order in which their keys came: a new key comes last, a
/// known one keeps its place, and what is left after a removal keeps its order.
pub proof fn law_keys_in_order<T>(
    before: Seq<(Seq<char>, T)>,
    key: Seq<char>,
    old_value: T,
    after: Seq<(Seq<char>, T)>,
    value: T,
)
    requires
        forall|j: int| 0 <= j < before.len() ==> (#[trigger] before[j]).0 != key,
    ensures
        with_entry(before, key, value) == before + seq![(key, value)],
        with_entry(before + seq![(key, old_value)] + after, key, value) == before + seq![
            (key, value),
        ] + after,
        without_key(before + seq![(key, old_value)] + after, key) == before + after,
        without_key(before, key) == before,
{
    let s = before + seq![(key, old_value)] + after;
    let n = before.len() as int;
    assert forall|j: int| 0 <= j < n implies #[trigger] s[j].0 != key by {
        assert(s[j] == before[j]);
    }
    lemma_position_is(s, key, n);
    lemma_position_is(before, key, n);
    assert(s.update(n, (key, value)) =~= before + seq![(key, value)] + after);
    assert(s.remove(n) =~= before + after);
    assert(before.push((key, value)) =~= before + seq![(key, value)]);
}

/// Entries under text keys.
#[derive(Debug)]
pub struct Directory<T: View> {
    pub entries: Vec<(String, T)>,
}

impl<T: View> View for Directory<T> {
    type V = Seq<(Seq<char>, T::V)>;

    open spec fn view(&self) -> Seq<(Seq<char>, T::V)> {
        Seq::new(self.entries@.len(), |i: int| (self.entries@[i].0@, self.entries@[i].1@))
    }
}

impl<T: View> Directory<T> {
    pub fn new() -> (r: Directory<T>)
        ensures
            r@ == Seq::<(Seq<char>, T::V)>::empty(),
    {
        let r: Directory<T> = Directory { entries: Vec::new() };
        assert(r@ =~= Seq::<(Seq<char>, T::V)>::empty());
        r
    }

    pub fn len(&self) -> (r: usize)
        ensures
            r == self@.len(),
    {
        self.entries.len()
    }

    /// Where a key stands; the length if it stands nowhere.
    pub fn find(&self, key: &str) -> (r: usize)
        ensures
            r == position(self@, key@),
            r <= self@.len(),
    {
        let mut i: usize = 0;
        while i < self.entries.len()
            invariant
                i <= self.entries.len(),
                forall|j: int| 0 <= j < i ==> #[trigger] self@[j].0 != key@,
            decreases self.entries.len() - i,
        {
            if same(self.entries[i].0.as_str(), key) {
                proof {
                    lemma_position_is(self@, key@, i as int);
                }
                return i;
            }
            i = i + 1;
        }
        proof {
            lemma_position_is(self@, key@, i as int);
        }
        i
    }

    pub fn contains_key(&self, key: &str) -> (r: bool)
        ensures
            r == has_key(self@, key@),
    {
        self.find(key) < self.entries.len()
    }

    /// The entry under a key.
    pub fn get(&self, key: &str) -> (r: Option<&T>)
        ensures
            match r {
                Some(value) => lookup(self@, key@) == Some(value@),
                None => lookup(self@, key@) is None,
            },
    {
        let i: usize = self.find(key);
        if i < self.entries.len() {
            Some(&self.entries[i].1)
        } else {
            None
        }
    }

    /// Puts an entry under a key, in place of any other.
    pub fn insert(&mut self, key: &str, value: T)
        ensures
            final(self)@ == with_entry(old(self)@, key@, value@),
    {
        let i: usize = self.find(key);
        if i < self.entries.len() {
            self.entries.set(i, (key.to_owned(), value));
        } else {
            self.entries.push((key.to_owned(), value));
        }
        assert(self@ =~= with_entry(old(self)@, key@, value@));
    }

    /// Removes a key.
    pub fn remove(&mut self, key: &str)
        ensures
            final(self)@ == without_key(old(self)@, key@),
    {
        let i: usize = self.find(key);
        if i < self.entries.len() {
            self.entries.remove(i);
        }
        assert(self@ =~= without_key(old(self)@, key@));
    }
}

} // verus!
