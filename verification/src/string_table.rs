//! A table that interns strings: each distinct string is stored once, and is
//! referred to by its index.
use vstd::prelude::*;

verus! {

/// The strings of a table, in the order they were added.
pub struct StringTable {
    strings: Vec<String>,
}

/// No string occurs twice.
pub open spec fn strings_distinct(strings: Seq<Seq<char>>) -> bool {
    forall|i: int, j: int| 0 <= i < strings.len() && 0 <= j < strings.len() && i != j
        ==> strings[i] != strings[j]
}

/// Interning `s` in `strings`: when it is there, the table is unchanged and the
/// index is where it is; otherwise it is appended and the index is the new last
/// one. Gives the table and the index.
pub open spec fn intern(strings: Seq<Seq<char>>, s: Seq<char>) -> (Seq<Seq<char>>, int) {
    if strings.contains(s) {
        (strings, choose|i: int| 0 <= i < strings.len() && strings[i] == s)
    } else {
        (strings.push(s), strings.len() as int)
    }
}

impl View for StringTable {
    type V = Seq<Seq<char>>;

    closed spec fn view(&self) -> Seq<Seq<char>> {
        Seq::new(self.strings@.len(), |i: int| self.strings@[i]@)
    }
}

impl StringTable {
    /// The table's invariant: no string occurs twice.
    pub closed spec fn well_formed(&self) -> bool {
        strings_distinct(self@)
    }

    /// An empty table.
    pub fn new() -> (t: StringTable)
        ensures
            t@ == Seq::<Seq<char>>::empty(),
            t.well_formed(),
    {
        let t = StringTable { strings: Vec::new() };
        assert(t@ =~= Seq::<Seq<char>>::empty());
        t
    }

    /// The index of `string` in the table, which is added at the end when it
    /// is not there yet.
    pub fn get_index(&mut self, string: &str) -> (index: usize)
        requires
            old(self).well_formed(),
        ensures
            final(self).well_formed(),
            (final(self)@, index as int) == intern(old(self)@, string@),
            0 <= index < final(self)@.len(),
            final(self)@[index as int] == string@,
    {
        let owned = string.to_owned();
        let n = self.strings.len();
        let mut i: usize = 0;
        while i < n
            invariant
                n == self.strings@.len(),
                self@ == old(self)@,
                self.well_formed(),
                owned@ == string@,
                i <= n,
                forall|j: int| 0 <= j < i ==> self@[j] != string@,
            decreases n - i,
        {
            if self.strings[i] == owned {
                proof {
                    lemma_intern_present(self@, string@, i as int);
                }
                return i;
            }
            i = i + 1;
        }
        proof {
            assert(!self@.contains(string@));
        }
        self.strings.push(owned);
        assert(self@ =~= old(self)@.push(string@));
        n
    }

    /// The strings, in the order of their indices.
    pub fn serialize(&self) -> (v: Vec<String>)
        ensures
            v@.len() == self@.len(),
            forall|i: int| 0 <= i < v@.len() ==> (#[trigger] v@[i])@ == self@[i],
    {
        let mut v: Vec<String> = Vec::new();
        let mut i: usize = 0;
        while i < self.strings.len()
            invariant
                i <= self.strings@.len(),
                v@.len() == i,
                forall|j: int| 0 <= j < i ==> (#[trigger] v@[j])@ == self@[j],
            decreases self.strings@.len() - i,
        {
            v.push(self.strings[i].clone());
            i = i + 1;
        }
        v
    }

    /// The number of strings.
    pub fn len(&self) -> (n: usize)
        ensures
            n == self@.len(),
    {
        self.strings.len()
    }
}

/// In a table without repeats, interning a string that is at index `i` gives
/// the same table and `i`.
pub proof fn lemma_intern_present(strings: Seq<Seq<char>>, s: Seq<char>, i: int)
    requires
        strings_distinct(strings),
        0 <= i < strings.len(),
        strings[i] == s,
    ensures
        intern(strings, s) == (strings, i),
{
    assert(strings.contains(s));
    let j = choose|j: int| 0 <= j < strings.len() && strings[j] == s;
    assert(strings[j] == s);
}

/// Interning keeps a table free of repeats, only ever appends, and the string
/// is at the index it gives.
pub proof fn law_intern(strings: Seq<Seq<char>>, s: Seq<char>)
    requires
        strings_distinct(strings),
    ensures
        strings_distinct(intern(strings, s).0),
        strings.is_prefix_of(intern(strings, s).0),
        0 <= intern(strings, s).1 < intern(strings, s).0.len(),
        intern(strings, s).0[intern(strings, s).1] == s,
{
    if strings.contains(s) {
        let j = choose|j: int| 0 <= j < strings.len() && strings[j] == s;
        assert(strings.is_prefix_of(strings)) by {
            assert(strings =~= strings.subrange(0, strings.len() as int));
        }
    } else {
        let t = strings.push(s);
        assert(strings =~= t.subrange(0, strings.len() as int));
        assert forall|i: int, j: int| 0 <= i < t.len() && 0 <= j < t.len() && i != j
            implies t[i] != t[j] by {
            if i == strings.len() {
                assert(t[j] == strings[j]);
            } else if j == strings.len() {
                assert(t[i] == strings[i]);
            }
        }
    }
}

/// Interning a string twice gives the same index the second time, and the
/// second time changes nothing.
pub proof fn law_intern_is_idempotent(strings: Seq<Seq<char>>, s: Seq<char>)
    requires
        strings_distinct(strings),
    ensures
        intern(intern(strings, s).0, s) == intern(strings, s),
{
    law_intern(strings, s);
    lemma_intern_present(intern(strings, s).0, s, intern(strings, s).1);
}

} // verus!
