//! A small string-keyed map of variables, kept as an association list in
//! the order of assignment: a later assignment of a key overrides an earlier
//! one, as `HashMap::insert` does.
use vstd::prelude::*;

verus! {

/// The map that a list of assignments leaves behind, later ones winning.
pub open spec fn assignments_map(entries: Seq<(String, String)>) -> Map<Seq<char>, Seq<char>>
    decreases entries.len(),
{
    if entries.len() == 0 {
        Map::empty()
    } else {
        assignments_map(entries.drop_last()).insert(entries.last().0@, entries.last().1@)
    }
}

/// The view of an optional string as optional text.
pub open spec fn text_opt(o: Option<String>) -> Option<Seq<char>> {
    match o {
        Some(s) => Some(s@),
        None => None,
    }
}

/// Variables by name.
pub struct VarMap {
    entries: Vec<(String, String)>,
}

impl View for VarMap {
    type V = Map<Seq<char>, Seq<char>>;

    closed spec fn view(&self) -> Map<Seq<char>, Seq<char>> {
        assignments_map(self.entries@)
    }
}

/// Where `entries[i]` is the last assignment of `key`, the map holds its value;
/// where there is none, the map does not hold `key`.
proof fn lemma_last_assignment(entries: Seq<(String, String)>, key: Seq<char>, i: int)
    requires
        -1 <= i < entries.len(),
        i >= 0 ==> entries[i].0@ == key,
        forall|j: int| i < j < entries.len() ==> (#[trigger] entries[j]).0@ != key,
    ensures
        i >= 0 ==> assignments_map(entries).contains_key(key) && assignments_map(entries)[key]
            == entries[i].1@,
        i < 0 ==> !assignments_map(entries).contains_key(key),
    decreases entries.len(),
{
    if entries.len() > 0 {
        let rest = entries.drop_last();
        if i == entries.len() - 1 {
        } else {
            assert forall|j: int| i < j < rest.len() implies (#[trigger] rest[j]).0@ != key by {
                assert(rest[j] == entries[j]);
            }
            assert(entries[entries.len() - 1].0@ != key);
            lemma_last_assignment(rest, key, i);
            if i >= 0 {
                assert(rest[i] == entries[i]);
            }
        }
    }
}

impl VarMap {
    /// A map with no variables.
    pub fn new() -> (m: VarMap)
        ensures
            m@ == Map::<Seq<char>, Seq<char>>::empty(),
    {
        VarMap { entries: Vec::new() }
    }

    /// Sets `key` to `value`, replacing any earlier value of `key`.
    pub fn insert(&mut self, key: String, value: String)
        ensures
            final(self)@ == old(self)@.insert(key@, value@),
    {
        let ghost before = self.entries@;
        self.entries.push((key, value));
        proof {
            assert(self.entries@.drop_last() =~= before);
        }
    }

    /// The value of `key`, where it is set.
    pub fn get(&self, key: &str) -> (value: Option<String>)
        ensures
            text_opt(value) == if self@.contains_key(key@) {
                Some(self@[key@])
            } else {
                None::<Seq<char>>
            },
    {
        let wanted: String = key.to_owned();
        let mut i = self.entries.len();
        while i > 0
            invariant
                i <= self.entries@.len(),
                wanted@ == key@,
                forall|j: int| i <= j < self.entries@.len() ==> (#[trigger] self.entries@[j]).0@
                    != key@,
            decreases i,
        {
            if self.entries[i - 1].0 == wanted {
                proof {
                    lemma_last_assignment(self.entries@, key@, i - 1);
                }
                return Some(self.entries[i - 1].1.clone());
            }
            i = i - 1;
        }
        proof {
            lemma_last_assignment(self.entries@, key@, -1);
        }
        None
    }
}

/// After `key` is set to `value`, reading `key` gives `value`, and every
/// other key reads as before.
pub proof fn lemma_read_after_write(m: Map<Seq<char>, Seq<char>>, key: Seq<char>, value: Seq<char>)
    ensures
        m.insert(key, value).contains_key(key),
        m.insert(key, value)[key] == value,
        forall|other: Seq<char>|
            other != key ==> (#[trigger] m.insert(key, value).contains_key(other) == m.contains_key(
                other,
            ) && (m.contains_key(other) ==> m.insert(key, value)[other] == m[other])),
{
}

} // verus!
