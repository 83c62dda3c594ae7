use vstd::prelude::*;

verus! {

/// The resolved variable scope: name/value pairs in insertion order,
/// where a later pair shadows an earlier one with the same name.
#[derive(Debug)]
pub struct Scope {
    entries: Vec<(String, String)>,
}

/// The mapping denoted by a sequence of name/value pairs: later pairs win.
pub open spec fn entries_map(s: Seq<(String, String)>) -> Map<Seq<char>, Seq<char>>
    decreases s.len(),
{
    if s.len() == 0 {
        Map::empty()
    } else {
        entries_map(s.drop_last()).insert(s.last().0@, s.last().1@)
    }
}

impl View for Scope {
    type V = Map<Seq<char>, Seq<char>>;

    closed spec fn view(&self) -> Map<Seq<char>, Seq<char>> {
        entries_map(self.entries@)
    }
}

proof fn lemma_entries_map_absent(s: Seq<(String, String)>, k: Seq<char>)
    requires
        forall|j: int| 0 <= j && j < s.len() ==> s[j].0@ != k,
    ensures
        !entries_map(s).contains_key(k),
    decreases s.len(),
{
    if s.len() > 0 {
        lemma_entries_map_absent(s.drop_last(), k);
    }
}

proof fn lemma_entries_map_found(s: Seq<(String, String)>, i: int, k: Seq<char>)
    requires
        0 <= i && i < s.len(),
        s[i].0@ == k,
        forall|j: int| i < j && j < s.len() ==> s[j].0@ != k,
    ensures
        entries_map(s).contains_key(k),
        entries_map(s)[k] == s[i].1@,
    decreases s.len(),
{
    if i == s.len() - 1 {
    } else {
        lemma_entries_map_found(s.drop_last(), i, k);
    }
}

proof fn lemma_entries_map_push(s: Seq<(String, String)>, e: (String, String))
    ensures
        entries_map(s.push(e)) == entries_map(s).insert(e.0@, e.1@),
{
    assert(s.push(e).drop_last() =~= s);
    assert(s.push(e).last() == e);
}

impl Scope {
    /// An empty scope.
    pub fn new() -> (r: Scope)
        ensures
            r@ == Map::<Seq<char>, Seq<char>>::empty(),
    {
        Scope { entries: Vec::new() }
    }

    /// Bind `name` to `value`, shadowing any earlier binding of `name`.
    pub fn insert(&mut self, name: String, value: String)
        ensures
            final(self)@ == old(self)@.insert(name@, value@),
    {
        proof {
            lemma_entries_map_push(self.entries@, (name, value));
        }
        self.entries.push((name, value));
    }

    /// Look `name` up; the latest binding wins.
    pub fn get(&self, name: &str) -> (r: Option<&String>)
        ensures
            match r {
                Some(v) => self@.contains_key(name@) && v@ == self@[name@],
                None => !self@.contains_key(name@),
            },
    {
        let key = String::from_str(name);
        let n = self.entries.len();
        let mut i: usize = n;
        while i > 0
            invariant
                i <= n,
                n == self.entries@.len(),
                key@ == name@,
                forall|j: int| i <= j && j < n ==> self.entries@[j].0@ != name@,
            decreases i,
        {
            i = i - 1;
            if self.entries[i].0 == key {
                proof {
                    lemma_entries_map_found(self.entries@, i as int, name@);
                }
                return Some(&self.entries[i].1);
            }
        }
        proof {
            lemma_entries_map_absent(self.entries@, name@);
        }
        None
    }
}

} // verus!
