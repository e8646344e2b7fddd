use vstd::prelude::*;

verus! {

/// The mapping that a sequence of key/value pairs denotes when each pair is
/// inserted in order: a later binding of a key shadows an earlier one.
pub open spec fn entries_map(es: Seq<(Seq<char>, Seq<char>)>) -> Map<Seq<char>, Seq<char>>
    decreases es.len(),
{
    if es.len() == 0 {
        Map::empty()
    } else {
        entries_map(es.drop_last()).insert(es.last().0, es.last().1)
    }
}

/// The domain of `entries_map` is finite and no larger than the entry list.
pub proof fn lemma_entries_map_dom(es: Seq<(Seq<char>, Seq<char>)>)
    ensures
        entries_map(es).dom().finite(),
        entries_map(es).dom().len() <= es.len(),
    decreases es.len(),
{
    if es.len() > 0 {
        lemma_entries_map_dom(es.drop_last());
    }
}

/// Every key of `entries_map` appears as the key of some entry, and conversely.
pub proof fn lemma_entries_map_keys(es: Seq<(Seq<char>, Seq<char>)>, key: Seq<char>)
    ensures
        entries_map(es).contains_key(key) <==> exists|i: int|
            0 <= i < es.len() && es[i].0 == key,
    decreases es.len(),
{
    if es.len() > 0 {
        lemma_entries_map_keys(es.drop_last(), key);
        if es.last().0 == key {
            assert(es[es.len() - 1].0 == key);
        } else if entries_map(es).contains_key(key) {
            let i = choose|i: int| 0 <= i < es.drop_last().len() && es.drop_last()[i].0 == key;
            assert(es[i].0 == key);
        } else if exists|i: int| 0 <= i < es.len() && es[i].0 == key {
            let i = choose|i: int| 0 <= i < es.len() && es[i].0 == key;
            assert(es.drop_last()[i].0 == key);
        }
    }
}

/// If entry `i` binds `key` and no later entry does, that binding is the map's value.
pub proof fn lemma_entries_map_last_binding(
    es: Seq<(Seq<char>, Seq<char>)>,
    key: Seq<char>,
    i: int,
)
    requires
        0 <= i < es.len(),
        es[i].0 == key,
        forall|j: int| i < j < es.len() ==> es[j].0 != key,
    ensures
        entries_map(es).contains_key(key),
        entries_map(es)[key] == es[i].1,
    decreases es.len(),
{
    if i == es.len() - 1 {
    } else {
        lemma_entries_map_last_binding(es.drop_last(), key, i);
    }
}

/// If no entry binds `key`, the map has no value for it.
pub proof fn lemma_entries_map_absent(es: Seq<(Seq<char>, Seq<char>)>, key: Seq<char>)
    requires
        forall|j: int| 0 <= j < es.len() ==> es[j].0 != key,
    ensures
        !entries_map(es).contains_key(key),
    decreases es.len(),
{
    if es.len() > 0 {
        assert(forall|j: int|
            0 <= j < es.drop_last().len() ==> es.drop_last()[j].0 == es[j].0);
        lemma_entries_map_absent(es.drop_last(), key);
    }
}

/// An ordered string-to-string mapping.  It backs both a parsed front-matter
/// header and the render context that is threaded through the layout chain,
/// and it doubles as the in-memory layout store handed to the builder.
/// Insertion appends; lookup takes the latest binding of a key.
#[derive(Debug, Clone, PartialEq, Eq)]
pub struct Dict {
    pub entries: Vec<(String, String)>,
}

impl View for Dict {
    type V = Map<Seq<char>, Seq<char>>;

    open spec fn view(&self) -> Map<Seq<char>, Seq<char>> {
        entries_map(self.entries_view())
    }
}

impl Dict {
    /// The ordered entry list, as mathematical pairs.
    pub open spec fn entries_view(&self) -> Seq<(Seq<char>, Seq<char>)> {
        self.entries.deep_view()
    }

    pub fn new() -> (d: Dict)
        ensures
            d.entries_view() == Seq::<(Seq<char>, Seq<char>)>::empty(),
            d@ == Map::<Seq<char>, Seq<char>>::empty(),
    {
        let d = Dict { entries: Vec::new() };
        proof {
            assert(d.entries_view() =~= Seq::<(Seq<char>, Seq<char>)>::empty());
        }
        d
    }

    pub fn len(&self) -> (n: usize)
        ensures
            n == self.entries_view().len(),
    {
        self.entries.len()
    }

    /// Binds `key` to `value`, shadowing any earlier binding.
    pub fn insert(&mut self, key: String, value: String)
        ensures
            final(self).entries_view() == old(self).entries_view().push((key@, value@)),
            final(self)@ == old(self)@.insert(key@, value@),
    {
        let ghost before = self.entries_view();
        self.entries.push((key, value));
        proof {
            assert(self.entries_view() =~= before.push((key@, value@)));
            assert(self.entries_view().drop_last() =~= before);
        }
    }

    /// A copy with the same entries.
    pub fn duplicate(&self) -> (d: Dict)
        ensures
            d.entries_view() == self.entries_view(),
            d@ == self@,
    {
        let n = self.entries.len();
        let mut entries: Vec<(String, String)> = Vec::new();
        let mut i: usize = 0;
        while i < n
            invariant
                i <= n,
                n == self.entries.len(),
                entries@.len() == i,
                forall|j: int| 0 <= j < i ==> entries@[j] == self.entries@[j],
            decreases n - i,
        {
            entries.push((self.entries[i].0.clone(), self.entries[i].1.clone()));
            proof {
                assert(entries@[i as int] == self.entries@[i as int]);
            }
            i = i + 1;
        }
        let d = Dict { entries };
        proof {
            assert(d.entries@ =~= self.entries@);
            assert(d.entries_view() =~= self.entries_view());
        }
        d
    }

    /// The latest value bound to `key`, if any.
    pub fn get(&self, key: &str) -> (r: Option<&String>)
        ensures
            match r {
                Some(v) => self@.contains_key(key@) && v@ == self@[key@],
                None => !self@.contains_key(key@),
            },
    {
        let owned_key = key.to_owned();
        let n = self.entries.len();
        let mut i = n;
        while i > 0
            invariant
                i <= n,
                n == self.entries_view().len(),
                owned_key@ == key@,
                forall|j: int| i <= j < n ==> self.entries_view()[j].0 != key@,
            decreases i,
        {
            i = i - 1;
            if self.entries[i].0 == owned_key {
                proof {
                    lemma_entries_map_last_binding(self.entries_view(), key@, i as int);
                }
                return Some(&self.entries[i].1);
            }
        }
        proof {
            lemma_entries_map_absent(self.entries_view(), key@);
        }
        None
    }
}

} // verus!
