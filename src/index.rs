use vstd::prelude::*;

verus! {

/// One entry of a search-path directory, as listing that directory found it.
pub struct DirEntry {
    pub name: String,
    pub path: String,
    /// Whether the entry is a regular file with execute permission.
    pub executable: bool,
}

/// The path of the first executable entry of `es` called `name`.
pub open spec fn first_exec(es: Seq<DirEntry>, name: Seq<char>) -> Option<Seq<char>>
    decreases es.len(),
{
    if es.len() == 0 {
        None
    } else {
        match first_exec(es.drop_last(), name) {
            Some(p) => Some(p),
            None => if es.last().executable && es.last().name@ == name {
                Some(es.last().path@)
            } else {
                None
            },
        }
    }
}

/// The path of the first executable called `name`, scanning the directories in order.
pub open spec fn first_in_dirs(dirs: Seq<Vec<DirEntry>>, name: Seq<char>) -> Option<Seq<char>>
    decreases dirs.len(),
{
    if dirs.len() == 0 {
        None
    } else {
        match first_in_dirs(dirs.drop_last(), name) {
            Some(p) => Some(p),
            None => first_exec(dirs.last()@, name),
        }
    }
}

/// The path of the first pair of `ps` whose name is `name`.
pub open spec fn first_pair(ps: Seq<(String, String)>, name: Seq<char>) -> Option<Seq<char>>
    decreases ps.len(),
{
    if ps.len() == 0 {
        None
    } else {
        match first_pair(ps.drop_last(), name) {
            Some(p) => Some(p),
            None => if ps.last().0@ == name {
                Some(ps.last().1@)
            } else {
                None
            },
        }
    }
}

/// An optional string as an optional character sequence.
pub open spec fn opt_view(o: Option<String>) -> Option<Seq<char>> {
    match o {
        Some(s) => Some(s@),
        None => None,
    }
}

proof fn lemma_first_pair_none(ps: Seq<(String, String)>, name: Seq<char>)
    ensures
        first_pair(ps, name) is None <==> forall|i: int| 0 <= i < ps.len() ==> (#[trigger] ps[i]).0@ != name,
    decreases ps.len(),
{
    if ps.len() > 0 {
        lemma_first_pair_none(ps.drop_last(), name);
        if first_pair(ps, name) is None {
            assert forall|i: int| 0 <= i < ps.len() implies (#[trigger] ps[i]).0@ != name by {
                if i < ps.len() - 1 {
                    assert(ps[i] == ps.drop_last()[i]);
                }
            }
        } else if forall|i: int| 0 <= i < ps.len() ==> (#[trigger] ps[i]).0@ != name {
            assert forall|i: int| 0 <= i < ps.drop_last().len() implies (#[trigger] ps.drop_last()[i]).0@
                != name by {
                assert(ps[i] == ps.drop_last()[i]);
            }
            assert(ps[ps.len() - 1] == ps.last());
        }
    }
}

proof fn lemma_first_pair_prefix(ps: Seq<(String, String)>, j: int, name: Seq<char>)
    requires
        0 <= j <= ps.len(),
        first_pair(ps.take(j), name) is Some,
    ensures
        first_pair(ps, name) == first_pair(ps.take(j), name),
    decreases ps.len(),
{
    if j == ps.len() {
        assert(ps.take(j) =~= ps);
    } else {
        assert(ps.drop_last().take(j) =~= ps.take(j));
        lemma_first_pair_prefix(ps.drop_last(), j, name);
    }
}

/// The executables found on a search path, each name mapped to the path of its
/// first occurrence.
pub struct ExecIndex {
    entries: Vec<(String, String)>,
}

impl ExecIndex {
    /// The path that `name` resolves to, if any.
    pub closed spec fn resolve(&self, name: Seq<char>) -> Option<Seq<char>> {
        first_pair(self.entries@, name)
    }

    /// No name is held twice.
    pub closed spec fn wf(&self) -> bool {
        forall|i: int, j: int|
            0 <= i < j < self.entries@.len() ==> (#[trigger] self.entries@[i]).0@ != (
            #[trigger] self.entries@[j]).0@
    }

    /// An index that resolves no name.
    pub fn new() -> (r: ExecIndex)
        ensures
            r.wf(),
            forall|n: Seq<char>| (#[trigger] r.resolve(n)) is None,
    {
        ExecIndex { entries: Vec::new() }
    }

    /// Adds the executables of one more directory; names already present keep their path.
    pub fn add_dir(&mut self, entries: &Vec<DirEntry>)
        requires
            old(self).wf(),
        ensures
            final(self).wf(),
            forall|n: Seq<char>|
                #[trigger] final(self).resolve(n) == match old(self).resolve(n) {
                    Some(p) => Some(p),
                    None => first_exec(entries@, n),
                },
    {
        let ghost start = *self;
        let mut i: usize = 0;
        while i < entries.len()
            invariant
                i <= entries@.len(),
                self.wf(),
                forall|n: Seq<char>|
                    #[trigger] self.resolve(n) == match start.resolve(n) {
                        Some(p) => Some(p),
                        None => first_exec(entries@.take(i as int), n),
                    },
            decreases entries@.len() - i,
        {
            let e = &entries[i];
            assert(entries@.take(i + 1).drop_last() =~= entries@.take(i as int));
            assert(entries@.take(i + 1).last() == entries@[i as int]);
            if e.executable {
                let found = self.lookup(&e.name);
                if found.is_none() {
                    let ghost before = self.entries@;
                    proof {
                        lemma_first_pair_none(before, e.name@);
                    }
                    self.entries.push((e.name.clone(), e.path.clone()));
                    assert(self.entries@.drop_last() =~= before);
                    assert forall|a: int, b: int|
                        0 <= a < b < self.entries@.len() implies (#[trigger] self.entries@[a]).0@ != (
                        #[trigger] self.entries@[b]).0@ by {
                        if b < before.len() {
                            assert(self.entries@[a] == before[a]);
                            assert(self.entries@[b] == before[b]);
                        } else {
                            assert(self.entries@[a] == before[a]);
                        }
                    }
                }
            }
            i = i + 1;
        }
        assert(entries@.take(entries@.len() as int) =~= entries@);
    }

    /// Builds the index of a search path: the listings of its directories, in order.
    pub fn build(dirs: &Vec<Vec<DirEntry>>) -> (r: ExecIndex)
        ensures
            r.wf(),
            forall|n: Seq<char>| #[trigger] r.resolve(n) == first_in_dirs(dirs@, n),
    {
        let mut index = ExecIndex::new();
        let mut i: usize = 0;
        while i < dirs.len()
            invariant
                i <= dirs@.len(),
                index.wf(),
                forall|n: Seq<char>|
                    #[trigger] index.resolve(n) == first_in_dirs(dirs@.take(i as int), n),
            decreases dirs@.len() - i,
        {
            assert(dirs@.take(i + 1).drop_last() =~= dirs@.take(i as int));
            assert(dirs@.take(i + 1).last() == dirs@[i as int]);
            index.add_dir(&dirs[i]);
            i = i + 1;
        }
        assert(dirs@.take(dirs@.len() as int) =~= dirs@);
        index
    }

    /// The path that `name` resolves to, if any; the index is not rescanned.
    pub fn lookup(&self, name: &String) -> (r: Option<String>)
        ensures
            opt_view(r) == self.resolve(name@),
    {
        let mut i: usize = 0;
        while i < self.entries.len()
            invariant
                i <= self.entries@.len(),
                first_pair(self.entries@.take(i as int), name@) is None,
            decreases self.entries@.len() - i,
        {
            assert(self.entries@.take(i + 1).drop_last() =~= self.entries@.take(i as int));
            assert(self.entries@.take(i + 1).last() == self.entries@[i as int]);
            if self.entries[i].0 == *name {
                proof {
                    lemma_first_pair_prefix(self.entries@, i + 1, name@);
                }
                return Some(self.entries[i].1.clone());
            }
            i = i + 1;
        }
        assert(self.entries@.take(self.entries@.len() as int) =~= self.entries@);
        None
    }
}

/// Of two search-path directories that both hold an executable of some name, the
/// index keeps the path from the earlier one.
pub proof fn lemma_earlier_dir_wins(d1: Vec<DirEntry>, d2: Vec<DirEntry>, name: Seq<char>)
    requires
        first_exec(d1@, name) is Some,
    ensures
        first_in_dirs(seq![d1, d2], name) == first_exec(d1@, name),
{
    let ds = seq![d1, d2];
    assert(ds.drop_last() =~= seq![d1]);
    assert(seq![d1].drop_last() =~= Seq::<Vec<DirEntry>>::empty());
    assert(first_in_dirs(Seq::<Vec<DirEntry>>::empty(), name) is None);
    assert(seq![d1].last() == d1);
    assert(ds.last() == d2);
    assert(first_in_dirs(seq![d1], name) == first_exec(d1@, name));
}

} // verus!
