//! The symbol table: declarations filed by name, a later one replacing an
//! earlier one of the same name.
use vstd::prelude::*;

use crate::ast::{decl_name, DeclView, LNMsgType};

verus! {

/// The map that a sequence of declarations amounts to, later ones winning.
pub open spec fn decls_map(s: Seq<DeclView>) -> Map<Seq<char>, DeclView>
    decreases s.len(),
{
    if s.len() == 0 {
        Map::empty()
    } else {
        decls_map(s.drop_last()).insert(decl_name(s.last()), s.last())
    }
}

pub open spec fn names_unique(s: Seq<DeclView>) -> bool {
    forall|i: int, j: int|
        0 <= i < s.len() && 0 <= j < s.len() && i != j ==> decl_name(s[i]) != decl_name(s[j])
}

proof fn lemma_decls_map_update(s: Seq<DeclView>, i: int, d: DeclView)
    requires
        names_unique(s),
        0 <= i < s.len(),
        decl_name(s[i]) == decl_name(d),
    ensures
        decls_map(s.update(i, d)) == decls_map(s).insert(decl_name(d), d),
    decreases s.len(),
{
    let u = s.update(i, d);
    if i == s.len() - 1 {
        assert(u.drop_last() =~= s.drop_last());
        assert(decls_map(u) =~= decls_map(s).insert(decl_name(d), d));
    } else {
        assert(u.drop_last() =~= s.drop_last().update(i, d));
        lemma_decls_map_update(s.drop_last(), i, d);
        assert(decl_name(s.last()) != decl_name(d));
        assert(decls_map(u) =~= decls_map(s).insert(decl_name(d), d));
    }
}

proof fn lemma_decls_map_domain(s: Seq<DeclView>, k: Seq<char>)
    ensures
        decls_map(s).contains_key(k) <==> exists|i: int| 0 <= i < s.len() && decl_name(s[i]) == k,
    decreases s.len(),
{
    if s.len() > 0 {
        lemma_decls_map_domain(s.drop_last(), k);
        if decls_map(s).contains_key(k) && decl_name(s.last()) != k {
            let i = choose|i: int| 0 <= i < s.len() - 1 && decl_name(s.drop_last()[i]) == k;
            assert(decl_name(s[i]) == k);
        }
        if exists|i: int| 0 <= i < s.len() && decl_name(s[i]) == k {
            let i = choose|i: int| 0 <= i < s.len() && decl_name(s[i]) == k;
            if i < s.len() - 1 {
                assert(decl_name(s.drop_last()[i]) == k);
            }
        }
    }
}

proof fn lemma_decls_map_at(s: Seq<DeclView>, i: int)
    requires
        names_unique(s),
        0 <= i < s.len(),
    ensures
        decls_map(s).contains_key(decl_name(s[i])),
        decls_map(s)[decl_name(s[i])] == s[i],
    decreases s.len(),
{
    if i < s.len() - 1 {
        lemma_decls_map_at(s.drop_last(), i);
    }
}

/// Declarations filed by name.
#[derive(PartialEq, Debug)]
pub struct SymbolTable {
    entries: Vec<LNMsgType>,
}

impl SymbolTable {
    pub closed spec fn entries_view(&self) -> Seq<DeclView> {
        self.entries@.map_values(|d: LNMsgType| d@)
    }

    /// No two entries share a name.
    pub closed spec fn wf(&self) -> bool {
        names_unique(self.entries_view())
    }

    /// The table as a map from declaration name to declaration.
    pub closed spec fn view(&self) -> Map<Seq<char>, DeclView> {
        decls_map(self.entries_view())
    }

    pub fn new() -> (r: SymbolTable)
        ensures
            r.wf(),
            r.view() == Map::<Seq<char>, DeclView>::empty(),
    {
        let r = SymbolTable { entries: Vec::new() };
        assert(r.entries_view() =~= seq![]);
        r
    }

    /// Files `d` under its name, replacing an earlier declaration of that name.
    pub fn insert(&mut self, d: LNMsgType)
        requires
            old(self).wf(),
        ensures
            final(self).wf(),
            final(self).view() == old(self).view().insert(decl_name(d@), d@),
    {
        let ghost s = self.entries_view();
        let mut i: usize = 0;
        while i < self.entries.len()
            invariant
                self.entries_view() == s,
                old(self).entries_view() == s,
                names_unique(s),
                0 <= i <= s.len(),
                forall|j: int| 0 <= j < i ==> decl_name(s[j]) != decl_name(d@),
            decreases self.entries.len() - i,
        {
            let same = self.entries[i].name().eq(d.name());
            assert(s[i as int] == self.entries@[i as int]@);
            if same {
                self.entries.set(i, d);
                proof {
                    assert(self.entries_view() =~= s.update(i as int, d@));
                    lemma_decls_map_update(s, i as int, d@);
                }
                return;
            }
            i = i + 1;
        }
        self.entries.push(d);
        proof {
            let t = s.push(d@);
            assert(self.entries_view() =~= t);
            assert(t.drop_last() =~= s);
        }
    }

    /// The declaration filed under `name`, if any.
    pub fn get(&self, name: &String) -> (r: Option<&LNMsgType>)
        requires
            self.wf(),
        ensures
            match r {
                Some(d) => self.view().contains_key(name@) && self.view()[name@] == d@,
                None => !self.view().contains_key(name@),
            },
    {
        let mut i: usize = 0;
        while i < self.entries.len()
            invariant
                self.wf(),
                0 <= i <= self.entries_view().len(),
                forall|j: int| 0 <= j < i ==> decl_name(#[trigger] self.entries_view()[j]) != name@,
            decreases self.entries.len() - i,
        {
            let same = self.entries[i].name().eq(name);
            assert(self.entries_view()[i as int] == self.entries@[i as int]@);
            if same {
                proof { lemma_decls_map_at(self.entries_view(), i as int); }
                return Some(&self.entries[i]);
            }
            i = i + 1;
        }
        proof { lemma_decls_map_domain(self.entries_view(), name@); }
        None
    }

    /// The declarations in the table, each name once.
    pub fn entries(&self) -> (r: &Vec<LNMsgType>)
        requires
            self.wf(),
        ensures
            r@.len() == self.view().len(),
            forall|i: int| #![trigger r@[i]] 0 <= i < r@.len() ==> {
                &&& self.view().contains_key(decl_name(r@[i]@))
                &&& self.view()[decl_name(r@[i]@)] == r@[i]@
            },
            forall|i: int, j: int| 0 <= i < r@.len() && 0 <= j < r@.len() && i != j
                ==> decl_name(#[trigger] r@[i]@) != decl_name(#[trigger] r@[j]@),
            forall|k: Seq<char>| #[trigger] self.view().contains_key(k)
                ==> exists|i: int| 0 <= i < r@.len() && decl_name(#[trigger] r@[i]@) == k,
    {
        let r = &self.entries;
        proof {
            let s = self.entries_view();
            lemma_decls_map_len(s);
            assert forall|i: int| #![trigger r@[i]] 0 <= i < r@.len() implies {
                &&& self.view().contains_key(decl_name(r@[i]@))
                &&& self.view()[decl_name(r@[i]@)] == r@[i]@
            } by {
                assert(s[i] == r@[i]@);
                lemma_decls_map_at(s, i);
            }
            assert forall|i: int, j: int| 0 <= i < r@.len() && 0 <= j < r@.len() && i != j
                implies decl_name(#[trigger] r@[i]@) != decl_name(#[trigger] r@[j]@) by {
                assert(s[i] == r@[i]@ && s[j] == r@[j]@);
            }
            assert forall|k: Seq<char>| #[trigger] self.view().contains_key(k)
                implies exists|i: int| 0 <= i < r@.len() && decl_name(#[trigger] r@[i]@) == k by {
                lemma_decls_map_domain(s, k);
                let i = choose|i: int| 0 <= i < s.len() && decl_name(s[i]) == k;
                assert(s[i] == r@[i]@);
            }
        }
        r
    }

    /// The number of names in the table.
    pub fn len(&self) -> (r: usize)
        requires
            self.wf(),
        ensures
            r == self.view().len(),
    {
        proof { lemma_decls_map_len(self.entries_view()); }
        self.entries.len()
    }
}

proof fn lemma_decls_map_len(s: Seq<DeclView>)
    requires
        names_unique(s),
    ensures
        decls_map(s).len() == s.len(),
        decls_map(s).dom().finite(),
    decreases s.len(),
{
    if s.len() > 0 {
        lemma_decls_map_len(s.drop_last());
        lemma_decls_map_domain(s.drop_last(), decl_name(s.last()));
        if decls_map(s.drop_last()).contains_key(decl_name(s.last())) {
            let i = choose|i: int| 0 <= i < s.len() - 1 && decl_name(s.drop_last()[i]) == decl_name(s.last());
            assert(decl_name(s[i]) == decl_name(s[s.len() - 1]));
        }
    }
}

} // verus!
