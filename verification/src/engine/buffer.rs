//! The tables of the session, looked up by name before the store is asked.

use super::table::{Table, TableView};
use crate::names::{first_index, is_first, lemma_first_index};
use vstd::prelude::*;

verus! {

/// The tables that the session created or changed. A name is looked up from
/// the front: the first table of that name is the one that is found.
pub struct BufferPool {
    pub body: Vec<Table>,
}

/// The names of a list of tables.
pub open spec fn table_names(tables: Seq<TableView>) -> Seq<Seq<char>> {
    tables.map_values(|t: TableView| t.name)
}

/// The place of the table that a lookup of `name` finds among `tables`.
pub open spec fn table_index(tables: Seq<TableView>, name: Seq<char>) -> Option<int> {
    first_index(table_names(tables), name)
}

/// The table that a lookup of `name` finds among `tables`.
pub open spec fn lookup(tables: Seq<TableView>, name: Seq<char>) -> Option<TableView> {
    match table_index(tables, name) {
        Some(i) => Some(tables[i]),
        None => None,
    }
}

/// `tables` with `table` in the place of the table found under its name, or
/// after all of them where none is found.
pub open spec fn with_table(tables: Seq<TableView>, table: TableView) -> Seq<TableView> {
    match table_index(tables, table.name) {
        Some(i) => tables.update(i, table),
        None => tables.push(table),
    }
}

/// After a table was put in, a lookup of its name finds it, and a lookup of
/// any other name finds what it found before.
pub proof fn lemma_lookup_with_table(tables: Seq<TableView>, table: TableView, name: Seq<char>)
    ensures
        lookup(with_table(tables, table), name) == if name == table.name {
            Some(table)
        } else {
            lookup(tables, name)
        },
{
    let after = with_table(tables, table);
    lemma_first_index(table_names(tables), table.name);
    lemma_first_index(table_names(tables), name);
    lemma_first_index(table_names(after), name);
    match table_index(tables, table.name) {
        Some(i) => {
            assert(table_names(after) =~= table_names(tables));
            if name == table.name {
            } else {
                match table_index(tables, name) {
                    Some(k) => {
                        assert(k != i);
                    },
                    None => {},
                }
            }
        },
        None => {
            let n = tables.len() as int;
            assert(table_names(after) =~= table_names(tables).push(table.name));
            if name == table.name {
                assert forall|j: int| 0 <= j < n implies table_names(after)[j] != name by {
                    assert(table_names(tables)[j] == table_names(after)[j]);
                    assert(table_names(tables).contains(table_names(tables)[j]));
                }
                assert(is_first(table_names(after), name, n));
            } else {
                match table_index(tables, name) {
                    Some(k) => {
                        assert(is_first(table_names(after), name, k)) by {
                            assert forall|j: int| 0 <= j < k implies table_names(after)[j] != name by {
                                assert(table_names(tables)[j] == table_names(after)[j]);
                            }
                        }
                    },
                    None => {
                        if table_names(after).contains(name) {
                            let j = choose|j: int| 0 <= j < after.len() && table_names(after)[j] == name;
                            assert(j < n);
                            assert(table_names(tables)[j] == name);
                            assert(table_names(tables).contains(name));
                        }
                    },
                }
            }
        },
    }
}

impl View for BufferPool {
    type V = Seq<TableView>;

    open spec fn view(&self) -> Seq<TableView> {
        self.body@.map_values(|t: Table| t@)
    }
}

impl BufferPool {
    /// A buffer that holds no table.
    pub fn new() -> (b: Self)
        ensures
            b.body@.len() == 0,
    {
        Self { body: Vec::new() }
    }

    /// The place of the first table named `name`.
    pub fn position(&self, name: &String) -> (r: Option<usize>)
        ensures
            match r {
                Some(i) => table_index(self@, name@) == Some(i as int) && i < self.body@.len(),
                None => table_index(self@, name@) is None,
            },
    {
        let ghost all = table_names(self@);
        let mut i: usize = 0;
        while i < self.body.len()
            invariant
                i <= self.body.len(),
                all == table_names(self@),
                forall|j: int| 0 <= j < i ==> all[j] != name@,
            decreases self.body.len() - i,
        {
            if self.body[i].name == *name {
                proof {
                    assert(all[i as int] == self.body@[i as int].name@);
                    assert(is_first(all, name@, i as int));
                    lemma_first_index(all, name@);
                }
                return Some(i);
            }
            proof {
                assert(all[i as int] == self.body@[i as int].name@);
            }
            i += 1;
        }
        proof {
            if all.contains(name@) {
                let k = choose|k: int| 0 <= k < all.len() && all[k] == name@;
                assert(all[k] != name@);
            }
        }
        None
    }

    /// The first table named `name`.
    pub fn find(&self, name: &String) -> (r: Option<&Table>)
        ensures
            match r {
                Some(t) => table_index(self@, name@) matches Some(i) && *t == self.body@[i],
                None => table_index(self@, name@) is None,
            },
            r matches Some(t) ==> lookup(self@, name@) == Some(t@),
            r is None ==> lookup(self@, name@) is None,
    {
        match self.position(name) {
            Some(i) => Some(&self.body[i]),
            None => None,
        }
    }

    /// The first table named `name`, to be changed in place: the buffer then
    /// holds what the caller has left there.
    pub fn find_mut(&mut self, name: &String) -> (r: Option<&mut Table>)
        ensures
            match r {
                Some(t) => table_index(old(self)@, name@) matches Some(i) && *t == old(self).body@[i]
                    && final(self).body@ == old(self).body@.update(i, *final(t)),
                None => table_index(old(self)@, name@) is None && *final(self) == *old(self),
            },
    {
        match self.position(name) {
            Some(i) => Some(&mut self.body[i]),
            None => None,
        }
    }

    /// Puts `table` into the buffer: in the place of the table that is found
    /// under its name, or after all others where none is found.
    pub fn insert(&mut self, table: Table)
        ensures
            final(self)@ == with_table(old(self)@, table@),
            match table_index(old(self)@, table@.name) {
                Some(i) => final(self).body@ == old(self).body@.update(i, table),
                None => final(self).body@ == old(self).body@.push(table),
            },
    {
        match self.position(&table.name) {
            Some(i) => {
                self.body[i] = table;
                assert(self@ =~= old(self)@.update(i as int, table@));
            },
            None => {
                self.body.push(table);
                assert(self@ =~= old(self)@.push(table@));
            },
        }
    }
}

} // verus!
