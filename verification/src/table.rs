//! Tables of items that are looked up by a name kept in a string section.

use vstd::prelude::*;
use crate::container::section::SectionEntry;
use crate::container::Container;
use crate::strings::error::ReadError;
use crate::strings::{lemma_payload_kept_read, payload_kept, StringSection};

verus! {

/// An item whose name is a string of a string section.
pub trait Item {
    /// The address of the item's name.
    spec fn name_address(&self) -> u32;

    /// The address of the item's name in its string section.
    fn get_name_address(&self) -> (r: u32)
        ensures
            r == self.name_address(),
    ;
}

/// Where `name` occurs last among `names`, if it occurs.
pub open spec fn find_last(names: Seq<Seq<char>>, name: Seq<char>) -> Option<int>
    decreases names.len(),
{
    if names.len() == 0 {
        None
    } else if names.last() == name {
        Some(names.len() - 1)
    } else {
        find_last(names.drop_last(), name)
    }
}

/// True where a name was read.
pub open spec fn was_read(name: Result<Seq<char>, ReadError>) -> bool {
    name is Ok
}

/// Where a name is found, it is found at a place of the names.
pub proof fn lemma_find_last_in_range(names: Seq<Seq<char>>, name: Seq<char>)
    ensures
        find_last(names, name) matches Some(i) ==> 0 <= i < names.len() && names[i] == name,
    decreases names.len(),
{
    if names.len() > 0 && names.last() != name {
        lemma_find_last_in_range(names.drop_last(), name);
    }
}

/// The first error among the outcomes, in their order.
pub open spec fn first_error(names: Seq<Result<Seq<char>, ReadError>>) -> Option<ReadError>
    decreases names.len(),
{
    if names.len() == 0 {
        None
    } else {
        match first_error(names.drop_last()) {
            Some(e) => Some(e),
            None => match names.last() {
                Err(e) => Some(e),
                Ok(_) => None,
            },
        }
    }
}

/// An error among the first `k` outcomes is the first error of all.
pub proof fn lemma_first_error_stays(names: Seq<Result<Seq<char>, ReadError>>, k: int)
    requires
        0 <= k <= names.len(),
        first_error(names.take(k)) is Some,
    ensures
        first_error(names) == first_error(names.take(k)),
    decreases names.len() - k,
{
    if k < names.len() {
        assert(names.take(k + 1).drop_last() =~= names.take(k));
        lemma_first_error_stays(names, k + 1);
    } else {
        assert(names.take(k) =~= names);
    }
}

/// What reading the name of each item gives, in the order of the items, for a
/// string section with the strings `cached` kept and the entry `e` in the
/// container.
pub open spec fn item_names<T: Item>(
    list: Seq<T>,
    cached: Map<u32, Seq<char>>,
    e: SectionEntry,
) -> Seq<Result<Seq<char>, ReadError>> {
    Seq::new(list.len(), |i: int| StringSection::resolve(cached, e, list[i].name_address()))
}

/// True where `names` holds the names that were read, in their order.
pub open spec fn names_read(names: Seq<String>, outcomes: Seq<Result<Seq<char>, ReadError>>) -> bool {
    &&& names.len() == outcomes.len()
    &&& forall|k: int|
        #![trigger names[k]]
        #![trigger outcomes[k]]
        0 <= k < names.len() ==> was_read(outcomes[k]) && names[k]@ == outcomes[k]->Ok_0
}

/// Reads the name of each item, in the order of the items, through the string
/// section. Stops at the first name that cannot be read. Whatever the string
/// section gave for an address before, it gives after.
pub fn read_names<T: Item>(list: &Vec<T>, container: &mut Container, strings: &mut StringSection) -> (r:
    Result<Vec<String>, ReadError>)
    requires
        old(container).wf(),
        old(container).table.contains(old(strings).section),
    ensures
        final(container).wf(),
        final(container).table.contains(old(strings).section),
        final(container).main_header == old(container).main_header,
        final(container).poisoned == old(container).poisoned,
        final(strings).section == old(strings).section,
        payload_kept(old(container).table, old(strings).section, final(container).table),
        forall|a: u32|
            StringSection::resolve(
                final(strings).cached(),
                final(container).table.entry(old(strings).section),
                a,
            ) == StringSection::resolve(
                old(strings).cached(),
                old(container).table.entry(old(strings).section),
                a,
            ),
        match first_error(
            item_names(
                list@,
                old(strings).cached(),
                old(container).table.entry(old(strings).section),
            ),
        ) {
            Some(e) => r == Err::<Vec<String>, ReadError>(e),
            None => r matches Ok(names) && names_read(
                names@,
                item_names(
                    list@,
                    old(strings).cached(),
                    old(container).table.entry(old(strings).section),
                ),
            ),
        },
{
    let mut out: Vec<String> = Vec::new();
    let ghost cached0 = strings.cached();
    let ghost e0 = container.table.entry(strings.section);
    let ghost all = item_names(list@, cached0, e0);
    let ghost section = strings.section;
    let mut i: usize = 0;
    assert(all.take(0) =~= Seq::<Result<Seq<char>, ReadError>>::empty());
    while i < list.len()
        invariant
            i <= list@.len(),
            container.wf(),
            container.table.contains(section),
            container.main_header == old(container).main_header,
            container.poisoned == old(container).poisoned,
            strings.section == section,
            section == old(strings).section,
            cached0 == old(strings).cached(),
            e0 == old(container).table.entry(old(strings).section),
            all == item_names(list@, cached0, e0),
            forall|a: u32|
                StringSection::resolve(strings.cached(), container.table.entry(section), a)
                    == StringSection::resolve(cached0, e0, a),
            first_error(all.take(i as int)) is None,
            names_read(out@, all.take(i as int)),
            old(container).wf(),
            old(container).table.contains(section),
            payload_kept(old(container).table, section, container.table),
        decreases list@.len() - i,
    {
        let ghost before = *container;
        let ghost cached = strings.cached();
        let address = list[i].get_name_address();
        proof {
            assert(all.take(i + 1).drop_last() =~= all.take(i as int));
            assert(all.take(i + 1).last() == all[i as int]);
            assert(all[i as int] == StringSection::resolve(
                cached,
                before.table.entry(section),
                address,
            ));
        }
        let got = strings.get(container, address);
        proof {
            let e = before.table.entry(section);
            if StringSection::reads_section(cached, e, address) {
                let p = before.table.position(section);
                assert(container.table.sections@[p].data is Some);
                assert(container.table.sections@[p].data->Some_0.contents()
                    == e.data->Some_0.contents());
                container.table.lemma_position_unique(section, p);
                lemma_payload_kept_read(
                    old(container).table,
                    before.table,
                    container.table,
                    section,
                    container.table.sections@[p].data->Some_0@,
                );
            }
        }
        let name = match got {
            Ok(s) => s.to_owned(),
            Err(e) => {
                proof {
                    lemma_first_error_stays(all, i + 1);
                }
                return Err(e);
            },
        };
        let ghost done = out@;
        out.push(name);
        proof {
            let next = all.take(i + 1);
            assert forall|k: int|
                #![trigger out@[k]]
                #![trigger next[k]]
                0 <= k < out@.len() implies was_read(next[k]) && out@[k]@ == next[k]->Ok_0 by {
                if k < i {
                    assert(out@[k] == done[k]);
                    assert(next[k] == all.take(i as int)[k]);
                }
            }
        }
        i += 1;
    }
    proof {
        assert(all.take(i as int) =~= all);
    }
    Ok(out)
}

/// A table of items with a lookup by name. The lookup works once its table
/// of names was built.
pub struct ItemTable<T: Item> {
    pub list: Vec<T>,
    pub map: Option<Vec<(String, T)>>,
}

impl<T: Item> ItemTable<T> {
    /// The names of a lookup table, in its order.
    pub open spec fn keys(map: Seq<(String, T)>) -> Seq<Seq<char>> {
        Seq::new(map.len(), |i: int| map[i].0@)
    }

    /// A table of the given items, without a lookup table.
    pub fn new(list: Vec<T>) -> (r: Self)
        ensures
            r.list == list,
            r.map is None,
    {
        Self { list, map: None }
    }

    /// A walk over the items, in their order.
    pub fn iter(&self) -> (r: std::slice::Iter<'_, T>)
        ensures
            vstd::std_specs::slice::into_iter_elts(r) == self.list@,
    {
        broadcast use vstd::std_specs::slice::axiom_spec_slice_iter;

        let r = self.list.as_slice().iter();
        assert(vstd::std_specs::slice::into_iter_elts(r) =~= self.list@);
        r
    }

    /// The number of items.
    pub fn len(&self) -> (r: usize)
        ensures
            r == self.list@.len(),
    {
        self.list.len()
    }

    /// True where the table has no item.
    pub fn is_empty(&self) -> (r: bool)
        ensures
            r == (self.list@.len() == 0),
    {
        self.list.len() == 0
    }

    /// The item at place `index`.
    pub fn index(&self, index: usize) -> (r: &T)
        requires
            index < self.list@.len(),
        ensures
            *r == self.list@[index as int],
    {
        &self.list[index]
    }

    /// The item that the lookup table names `name`: the last one entered
    /// under that name, if there is one.
    pub fn lookup(&self, name: &str) -> (r: Option<&T>)
        requires
            self.map is Some,
        ensures
            match find_last(Self::keys(self.map->Some_0@), name@) {
                Some(i) => r == Some(&self.map->Some_0@[i].1),
                None => r is None,
            },
    {
        match &self.map {
            Some(map) => {
                let key = name.to_owned();
                let mut i: usize = map.len();
                let ghost keys = Self::keys(map@);
                assert(keys.take(i as int) =~= keys);
                while i > 0
                    invariant
                        i <= map@.len(),
                        self.map is Some,
                        self.map->Some_0@ == map@,
                        keys == Self::keys(map@),
                        key@ == name@,
                        find_last(keys, name@) == find_last(keys.take(i as int), name@),
                    decreases i,
                {
                    proof {
                        assert(keys.take(i as int).drop_last() =~= keys.take(i - 1));
                        assert(keys.take(i as int).last() == map@[i - 1].0@);
                    }
                    if map[i - 1].0 == key {
                        assert(find_last(keys.take(i as int), name@) == Some(i - 1));
                        assert(self.map->Some_0@ == map@);
                        assert(find_last(Self::keys(self.map->Some_0@), name@) == Some(i - 1));
                        let r = Some(&map[i - 1].1);
                        assert(r == Some(&self.map->Some_0@[i - 1].1));
                        return r;
                    }
                    i -= 1;
                }
                None
            },
            None => None,
        }
    }
}

impl<T: Item + Clone> ItemTable<T> {
    /// Builds the lookup table: reads the name of each item, in the order of
    /// the items, through the string section, and enters a clone of the item
    /// under it. Where a name cannot be read the first such error is
    /// returned, and the lookup table stays as it was.
    pub fn build_lookup_table(&mut self, container: &mut Container, names: &mut StringSection) -> (r:
        Result<(), ReadError>)
        requires
            old(container).wf(),
            old(container).table.contains(old(names).section),
        ensures
            final(container).wf(),
            final(container).table.contains(old(names).section),
            final(container).main_header == old(container).main_header,
            final(container).poisoned == old(container).poisoned,
            final(names).section == old(names).section,
            final(self).list == old(self).list,
            payload_kept(old(container).table, old(names).section, final(container).table),
            forall|a: u32|
                StringSection::resolve(
                    final(names).cached(),
                    final(container).table.entry(old(names).section),
                    a,
                ) == StringSection::resolve(
                    old(names).cached(),
                    old(container).table.entry(old(names).section),
                    a,
                ),
            match first_error(
                item_names(
                    old(self).list@,
                    old(names).cached(),
                    old(container).table.entry(old(names).section),
                ),
            ) {
                Some(e) => r == Err::<(), ReadError>(e) && final(self).map == old(self).map,
                None => r is Ok && final(self).map is Some && Self::built(
                    old(self).list@,
                    item_names(
                        old(self).list@,
                        old(names).cached(),
                        old(container).table.entry(old(names).section),
                    ),
                    final(self).map->Some_0@,
                ),
            },
    {
        let ghost all = item_names(
            self.list@,
            names.cached(),
            container.table.entry(names.section),
        );
        let read = match read_names(&self.list, container, names) {
            Ok(v) => v,
            Err(e) => {
                return Err(e);
            },
        };
        let mut map: Vec<(String, T)> = Vec::new();
        let mut i: usize = 0;
        while i < self.list.len()
            invariant
                i <= self.list@.len(),
                *self == *old(self),
                read@.len() == self.list@.len(),
                all.len() == self.list@.len(),
                names_read(read@, all),
                Self::built_upto(self.list@, all, map@, i as int),
            decreases self.list@.len() - i,
        {
            let name = read[i].clone();
            let item = self.list[i].clone();
            let ghost done = map@;
            map.push((name, item));
            proof {
                Self::lemma_built_step(self.list@, all, done, i as int, (name, item));
            }
            i += 1;
        }
        self.map = Some(map);
        Ok(())
    }

    /// True where `map` holds, for each of the first `n` items of `list`
    /// and in their order, a clone of the item under its name.
    pub open spec fn built_upto(
        list: Seq<T>,
        names: Seq<Result<Seq<char>, ReadError>>,
        map: Seq<(String, T)>,
        n: int,
    ) -> bool {
        &&& map.len() == n
        &&& forall|k: int|
            #![trigger map[k]]
            #![trigger names[k]]
            #![trigger list[k]]
            0 <= k < n ==> {
                &&& was_read(names[k])
                &&& map[k].0@ == names[k]->Ok_0
                &&& cloned(list[k], map[k].1)
            }
    }

    /// True where `map` is the lookup table of the items `list` with the
    /// names `names`: each item's clone under its name, in the items' order.
    pub open spec fn built(
        list: Seq<T>,
        names: Seq<Result<Seq<char>, ReadError>>,
        map: Seq<(String, T)>,
    ) -> bool {
        Self::built_upto(list, names, map, list.len() as int)
    }

    /// Entering the next item's clone under its name extends a lookup table
    /// by one item.
    pub proof fn lemma_built_step(
        list: Seq<T>,
        names: Seq<Result<Seq<char>, ReadError>>,
        map: Seq<(String, T)>,
        n: int,
        entry: (String, T),
    )
        requires
            Self::built_upto(list, names, map, n),
            names[n] is Ok,
            entry.0@ == names[n]->Ok_0,
            cloned(list[n], entry.1),
        ensures
            Self::built_upto(list, names, map.push(entry), n + 1),
    {
        let next = map.push(entry);
        assert forall|k: int|
            #![trigger next[k]]
            #![trigger names[k]]
            #![trigger list[k]]
            0 <= k < n + 1 implies {
            &&& was_read(names[k])
            &&& next[k].0@ == names[k]->Ok_0
            &&& cloned(list[k], next[k].1)
        } by {
            if k < n {
                assert(next[k] == map[k]);
            }
        }
    }
}

/// The cell of `once_cell` that holds a value once it was set.
#[verifier::external_type_specification]
#[verifier::external_body]
#[verifier::reject_recursive_types(T)]
pub struct ExOnceCell<T>(once_cell::unsync::OnceCell<T>);

/// What a cell holds: nothing, or names, each with the place of its item.
pub uninterp spec fn name_index(cell: once_cell::unsync::OnceCell<Vec<(String, usize)>>) -> Option<
    Seq<(Seq<char>, usize)>,
>;

/// The names and places that a vector of them holds.
pub open spec fn pairs(v: Seq<(String, usize)>) -> Seq<(Seq<char>, usize)> {
    Seq::new(v.len(), |i: int| (v[i].0@, v[i].1))
}

/// Calls `OnceCell::new`. Trusted: the new cell holds nothing.
#[verifier::external_body]
fn name_index_new() -> (r: once_cell::unsync::OnceCell<Vec<(String, usize)>>)
    ensures
        name_index(r) is None,
{
    once_cell::unsync::OnceCell::new()
}

/// Calls `OnceCell::with_value`. Trusted: the new cell holds the value.
#[verifier::external_body]
fn name_index_with(value: Vec<(String, usize)>) -> (r: once_cell::unsync::OnceCell<
    Vec<(String, usize)>,
>)
    ensures
        name_index(r) == Some(pairs(value@)),
{
    once_cell::unsync::OnceCell::with_value(value)
}

/// Calls `OnceCell::get`. Trusted: gives the value that the cell holds, if
/// it holds one.
#[verifier::external_body]
fn name_index_get(cell: &once_cell::unsync::OnceCell<Vec<(String, usize)>>) -> (r: Option<
    &Vec<(String, usize)>,
>)
    ensures
        r matches Some(v) ==> name_index(*cell) == Some(pairs(v@)),
        r is None ==> name_index(*cell) is None,
{
    cell.get()
}

/// Calls `OnceCell::set`. Trusted: an empty cell takes the value; a full one
/// stays as it is and the value comes back.
#[verifier::external_body]
fn name_index_set(
    cell: &mut once_cell::unsync::OnceCell<Vec<(String, usize)>>,
    value: Vec<(String, usize)>,
) -> (r: Result<(), Vec<(String, usize)>>)
    ensures
        name_index(*old(cell)) is None ==> r is Ok
            && name_index(*final(cell)) == Some(pairs(value@)),
        name_index(*old(cell)) is Some ==> r is Err && r->Err_0 == value
            && name_index(*final(cell)) == name_index(*old(cell)),
{
    cell.set(value)
}

/// Calls `OnceCell::take`. Trusted: gives the value that the cell held, if
/// it held one, and leaves the cell empty.
#[verifier::external_body]
fn name_index_take(cell: &mut once_cell::unsync::OnceCell<Vec<(String, usize)>>) -> (r: Option<
    Vec<(String, usize)>,
>)
    ensures
        name_index(*final(cell)) is None,
        r matches Some(v) ==> name_index(*old(cell)) == Some(pairs(v@)),
        r is None ==> name_index(*old(cell)) is None,
{
    cell.take()
}

/// The names of a name index, in its order.
pub open spec fn index_keys(index: Seq<(Seq<char>, usize)>) -> Seq<Seq<char>> {
    Seq::new(index.len(), |i: int| index[i].0)
}

/// The name index of items with the given names: each name with the place of
/// its item, in the order of the items.
pub open spec fn index_of_names(names: Seq<Result<Seq<char>, ReadError>>) -> Seq<(Seq<char>, usize)> {
    Seq::new(names.len(), |i: int| (names[i]->Ok_0, i as usize))
}

/// The place of the item that the index names `name`: that of the last
/// item entered under the name, if there is one.
pub open spec fn place_of(index: Seq<(Seq<char>, usize)>, name: Seq<char>) -> Option<usize> {
    match find_last(index_keys(index), name) {
        Some(i) => Some(index[i].1),
        None => None,
    }
}

/// Searches a name in an index of names, from its end.
pub fn find_place(names: &Vec<(String, usize)>, name: &str) -> (r: Option<usize>)
    ensures
        r == place_of(pairs(names@), name@),
{
    let key = name.to_owned();
    let ghost index = pairs(names@);
    let ghost keys = index_keys(index);
    let mut i: usize = names.len();
    assert(keys.take(i as int) =~= keys);
    while i > 0
        invariant
            i <= names@.len(),
            index == pairs(names@),
            keys == index_keys(index),
            key@ == name@,
            find_last(keys, name@) == find_last(keys.take(i as int), name@),
        decreases i,
    {
        proof {
            assert(keys.take(i as int).drop_last() =~= keys.take(i - 1));
            assert(keys.take(i as int).last() == names@[i - 1].0@);
        }
        if names[i - 1].0 == key {
            let place = names[i - 1].1;
            assert(find_last(keys.take(i as int), name@) == Some(i - 1));
            assert(index[i - 1].1 == place);
            return Some(place);
        }
        i -= 1;
    }
    None
}

/// A table of named items. Its index of names is built when an item is
/// first searched by name.
pub struct NamedItemTable<T> {
    pub list: Vec<T>,
    pub map: once_cell::unsync::OnceCell<Vec<(String, usize)>>,
}

impl<T> NamedItemTable<T> {
    /// The index of names, once it was built.
    pub open spec fn index(&self) -> Option<Seq<(Seq<char>, usize)>> {
        name_index(self.map)
    }

    /// Every place in the index of names is the place of an item.
    pub open spec fn wf(&self) -> bool {
        match self.index() {
            Some(index) => forall|i: int|
                0 <= i < index.len() ==> (#[trigger] index[i]).1 < self.list@.len(),
            None => true,
        }
    }

    /// A table of the given items. The index of names is not built yet.
    pub fn with_list(list: Vec<T>) -> (r: Self)
        ensures
            r.wf(),
            r.list == list,
            r.index() is None,
    {
        Self { list, map: name_index_new() }
    }

    /// A table without items, with an index of no names.
    pub fn empty() -> (r: Self)
        ensures
            r.wf(),
            r.list@.len() == 0,
            r.index() == Some(Seq::<(Seq<char>, usize)>::empty()),
    {
        let names: Vec<(String, usize)> = Vec::new();
        assert(pairs(names@) =~= Seq::<(Seq<char>, usize)>::empty());
        Self { list: Vec::new(), map: name_index_with(names) }
    }

    /// A walk over the items, in their order.
    pub fn iter(&self) -> (r: std::slice::Iter<'_, T>)
        ensures
            vstd::std_specs::slice::into_iter_elts(r) == self.list@,
    {
        broadcast use vstd::std_specs::slice::axiom_spec_slice_iter;

        let r = self.list.as_slice().iter();
        assert(vstd::std_specs::slice::into_iter_elts(r) =~= self.list@);
        r
    }

    /// True where the table has no item.
    pub fn is_empty(&self) -> (r: bool)
        ensures
            r == (self.list@.len() == 0),
    {
        self.list.len() == 0
    }

    /// The number of items.
    pub fn len(&self) -> (r: usize)
        ensures
            r == self.list@.len(),
    {
        self.list.len()
    }

    /// Removes the item at place `index`. The index of names is dropped, and
    /// built again when an item is next searched by name.
    pub fn remove(&mut self, index: usize)
        requires
            old(self).wf(),
            index < old(self).list@.len(),
        ensures
            final(self).wf(),
            final(self).list@ == old(self).list@.remove(index as int),
            final(self).index() is None,
    {
        let _gone = self.list.remove(index);
        let _dropped = name_index_take(&mut self.map);
    }

    /// Adds an item at the end, and enters it in the index of names where
    /// that was built. Gives the item's place.
    pub fn push(&mut self, name: String, item: T) -> (r: usize)
        requires
            old(self).wf(),
        ensures
            final(self).wf(),
            r == old(self).list@.len(),
            final(self).list@ == old(self).list@.push(item),
            match old(self).index() {
                Some(index) => final(self).index() == Some(index.push((name@, r))),
                None => final(self).index() is None,
            },
    {
        let place = self.list.len();
        match name_index_take(&mut self.map) {
            Some(names) => {
                let mut names = names;
                let ghost before = pairs(names@);
                names.push((name, place));
                assert(pairs(names@) =~= before.push((name@, place)));
                let set = name_index_set(&mut self.map, names);
                self.list.push(item);
                proof {
                    let index = final(self).index()->Some_0;
                    assert(old(self).index() == Some(before));
                    assert forall|i: int| 0 <= i < index.len() implies (#[trigger] index[i]).1
                        < final(self).list@.len() by {
                        if i < before.len() {
                            assert(index[i] == before[i]);
                            assert(old(self).wf());
                            let held = old(self).index()->Some_0;
                            assert(held[i].1 < old(self).list@.len());
                        }
                    }
                }
            },
            None => {
                self.list.push(item);
            },
        }
        place
    }
}

impl<T: Item> NamedItemTable<T> {
    /// The name of an item, through the string section.
    pub fn load_name<'a>(
        &self,
        container: &mut Container,
        strings: &'a mut StringSection,
        item: &T,
    ) -> (r: Result<&'a str, ReadError>)
        requires
            old(container).wf(),
            old(container).table.contains(old(strings).section),
        ensures
            final(container).wf(),
            final(strings).section == old(strings).section,
            match StringSection::resolve(
                old(strings).cached(),
                old(container).table.entry(old(strings).section),
                item.name_address(),
            ) {
                Ok(text) => (r matches Ok(s) && s@ == text
                    && final(strings).cached() == old(strings).cached().insert(
                    item.name_address(),
                    text,
                )),
                Err(err) => r == Err::<&str, ReadError>(err)
                    && final(strings).cached() == old(strings).cached(),
            },
    {
        strings.get(container, item.get_name_address())
    }

    /// Builds the index of names: reads the name of each item, in the order
    /// of the items, through the string section. Where a name cannot be read
    /// the first such error is returned, and no index is built.
    pub fn build_lookup_table(&mut self, container: &mut Container, strings: &mut StringSection) -> (r:
        Result<(), ReadError>)
        requires
            old(self).wf(),
            old(self).index() is None,
            old(container).wf(),
            old(container).table.contains(old(strings).section),
        ensures
            final(self).wf(),
            final(container).wf(),
            final(container).table.contains(old(strings).section),
            final(container).main_header == old(container).main_header,
            final(container).poisoned == old(container).poisoned,
            final(strings).section == old(strings).section,
            final(self).list == old(self).list,
            payload_kept(old(container).table, old(strings).section, final(container).table),
            forall|a: u32|
                StringSection::resolve(
                    final(strings).cached(),
                    final(container).table.entry(old(strings).section),
                    a,
                ) == StringSection::resolve(
                    old(strings).cached(),
                    old(container).table.entry(old(strings).section),
                    a,
                ),
            match first_error(
                item_names(
                    old(self).list@,
                    old(strings).cached(),
                    old(container).table.entry(old(strings).section),
                ),
            ) {
                Some(e) => r == Err::<(), ReadError>(e) && final(self).index() is None,
                None => r is Ok && final(self).index() == Some(
                    index_of_names(
                        item_names(
                            old(self).list@,
                            old(strings).cached(),
                            old(container).table.entry(old(strings).section),
                        ),
                    ),
                ),
            },
    {
        let ghost all = item_names(
            self.list@,
            strings.cached(),
            container.table.entry(strings.section),
        );
        let read = match read_names(&self.list, container, strings) {
            Ok(v) => v,
            Err(e) => {
                return Err(e);
            },
        };
        let mut names: Vec<(String, usize)> = Vec::new();
        let mut i: usize = 0;
        while i < read.len()
            invariant
                i <= read@.len(),
                read@.len() == all.len(),
                names_read(read@, all),
                names@.len() == i,
                forall|k: int|
                    0 <= k < i ==> (#[trigger] names@[k]).0@ == all[k]->Ok_0 && names@[k].1 == k,
            decreases read@.len() - i,
        {
            let name = read[i].clone();
            assert(was_read(all[i as int]) && read@[i as int]@ == all[i as int]->Ok_0);
            names.push((name, i));
            i += 1;
        }
        assert(pairs(names@) =~= index_of_names(all));
        let set = name_index_set(&mut self.map, names);
        Ok(())
    }

    /// The item named `name`: the last one entered under that name, if there
    /// is one. Builds the index of names first where it is not built.
    pub fn find_by_name(
        &mut self,
        container: &mut Container,
        strings: &mut StringSection,
        name: &str,
    ) -> (r: Result<Option<&T>, ReadError>)
        requires
            old(self).wf(),
            old(container).wf(),
            old(container).table.contains(old(strings).section),
        ensures
            final(self).wf(),
            final(container).wf(),
            final(strings).section == old(strings).section,
            final(self).list == old(self).list,
            payload_kept(old(container).table, old(strings).section, final(container).table),
            old(self).index() is Some ==> final(self).index() == old(self).index()
                && *final(container) == *old(container)
                && final(strings).cached() == old(strings).cached(),
            old(self).index() is None ==> match first_error(
                item_names(
                    old(self).list@,
                    old(strings).cached(),
                    old(container).table.entry(old(strings).section),
                ),
            ) {
                Some(e) => r == Err::<Option<&T>, ReadError>(e) && final(self).index() is None,
                None => final(self).index() == Some(
                    index_of_names(
                        item_names(
                            old(self).list@,
                            old(strings).cached(),
                            old(container).table.entry(old(strings).section),
                        ),
                    ),
                ),
            },
            final(self).index() matches Some(index) ==> match place_of(index, name@) {
                Some(place) => r == Ok::<Option<&T>, ReadError>(
                    Some(&final(self).list@[place as int]),
                ),
                None => r == Ok::<Option<&T>, ReadError>(None),
            },
    {
        if name_index_get(&self.map).is_none() {
            match self.build_lookup_table(container, strings) {
                Ok(_) => {},
                Err(e) => {
                    return Err(e);
                },
            }
        }
        match name_index_get(&self.map) {
            Some(names) => match find_place(names, name) {
                Some(place) => {
                    proof {
                        let index = pairs(names@);
                        let at = find_last(index_keys(index), name@)->Some_0;
                        lemma_find_last_in_range(index_keys(index), name@);
                        assert(self.wf());
                        assert(index[at].1 == place);
                    }
                    Ok(Some(&self.list[place]))
                },
                None => Ok(None),
            },
            None => {
                assert(false);
                Ok(None)
            },
        }
    }
}

} // verus!
