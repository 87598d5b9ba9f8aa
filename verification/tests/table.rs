use bpx::container::Container;
use bpx::header::{MainHeader, SectionHeader};
use bpx::package::object::ObjectHeader;
use bpx::strings::error::ReadError;
use bpx::strings::StringSection;
use bpx::table::{find_place, read_names, Item, ItemTable, NamedItemTable};
use bpx::utils::new_byte_buf;

fn object(name: u32, size: u64) -> ObjectHeader {
    ObjectHeader { size, name, start: 0, offset: 0 }
}

fn names(list: &[&str]) -> (Container, StringSection, Vec<u32>) {
    let mut file = Container::create(new_byte_buf(0), MainHeader::new());
    let section = file.sections_mut().create(SectionHeader::new());
    let mut strings = StringSection::new(section);
    let mut addresses = Vec::new();
    for name in list {
        addresses.push(strings.put(&mut file, name).unwrap());
    }
    (file, StringSection::new(section), addresses)
}

#[test]
fn item_table_holds_its_items_in_order() {
    let table = ItemTable::new(vec![object(0, 1), object(4, 2)]);
    assert_eq!(table.len(), 2);
    assert!(!table.is_empty());
    assert_eq!(table.index(1).size, 2);
    let sizes: Vec<u64> = table.iter().map(|v| v.size).collect();
    assert_eq!(sizes, vec![1, 2]);
    assert_eq!(table.index(0).get_name_address(), 0);
    assert!(ItemTable::<ObjectHeader>::new(Vec::new()).is_empty());
}

#[test]
fn item_table_lookup_by_name() {
    let (mut file, mut strings, at) = names(&["alpha", "beta", "gamma"]);
    let mut table = ItemTable::new(vec![object(at[0], 10), object(at[1], 20), object(at[2], 30)]);
    assert_eq!(table.build_lookup_table(&mut file, &mut strings), Ok(()));
    assert_eq!(table.lookup("beta").map(|v| v.size), Some(20));
    assert_eq!(table.lookup("gamma").map(|v| v.size), Some(30));
    assert_eq!(table.lookup("delta"), None);
    assert_eq!(table.lookup(""), None);
}

#[test]
fn item_table_lookup_gives_the_last_item_of_a_name() {
    let (mut file, mut strings, at) = names(&["twice"]);
    let mut table = ItemTable::new(vec![object(at[0], 1), object(at[0], 2)]);
    assert_eq!(table.build_lookup_table(&mut file, &mut strings), Ok(()));
    assert_eq!(table.lookup("twice").map(|v| v.size), Some(2));
}

#[test]
fn item_table_with_an_unreadable_name_builds_no_lookup() {
    let (mut file, mut strings, at) = names(&["alpha"]);
    let mut table = ItemTable::new(vec![object(at[0], 1), object(600, 2), object(0, 3)]);
    assert_eq!(table.build_lookup_table(&mut file, &mut strings), Err(ReadError::Eos));
    assert!(table.map.is_none());
    assert_eq!(table.len(), 3);
}

#[test]
fn read_names_gives_the_names_in_order() {
    let (mut file, mut strings, at) = names(&["x", "yy", "zzz"]);
    let list = vec![object(at[2], 0), object(at[0], 0), object(at[1], 0)];
    assert_eq!(
        read_names(&list, &mut file, &mut strings),
        Ok(vec![String::from("zzz"), String::from("x"), String::from("yy")])
    );
}

#[test]
fn find_place_searches_from_the_end() {
    let index = vec![(String::from("a"), 0usize), (String::from("b"), 1), (String::from("a"), 2)];
    assert_eq!(find_place(&index, "a"), Some(2));
    assert_eq!(find_place(&index, "b"), Some(1));
    assert_eq!(find_place(&index, "c"), None);
    assert_eq!(find_place(&Vec::new(), "a"), None);
}

#[test]
fn named_item_table_builds_its_index_on_first_search() {
    let (mut file, mut strings, at) = names(&["alpha", "beta"]);
    let mut table = NamedItemTable::with_list(vec![object(at[0], 10), object(at[1], 20)]);
    assert_eq!(table.len(), 2);
    assert!(!table.is_empty());
    assert!(table.map.get().is_none());
    assert_eq!(
        table.find_by_name(&mut file, &mut strings, "beta").map(|v| v.map(|o| o.size)),
        Ok(Some(20))
    );
    assert!(table.map.get().is_some());
    assert_eq!(table.find_by_name(&mut file, &mut strings, "none"), Ok(None));
    let sizes: Vec<u64> = table.iter().map(|v| v.size).collect();
    assert_eq!(sizes, vec![10, 20]);
}

#[test]
fn named_item_table_search_fails_where_a_name_cannot_be_read() {
    let (mut file, mut strings, at) = names(&["alpha"]);
    let mut table = NamedItemTable::with_list(vec![object(at[0], 10), object(77, 20)]);
    assert_eq!(table.find_by_name(&mut file, &mut strings, "alpha"), Err(ReadError::Eos));
    assert!(table.map.get().is_none());
}

#[test]
fn named_item_table_push_enters_the_name_once_the_index_is_built() {
    let (mut file, mut strings, _) = names(&[]);
    let mut table = NamedItemTable::empty();
    assert!(table.is_empty());
    assert_eq!(table.push(String::from("first"), object(500, 1)), 0);
    assert_eq!(table.push(String::from("second"), object(501, 2)), 1);
    assert_eq!(table.len(), 2);
    assert_eq!(
        table.find_by_name(&mut file, &mut strings, "second").map(|v| v.map(|o| o.size)),
        Ok(Some(2))
    );
    assert_eq!(
        table.find_by_name(&mut file, &mut strings, "first").map(|v| v.map(|o| o.size)),
        Ok(Some(1))
    );
}

#[test]
fn named_item_table_push_before_the_index_is_built() {
    let (mut file, mut strings, at) = names(&["alpha", "beta"]);
    let mut table = NamedItemTable::with_list(vec![object(at[0], 10)]);
    assert_eq!(table.push(String::from("ignored"), object(at[1], 20)), 1);
    assert!(table.map.get().is_none());
    assert_eq!(
        table.find_by_name(&mut file, &mut strings, "beta").map(|v| v.map(|o| o.size)),
        Ok(Some(20))
    );
    assert_eq!(table.find_by_name(&mut file, &mut strings, "ignored"), Ok(None));
}

#[test]
fn named_item_table_remove_drops_the_index() {
    let (mut file, mut strings, at) = names(&["alpha", "beta", "gamma"]);
    let mut table =
        NamedItemTable::with_list(vec![object(at[0], 10), object(at[1], 20), object(at[2], 30)]);
    assert_eq!(
        table.find_by_name(&mut file, &mut strings, "gamma").map(|v| v.map(|o| o.size)),
        Ok(Some(30))
    );
    table.remove(0);
    assert_eq!(table.len(), 2);
    assert!(table.map.get().is_none());
    assert_eq!(table.find_by_name(&mut file, &mut strings, "alpha"), Ok(None));
    assert_eq!(
        table.find_by_name(&mut file, &mut strings, "gamma").map(|v| v.map(|o| o.size)),
        Ok(Some(30))
    );
}

#[test]
fn named_item_table_load_name() {
    let (mut file, mut strings, at) = names(&["alpha", "beta"]);
    let table = NamedItemTable::with_list(vec![object(at[1], 10)]);
    let item = object(at[1], 10);
    assert_eq!(table.load_name(&mut file, &mut strings, &item), Ok("beta"));
}
