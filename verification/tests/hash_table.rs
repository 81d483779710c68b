use data_structures::separate_chaining_hash_table::entry::Entry;
use data_structures::separate_chaining_hash_table::iterator::SeparateChainingHashTableIterator;
use data_structures::{Exceptions, SeparateChainingHashTable};

fn spanish_table(buckets: usize) -> SeparateChainingHashTable<&'static str> {
    let names = [
        "Uno", "Diez", "Dos", "Tres", "Cuatro", "Cinco", "Seis", "Siete", "Ocho", "Nueve", "Once",
        "Doce", "Trece", "Catorce", "Quince", "Dieciseis", "Diecisiete", "Dieciocho", "Diecinueve",
        "Veinte", "Veintiuno", "Veintidos", "Veintitres", "Veinticuatro", "Veinticinco",
        "Veintiseis", "Veintisiete", "Veintiocho", "Veintinueve", "Treinta", "Treinta y uno",
        "Treinta y dos", "Treinta y tres", "Treinta y cuatro", "Treinta y cinco", "Treinta y seis",
    ];
    let keys = [
        "01", "10", "02", "03", "04", "05", "06", "07", "08", "09", "11", "12", "13", "14", "15",
        "16", "17", "18", "19", "20", "21", "22", "23", "24", "25", "26", "27", "28", "29", "30",
        "31", "32", "33", "34", "35", "36",
    ];
    let mut table = SeparateChainingHashTable::new(buckets);
    for (key, name) in keys.iter().zip(names.iter()) {
        assert_eq!(table.insert(key, *name), Ok(()));
    }
    table
}

fn keys_of<T: Clone>(table: &SeparateChainingHashTable<T>) -> Vec<String> {
    table.get_keys().into_iter().cloned().collect()
}

fn sorted_pairs(table: &SeparateChainingHashTable<&'static str>) -> Vec<(String, &'static str)> {
    let mut pairs: Vec<(String, &'static str)> =
        table.get_entries().into_iter().map(|(key, value)| (key.clone(), *value)).collect();
    pairs.sort();
    pairs
}

fn strings(keys: &[&str]) -> Vec<String> {
    keys.iter().map(|key| key.to_string()).collect()
}

#[test]
fn colliding_keys_share_a_bucket_and_keep_their_values() {
    let mut table = SeparateChainingHashTable::new(4);
    assert_eq!(table.insert("01", "Uno"), Ok(()));
    assert_eq!(table.insert("10", "Diez"), Ok(()));
    assert_eq!(table.buckets_len(), 1);
    assert_eq!(table.entries_len(), 2);
    assert_eq!(table.get("01"), Ok(&"Uno"));
    assert_eq!(table.get("10"), Ok(&"Diez"));
    assert_eq!(keys_of(&table), strings(&["01", "10"]));
}

#[test]
fn hash_is_the_wrapped_sum_of_the_bytes() {
    assert_eq!(SeparateChainingHashTable::<i32>::hash(&String::new()), 0);
    assert_eq!(SeparateChainingHashTable::<i32>::hash(&String::from("01")), 97);
    assert_eq!(SeparateChainingHashTable::<i32>::hash(&String::from("10")), 97);
    assert_eq!(SeparateChainingHashTable::<i32>::hash(&String::from("36")), 105);
    assert_eq!(SeparateChainingHashTable::<i32>::hash(&String::from("\u{e9}")), 195 + 169);
    assert_eq!(SeparateChainingHashTable::<i32>::hash(&String::from("abc")), 97 + 98 + 99);
}

#[test]
fn new_table_is_empty() {
    let table: SeparateChainingHashTable<i32> = SeparateChainingHashTable::new(6);
    assert!(table.is_empty());
    assert_eq!(table.entries_len(), 0);
    assert_eq!(table.buckets_len(), 0);
    assert_eq!(table.get("00"), Err(Exceptions::KeyNotInitialized));
    assert!(table.get_keys().is_empty());
    assert!(table.get_values().is_empty());
    assert!(table.get_entries().is_empty());
}

#[test]
fn insert_then_get_returns_the_value() {
    let mut table = SeparateChainingHashTable::new(6);
    assert_eq!(table.insert("00", 100), Ok(()));
    assert_eq!(table.get("00"), Ok(&100));
    assert!(!table.is_empty());
    assert_eq!(table.entries_len(), 1);
    assert_eq!(table.buckets_len(), 1);
}

#[test]
fn second_insert_under_a_key_is_a_duplicate() {
    let mut table = SeparateChainingHashTable::new(6);
    assert_eq!(table.insert("00", "Cien"), Ok(()));
    assert_eq!(table.insert("00", "Cero"), Err(Exceptions::DuplicateKey));
    assert_eq!(table.get("00"), Ok(&"Cien"));
    assert_eq!(table.entries_len(), 1);
}

#[test]
fn set_overwrites_and_never_creates() {
    let mut table = SeparateChainingHashTable::new(6);
    assert_eq!(table.set("00", "Cero"), Err(Exceptions::KeyNotInitialized));
    assert!(table.is_empty());
    assert_eq!(table.insert("00", "Cien"), Ok(()));
    assert_eq!(table.set("00", "Cero"), Ok(()));
    assert_eq!(table.get("00"), Ok(&"Cero"));
    assert_eq!(table.entries_len(), 1);
}

#[test]
fn set_keeps_the_place_in_the_chain() {
    let mut table = SeparateChainingHashTable::new(4);
    assert_eq!(table.insert("01", 1), Ok(()));
    assert_eq!(table.insert("10", 10), Ok(()));
    assert_eq!(table.insert("0A", 5), Ok(()));
    assert_eq!(table.set("01", 2), Ok(()));
    assert_eq!(keys_of(&table), strings(&["01", "10", "0A"]));
    assert_eq!(table.get_values(), vec![&2, &10, &5]);
}

#[test]
fn get_mut_writes_through_to_the_table() {
    let mut table = SeparateChainingHashTable::new(3);
    assert_eq!(table.insert("a", 1), Ok(()));
    assert_eq!(table.insert("b", 2), Ok(()));
    if let Ok(value) = table.get_mut("b") {
        *value = 20;
    }
    assert_eq!(table.get("a"), Ok(&1));
    assert_eq!(table.get("b"), Ok(&20));
    assert_eq!(table.get_mut("c"), Err(Exceptions::KeyNotInitialized));
    assert_eq!(table.entries_len(), 2);
}

#[test]
fn remove_then_get_is_not_initialized() {
    let mut table = SeparateChainingHashTable::new(6);
    assert_eq!(table.insert("00", "Cero"), Ok(()));
    assert_eq!(table.remove("00"), Ok("Cero"));
    assert_eq!(table.get("00"), Err(Exceptions::KeyNotInitialized));
    assert!(table.is_empty());
    assert_eq!(table.buckets_len(), 0);
    assert_eq!(table.remove("00"), Err(Exceptions::KeyNotInitialized));
    assert_eq!(table.insert("00", "Otra vez"), Ok(()));
    assert_eq!(table.get("00"), Ok(&"Otra vez"));
}

#[test]
fn remove_takes_the_entry_out_of_its_own_chain() {
    let mut table = SeparateChainingHashTable::new(4);
    assert_eq!(table.insert("00", 0), Ok(()));
    assert_eq!(table.insert("01", 1), Ok(()));
    assert_eq!(table.insert("10", 10), Ok(()));
    assert_eq!(table.insert("02", 2), Ok(()));
    assert_eq!(table.remove("10"), Ok(10));
    assert_eq!(keys_of(&table), strings(&["00", "01", "02"]));
    assert_eq!(table.remove("01"), Ok(1));
    assert_eq!(table.get("00"), Ok(&0));
    assert_eq!(table.get("02"), Ok(&2));
    assert_eq!(table.entries_len(), 2);
    assert_eq!(table.buckets_len(), 2);
}

#[test]
fn enumeration_goes_bucket_by_bucket_in_chain_order() {
    let table = spanish_table(6);
    assert_eq!(table.entries_len(), 36);
    assert_eq!(table.buckets_len(), 6);
    assert_eq!(
        keys_of(&table),
        strings(&[
            "06", "15", "24", "33", "01", "10", "07", "16", "25", "34", "02", "08", "11", "17",
            "20", "26", "35", "03", "09", "12", "18", "21", "27", "30", "36", "04", "13", "19",
            "22", "28", "31", "05", "14", "23", "29", "32",
        ])
    );
    let values = table.get_values();
    assert_eq!(values.len(), 36);
    assert_eq!(*values[0], "Seis");
    assert_eq!(*values[4], "Uno");
    assert_eq!(*values[5], "Diez");
    let entries = table.get_entries();
    assert_eq!(entries[35], (&String::from("32"), &"Treinta y dos"));
}

#[test]
fn rehashing_to_fewer_buckets_keeps_every_pair() {
    let mut table = spanish_table(6);
    let before = sorted_pairs(&table);
    table.rehashing(3);
    assert_eq!(table.entries_len(), 36);
    assert_eq!(table.buckets_len(), 3);
    assert_eq!(sorted_pairs(&table), before);
    assert_eq!(
        keys_of(&table),
        strings(&[
            "06", "15", "24", "33", "03", "09", "12", "18", "21", "27", "30", "36", "01", "10",
            "07", "16", "25", "34", "04", "13", "19", "22", "28", "31", "02", "08", "11", "17",
            "20", "26", "35", "05", "14", "23", "29", "32",
        ])
    );
    assert_eq!(table.get("36"), Ok(&"Treinta y seis"));
}

#[test]
fn rehashing_to_more_buckets_keeps_every_pair() {
    let mut table = spanish_table(6);
    let before = sorted_pairs(&table);
    table.rehashing(3);
    table.rehashing(9);
    assert_eq!(table.entries_len(), 36);
    assert_eq!(table.buckets_len(), 9);
    assert_eq!(sorted_pairs(&table), before);
    assert_eq!(
        keys_of(&table),
        strings(&[
            "03", "12", "21", "30", "04", "13", "22", "31", "05", "14", "23", "32", "06", "15",
            "24", "33", "07", "16", "25", "34", "08", "17", "26", "35", "09", "18", "27", "36",
            "01", "10", "19", "28", "02", "11", "20", "29",
        ])
    );
    for (key, value) in before.iter() {
        assert_eq!(table.get(key), Ok(value));
    }
}

#[test]
fn rehashing_an_empty_table_leaves_it_empty() {
    let mut table: SeparateChainingHashTable<i32> = SeparateChainingHashTable::new(2);
    table.rehashing(7);
    assert!(table.is_empty());
    assert_eq!(table.buckets_len(), 0);
    assert_eq!(table.insert("x", 1), Ok(()));
    assert_eq!(table.get("x"), Ok(&1));
}

#[test]
fn table_of_one_bucket_chains_everything() {
    let mut table = SeparateChainingHashTable::new(1);
    assert_eq!(table.insert("a", 1), Ok(()));
    assert_eq!(table.insert("b", 2), Ok(()));
    assert_eq!(table.insert("c", 3), Ok(()));
    assert_eq!(table.buckets_len(), 1);
    assert_eq!(keys_of(&table), strings(&["a", "b", "c"]));
    assert_eq!(table.remove("b"), Ok(2));
    assert_eq!(keys_of(&table), strings(&["a", "c"]));
}

#[test]
fn iter_walks_the_pairs_in_enumeration_order() {
    let mut table = SeparateChainingHashTable::new(4);
    assert_eq!(table.insert("01", "Uno"), Ok(()));
    assert_eq!(table.insert("00", "Cero"), Ok(()));
    assert_eq!(table.insert("10", "Diez"), Ok(()));
    let mut walk = table.iter();
    assert_eq!(walk.next(), Some((&String::from("00"), &"Cero")));
    assert_eq!(walk.next(), Some((&String::from("01"), &"Uno")));
    assert_eq!(walk.next(), Some((&String::from("10"), &"Diez")));
    assert_eq!(walk.next(), None);
    assert_eq!(walk.next(), None);
}

#[test]
fn iterator_over_given_pairs() {
    let key = String::from("k");
    let value = 7;
    let mut walk = SeparateChainingHashTableIterator::new(vec![(&key, &value)]);
    assert_eq!(walk.next(), Some((&key, &value)));
    assert_eq!(walk.next(), None);
}

#[test]
fn entry_keeps_its_key_and_lets_the_value_change() {
    let mut entry = Entry::new(String::from("clave"), 1);
    assert_eq!(entry.get(), &1);
    assert_eq!(entry.get_key(), &String::from("clave"));
    assert!(entry.compare_key(&String::from("clave")));
    assert!(!entry.compare_key(&String::from("otra")));
    entry.set(2);
    assert_eq!(entry.get_entry(), (&String::from("clave"), &2));
    *entry.get_mut() = 3;
    assert_eq!(entry.get(), &3);
    assert_eq!(entry.into_parts(), (String::from("clave"), 3));
}

#[test]
fn entry_clone_keeps_key_and_value() {
    let entry = Entry::new(String::from("clave"), 5);
    let mut copy = entry.clone();
    copy.set(6);
    assert_eq!(entry.get_entry(), (&String::from("clave"), &5));
    assert_eq!(copy.get_entry(), (&String::from("clave"), &6));
}
