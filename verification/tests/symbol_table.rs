use hack_assembler::symbol_table::{SymbolTable, FIRST_VARIABLE, PREDEFINED_SYMBOLS};

#[test]
fn table_starts_with_the_predefined_symbols() {
    let table = SymbolTable::predefined();
    assert_eq!(table.len(), 23);
    assert_eq!(PREDEFINED_SYMBOLS, 23);
    for i in 0..16 {
        assert_eq!(table.lookup(&format!("R{i}")), Some(i));
    }
    assert_eq!(table.lookup("SCREEN"), Some(16384));
    assert_eq!(table.lookup("KBD"), Some(24576));
    assert_eq!(table.lookup("SP"), Some(0));
    assert_eq!(table.lookup("LCL"), Some(1));
    assert_eq!(table.lookup("ARG"), Some(2));
    assert_eq!(table.lookup("THIS"), Some(3));
    assert_eq!(table.lookup("THAT"), Some(4));
}

#[test]
fn unknown_names_are_not_found() {
    let table = SymbolTable::predefined();
    for name in ["", "R16", "r0", "R", "SCREEN ", "sp", "foo", "R00"] {
        assert_eq!(table.lookup(name), None);
    }
}

#[test]
fn inserted_name_is_found() {
    let mut table = SymbolTable::predefined();
    table.insert("LOOP", 42);
    assert_eq!(table.lookup("LOOP"), Some(42));
    assert_eq!(table.lookup("LOO"), None);
    assert_eq!(table.lookup("R5"), Some(5));
    assert_eq!(table.len(), 24);
}

#[test]
fn later_binding_replaces_the_earlier() {
    let mut table = SymbolTable::predefined();
    table.insert("x", 1);
    table.insert("y", 2);
    table.insert("x", 3);
    assert_eq!(table.lookup("x"), Some(3));
    assert_eq!(table.lookup("y"), Some(2));
    table.insert("KBD", 9);
    assert_eq!(table.lookup("KBD"), Some(9));
    assert_eq!(table.lookup("SCREEN"), Some(16384));
}

#[test]
fn names_as_characters() {
    let mut table = SymbolTable::predefined();
    table.bind(vec!['a', 'b'], 77);
    assert_eq!(table.address_of(&['a', 'b']), Some(77));
    assert_eq!(table.address_of(&['a']), None);
    assert_eq!(table.address_of(&['S', 'P']), Some(0));
    assert_eq!(table.lookup("ab"), Some(77));
}

#[test]
fn variables_start_at_sixteen() {
    assert_eq!(FIRST_VARIABLE, 16);
}
