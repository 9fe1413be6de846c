use std::collections::HashMap;

use banger::bang_storage::{
    get_address_from_config, BangStorage, ConfigTable, ConfigValue, Kind, ParseErr, ValueData,
};

fn value_of(v: &toml::Value) -> ConfigValue {
    let data = match v {
        toml::Value::String(s) => ValueData::Str(s.clone()),
        toml::Value::Array(items) => ValueData::Array(items.iter().map(value_of).collect()),
        toml::Value::Table(t) => ValueData::Table(table_of(t)),
        _ => ValueData::Other,
    };
    ConfigValue { text: v.to_string(), data }
}

fn table_of(t: &toml::Table) -> ConfigTable {
    ConfigTable { entries: t.iter().map(|(k, v)| (k.clone(), value_of(v))).collect() }
}

fn parse(content: &str) -> ConfigTable {
    let table: toml::Table = content.parse().unwrap();
    table_of(&table)
}

#[test]
fn bang_storage_success() {
    const CONTENT: &str = "
        default='duckduckgo'

        [[bangs]]
        aliases = ['duckduckgo', 'ddg']
        query = 'https://duckduckgo.com/?q={}'

        [[bangs]]
        aliases = ['вікі', 'в', 'ukwiki']
        query = 'https://uk.wikipedia.org/w/?search={}'";
    let table = parse(CONTENT);
    let storage = BangStorage::from_table(&table).unwrap();
    assert_eq!(storage.default, "duckduckgo");
    assert_eq!(
        storage.bangs.iter().cloned().collect::<HashMap<String, String>>(),
        HashMap::<String, String>::from([
            ("duckduckgo".to_string(), "https://duckduckgo.com/?q={}".to_string()),
            ("ddg".to_string(), "https://duckduckgo.com/?q={}".to_string()),
            ("вікі".to_string(), "https://uk.wikipedia.org/w/?search={}".to_string()),
            ("в".to_string(), "https://uk.wikipedia.org/w/?search={}".to_string()),
            ("ukwiki".to_string(), "https://uk.wikipedia.org/w/?search={}".to_string()),
        ])
    );
    assert_eq!(5, storage.bangs.len());
}

#[test]
fn bang_storage_missing() {
    const CONTENT: &str = "
        [[bangs]]
        aliases = ['duckduckgo', 'ddg']
        query = 'https://duckduckgo.com/?q={}'";
    let error = BangStorage::from_table(&parse(CONTENT)).unwrap_err();
    assert!(matches!(error, ParseErr::DefaultBang(Kind::Missing(_))));
}

#[test]
fn bang_storage_wrong_type() {
    const CONTENT: &str = "
        default = 123
        [[bangs]]
        aliases = ['duckduckgo', 'ddg']
        query = 'https://duckduckgo.com/?q={}'";
    let error = BangStorage::from_table(&parse(CONTENT)).unwrap_err();
    assert!(matches!(error, ParseErr::DefaultBang(Kind::WrongType(_))));
}

#[test]
fn invalid() {
    const CONTENT: &str = "
        default = 'dddg'
        [[bangs]]
        aliases = ['duckduckgo', 'ddg']
        query = 'https://duckduckgo.com/?q={}'";
    let error = BangStorage::from_table(&parse(CONTENT)).unwrap_err();
    assert!(matches!(error, ParseErr::DefaultBang(Kind::InvalidValue(_))));
    assert_eq!("`default` is not a defined alias: dddg", error.message());
}

#[test]
fn bangs_missing() {
    const CONTENT: &str = "default = 'ddg'";
    let error = BangStorage::from_table(&parse(CONTENT)).unwrap_err();
    assert!(matches!(error, ParseErr::Bangs(Kind::Missing(_))));
    assert_eq!("`bangs` is missing", error.message());
}

#[test]
fn bangs_wrong_type() {
    const CONTENT: &str = "
        default = 'ddg'
        bangs = 123";
    let error = BangStorage::from_table(&parse(CONTENT)).unwrap_err();
    assert!(matches!(error, ParseErr::Bangs(Kind::WrongType(_))));
    assert_eq!("`bangs` is not an array: 123", error.message());
}

#[test]
fn bang_wrong_type() {
    const CONTENT: &str = "
        default = 'ddg'
        bangs = [123]";
    let error = BangStorage::from_table(&parse(CONTENT)).unwrap_err();
    assert!(matches!(error, ParseErr::Bang(Kind::WrongType(_))));
}

#[test]
fn extra_items() {
    const CONTENT: &str = "
        default = 'ddg'
        [[bangs]]
        query = 'https://duckduckgo.com/?q={}'
        aliases = ['ddg', 'duckduckgo']
        extra = 123";
    let error = BangStorage::from_table(&parse(CONTENT)).unwrap_err();
    assert!(matches!(error, ParseErr::Bang(Kind::InvalidValue(_))));
}

#[test]
fn query_missing() {
    const CONTENT: &str = "
        default = 'ddg'
        [[bangs]]
        aliases = ['ddg', 'duckduckgo']";
    let error = BangStorage::from_table(&parse(CONTENT)).unwrap_err();
    assert!(matches!(error, ParseErr::Query(Kind::Missing(_))));
}

#[test]
fn query_wrong_type() {
    const CONTENT: &str = "
        default = 'ddg'
        [[bangs]]
        query = 123
        aliases = ['ddg', 'duckduckgo']";
    let error = BangStorage::from_table(&parse(CONTENT)).unwrap_err();
    assert!(matches!(error, ParseErr::Query(Kind::WrongType(_))));
}

#[test]
fn aliases_missing() {
    const CONTENT: &str = "
        default = 'ddg'
        [[bangs]]
        query = 'https://duckduckgo.com/?q={}'";
    let error = BangStorage::from_table(&parse(CONTENT)).unwrap_err();
    assert!(matches!(error, ParseErr::Aliases(Kind::Missing(_))));
}

#[test]
fn aliases_wrong_type() {
    const CONTENT: &str = "
        default = 'ddg'
        [[bangs]]
        query = 'https://duckduckgo.com/?q={}'
        aliases = 123";
    let error = BangStorage::from_table(&parse(CONTENT)).unwrap_err();
    assert!(matches!(error, ParseErr::Aliases(Kind::WrongType(_))));
}

#[test]
fn alias_wrong_type() {
    const CONTENT: &str = "
        default = 'ddg'
        [[bangs]]
        query = 'https://duckduckgo.com/?q={}'
        aliases = ['ddg', 'duckduckgo', 123]";
    let error = BangStorage::from_table(&parse(CONTENT)).unwrap_err();
    assert!(matches!(error, ParseErr::Alias(Kind::WrongType(_))));
    assert_eq!("Alias is not a string: 123", error.message());
}

#[test]
fn repeated_alias_takes_last_template() {
    const CONTENT: &str = "
        default = 'x'
        [[bangs]]
        aliases = ['x', 'y']
        query = 'first {}'
        [[bangs]]
        aliases = ['x']
        query = 'second {}'";
    let storage = BangStorage::from_table(&parse(CONTENT)).unwrap();
    assert_eq!(
        vec![
            ("x".to_string(), "second {}".to_string()),
            ("y".to_string(), "first {}".to_string()),
        ],
        storage.bangs
    );
}

#[test]
fn address_from_config() {
    assert_eq!(
        Ok("127.0.0.1:8080".to_string()),
        get_address_from_config(&parse("address = '127.0.0.1:8080'"))
    );
    assert_eq!(
        Err("Address is missing from config".to_string()),
        get_address_from_config(&parse("default = 'x'"))
    );
    assert_eq!(
        Err("Address is not a string: 8080".to_string()),
        get_address_from_config(&parse("address = 8080"))
    );
}
