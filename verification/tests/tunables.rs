use mononoke::tunables::{
    tunables, update_tunables, MononokeTunables, StringHashMap, TunableFields, TunablesStruct,
    REFRESH_INTERVAL_SECONDS, WARM_BOOKMARK_CACHE_DELAY,
};
use once_cell::sync::OnceCell;

struct TestTunables {
    fields: TunableFields,
}

impl TestTunables {
    fn default() -> Self {
        TestTunables {
            fields: TunableFields::new(vec!["boolean".to_string()], vec!["num".to_string()]),
        }
    }

    fn get_boolean(&self) -> bool {
        self.fields.get_bool("boolean").unwrap()
    }

    fn get_num(&self) -> i64 {
        self.fields.get_int("num").unwrap()
    }

    fn update_bools(&mut self, values: &StringHashMap<bool>) {
        self.fields.update_bools(values);
    }

    fn update_ints(&mut self, values: &StringHashMap<i64>) {
        self.fields.update_ints(values);
    }
}

#[test]
fn test_empty_tunables() {
    let bools = StringHashMap::new();
    let ints = StringHashMap::new();
    let mut empty = TunableFields::new(vec![], vec![]);

    empty.update_bools(&bools);
    empty.update_ints(&ints);
}

#[test]
fn test_update_bool() {
    let mut d = StringHashMap::new();
    d.insert("boolean".to_string(), true);

    let mut test = TestTunables::default();
    assert_eq!(test.get_boolean(), false);
    test.update_bools(&d);
    assert_eq!(test.get_boolean(), true);
}

#[test]
fn test_update_int() {
    let mut d = StringHashMap::new();
    d.insert("num".to_string(), 10);

    let mut test = TestTunables::default();
    assert_eq!(test.get_num(), 0);
    test.update_ints(&d);
    assert_eq!(test.get_num(), 10);
}

#[test]
fn test_missing_int() {
    let mut d = StringHashMap::new();
    d.insert("missing".to_string(), 10);

    let mut test = TestTunables::default();
    assert_eq!(test.get_num(), 0);
    test.update_ints(&d);
    assert_eq!(test.get_num(), 0);
}

fn ints(name: &str, value: i64) -> StringHashMap<i64> {
    let mut values = StringHashMap::new();
    values.insert(name.to_string(), value);
    values
}

#[test]
fn unknown_names_are_no_fields() {
    let mut test = TestTunables::default();
    test.update_ints(&ints("missing", 10));
    assert_eq!(test.fields.get_int("missing"), None);
    assert_eq!(test.fields.get_bool("num"), None);
    assert_eq!(test.fields.get_int("boolean"), None);
}

#[test]
fn switches_and_numbers_are_apart() {
    let mut test = TestTunables::default();
    test.update_ints(&ints("boolean", 1));
    assert_eq!(test.get_boolean(), false);
    let mut switches = StringHashMap::new();
    switches.insert("num".to_string(), true);
    test.update_bools(&switches);
    assert_eq!(test.get_num(), 0);
}

#[test]
fn the_later_update_counts() {
    let mut test = TestTunables::default();
    test.update_ints(&ints("num", 10));
    test.update_ints(&ints("missing", 3));
    assert_eq!(test.get_num(), 10);
    test.update_ints(&ints("num", -7));
    assert_eq!(test.get_num(), -7);
    test.update_ints(&ints("num", -7));
    assert_eq!(test.get_num(), -7);
}

#[test]
fn mononoke_tunables_start_at_zero() {
    let mut tunables = MononokeTunables::default();
    assert_eq!(tunables.get_warm_bookmark_cache_delay(), 0);
    tunables.update_ints(&ints("warm_bookmark_cache_delay", 250));
    assert_eq!(tunables.get_warm_bookmark_cache_delay(), 250);
    let mut switches = StringHashMap::new();
    switches.insert(WARM_BOOKMARK_CACHE_DELAY.to_string(), true);
    tunables.update_bools(&switches);
    assert_eq!(tunables.get_warm_bookmark_cache_delay(), 250);
}

#[test]
fn a_cell_is_filled_once() {
    let mut cell: OnceCell<MononokeTunables> = OnceCell::new();
    assert!(cell.get().is_none());
    assert_eq!(tunables(&mut cell).get_warm_bookmark_cache_delay(), 0);
    assert!(cell.get().is_some());
    tunables(&mut cell).update_ints(&ints(WARM_BOOKMARK_CACHE_DELAY, 4));
    assert_eq!(tunables(&mut cell).get_warm_bookmark_cache_delay(), 4);
}

#[test]
fn a_configuration_updates_the_cell() {
    let mut cell: OnceCell<MononokeTunables> = OnceCell::new();
    let config = TunablesStruct {
        killswitches: StringHashMap::new(),
        ints: ints("warm_bookmark_cache_delay", 12),
    };
    assert_eq!(update_tunables(&mut cell, &config), Ok(()));
    assert_eq!(tunables(&mut cell).get_warm_bookmark_cache_delay(), 12);
    let other = TunablesStruct { killswitches: StringHashMap::new(), ints: ints("other", 1) };
    assert_eq!(update_tunables(&mut cell, &other), Ok(()));
    assert_eq!(tunables(&mut cell).get_warm_bookmark_cache_delay(), 12);
}

#[test]
fn configuration_is_looked_at_every_five_seconds() {
    assert_eq!(REFRESH_INTERVAL_SECONDS, 5);
}

#[test]
fn asking_changes_nothing() {
    let mut cell = OnceCell::new();
    assert_eq!(tunables(&mut cell).get_warm_bookmark_cache_delay(), 0);
    for value in [7, -3, 0] {
        let config = TunablesStruct {
            killswitches: StringHashMap::new(),
            ints: ints("warm_bookmark_cache_delay", value),
        };
        assert!(update_tunables(&mut cell, &config).is_ok());
        for _ in 0..3 {
            assert_eq!(tunables(&mut cell).get_warm_bookmark_cache_delay(), value);
        }
    }
}
