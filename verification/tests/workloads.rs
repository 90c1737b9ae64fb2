use map_bench::config::{resolve, Config, ConfigError, HashStrategy, Options};
use map_bench::text::{CustomString, Elem};
use map_bench::workloads::{
    copy_table_element_wise, fill_linear_n, fill_linear_n_clone, fill_linear_n_copy_element_wise,
    fill_linear_n_insert_random, fill_linear_n_lookup_all, fill_linear_n_lookup_missing,
    fill_linear_n_lookup_one, fill_linear_n_lookup_random, fill_linear_n_traversal,
    insert_random_table, random_gen_only,
};

fn int_config(strategy: HashStrategy) -> Config {
    Config {
        string_key: false,
        string_value: false,
        string_padding: false,
        strategy,
        reserve_on_fill: false,
    }
}

fn string_config(padding: bool, reserve: bool) -> Config {
    Config {
        string_key: true,
        string_value: true,
        string_padding: padding,
        strategy: HashStrategy::Standard,
        reserve_on_fill: reserve,
    }
}

const ALL_STRATEGIES: [HashStrategy; 5] = [
    HashStrategy::Standard,
    HashStrategy::Fnv,
    HashStrategy::Fx,
    HashStrategy::Murmur3,
    HashStrategy::Hashbrown,
];

#[test]
fn fill_has_all_keys_for_n_10() {
    for strategy in ALL_STRATEGIES {
        let cfg = int_config(strategy);
        let m = fill_linear_n(&cfg, 10);
        assert_eq!(m.len(), 10);
        for k in 0..10 {
            let got = m.get_cloned(&Elem::Int(k));
            assert_eq!(got, Some(Elem::Int(k)));
        }
        assert_eq!(m.get_cloned(&Elem::Int(10)), None);
    }
}

#[test]
fn fill_with_string_keys_and_values() {
    for padding in [false, true] {
        let cfg = string_config(padding, true);
        let m = fill_linear_n(&cfg, 10);
        assert_eq!(m.len(), 10);
        for k in 0..10 {
            let key = Elem::Str(CustomString::from_int(k, padding));
            let val = Elem::Str(CustomString::from_int(k, padding));
            assert_eq!(m.get_cloned(&key), Some(val));
        }
    }
}

#[test]
fn fill_of_zero_is_empty() {
    for strategy in ALL_STRATEGIES {
        let cfg = int_config(strategy);
        let m = fill_linear_n(&cfg, 0);
        assert_eq!(m.len(), 0);
        assert_eq!(m.get_cloned(&Elem::Int(0)), None);
    }
}

#[test]
fn lookup_one_retrieves_the_middle_key() {
    let cfg = int_config(HashStrategy::Standard);
    assert_eq!(fill_linear_n_lookup_one(&cfg, 10), Elem::Int(5));
    let padded = string_config(true, false);
    assert_eq!(
        fill_linear_n_lookup_one(&padded, 10),
        Elem::Str(CustomString::from_int(5, true))
    );
}

#[test]
fn lookup_all_hits_every_key() {
    for strategy in ALL_STRATEGIES {
        let cfg = int_config(strategy);
        assert_eq!(fill_linear_n_lookup_all(&cfg, 10), 10);
        assert_eq!(fill_linear_n_lookup_all(&cfg, 100), 100);
    }
    assert_eq!(fill_linear_n_lookup_all(&string_config(true, true), 100), 100);
}

#[test]
fn lookup_random_always_hits() {
    for strategy in ALL_STRATEGIES {
        let cfg = int_config(strategy);
        assert_eq!(fill_linear_n_lookup_random(&cfg, 100), 100);
    }
    assert_eq!(fill_linear_n_lookup_random(&string_config(false, false), 100), 100);
}

#[test]
fn lookup_missing_never_hits() {
    for strategy in ALL_STRATEGIES {
        let cfg = int_config(strategy);
        assert_eq!(fill_linear_n_lookup_missing(&cfg, 10), 0);
        assert_eq!(fill_linear_n_lookup_missing(&cfg, 100), 0);
    }
    assert_eq!(fill_linear_n_lookup_missing(&string_config(true, false), 100), 0);
}

#[test]
fn traversal_visits_each_entry_once() {
    for strategy in ALL_STRATEGIES {
        let cfg = int_config(strategy);
        assert_eq!(fill_linear_n_traversal(&cfg, 10), 10);
    }
    assert_eq!(fill_linear_n_traversal(&string_config(true, true), 10), 10);
}

#[test]
fn copy_and_clone_keep_the_size() {
    for strategy in ALL_STRATEGIES {
        let cfg = int_config(strategy);
        assert_eq!(fill_linear_n_copy_element_wise(&cfg, 10), 10);
        assert_eq!(fill_linear_n_clone(&cfg, 10), 10);
    }
    assert_eq!(fill_linear_n_copy_element_wise(&string_config(true, true), 10), 10);
    assert_eq!(fill_linear_n_clone(&string_config(true, false), 10), 10);
}

#[test]
fn copy_is_observationally_equal_to_the_source() {
    let cfg = string_config(true, true);
    let m = fill_linear_n(&cfg, 25);
    let copy = copy_table_element_wise(&cfg, m);
    assert_eq!(copy.len(), 25);
    for k in 0..25 {
        let key = Elem::Str(CustomString::from_int(k, true));
        let val = Elem::Str(CustomString::from_int(k, true));
        assert_eq!(copy.get_cloned(&key), Some(val));
    }
}

#[test]
fn insert_random_never_grows_the_map() {
    for strategy in ALL_STRATEGIES {
        let cfg = int_config(strategy);
        let (m, tally) = insert_random_table(&cfg, 10);
        assert_eq!(m.len(), 10);
        assert!((0..=10).contains(&tally));
        let r = fill_linear_n_insert_random(&cfg, 10);
        assert!((10..=20).contains(&r));
    }
}

#[test]
fn every_workload_reports_zero_for_empty_input() {
    let cfg = int_config(HashStrategy::Standard);
    assert_eq!(fill_linear_n(&cfg, 0).len(), 0);
    assert_eq!(fill_linear_n_lookup_all(&cfg, 0), 0);
    assert_eq!(fill_linear_n_lookup_random(&cfg, 0), 0);
    assert_eq!(fill_linear_n_lookup_missing(&cfg, 0), 0);
    assert_eq!(fill_linear_n_insert_random(&cfg, 0), 0);
    assert_eq!(fill_linear_n_copy_element_wise(&cfg, 0), 0);
    assert_eq!(fill_linear_n_clone(&cfg, 0), 0);
    assert_eq!(fill_linear_n_traversal(&cfg, 0), 0);
    assert_eq!(random_gen_only(0), 0);
}

#[test]
fn random_gen_only_counts_at_most_n_events() {
    let r = random_gen_only(100);
    assert!((0..=100).contains(&r));
}

#[test]
fn resolve_picks_the_flagged_strategy() {
    let base = Options {
        string_key: false,
        string_value: false,
        string_padding: false,
        fnv_hash: false,
        fx_hash: false,
        murmur_hash: false,
        hashbrown_table: false,
        reserve_on_fill: false,
    };
    let standard = resolve(&base).unwrap();
    assert_eq!(standard.strategy, HashStrategy::Standard);

    let fnv = resolve(&Options { fnv_hash: true, ..base }).unwrap();
    assert_eq!(fnv.strategy, HashStrategy::Fnv);

    let fx = resolve(&Options { fx_hash: true, ..base }).unwrap();
    assert_eq!(fx.strategy, HashStrategy::Fx);

    let murmur = resolve(&Options { murmur_hash: true, ..base }).unwrap();
    assert_eq!(murmur.strategy, HashStrategy::Murmur3);

    let brown = resolve(&Options { hashbrown_table: true, ..base }).unwrap();
    assert_eq!(brown.strategy, HashStrategy::Hashbrown);

    let carried = resolve(
        &Options { string_key: true, string_value: true, string_padding: true, reserve_on_fill: true, ..base },
    )
    .unwrap();
    assert!(carried.string_key && carried.string_value && carried.string_padding);
    assert!(carried.reserve_on_fill);
}

#[test]
fn resolve_rejects_two_strategies_at_once() {
    let conflicted = Options {
        string_key: false,
        string_value: false,
        string_padding: false,
        fnv_hash: true,
        fx_hash: false,
        murmur_hash: true,
        hashbrown_table: false,
        reserve_on_fill: false,
    };
    assert_eq!(resolve(&conflicted), Err(ConfigError::ConflictingHashStrategies));
}

#[test]
fn custom_string_is_the_decimal_text() {
    assert_eq!(CustomString::from_int(0, false).0, b"0".to_vec());
    assert_eq!(CustomString::from_int(57, false).0, b"57".to_vec());
    assert_eq!(CustomString::from_int(12345, false).0, b"12345".to_vec());
}

#[test]
fn custom_string_padding_appends_the_suffix() {
    assert_eq!(CustomString::from_int(5, true).0, b"50_1_2_3_4_5_6_7_".to_vec());
    assert_eq!(CustomString::from_int(120, true).0, b"1200_1_2_3_4_5_6_7_".to_vec());
}
