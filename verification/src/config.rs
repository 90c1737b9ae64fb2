use vstd::prelude::*;

verus! {

/// The hashing strategy the map under test is built with. Exactly one
/// strategy is active for a whole run; `Standard` is the ambient hasher of
/// the chosen table implementation.
#[derive(Clone, Copy, PartialEq, Eq, Structural, Debug)]
pub enum HashStrategy {
    Standard,
    Fnv,
    Fx,
    Murmur3,
    Hashbrown,
}

/// The raw configuration surface: one flag per option, as a runner would
/// collect them. The hash-strategy flags are mutually exclusive.
#[derive(Clone, Copy, PartialEq, Eq, Structural, Debug)]
pub struct Options {
    pub string_key: bool,
    pub string_value: bool,
    pub string_padding: bool,
    pub fnv_hash: bool,
    pub fx_hash: bool,
    pub murmur_hash: bool,
    pub hashbrown_table: bool,
    pub reserve_on_fill: bool,
}

/// The resolved configuration every workload runs under.
#[derive(Clone, Copy, PartialEq, Eq, Structural, Debug)]
pub struct Config {
    pub string_key: bool,
    pub string_value: bool,
    pub string_padding: bool,
    pub strategy: HashStrategy,
    pub reserve_on_fill: bool,
}

/// A configuration that cannot be resolved; surfaced before any benchmark runs.
#[derive(Clone, Copy, PartialEq, Eq, Structural, Debug)]
pub enum ConfigError {
    ConflictingHashStrategies,
}

/// How many hash-strategy flags the options select.
pub open spec fn strategy_count(o: Options) -> int {
    (if o.fnv_hash {
        1int
    } else {
        0int
    }) + (if o.fx_hash {
        1int
    } else {
        0int
    }) + (if o.murmur_hash {
        1int
    } else {
        0int
    }) + (if o.hashbrown_table {
        1int
    } else {
        0int
    })
}

/// The strategy a conflict-free set of options selects: the flagged one, or
/// the ambient standard strategy when no flag is set.
pub open spec fn chosen_strategy(o: Options) -> HashStrategy {
    if o.fnv_hash {
        HashStrategy::Fnv
    } else if o.fx_hash {
        HashStrategy::Fx
    } else if o.murmur_hash {
        HashStrategy::Murmur3
    } else if o.hashbrown_table {
        HashStrategy::Hashbrown
    } else {
        HashStrategy::Standard
    }
}

/// Resolve the configuration surface into the four values the workloads need.
/// Resolution is deterministic, and fails exactly when two or more
/// hash-strategy flags are selected at once.
pub fn resolve(o: &Options) -> (r: Result<Config, ConfigError>)
    ensures
        r is Ok <==> strategy_count(*o) <= 1,
        r matches Ok(c) ==> c == (Config {
            string_key: o.string_key,
            string_value: o.string_value,
            string_padding: o.string_padding,
            strategy: chosen_strategy(*o),
            reserve_on_fill: o.reserve_on_fill,
        }),
        r is Err ==> r == Result::<Config, ConfigError>::Err(
            ConfigError::ConflictingHashStrategies,
        ),
{
    let mut count: u32 = 0;
    if o.fnv_hash {
        count = count + 1;
    }
    if o.fx_hash {
        count = count + 1;
    }
    if o.murmur_hash {
        count = count + 1;
    }
    if o.hashbrown_table {
        count = count + 1;
    }
    if count > 1 {
        return Err(ConfigError::ConflictingHashStrategies);
    }
    let strategy = if o.fnv_hash {
        HashStrategy::Fnv
    } else if o.fx_hash {
        HashStrategy::Fx
    } else if o.murmur_hash {
        HashStrategy::Murmur3
    } else if o.hashbrown_table {
        HashStrategy::Hashbrown
    } else {
        HashStrategy::Standard
    };
    Ok(
        Config {
            string_key: o.string_key,
            string_value: o.string_value,
            string_padding: o.string_padding,
            strategy,
            reserve_on_fill: o.reserve_on_fill,
        },
    )
}

} // verus!
