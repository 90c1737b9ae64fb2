use vstd::prelude::*;

use crate::config::Config;
use crate::rng::random_in_range;
use crate::table::{BenchMap, empty_model, map_of};
use crate::text::{lemma_elem_injective, make_elem, spec_elem, Elem, ElemSpec};

verus! {

/// The key the fill procedure resolves from the integer `k`.
pub open spec fn key_model(cfg: Config, k: int) -> ElemSpec {
    spec_elem(cfg.string_key, cfg.string_padding, k)
}

/// The value the fill procedure resolves from the integer `k`.
pub open spec fn value_model(cfg: Config, k: int) -> ElemSpec {
    spec_elem(cfg.string_value, cfg.string_padding, k)
}

/// What the linear fill leaves in a map: each key resolved from `0..n-1`
/// bound to the value resolved from the same integer.
pub open spec fn fill_model(cfg: Config, n: int) -> Map<ElemSpec, ElemSpec>
    decreases n,
{
    if n <= 0 {
        empty_model()
    } else {
        fill_model(cfg, n - 1).insert(key_model(cfg, n - 1), value_model(cfg, n - 1))
    }
}

/// The linear fill puts exactly `n` entries in the map: the keys resolved
/// from `0..n-1` are pairwise distinct, each is bound to the value resolved
/// from the same integer, and no key resolved from an integer at or above
/// `n` is present.
pub proof fn lemma_fill_model(cfg: Config, n: int)
    requires
        n >= 0,
    ensures
        fill_model(cfg, n).dom().finite(),
        fill_model(cfg, n).dom().len() == n,
        forall|k: int|
            0 <= k < n ==> fill_model(cfg, n).contains_key(#[trigger] key_model(cfg, k))
                && fill_model(cfg, n)[key_model(cfg, k)] == value_model(cfg, k),
        forall|e: ElemSpec| #[trigger]
            fill_model(cfg, n).dom().contains(e) ==> exists|k: int|
                0 <= k < n && e == key_model(cfg, k),
        forall|k: int|
            k >= n ==> !fill_model(cfg, n).dom().contains(#[trigger] key_model(cfg, k)),
    decreases n,
{
    broadcast use vstd::set::axiom_set_insert_len;

    if n > 0 {
        lemma_fill_model(cfg, n - 1);
        let prev = fill_model(cfg, n - 1);
        let cur = fill_model(cfg, n);
        let key = key_model(cfg, n - 1);
        assert(cur == prev.insert(key, value_model(cfg, n - 1)));
        assert(cur.dom() =~= prev.dom().insert(key));
        assert(!prev.dom().contains(key)) by {
            if prev.dom().contains(key) {
                let k = choose|k: int| 0 <= k < n - 1 && key == key_model(cfg, k);
                lemma_elem_injective(cfg.string_key, cfg.string_padding, n - 1, k);
            }
        };
        assert(cur.dom().len() == n);
        assert forall|k: int|
            0 <= k < n implies cur.contains_key(#[trigger] key_model(cfg, k)) && cur[key_model(
            cfg,
            k,
        )] == value_model(cfg, k) by {
            if k < n - 1 && key_model(cfg, k) == key {
                lemma_elem_injective(cfg.string_key, cfg.string_padding, k, n - 1);
            }
        };
        assert forall|e: ElemSpec| #[trigger] cur.dom().contains(e) implies exists|k: int|
            0 <= k < n && e == key_model(cfg, k) by {
            if e == key {
                assert(0 <= n - 1 < n && e == key_model(cfg, n - 1));
            } else {
                let k0 = choose|k: int| 0 <= k < n - 1 && e == key_model(cfg, k);
                assert(0 <= k0 < n && e == key_model(cfg, k0));
            }
        };
        assert forall|k: int|
            k >= n implies !cur.dom().contains(#[trigger] key_model(cfg, k)) by {
            if key_model(cfg, k) == key {
                lemma_elem_injective(cfg.string_key, cfg.string_padding, k, n - 1);
            }
        };
    }
}

/// The shared setup step: build an empty map under the configured strategy,
/// reserve capacity for `n` entries iff the configuration says so, then
/// insert the entries resolved from `0, 1, ..., n-1` in order.
pub fn fill_linear_n(cfg: &Config, n: i32) -> (m: BenchMap)
    requires
        0 <= n,
    ensures
        map_of(m) == fill_model(*cfg, n as int),
        map_of(m).dom().finite(),
        map_of(m).dom().len() == n as int,
        forall|k: int|
            0 <= k < n as int ==> map_of(m).contains_key(#[trigger] key_model(*cfg, k)) && map_of(
                m,
            )[key_model(*cfg, k)] == value_model(*cfg, k),
{
    let mut hm = BenchMap::new(cfg.strategy);
    if cfg.reserve_on_fill {
        hm.reserve(n as usize);
    }
    let mut i: i32 = 0;
    while i < n
        invariant
            0 <= i <= n,
            map_of(hm) == fill_model(*cfg, i as int),
        decreases n - i,
    {
        let k = make_elem(cfg.string_key, cfg.string_padding, i);
        let v = make_elem(cfg.string_value, cfg.string_padding, i);
        hm.insert(k, v);
        i = i + 1;
    }
    proof {
        lemma_fill_model(*cfg, n as int);
    }
    hm
}

/// Fill, then look up the single key resolved from `n / 2`; that key is
/// always present, and the workload returns a copy of its value.
pub fn fill_linear_n_lookup_one(cfg: &Config, n: i32) -> (v: Elem)
    requires
        1 <= n,
    ensures
        v@ == value_model(*cfg, n as int / 2),
{
    let hm = fill_linear_n(cfg, n);
    proof {
        lemma_fill_model(*cfg, n as int);
        assert(0 <= n as int / 2 < n as int);
    }
    let k = make_elem(cfg.string_key, cfg.string_padding, n / 2);
    proof {
        assert(k@ == key_model(*cfg, n as int / 2));
        assert(map_of(hm).contains_key(key_model(*cfg, n as int / 2)));
    }
    let r = hm.get_cloned(&k);
    r.unwrap()
}

/// Fill, then look up every key resolved from `0..n-1` in ascending order,
/// counting hits. Every lookup hits, so the count is exactly `n`.
pub fn fill_linear_n_lookup_all(cfg: &Config, n: i32) -> (hits: i32)
    requires
        0 <= n,
    ensures
        hits == n,
{
    let hm = fill_linear_n(cfg, n);
    let mut side_effect: i32 = 0;
    let mut i: i32 = 0;
    while i < n
        invariant
            0 <= i <= n,
            side_effect == i,
            map_of(hm) == fill_model(*cfg, n as int),
        decreases n - i,
    {
        proof {
            lemma_fill_model(*cfg, n as int);
        }
        let k = make_elem(cfg.string_key, cfg.string_padding, i);
        proof {
            assert(k@ == key_model(*cfg, i as int));
            assert(map_of(hm).contains_key(key_model(*cfg, i as int)));
        }
        if hm.get_cloned(&k).is_some() {
            side_effect = side_effect + 1;
        }
        i = i + 1;
    }
    side_effect
}

/// Fill, then perform `n` lookups of keys drawn uniformly from `[0, n)`,
/// counting hits. Every drawn key lies in the populated range, so every
/// lookup hits and the count is exactly `n`.
pub fn fill_linear_n_lookup_random(cfg: &Config, n: i32) -> (hits: i32)
    requires
        0 <= n,
    ensures
        hits == n,
{
    let hm = fill_linear_n(cfg, n);
    let mut side_effect: i32 = 0;
    let mut i: i32 = 0;
    while i < n
        invariant
            0 <= i <= n,
            side_effect == i,
            map_of(hm) == fill_model(*cfg, n as int),
        decreases n - i,
    {
        proof {
            lemma_fill_model(*cfg, n as int);
        }
        let rk = random_in_range(0, n);
        let k = make_elem(cfg.string_key, cfg.string_padding, rk);
        proof {
            assert(k@ == key_model(*cfg, rk as int));
            assert(map_of(hm).contains_key(key_model(*cfg, rk as int)));
        }
        if hm.get_cloned(&k).is_some() {
            side_effect = side_effect + 1;
        }
        i = i + 1;
    }
    side_effect
}

/// Fill, then perform `n` lookups of keys drawn uniformly from `[n, 2n)` —
/// a range disjoint from the populated keys. Every lookup misses, so the
/// count is exactly zero; for `n = 0` the loop performs zero probes.
pub fn fill_linear_n_lookup_missing(cfg: &Config, n: i32) -> (hits: i32)
    requires
        0 <= n,
        n <= i32::MAX / 2,
    ensures
        hits == 0,
{
    let hm = fill_linear_n(cfg, n);
    let mut side_effect: i32 = 0;
    let mut i: i32 = 0;
    while i < n
        invariant
            0 <= i <= n,
            n <= i32::MAX / 2,
            side_effect == 0,
            map_of(hm) == fill_model(*cfg, n as int),
        decreases n - i,
    {
        proof {
            lemma_fill_model(*cfg, n as int);
        }
        let rk = random_in_range(n, n * 2);
        let k = make_elem(cfg.string_key, cfg.string_padding, rk);
        proof {
            assert(k@ == key_model(*cfg, rk as int));
            assert(!map_of(hm).dom().contains(key_model(*cfg, rk as int)));
        }
        if hm.get_cloned(&k).is_some() {
            side_effect = side_effect + 1;
        }
        i = i + 1;
    }
    side_effect
}

/// Fill, then perform `n` further insertions whose keys are drawn uniformly
/// from `[0, n)` and whose values are resolved from `0..n-1` in order. Every
/// drawn key is already present, so the insertions only overwrite: the
/// resulting map keeps exactly the filled key set — its size never exceeds
/// `n`, and is at least one whenever `n ≥ 1`. The second component tallies
/// an unrelated random event per round, as the benchmark's black-box result.
pub fn insert_random_table(cfg: &Config, n: i32) -> (res: (BenchMap, i32))
    requires
        0 <= n,
    ensures
        map_of(res.0).dom() == fill_model(*cfg, n as int).dom(),
        map_of(res.0).dom().finite(),
        map_of(res.0).dom().len() <= n as int,
        1 <= n ==> 1 <= map_of(res.0).dom().len(),
        0 <= res.1 <= n,
{
    let mut hm = fill_linear_n(cfg, n);
    let mut side_effect: i32 = 0;
    let mut i: i32 = 0;
    while i < n
        invariant
            0 <= i <= n,
            0 <= side_effect <= i,
            map_of(hm).dom() == fill_model(*cfg, n as int).dom(),
        decreases n - i,
    {
        proof {
            lemma_fill_model(*cfg, n as int);
        }
        let rk = random_in_range(0, n);
        let k = make_elem(cfg.string_key, cfg.string_padding, rk);
        let v = make_elem(cfg.string_value, cfg.string_padding, i);
        proof {
            assert(k@ == key_model(*cfg, rk as int));
            assert(map_of(hm).contains_key(key_model(*cfg, rk as int)));
        }
        hm.insert(k, v);
        proof {
            assert(map_of(hm).dom() =~= fill_model(*cfg, n as int).dom());
        }
        if random_in_range(0, n) < n / 2 {
            side_effect = side_effect + 1;
        }
        i = i + 1;
    }
    proof {
        lemma_fill_model(*cfg, n as int);
    }
    (hm, side_effect)
}

/// Fill, insert `n` random-key overwrites, and return the tally plus the
/// resulting map's size — a value that depends on all work performed. The
/// size contribution is always exactly `n`, so the result lies in `[n, 2n]`.
pub fn fill_linear_n_insert_random(cfg: &Config, n: i32) -> (r: i32)
    requires
        0 <= n,
        n <= i32::MAX / 2,
    ensures
        n as int <= r as int <= 2 * n as int,
{
    let (hm, side_effect) = insert_random_table(cfg, n);
    proof {
        lemma_fill_model(*cfg, n as int);
    }
    let len = hm.len();
    side_effect + (len as i32)
}

/// Build a second map under the same strategy and reservation policy and
/// insert every entry of `src` into it, in whatever order enumeration
/// yields. The copy is observationally equal to the source: same key set,
/// same values.
pub fn copy_table_element_wise(cfg: &Config, src: BenchMap) -> (dst: BenchMap)
    ensures
        map_of(dst) == map_of(src),
{
    let ghost src_model = map_of(src);
    let mut dst = BenchMap::new(cfg.strategy);
    if cfg.reserve_on_fill {
        let n = src.len();
        dst.reserve(n);
    }
    let mut pairs = src.into_pairs();
    let ghost all = pairs@;
    proof {
        assert(pairs@ =~= all.take(pairs@.len() as int));
    }
    while pairs.len() > 0
        invariant
            pairs@ =~= all.take(pairs@.len() as int),
            pairs@.len() <= all.len(),
            all.len() == src_model.dom().len(),
            forall|i: int|
                0 <= i < all.len() ==> src_model.contains_key(#[trigger] all[i].0@) && src_model[
                    all[i].0@
                ] == all[i].1@,
            forall|i: int, j: int| 0 <= i < j < all.len() ==> all[i].0@ != all[j].0@,
            forall|k: ElemSpec| #[trigger]
                src_model.contains_key(k) ==> exists|i: int| 0 <= i < all.len() && all[i].0@ == k,
            forall|k: ElemSpec| #[trigger]
                map_of(dst).contains_key(k) <==> exists|i: int|
                    pairs@.len() <= i < all.len() && all[i].0@ == k,
            forall|i: int|
                pairs@.len() <= i < all.len() ==> map_of(dst).contains_key(#[trigger] all[i].0@)
                    && map_of(dst)[all[i].0@] == all[i].1@,
        decreases pairs@.len(),
    {
        let ghost j = pairs@.len() as int;
        let pair = pairs.pop().unwrap();
        proof {
            assert(pair == all[j - 1]);
            assert(pairs@ =~= all.take(pairs@.len() as int));
        }
        dst.insert(pair.0, pair.1);
        proof {
            assert forall|k: ElemSpec| #[trigger]
                map_of(dst).contains_key(k) <==> exists|i: int|
                    pairs@.len() <= i < all.len() && all[i].0@ == k by {
                if map_of(dst).contains_key(k) {
                    if k == all[j - 1].0@ {
                        assert(j - 1 < all.len() && all[j - 1].0@ == k);
                    }
                }
                if exists|i: int| pairs@.len() <= i < all.len() && all[i].0@ == k {
                    let i0 = choose|i: int| pairs@.len() <= i < all.len() && all[i].0@ == k;
                    if i0 != j - 1 {
                        assert(j <= i0 < all.len() && all[i0].0@ == k);
                    }
                }
            };
            assert forall|i: int|
                pairs@.len() <= i < all.len() implies map_of(dst).contains_key(
                #[trigger] all[i].0@,
            ) && map_of(dst)[all[i].0@] == all[i].1@ by {
                if i != j - 1 {
                    assert(all[j - 1].0@ != all[i].0@);
                }
            };
        }
    }
    proof {
        assert(map_of(dst) =~= src_model) by {
            assert forall|k: ElemSpec| #[trigger]
                map_of(dst).contains_key(k) implies src_model.contains_key(k) && map_of(dst)[k]
                == src_model[k] by {
                let i0 = choose|i: int| 0 <= i < all.len() && all[i].0@ == k;
                assert(src_model.contains_key(all[i0].0@));
                assert(map_of(dst)[all[i0].0@] == all[i0].1@);
            };
            assert forall|k: ElemSpec| #[trigger]
                src_model.contains_key(k) implies map_of(dst).contains_key(k) by {
                let i0 = choose|i: int| 0 <= i < all.len() && all[i].0@ == k;
                assert(0 <= i0 < all.len() && all[i0].0@ == k);
            };
        };
    }
    dst
}

/// Fill, then copy the map entry by entry into a fresh map under the same
/// reservation policy; the copy's size equals the fill's size, `n`.
pub fn fill_linear_n_copy_element_wise(cfg: &Config, n: i32) -> (r: i32)
    requires
        0 <= n,
    ensures
        r == n,
{
    let hm = fill_linear_n(cfg, n);
    let hm_copy = copy_table_element_wise(cfg, hm);
    proof {
        lemma_fill_model(*cfg, n as int);
    }
    let len = hm_copy.len();
    len as i32
}

/// Fill, then duplicate the map through the container's own duplication
/// facility; the duplicate's size equals the fill's size, `n`.
pub fn fill_linear_n_clone(cfg: &Config, n: i32) -> (r: i32)
    requires
        0 <= n,
    ensures
        r == n,
{
    let hm = fill_linear_n(cfg, n);
    let hm_copy = hm.duplicate();
    proof {
        lemma_fill_model(*cfg, n as int);
    }
    let len = hm_copy.len();
    len as i32
}

/// Fill, then enumerate every entry exactly once, counting visits; the
/// count is exactly `n`.
pub fn fill_linear_n_traversal(cfg: &Config, n: i32) -> (r: i32)
    requires
        0 <= n,
    ensures
        r == n,
{
    let hm = fill_linear_n(cfg, n);
    proof {
        lemma_fill_model(*cfg, n as int);
    }
    let pairs = hm.into_pairs();
    let mut side_effect: i32 = 0;
    let mut i: usize = 0;
    while i < pairs.len()
        invariant
            i <= pairs@.len(),
            pairs@.len() == n as int,
            side_effect as int == i as int,
        decreases pairs@.len() - i,
    {
        let _pair = &pairs[i];
        side_effect = side_effect + 1;
        i = i + 1;
    }
    side_effect
}

/// Perform `n` random draws and no map work at all, tallying an arbitrary
/// event, so the incremental cost of randomness can be measured on its own.
pub fn random_gen_only(n: i32) -> (r: i32)
    requires
        0 <= n,
    ensures
        0 <= r <= n,
{
    let mut side_effect: i32 = 0;
    let mut i: i32 = 0;
    while i < n
        invariant
            0 <= i <= n,
            0 <= side_effect <= i,
        decreases n - i,
    {
        if random_in_range(0, n) < n / 2 {
            side_effect = side_effect + 1;
        }
        i = i + 1;
    }
    side_effect
}

} // verus!
