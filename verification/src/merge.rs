//! Deep merge of structured values: mappings merge key by key, anything
//! else is replaced by the overlay.

use crate::value::{Json, Mapping, StructuredValue};
use vstd::prelude::*;

verus! {

/// What a merge finds in `base` under `k`: the value held there, or `Null`
/// where the key is absent.
pub open spec fn slot(base: Map<Seq<char>, Json>, k: Seq<char>) -> Json {
    if base.contains_key(k) {
        base[k]
    } else {
        Json::Null
    }
}

/// The result of merging `overlay` into `base`.
///
/// Two mappings merge key by key: a key of the overlay gets the overlay's
/// value merged into what the base holds under it (into `Null` where the base
/// has no such key), and a key of the base alone keeps its value. In every
/// other case the overlay replaces the base whole; a sequence is never merged
/// item by item.
pub open spec fn merged(base: Json, overlay: Json) -> Json
    decreases overlay,
{
    match (base, overlay) {
        (Json::Mapping(a), Json::Mapping(b)) => Json::Mapping(
            Map::new(
                |k: Seq<char>| a.contains_key(k) || b.contains_key(k),
                |k: Seq<char>|
                    if b.contains_key(k) {
                        merged(slot(a, k), b[k])
                    } else {
                        a[k]
                    },
            ),
        ),
        (_, o) => o,
    }
}

/// `base` with the overlay's values merged in under the first `n` of `keys`.
spec fn merged_upto(
    base: Map<Seq<char>, Json>,
    overlay: Map<Seq<char>, Json>,
    keys: Seq<Seq<char>>,
    n: int,
) -> Map<Seq<char>, Json> {
    Map::new(
        |k: Seq<char>| base.contains_key(k) || keys.take(n).contains(k),
        |k: Seq<char>|
            if keys.take(n).contains(k) {
                merged(slot(base, k), overlay[k])
            } else {
                base[k]
            },
    )
}

proof fn lemma_merged_upto_step(
    base: Map<Seq<char>, Json>,
    overlay: Map<Seq<char>, Json>,
    keys: Seq<Seq<char>>,
    n: int,
)
    requires
        0 <= n < keys.len(),
        keys.no_duplicates(),
    ensures
        !keys.take(n).contains(keys[n]),
        merged_upto(base, overlay, keys, n + 1) == merged_upto(base, overlay, keys, n).insert(
            keys[n],
            merged(slot(base, keys[n]), overlay[keys[n]]),
        ),
{
    let before = keys.take(n);
    let after = keys.take(n + 1);
    assert(after =~= before.push(keys[n]));
    assert forall|k: Seq<char>| after.contains(k) <==> (before.contains(k) || k == keys[n]) by {
        if before.contains(k) {
            let j = choose|j: int| 0 <= j < before.len() && before[j] == k;
            assert(after[j] == k);
        }
        if k == keys[n] {
            assert(after[n] == k);
        }
    }
    assert(merged_upto(base, overlay, keys, n + 1) =~= merged_upto(base, overlay, keys, n).insert(
        keys[n],
        merged(slot(base, keys[n]), overlay[keys[n]]),
    ));
}

proof fn lemma_merged_upto_all(
    base: Map<Seq<char>, Json>,
    overlay: Map<Seq<char>, Json>,
    keys: Seq<Seq<char>>,
)
    requires
        overlay.dom() == keys.to_set(),
    ensures
        Json::Mapping(merged_upto(base, overlay, keys, keys.len() as int)) == merged(
            Json::Mapping(base),
            Json::Mapping(overlay),
        ),
{
    assert(keys.take(keys.len() as int) =~= keys);
    assert forall|k: Seq<char>| keys.contains(k) <==> overlay.contains_key(k) by {
        assert(keys.to_set().contains(k) <==> keys.contains(k));
    }
    assert(merged_upto(base, overlay, keys, keys.len() as int) =~= merged(
        Json::Mapping(base),
        Json::Mapping(overlay),
    )->Mapping_0);
}

/// Merges `b` into `a`. `b` is left as it is.
///
/// Where both are mappings, the keys of `a` keep their places and the keys
/// that only `b` holds follow them.
pub fn merge(a: &mut StructuredValue, b: &StructuredValue)
    ensures
        final(a)@ == merged(old(a)@, b@),
        *old(a) matches StructuredValue::Mapping(base) ==> (b matches StructuredValue::Mapping(
            overlay,
        ) ==> (*final(a) matches StructuredValue::Mapping(result) && result.keys() == base.keys()
            + new_keys(base@, overlay.keys()))),
    decreases b@, 1nat,
{
    match b {
        StructuredValue::Mapping(overlay) => {
            match a {
                StructuredValue::Mapping(base) => {
                    merge_mappings(base, overlay);
                },
                _ => {
                    *a = b.clone();
                },
            }
        },
        _ => {
            *a = b.clone();
        },
    }
}

/// Those of `keys` that `base` does not hold, in their order.
pub open spec fn new_keys(base: Map<Seq<char>, Json>, keys: Seq<Seq<char>>) -> Seq<Seq<char>> {
    keys.filter(|k: Seq<char>| !base.contains_key(k))
}

proof fn lemma_new_keys_step(base: Map<Seq<char>, Json>, keys: Seq<Seq<char>>, n: int)
    requires
        0 <= n < keys.len(),
    ensures
        new_keys(base, keys.take(n + 1)) == (if base.contains_key(keys[n]) {
            new_keys(base, keys.take(n))
        } else {
            new_keys(base, keys.take(n)).push(keys[n])
        }),
{
    assert(keys.take(n + 1) =~= keys.take(n).push(keys[n]));
    keys.take(n).lemma_filter_push(keys[n], |k: Seq<char>| !base.contains_key(k));
}

/// Merges every entry of `overlay` into `base`.
///
/// The keys of `base` keep their places. The keys that only `overlay` holds
/// follow them, in the order in which `overlay` holds them.
pub fn merge_mappings(base: &mut Mapping, overlay: &Mapping)
    ensures
        Json::Mapping(final(base)@) == merged(Json::Mapping(old(base)@), Json::Mapping(overlay@)),
        final(base).keys() == old(base).keys() + new_keys(old(base)@, overlay.keys()),
    decreases Json::Mapping(overlay@), 0nat,
{
    let n = overlay.len();
    let ghost start = base@;
    let ghost start_keys = base.keys();
    let mut i: usize = 0;
    proof {
        reveal(Seq::filter);
        assert(overlay.keys().take(0) =~= Seq::<Seq<char>>::empty());
        assert(base@ =~= merged_upto(start, overlay@, overlay.keys(), 0));
        assert(base.keys() =~= start_keys + new_keys(start, overlay.keys().take(0)));
    }
    while i < n
        invariant
            i <= n,
            n == overlay.keys().len(),
            overlay.keys().no_duplicates(),
            overlay@.dom() == overlay.keys().to_set(),
            base@ == merged_upto(start, overlay@, overlay.keys(), i as int),
            base.keys() == start_keys + new_keys(start, overlay.keys().take(i as int)),
        decreases n - i,
    {
        let key = overlay.key_at(i);
        let value = overlay.value_at(i);
        proof {
            lemma_merged_upto_step(start, overlay@, overlay.keys(), i as int);
            lemma_new_keys_step(start, overlay.keys(), i as int);
            let ghost whole = Json::Mapping(overlay@);
            assert(decreases_to!(whole => whole->Mapping_0[key@]));
        }
        let ghost before = base@;
        let ghost keys_before = base.keys();
        let mut entry = base.take(key.as_str());
        merge(&mut entry, value);
        base.insert(key.clone(), entry);
        proof {
            assert(base@ =~= before.insert(key@, merged(slot(start, key@), overlay@[key@])));
            assert(base.keys() =~= start_keys + new_keys(
                start,
                overlay.keys().take(i as int + 1),
            ));
        }
        i += 1;
    }
    proof {
        lemma_merged_upto_all(start, overlay@, overlay.keys());
        assert(overlay.keys().take(n as int) =~= overlay.keys());
    }
}

/// Merging a value into itself changes nothing.
pub proof fn merge_into_itself(x: Json)
    ensures
        merged(x, x) == x,
    decreases x,
{
    match x {
        Json::Mapping(m) => {
            let r = merged(x, x)->Mapping_0;
            assert forall|k: Seq<char>| m.contains_key(k) implies r[k] == m[k] by {
                merge_into_itself(m[k]);
            }
            assert(r =~= m);
        },
        _ => {},
    }
}

/// Merge is idempotent: merging the same overlay a second time changes
/// nothing.
pub proof fn merge_is_idempotent(a: Json, b: Json)
    ensures
        merged(merged(a, b), b) == merged(a, b),
    decreases b,
{
    match (a, b) {
        (Json::Mapping(x), Json::Mapping(y)) => {
            let once = merged(a, b)->Mapping_0;
            let twice = merged(merged(a, b), b)->Mapping_0;
            assert forall|k: Seq<char>| twice.contains_key(k) implies twice[k] == once[k] by {
                if y.contains_key(k) {
                    merge_is_idempotent(slot(x, k), y[k]);
                }
            }
            assert(twice =~= once);
        },
        _ => {
            merge_into_itself(b);
        },
    }
}

/// The overlay wins: under a key that both mappings hold, where the overlay's
/// value is no mapping, the merged mapping holds the overlay's value.
pub proof fn merge_overlay_wins(a: Json, b: Json, k: Seq<char>)
    requires
        a matches Json::Mapping(x) && x.contains_key(k),
        b matches Json::Mapping(y) && y.contains_key(k) && !(y[k] is Mapping),
    ensures
        merged(a, b) matches Json::Mapping(m) && m.contains_key(k) && m[k] == b->Mapping_0[k],
{
    let x = a->Mapping_0;
    let y = b->Mapping_0;
    assert(merged(x[k], y[k]) == y[k]);
}

/// The value that `path` leads to inside `v`, one key per level of nested
/// mappings; `None` where the path leaves the mappings.
pub open spec fn lookup(v: Json, path: Seq<Seq<char>>) -> Option<Json>
    decreases path.len(),
{
    if path.len() == 0 {
        Some(v)
    } else {
        match v {
            Json::Mapping(m) => if m.contains_key(path[0]) {
                lookup(m[path[0]], path.skip(1))
            } else {
                None
            },
            _ => None,
        }
    }
}

/// Whether `path` is absent from the overlay `v`: walking it through nested
/// mappings of `v` comes, at some depth, to a mapping without the next key.
pub open spec fn absent_from(v: Json, path: Seq<Seq<char>>) -> bool
    decreases path.len(),
{
    path.len() > 0 && (v matches Json::Mapping(m) && (!m.contains_key(path[0]) || absent_from(
        m[path[0]],
        path.skip(1),
    )))
}

/// Merge recurses: what the base holds at a path that is absent from the
/// overlay is preserved, at every depth.
pub proof fn merge_preserves_absent_paths(base: Json, overlay: Json, path: Seq<Seq<char>>)
    requires
        lookup(base, path) is Some,
        absent_from(overlay, path),
    ensures
        lookup(merged(base, overlay), path) == lookup(base, path),
    decreases path.len(),
{
    let a = base->Mapping_0;
    let b = overlay->Mapping_0;
    let k = path[0];
    if b.contains_key(k) {
        merge_preserves_absent_paths(a[k], b[k], path.skip(1));
    }
}

} // verus!
