//! Mappings. On the wire a mapping is a pair list; where a key stands
//! more than once in it, the last pair with the key holds.

use vstd::prelude::*;
use vstd::std_specs::hash::{group_hash_axioms, obeys_key_model};
use std::collections::HashMap;
use std::hash::Hash;
use crate::error::TdfError;
use crate::rtdf::ser::{reads, RTDFSerializer, Serialize};

verus! {

/// The mapping that a list of pairs stands for: each key with the value of
/// the last pair that has it.
pub open spec fn map_of<K, V>(pairs: Seq<(K, V)>) -> Map<K, V>
    decreases pairs.len(),
{
    if pairs.len() == 0 {
        Map::empty()
    } else {
        map_of(pairs.drop_last()).insert(pairs.last().0, pairs.last().1)
    }
}

/// The mapping that a list of pairs stands for. The claim holds for keys
/// that are hashed and compared as the model of hash maps asks.
pub fn map_of_pairs<K: Eq + Hash, V>(pairs: Vec<(K, V)>) -> (map: HashMap<K, V>)
    ensures
        obeys_key_model::<K>() ==> map@ == map_of(pairs@),
{
    broadcast use group_hash_axioms;

    let mut rest = pairs;
    let mut map: HashMap<K, V> = HashMap::new();
    assert(map_of(rest@).union_prefer_right(map@) =~= map_of(pairs@));
    loop
        invariant
            obeys_key_model::<K>() ==> map_of(pairs@) == map_of(rest@).union_prefer_right(map@),
        ensures
            obeys_key_model::<K>() ==> map@ == map_of(pairs@),
        decreases rest@.len(),
    {
        let ghost before = rest@;
        let ghost held = map@;
        match rest.pop() {
            None => {
                assert(map_of(before).union_prefer_right(held) =~= held);
                break ;
            },
            Some((k, v)) => {
                assert(before.drop_last() =~= rest@);
                assert(before.last() == (k, v));
                if !map.contains_key(&k) {
                    map.insert(k, v);
                }
                assert(obeys_key_model::<K>() ==> map_of(before).union_prefer_right(held)
                    =~= map_of(rest@).union_prefer_right(map@));
            },
        }
    }
    map
}

/// Reads a mapping: a pair list, of which the last pair of each key holds.
/// The value returned is the mapping of a pair list that
/// [`Serialize::serialize`] reads at the cursor.
pub fn read_map<K: Serialize + Eq + Hash, V: Serialize>(
    ser: &mut RTDFSerializer,
) -> (result: Result<HashMap<K, V>, TdfError>)
    ensures
        exists|pairs: Result<Vec<(K, V)>, TdfError>|
            {
                &&& reads(
                    *old(ser),
                    *final(ser),
                    pairs,
                    <Vec<(K, V)>>::parsed(old(ser).stream@, old(ser).stream.1 as int),
                )
                &&& match pairs {
                    Ok(list) => result is Ok && (obeys_key_model::<K>() ==> result->Ok_0@ == map_of(
                        list@,
                    )),
                    Err(e) => result is Err && result->Err_0 == e,
                }
            },
{
    let pairs = <Vec<(K, V)>>::serialize(ser);
    let ghost witness = pairs;
    match pairs {
        Ok(list) => {
            let map = map_of_pairs(list);
            assert(witness is Ok);
            Ok(map)
        },
        Err(e) => Err(e),
    }
}

} // verus!
