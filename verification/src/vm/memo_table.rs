//! Remembered results of pure functions.

use std::collections::HashMap;
use vstd::bytes::{spec_u128_from_le_bytes, spec_u128_to_le_bytes, u128_from_le_bytes};
use vstd::prelude::*;

use crate::value::{Val, Value};

verus! {

broadcast use vstd::std_specs::hash::group_hash_axioms;

/// One table per function, from the key of the arguments to the result.
pub struct MemoTable {
    tables: Vec<HashMap<u128, Value>>,
}

/// A key as a number.
spec fn number_of(key: Seq<u8>) -> u128 {
    spec_u128_from_le_bytes(key)
}

spec fn has(tables: Seq<HashMap<u128, Value>>, k: (u32, Seq<u8>)) -> bool {
    k.1.len() == 16 && k.0 < tables.len() && tables[k.0 as int]@.contains_key(number_of(k.1))
}

spec fn contents(tables: Seq<HashMap<u128, Value>>) -> Map<(u32, Seq<u8>), Val> {
    Map::new(
        |k: (u32, Seq<u8>)| has(tables, k),
        |k: (u32, Seq<u8>)| tables[k.0 as int]@[number_of(k.1)]@,
    )
}

impl View for MemoTable {
    type V = Map<(u32, Seq<u8>), Val>;

    closed spec fn view(&self) -> Map<(u32, Seq<u8>), Val> {
        contents(self.tables@)
    }
}

proof fn lemma_numbers_differ(a: Seq<u8>, b: Seq<u8>)
    requires
        a.len() == 16,
        b.len() == 16,
        number_of(a) == number_of(b),
    ensures
        a == b,
{
    vstd::bytes::lemma_auto_spec_u128_to_from_le_bytes();
    assert(spec_u128_to_le_bytes(spec_u128_from_le_bytes(a)) == a);
    assert(spec_u128_to_le_bytes(spec_u128_from_le_bytes(b)) == b);
}

fn key_number(key: &[u8; 16]) -> (n: u128)
    ensures
        n == number_of(key@),
{
    u128_from_le_bytes(key.as_slice())
}

impl MemoTable {
    pub fn new() -> (t: MemoTable)
        ensures
            (t@ == Map::<(u32, Seq<u8>), Val>::empty()),
    {
        let t = MemoTable { tables: Vec::new() };
        assert(t@ =~= Map::<(u32, Seq<u8>), Val>::empty());
        t
    }

    /// The remembered result, if there is one.
    pub fn get(&self, fn_id: u32, key: &[u8; 16]) -> (v: Option<Value>)
        ensures
            v is Some <==> self@.contains_key((fn_id, key@)),
            v matches Some(x) ==> x@ == self@[(fn_id, key@)],
    {
        if (fn_id as usize) >= self.tables.len() {
            return None;
        }
        match self.tables[fn_id as usize].get(&key_number(key)) {
            Some(v) => Some(v.duplicate()),
            None => None,
        }
    }

    /// Remembers a result.
    pub fn insert(&mut self, fn_id: u32, key: &[u8; 16], v: Value)
        ensures
            final(self)@ == old(self)@.insert((fn_id, key@), v@),
    {
        while self.tables.len() <= fn_id as usize
            invariant
                contents(self.tables@) == contents(old(self).tables@),
            decreases fn_id as usize + 1 - self.tables.len(),
        {
            let ghost before = self.tables@;
            self.tables.push(HashMap::new());
            assert(contents(self.tables@) =~= contents(before)) by {
                assert forall|k: (u32, Seq<u8>)| has(self.tables@, k) <==> has(before, k) by {
                    if k.0 < before.len() {
                        assert(self.tables@[k.0 as int] == before[k.0 as int]);
                    }
                }
            }
        }
        let ghost before = self.tables@;
        let n = key_number(key);
        let ghost x = v@;
        self.tables[fn_id as usize].insert(n, v);
        proof {
            let after = self.tables@;
            let want = contents(before).insert((fn_id, key@), x);
            assert forall|k: (u32, Seq<u8>)| has(after, k) <==> want.contains_key(k) by {
                if k.0 == fn_id && k.1.len() == 16 && number_of(k.1) == n {
                    lemma_numbers_differ(k.1, key@);
                }
            }
            assert forall|k: (u32, Seq<u8>)| want.contains_key(k) implies contents(after)[k]
                == want[k] by {
                if k.0 == fn_id && number_of(k.1) == n {
                    lemma_numbers_differ(k.1, key@);
                }
            }
            assert(contents(after) =~= want);
        }
    }
}

} // verus!
