//! Flags of allocation sites, looked up by function name and pc.

use vstd::prelude::*;

use crate::text::same_text;

verus! {

#[derive(Debug)]
struct Entry {
    fn_name: String,
    pc: u32,
    flag: bool,
}

/// A map from `(function name, pc)` to a flag. A later insertion under the
/// same key replaces an earlier one.
#[derive(Debug)]
pub struct SiteIndex {
    entries: Vec<Entry>,
}

spec fn contents(entries: Seq<Entry>) -> Map<(Seq<char>, u32), bool>
    decreases entries.len(),
{
    if entries.len() == 0 {
        Map::empty()
    } else {
        contents(entries.drop_last()).insert(
            (entries.last().fn_name@, entries.last().pc),
            entries.last().flag,
        )
    }
}

impl View for SiteIndex {
    type V = Map<(Seq<char>, u32), bool>;

    closed spec fn view(&self) -> Map<(Seq<char>, u32), bool> {
        contents(self.entries@)
    }
}

impl SiteIndex {
    pub fn new() -> (idx: SiteIndex)
        ensures
            idx@ == Map::<(Seq<char>, u32), bool>::empty(),
    {
        SiteIndex { entries: Vec::new() }
    }

    pub fn insert(&mut self, fn_name: String, pc: u32, flag: bool)
        ensures
            final(self)@ == old(self)@.insert((fn_name@, pc), flag),
    {
        let ghost e0 = self.entries@;
        self.entries.push(Entry { fn_name, pc, flag });
        assert(self.entries@.drop_last() =~= e0);
    }

    pub fn get(&self, fn_name: &str, pc: u32) -> (flag: Option<bool>)
        ensures
            flag == (if self@.contains_key((fn_name@, pc)) {
                Some(self@[(fn_name@, pc)])
            } else {
                None
            }),
    {
        let mut i: usize = self.entries.len();
        assert(self.entries@.take(i as int) =~= self.entries@);
        while i > 0
            invariant
                i <= self.entries.len(),
                self@.contains_key((fn_name@, pc)) <==> contents(
                    self.entries@.take(i as int),
                ).contains_key((fn_name@, pc)),
                contents(self.entries@.take(i as int)).contains_key((fn_name@, pc)) ==> self@[(
                    fn_name@,
                    pc,
                )] == contents(self.entries@.take(i as int))[(fn_name@, pc)],
            decreases i,
        {
            i = i - 1;
            assert(self.entries@.take(i + 1).drop_last() =~= self.entries@.take(i as int));
            if self.entries[i].pc == pc && same_text(self.entries[i].fn_name.as_str(), fn_name) {
                return Some(self.entries[i].flag);
            }
        }
        None
    }
}

} // verus!
