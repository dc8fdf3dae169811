//! Named actors.
//!
//! One flat namespace. A name that is taken is refused, so that two actors
//! never fight over one name in silence.

use vstd::prelude::*;

use crate::text;
use crate::text::{same_text, sort_texts};
use crate::value::{Val, Value};

verus! {

#[derive(Debug, Clone, PartialEq, Eq)]
pub enum RegError {
    AlreadyRegistered(String),
    NotRegistered(String),
}

#[derive(Debug)]
struct Entry {
    name: String,
    actor: Value,
}

/// The registered names with their actors; no name occurs twice.
#[derive(Debug)]
pub struct ActorRegistry {
    entries: Vec<Entry>,
}

spec fn contents(entries: Seq<Entry>) -> Map<Seq<char>, Val>
    decreases entries.len(),
{
    if entries.len() == 0 {
        Map::empty()
    } else {
        contents(entries.drop_last()).insert(entries.last().name@, entries.last().actor@)
    }
}

spec fn names_differ(entries: Seq<Entry>) -> bool {
    forall|i: int, j: int|
        0 <= i < j < entries.len() ==> (#[trigger] entries[i]).name@ != (
        #[trigger] entries[j]).name@
}

proof fn lemma_contents(entries: Seq<Entry>)
    requires
        names_differ(entries),
    ensures
        forall|n: Seq<char>| #[trigger]
            contents(entries).contains_key(n) <==> exists|i: int|
                0 <= i < entries.len() && (#[trigger] entries[i]).name@ == n,
        forall|i: int|
            0 <= i < entries.len() ==> contents(entries)[(#[trigger] entries[i]).name@]
                == entries[i].actor@,
    decreases entries.len(),
{
    if entries.len() > 0 {
        let front = entries.drop_last();
        assert(names_differ(front)) by {
            assert forall|i: int, j: int| 0 <= i < j < front.len() implies (
            #[trigger] front[i]).name@ != (#[trigger] front[j]).name@ by {
                assert(entries[i] == front[i] && entries[j] == front[j]);
            }
        }
        lemma_contents(front);
        assert forall|n: Seq<char>| #[trigger]
            contents(entries).contains_key(n) <==> exists|i: int|
                0 <= i < entries.len() && (#[trigger] entries[i]).name@ == n by {
            if contents(front).contains_key(n) {
                let i = choose|i: int| 0 <= i < front.len() && (#[trigger] front[i]).name@ == n;
                assert(entries[i].name@ == n);
            }
            if exists|i: int| 0 <= i < entries.len() && (#[trigger] entries[i]).name@ == n {
                let i = choose|i: int|
                    0 <= i < entries.len() && (#[trigger] entries[i]).name@ == n;
                if i < front.len() {
                    assert(front[i].name@ == n);
                }
            }
            if entries.last().name@ == n {
                assert(entries[entries.len() - 1].name@ == n);
            }
        }
        assert forall|i: int| 0 <= i < entries.len() implies contents(entries)[(
        #[trigger] entries[i]).name@] == entries[i].actor@ by {
            if i < front.len() {
                assert(front[i] == entries[i]);
                assert(entries[i].name@ != entries[entries.len() - 1].name@);
            }
        }
    }
}

impl View for ActorRegistry {
    type V = Map<Seq<char>, Val>;

    closed spec fn view(&self) -> Map<Seq<char>, Val> {
        contents(self.entries@)
    }
}

impl ActorRegistry {
    /// No name occurs twice.
    #[verifier::type_invariant]
    spec fn wf(&self) -> bool {
        names_differ(self.entries@)
    }

    pub fn new() -> (r: ActorRegistry)
        ensures
            r@ == Map::<Seq<char>, Val>::empty(),
    {
        ActorRegistry { entries: Vec::new() }
    }

    fn position(&self, name: &str) -> (at: Option<usize>)
        ensures
            at is Some <==> self@.contains_key(name@),
            at matches Some(i) ==> i < self.entries@.len() && self.entries@[i as int].name@ == name@
                && self@[name@] == self.entries@[i as int].actor@,
    {
        proof {
            use_type_invariant(self);
            lemma_contents(self.entries@);
        }
        let mut i: usize = 0;
        while i < self.entries.len()
            invariant
                i <= self.entries.len(),
                forall|j: int| 0 <= j < i ==> (#[trigger] self.entries@[j]).name@ != name@,
                forall|j: int|
                    0 <= j < self.entries@.len() ==> contents(self.entries@)[(
                    #[trigger] self.entries@[j]).name@] == self.entries@[j].actor@,
                forall|n: Seq<char>| #[trigger]
                    contents(self.entries@).contains_key(n) <==> exists|i: int|
                        0 <= i < self.entries@.len() && (#[trigger] self.entries@[i]).name@ == n,
            decreases self.entries.len() - i,
        {
            if same_text(self.entries[i].name.as_str(), name) {
                return Some(i);
            }
            i = i + 1;
        }
        None
    }
}

/// Registers `actor` under `name`, unless the name is taken.
pub fn register(registry: &mut ActorRegistry, name: &str, actor: Value) -> (r: Result<
    (),
    RegError,
>)
    ensures
        r is Ok <==> !old(registry)@.contains_key(name@),
        r is Ok ==> final(registry)@ == old(registry)@.insert(name@, actor@),
        r is Err ==> final(registry)@ == old(registry)@,
        r matches Err(e) ==> (e matches RegError::AlreadyRegistered(n) && n@ == name@),
{
    let found = registry.position(name);
    if found.is_some() {
        return Err(RegError::AlreadyRegistered(name.to_owned()));
    }
    proof {
        use_type_invariant(&*registry);
    }
    let mut entries: Vec<Entry> = Vec::new();
    std::mem::swap(&mut entries, &mut registry.entries);
    let ghost e0 = entries@;
    proof {
        lemma_contents(e0);
    }
    entries.push(Entry { name: name.to_owned(), actor });
    proof {
        assert(entries@.drop_last() =~= e0);
        assert forall|i: int, j: int| 0 <= i < j < entries@.len() implies (
        #[trigger] entries@[i]).name@ != (#[trigger] entries@[j]).name@ by {
            if j == e0.len() {
                assert(contents(e0).contains_key(e0[i].name@));
            } else {
                assert(e0[i].name@ != e0[j].name@);
            }
        }
    }
    registry.entries = entries;
    Ok(())
}

/// The actor registered under `name`.
pub fn lookup(registry: &ActorRegistry, name: &str) -> (r: Option<Value>)
    ensures
        r is Some <==> registry@.contains_key(name@),
        r matches Some(actor) ==> actor@ == registry@[name@],
{
    let found = registry.position(name);
    match found {
        Some(i) => Some(registry.entries[i].actor.duplicate()),
        None => None,
    }
}

proof fn lemma_remove(entries: Seq<Entry>, at: int)
    requires
        names_differ(entries),
        0 <= at < entries.len(),
    ensures
        names_differ(entries.remove(at)),
        contents(entries.remove(at)) == contents(entries).remove(entries[at].name@),
{
    let rest = entries.remove(at);
    lemma_contents(entries);
    assert forall|i: int, j: int| 0 <= i < j < rest.len() implies (#[trigger] rest[i]).name@ != (
    #[trigger] rest[j]).name@ by {
        let a = if i < at { i } else { i + 1 };
        let b = if j < at { j } else { j + 1 };
        assert(rest[i] == entries[a] && rest[j] == entries[b]);
    }
    lemma_contents(rest);
    let gone = entries[at].name@;
    let want = contents(entries).remove(gone);
    assert forall|n: Seq<char>| #[trigger] contents(rest).contains_key(n) <==> want.contains_key(
        n,
    ) by {
        if contents(rest).contains_key(n) {
            let i = choose|i: int| 0 <= i < rest.len() && (#[trigger] rest[i]).name@ == n;
            let a = if i < at { i } else { i + 1 };
            assert(entries[a] == rest[i]);
            assert(a < at ==> entries[a].name@ != entries[at].name@);
            assert(at < a ==> entries[at].name@ != entries[a].name@);
            assert(contents(entries).contains_key(n));
        }
        if want.contains_key(n) {
            let a = choose|a: int| 0 <= a < entries.len() && (#[trigger] entries[a]).name@ == n;
            let i = if a < at { a } else { a - 1 };
            assert(rest[i] == entries[a]);
        }
    }
    assert forall|n: Seq<char>| #[trigger] want.contains_key(n) implies contents(rest)[n]
        == want[n] by {
        let a = choose|a: int| 0 <= a < entries.len() && (#[trigger] entries[a]).name@ == n;
        let i = if a < at { a } else { a - 1 };
        assert(rest[i] == entries[a]);
        assert(contents(rest)[rest[i].name@] == rest[i].actor@);
    }
    assert(contents(rest) =~= want);
}

/// Frees a name.
pub fn unregister(registry: &mut ActorRegistry, name: &str) -> (r: Result<(), RegError>)
    ensures
        r is Ok <==> old(registry)@.contains_key(name@),
        final(registry)@ == old(registry)@.remove(name@),
        r matches Err(e) ==> (e matches RegError::NotRegistered(n) && n@ == name@),
{
    let found = registry.position(name);
    match found {
        Some(i) => {
            proof {
                use_type_invariant(&*registry);
                lemma_remove(registry.entries@, i as int);
            }
            let mut entries: Vec<Entry> = Vec::new();
            std::mem::swap(&mut entries, &mut registry.entries);
            let _gone = entries.remove(i);
            registry.entries = entries;
            Ok(())
        },
        None => {
            assert(registry@.remove(name@) =~= registry@);
            Err(RegError::NotRegistered(name.to_owned()))
        },
    }
}

/// The registered names in ascending order.
pub fn registered(registry: &ActorRegistry) -> (names: Vec<String>)
    ensures
        vstd::relations::sorted_by(text::texts(names@), text::text_order()),
        text::texts(names@).no_duplicates(),
        forall|n: Seq<char>|
            #[trigger] text::texts(names@).contains(n) <==> registry@.contains_key(n),
{
    proof {
        use_type_invariant(registry);
    }
    let mut names: Vec<String> = Vec::new();
    let mut i: usize = 0;
    while i < registry.entries.len()
        invariant
            i <= registry.entries.len(),
            names@.len() == i,
            forall|j: int| 0 <= j < i ==> (#[trigger] names@[j])@ == registry.entries@[j].name@,
        decreases registry.entries.len() - i,
    {
        names.push(registry.entries[i].name.clone());
        i = i + 1;
    }
    let ghost unsorted = text::texts(names@);
    let out = sort_texts(names);
    proof {
        broadcast use vstd::seq_lib::group_to_multiset_ensures;

        lemma_contents(registry.entries@);
        text::lemma_sorted_same(unsorted, unsorted);
        assert(unsorted.no_duplicates()) by {
            assert forall|a: int, b: int|
                0 <= a < unsorted.len() && 0 <= b < unsorted.len() && a != b implies unsorted[a]
                != unsorted[b] by {
                if a < b {
                    assert(registry.entries@[a].name@ != registry.entries@[b].name@);
                } else {
                    assert(registry.entries@[b].name@ != registry.entries@[a].name@);
                }
            }
        }
        unsorted.lemma_multiset_has_no_duplicates();
        text::texts(out@).lemma_multiset_has_no_duplicates_conv();
        assert forall|n: Seq<char>| #[trigger] text::texts(out@).contains(n)
            <==> registry@.contains_key(n) by {
            assert(text::texts(out@).contains(n) <==> text::texts(out@).to_multiset().count(n) > 0);
            assert(unsorted.contains(n) <==> unsorted.to_multiset().count(n) > 0);
            if registry@.contains_key(n) {
                let k = choose|k: int|
                    0 <= k < registry.entries@.len() && (#[trigger] registry.entries@[k]).name@
                        == n;
                assert(unsorted[k] == n);
            }
            if unsorted.contains(n) {
                let k = choose|k: int| 0 <= k < unsorted.len() && unsorted[k] == n;
                assert(registry.entries@[k].name@ == n);
            }
        }
    }
    out
}

/// Forgets all names.
pub fn _reset_for_tests(registry: &mut ActorRegistry)
    ensures
        final(registry)@ == Map::<Seq<char>, Val>::empty(),
{
    registry.entries = Vec::new();
}

/// Law: a name that was free can be registered and then gives back its actor;
/// once it is unregistered the registry is what it was before.
pub proof fn law_register_then_unregister(
    m: Map<Seq<char>, Val>,
    name: Seq<char>,
    actor: Val,
)
    requires
        !m.contains_key(name),
    ensures
        m.insert(name, actor).contains_key(name),
        m.insert(name, actor)[name] == actor,
        m.insert(name, actor).remove(name) == m,
        forall|other: Seq<char>|
            other != name ==> m.insert(name, actor).contains_key(other) == m.contains_key(other),
{
    assert(m.insert(name, actor).remove(name) =~= m);
}

} // verus!
