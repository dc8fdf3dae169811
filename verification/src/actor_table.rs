//! The actors that the machines of a process share.
//!
//! A machine takes an actor out for one message and puts it back, so that an
//! actor never handles two messages at once.

use vstd::prelude::*;

use crate::value::ActorCell;
use crate::vm::outside::actor_option_view;
use crate::vm::world::Actor;

verus! {

/// Actors by their handles; the place of an actor that is taken out is empty.
#[derive(Debug)]
pub struct ActorTable {
    cells: Vec<Option<ActorCell>>,
}

/// What is found under a handle.
#[derive(Debug)]
pub enum Taken {
    /// No actor has this handle.
    Missing,
    /// The actor is taken out.
    Busy,
    Cell(ActorCell),
}

impl View for ActorTable {
    type V = Seq<Option<Actor>>;

    closed spec fn view(&self) -> Seq<Option<Actor>> {
        Seq::new(self.cells@.len(), |i: int| actor_option_view(self.cells@[i]))
    }
}

/// The table with an actor, or none, under a handle.
pub open spec fn placed(table: Seq<Option<Actor>>, handle: u64, actor: Option<Actor>) -> Seq<
    Option<Actor>,
> {
    if handle < table.len() {
        table.update(handle as int, actor)
    } else {
        table
    }
}

impl ActorTable {
    pub fn new() -> (t: ActorTable)
        ensures
            t@ == Seq::<Option<Actor>>::empty(),
    {
        let t = ActorTable { cells: Vec::new() };
        assert(t@ =~= Seq::<Option<Actor>>::empty());
        t
    }

    /// Adds an actor and gives its handle, which no other actor has.
    pub fn insert(&mut self, cell: ActorCell) -> (handle: u64)
        ensures
            handle == old(self)@.len(),
            final(self)@ == old(self)@.push(actor_option_view(Some(cell))),
    {
        let ghost before = self@;
        let handle: u64 = self.cells.len() as u64;
        let ghost actor = actor_option_view(Some(cell));
        self.cells.push(Some(cell));
        assert(self@ =~= before.push(actor));
        handle
    }

    /// Takes an actor out.
    pub fn take(&mut self, handle: u64) -> (r: Taken)
        ensures
            r is Missing <==> handle >= old(self)@.len(),
            r is Busy <==> handle < old(self)@.len() && old(self)@[handle as int] is None,
            r matches Taken::Cell(cell) ==> handle < old(self)@.len() && old(self)@[handle as int]
                == actor_option_view(Some(cell)),
            final(self)@ == placed(old(self)@, handle, None),
    {
        let ghost before = self@;
        if handle >= self.cells.len() as u64 {
            return Taken::Missing;
        }
        let mut found: Option<ActorCell> = None;
        let ghost was = self.cells@[handle as int];
        std::mem::swap(&mut found, &mut self.cells[handle as usize]);
        assert(found == was);
        assert(self@ =~= before.update(handle as int, None));
        match found {
            Some(cell) => Taken::Cell(cell),
            None => Taken::Busy,
        }
    }

    /// Puts an actor back.
    pub fn put(&mut self, handle: u64, cell: ActorCell)
        ensures
            final(self)@ == placed(old(self)@, handle, actor_option_view(Some(cell))),
    {
        let ghost before = self@;
        let ghost actor = actor_option_view(Some(cell));
        if handle < self.cells.len() as u64 {
            self.cells.set(handle as usize, Some(cell));
            assert(self@ =~= before.update(handle as int, actor));
        }
    }
}

/// Law: an actor that was added is there under its handle and under no other,
/// and a table from which it is taken and into which it is put back is what it
/// was.
pub proof fn law_taken_and_put_back(table: Seq<Option<Actor>>, actor: Actor, other: u64)
    requires
        table.len() <= u64::MAX,
    ensures
        ({
            let more = table.push(Some(actor));
            let handle = table.len() as u64;
            &&& more[handle as int] == Some(actor)
            &&& placed(placed(more, handle, None), handle, Some(actor)) == more
            &&& other < table.len() ==> placed(more, handle, None)[other as int]
                == table[other as int]
        }),
{
    let more = table.push(Some(actor));
    let handle = table.len() as u64;
    assert(placed(placed(more, handle, None), handle, Some(actor)) =~= more);
}

} // verus!
