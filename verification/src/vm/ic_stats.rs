//! How often every field access site met records of every shape.

use vstd::prelude::*;

use crate::text::{append_decimal, decimal};
use crate::vm::state::{tick, ticked};

verus! {

/// The hits of one shape at one site of one function.
#[derive(Debug, Clone, Copy, PartialEq, Eq, Structural)]
pub struct IcHit {
    pub fn_id: u32,
    pub site_idx: u32,
    pub shape_id: u32,
    pub hits: u64,
}

/// The function, the site and the shape of a row.
pub open spec fn place(r: IcHit) -> (u32, u32, u32) {
    (r.fn_id, r.site_idx, r.shape_id)
}

/// The order of the table: by function, then site, then shape.
pub open spec fn comes_before(a: IcHit, b: IcHit) -> bool {
    ||| a.fn_id < b.fn_id
    ||| a.fn_id == b.fn_id && a.site_idx < b.site_idx
    ||| a.fn_id == b.fn_id && a.site_idx == b.site_idx && a.shape_id < b.shape_id
}

/// Whether rows list counts: one row each, in the order of the table.
pub open spec fn lists(rows: Seq<IcHit>, counts: Map<(u32, u32, u32), u64>) -> bool {
    &&& forall|i: int, j: int|
        0 <= i < j < rows.len() ==> comes_before(#[trigger] rows[i], #[trigger] rows[j])
    &&& forall|i: int|
        0 <= i < rows.len() ==> counts.contains_key(place(#[trigger] rows[i]))
            && counts[place(rows[i])] == rows[i].hits
    &&& forall|k: (u32, u32, u32)| #[trigger]
        counts.contains_key(k) ==> exists|i: int|
            0 <= i < rows.len() && place(#[trigger] rows[i]) == k
}

/// One more hit of a shape at a site.
pub open spec fn with_hit(
    counts: Map<(u32, u32, u32), u64>,
    fn_id: u32,
    site_idx: u32,
    shape_id: u32,
) -> Map<(u32, u32, u32), u64> {
    let k = (fn_id, site_idx, shape_id);
    counts.insert(
        k,
        if counts.contains_key(k) {
            tick(counts[k])
        } else {
            1
        },
    )
}

/// One line of the table.
pub open spec fn line(r: IcHit) -> Seq<char> {
    decimal(r.fn_id as nat) + "\t"@ + decimal(r.site_idx as nat) + "\t"@ + decimal(
        r.shape_id as nat,
    ) + "\t"@ + decimal(r.hits as nat) + "\n"@
}

/// The lines of the table.
pub open spec fn lines(rows: Seq<IcHit>) -> Seq<char>
    decreases rows.len(),
{
    if rows.len() == 0 {
        Seq::empty()
    } else {
        lines(rows.drop_last()) + line(rows.last())
    }
}

/// The table of counts as text.
pub open spec fn is_table(t: Seq<char>, counts: Map<(u32, u32, u32), u64>) -> bool {
    exists|rows: Seq<IcHit>| #[trigger]
        lists(rows, counts) && t == "fn_id\tsite_idx\tshape_id\thits\n"@ + lines(rows)
}

fn line_of(r: IcHit) -> (t: String)
    ensures
        t@ == line(r),
{
    let mut t = String::new();
    append_decimal(&mut t, r.fn_id as u128);
    assert(t@ =~= decimal(r.fn_id as nat));
    t.append("\t");
    append_decimal(&mut t, r.site_idx as u128);
    t.append("\t");
    append_decimal(&mut t, r.shape_id as u128);
    t.append("\t");
    append_decimal(&mut t, r.hits as u128);
    t.append("\n");
    t
}

/// Counts of field accesses, in the order of the table.
pub struct IcStats {
    rows: Vec<IcHit>,
    counts: Ghost<Map<(u32, u32, u32), u64>>,
}

impl View for IcStats {
    type V = Map<(u32, u32, u32), u64>;

    closed spec fn view(&self) -> Map<(u32, u32, u32), u64> {
        self.counts@
    }
}

impl IcStats {
    #[verifier::type_invariant]
    spec fn inv(self) -> bool {
        lists(self.rows@, self.counts@)
    }

    pub fn new() -> (s: IcStats)
        ensures
            s@ == Map::<(u32, u32, u32), u64>::empty(),
    {
        IcStats { rows: Vec::new(), counts: Ghost(Map::empty()) }
    }

    pub fn is_empty(&self) -> (yes: bool)
        ensures
            yes <==> self@ == Map::<(u32, u32, u32), u64>::empty(),
    {
        proof {
            use_type_invariant(self);
            if self.rows@.len() == 0 {
                assert(self@ =~= Map::<(u32, u32, u32), u64>::empty());
            } else {
                assert(self@.contains_key(place(self.rows@[0])));
            }
        }
        self.rows.len() == 0
    }

    /// Enters a hit.
    pub fn record(&mut self, fn_id: u32, site_idx: u32, shape_id: u32)
        ensures
            final(self)@ == with_hit(old(self)@, fn_id, site_idx, shape_id),
    {
        proof {
            use_type_invariant(&*self);
        }
        let mut taken = IcStats::new();
        std::mem::swap(self, &mut taken);
        let ghost m0 = taken@;
        let mut rows = taken.rows;
        let ghost r0 = rows@;
        let ghost k = (fn_id, site_idx, shape_id);
        let ghost new = IcHit { fn_id, site_idx, shape_id, hits: 1 };
        let ghost m1 = with_hit(m0, fn_id, site_idx, shape_id);
        let mut i: usize = 0;
        while i < rows.len() && before(&rows[i], fn_id, site_idx, shape_id)
            invariant
                i <= rows.len(),
                rows@ == r0,
                new == (IcHit { fn_id, site_idx, shape_id, hits: 1 }),
                forall|j: int| 0 <= j < i ==> comes_before(#[trigger] r0[j], new),
            decreases rows.len() - i,
        {
            i = i + 1;
        }
        if i < rows.len() && rows[i].fn_id == fn_id && rows[i].site_idx == site_idx
            && rows[i].shape_id == shape_id {
            let row = rows[i];
            rows.set(i, IcHit { hits: ticked(row.hits), ..row });
            proof {
                assert(place(r0[i as int]) == k);
                assert forall|q: (u32, u32,
                    u32)| #[trigger] m1.contains_key(q) implies exists|j: int|
                    0 <= j < rows@.len() && place(#[trigger] rows@[j]) == q by {
                    let j = choose|j: int| 0 <= j < r0.len() && place(#[trigger] r0[j]) == q;
                    assert(place(rows@[j]) == q);
                }
            }
        } else {
            proof {
                assert forall|j: int| i <= j < r0.len() implies comes_before(
                    new,
                    #[trigger] r0[j],
                ) by {
                    assert(comes_before(new, r0[i as int]));
                    if j > i {
                        assert(comes_before(r0[i as int], r0[j]));
                    }
                }
                if m0.contains_key(k) {
                    let j = choose|j: int| 0 <= j < r0.len() && place(#[trigger] r0[j]) == k;
                    if j < i {
                        assert(comes_before(r0[j], new));
                    } else {
                        assert(comes_before(new, r0[j]));
                    }
                }
            }
            rows.insert(i, IcHit { fn_id, site_idx, shape_id, hits: 1 });
            proof {
                assert forall|a: int, b: int| 0 <= a < b < rows@.len() implies comes_before(
                    #[trigger] rows@[a],
                    #[trigger] rows@[b],
                ) by {
                    if a < i && b == i {
                        assert(comes_before(r0[a], new));
                    } else if a == i && b > i {
                        assert(comes_before(new, r0[b - 1]));
                    } else if a < i && b > i {
                        assert(comes_before(r0[a], r0[b - 1]));
                    } else if a > i {
                        assert(comes_before(r0[a - 1], r0[b - 1]));
                    }
                }
                assert forall|j: int| 0 <= j < rows@.len() implies m1.contains_key(
                    place(#[trigger] rows@[j]),
                ) && m1[place(rows@[j])] == rows@[j].hits by {
                    if j < i {
                        assert(comes_before(r0[j], new));
                    } else if j > i {
                        assert(comes_before(new, r0[j - 1]));
                    }
                }
                assert forall|q: (u32, u32,
                    u32)| #[trigger] m1.contains_key(q) implies exists|j: int|
                    0 <= j < rows@.len() && place(#[trigger] rows@[j]) == q by {
                    if q == k {
                        assert(place(rows@[i as int]) == q);
                    } else {
                        let j = choose|j: int| 0 <= j < r0.len() && place(#[trigger] r0[j]) == q;
                        if j < i {
                            assert(place(rows@[j]) == q);
                        } else {
                            assert(place(rows@[j + 1]) == q);
                        }
                    }
                }
            }
        }
        *self = IcStats { rows, counts: Ghost(m1) };
    }

    /// The table as text, columns apart by tabs.
    pub fn table(&self) -> (t: String)
        ensures
            is_table(t@, self@),
    {
        proof {
            use_type_invariant(self);
        }
        let mut t = "fn_id\tsite_idx\tshape_id\thits\n".to_owned();
        let ghost head = t@;
        let mut i: usize = 0;
        assert(t@ =~= head + lines(self.rows@.take(0)));
        while i < self.rows.len()
            invariant
                i <= self.rows.len(),
                t@ == head + lines(self.rows@.take(i as int)),
            decreases self.rows.len() - i,
        {
            t.append(line_of(self.rows[i]).as_str());
            assert(self.rows@.take(i + 1).drop_last() =~= self.rows@.take(i as int));
            assert(t@ =~= head + lines(self.rows@.take(i + 1)));
            i = i + 1;
        }
        assert(self.rows@.take(i as int) =~= self.rows@);
        assert(lists(self.rows@, self@));
        t
    }
}

fn before(r: &IcHit, fn_id: u32, site_idx: u32, shape_id: u32) -> (yes: bool)
    ensures
        yes <==> comes_before(*r, (IcHit { fn_id, site_idx, shape_id, hits: 1 })),
{
    r.fn_id < fn_id || (r.fn_id == fn_id && (r.site_idx < site_idx || (r.site_idx == site_idx
        && r.shape_id < shape_id)))
}

} // verus!
