//! Where each standard-normal draw of a trial goes.
//!
//! One trial consumes its draws from a single stream in a fixed order: first
//! one draw per systematic risk factor, then for each risk group in order its
//! group draw followed by one draw per member borrower, in member order. Each
//! borrower also has a stable slot in the per-borrower loss vector: groups in
//! order, members in order.
use vstd::prelude::*;

verus! {

/// Number of draws taken by the groups before group `g` (each takes one
/// group draw and one draw per member).
pub open spec fn draws_before(sizes: Seq<usize>, g: nat) -> nat
    decreases g,
{
    if g == 0 || g > sizes.len() {
        0
    } else {
        draws_before(sizes, (g - 1) as nat) + sizes[g - 1] as nat + 1
    }
}

/// Number of borrowers in the groups before group `g`.
pub open spec fn slots_before(sizes: Seq<usize>, g: nat) -> nat
    decreases g,
{
    if g == 0 || g > sizes.len() {
        0
    } else {
        slots_before(sizes, (g - 1) as nat) + sizes[g - 1] as nat
    }
}

/// Position of the group draw of group `g` in the trial's stream.
pub open spec fn group_draw_at(n: nat, sizes: Seq<usize>, g: nat) -> nat {
    n + draws_before(sizes, g)
}

/// Position of the draw of member `b` of group `g` in the trial's stream.
pub open spec fn borrower_draw_at(n: nat, sizes: Seq<usize>, g: nat, b: nat) -> nat {
    n + draws_before(sizes, g) + 1 + b
}

/// Slot of member `b` of group `g` in the per-borrower loss vector.
pub open spec fn slot_at(sizes: Seq<usize>, g: nat, b: nat) -> nat {
    slots_before(sizes, g) + b
}

/// Total number of draws a trial takes.
pub open spec fn total_draws(n: nat, sizes: Seq<usize>) -> nat {
    n + draws_before(sizes, sizes.len())
}

/// Total number of borrowers.
pub open spec fn total_slots(sizes: Seq<usize>) -> nat {
    slots_before(sizes, sizes.len())
}

/// The layout of the draws of one trial over a portfolio with `num_factors`
/// systematic factors and risk groups of the given sizes.
pub struct DrawPlan {
    num_factors: usize,
    group_sizes: Vec<usize>,
    group_starts: Vec<usize>,
    slot_starts: Vec<usize>,
    num_draws: usize,
    num_slots: usize,
}

impl View for DrawPlan {
    type V = (nat, Seq<usize>);

    /// The number of systematic factors and the sizes of the groups.
    closed spec fn view(&self) -> (nat, Seq<usize>) {
        (self.num_factors as nat, self.group_sizes@)
    }
}

proof fn lemma_before_step(sizes: Seq<usize>, g: nat)
    requires
        g < sizes.len(),
    ensures
        draws_before(sizes, g + 1) == draws_before(sizes, g) + sizes[g as int] + 1,
        slots_before(sizes, g + 1) == slots_before(sizes, g) + sizes[g as int],
{
}

/// Both counts grow with the number of groups, and a group's draws are
/// at least its borrowers.
proof fn lemma_before_monotone(sizes: Seq<usize>, g1: nat, g2: nat)
    requires
        g1 <= g2 <= sizes.len(),
    ensures
        draws_before(sizes, g1) <= draws_before(sizes, g2),
        slots_before(sizes, g1) <= slots_before(sizes, g2),
        slots_before(sizes, g2) <= draws_before(sizes, g2),
    decreases g2,
{
    if g2 > 0 {
        if g1 < g2 {
            lemma_before_monotone(sizes, g1, (g2 - 1) as nat);
        } else {
            lemma_before_monotone(sizes, (g2 - 1) as nat, (g2 - 1) as nat);
        }
    }
}

impl DrawPlan {
    /// The internal prefix tables agree with the layout.
    pub closed spec fn wf(&self) -> bool {
        let n = self.num_factors as nat;
        let sizes = self.group_sizes@;
        &&& self.group_starts@.len() == sizes.len()
        &&& self.slot_starts@.len() == sizes.len()
        &&& forall|g: int|
            0 <= g < sizes.len() ==> #[trigger] self.group_starts@[g] == group_draw_at(
                n,
                sizes,
                g as nat,
            )
        &&& forall|g: int|
            0 <= g < sizes.len() ==> #[trigger] self.slot_starts@[g] == slots_before(
                sizes,
                g as nat,
            )
        &&& self.num_draws == total_draws(n, sizes)
        &&& self.num_slots == total_slots(sizes)
    }

    /// The layout for `num_factors` systematic factors and groups of
    /// `group_sizes` members; `None` exactly when the number of draws of a
    /// trial does not fit in `usize`.
    pub fn new(num_factors: usize, group_sizes: Vec<usize>) -> (r: Option<DrawPlan>)
        ensures
            r.is_none() <==> total_draws(num_factors as nat, group_sizes@) > usize::MAX,
            r matches Some(p) ==> p.wf() && p@ == (num_factors as nat, group_sizes@),
    {
        let ghost sizes = group_sizes@;
        let ghost n = num_factors as nat;
        let len: usize = group_sizes.len();
        let mut group_starts: Vec<usize> = Vec::new();
        let mut slot_starts: Vec<usize> = Vec::new();
        let mut next_draw: usize = num_factors;
        let mut next_slot: usize = 0;
        let mut g: usize = 0;
        while g < len
            invariant
                sizes == group_sizes@,
                n == num_factors as nat,
                len == sizes.len(),
                g <= len,
                group_starts@.len() == g,
                slot_starts@.len() == g,
                next_draw == group_draw_at(n, sizes, g as nat),
                next_slot == slots_before(sizes, g as nat),
                forall|i: int| 0 <= i < g ==> #[trigger] group_starts@[i] == group_draw_at(n, sizes, i as nat),
                forall|i: int| 0 <= i < g ==> #[trigger] slot_starts@[i] == slots_before(sizes, i as nat),
            decreases len - g,
        {
            proof {
                lemma_before_step(sizes, g as nat);
                lemma_before_monotone(sizes, g as nat, g as nat);
                lemma_before_monotone(sizes, (g + 1) as nat, len as nat);
            }
            group_starts.push(next_draw);
            slot_starts.push(next_slot);
            let size: usize = group_sizes[g];
            if next_draw > usize::MAX - 1 || size > usize::MAX - 1 - next_draw {
                return None;
            }
            next_draw = next_draw + 1 + size;
            next_slot = next_slot + size;
            g = g + 1;
        }
        Some(DrawPlan {
            num_factors,
            group_sizes,
            group_starts,
            slot_starts,
            num_draws: next_draw,
            num_slots: next_slot,
        })
    }

    /// Number of systematic factors.
    pub fn num_factors(&self) -> (r: usize)
        ensures
            r == self@.0,
    {
        self.num_factors
    }

    /// Number of risk groups.
    pub fn num_groups(&self) -> (r: usize)
        requires
            self.wf(),
        ensures
            r == self@.1.len(),
    {
        self.group_sizes.len()
    }

    /// Number of members of group `g`.
    pub fn group_size(&self, g: usize) -> (r: usize)
        requires
            g < self@.1.len(),
        ensures
            r == self@.1[g as int],
    {
        self.group_sizes[g]
    }

    /// Number of draws one trial takes.
    pub fn num_draws(&self) -> (r: usize)
        requires
            self.wf(),
        ensures
            r == total_draws(self@.0, self@.1),
    {
        self.num_draws
    }

    /// Number of borrowers, the length of the per-borrower loss vector.
    pub fn num_borrowers(&self) -> (r: usize)
        requires
            self.wf(),
        ensures
            r == total_slots(self@.1),
    {
        self.num_slots
    }

    /// Position in the stream of the group draw of group `g`.
    pub fn group_draw(&self, g: usize) -> (r: usize)
        requires
            self.wf(),
            g < self@.1.len(),
        ensures
            r == group_draw_at(self@.0, self@.1, g as nat),
    {
        self.group_starts[g]
    }

    /// Position in the stream of the draw of member `b` of group `g`.
    pub fn borrower_draw(&self, g: usize, b: usize) -> (r: usize)
        requires
            self.wf(),
            g < self@.1.len(),
            b < self@.1[g as int],
        ensures
            r == borrower_draw_at(self@.0, self@.1, g as nat, b as nat),
    {
        proof {
            lemma_before_step(self@.1, g as nat);
            lemma_before_monotone(self@.1, (g + 1) as nat, self@.1.len());
        }
        self.group_starts[g] + 1 + b
    }

    /// Slot of member `b` of group `g` in the per-borrower loss vector.
    pub fn borrower_slot(&self, g: usize, b: usize) -> (r: usize)
        requires
            self.wf(),
            g < self@.1.len(),
            b < self@.1[g as int],
        ensures
            r == slot_at(self@.1, g as nat, b as nat),
    {
        proof {
            lemma_before_step(self@.1, g as nat);
            lemma_before_monotone(self@.1, (g + 1) as nat, self@.1.len());
        }
        self.slot_starts[g] + b
    }
}

impl DrawPlan {
    /// The idiosyncratic draws of every borrower, by slot: the borrower's own
    /// draw first, its group's draw second, both taken from one trial's
    /// stream `draws`.
    pub fn idiosyncratic_draws<T: Copy>(&self, draws: &[T]) -> (r: Vec<(T, T)>)
        requires
            self.wf(),
            draws@.len() == total_draws(self@.0, self@.1),
        ensures
            r@.len() == total_slots(self@.1),
            forall|g: int, b: int|
                0 <= g < self@.1.len() && 0 <= b < self@.1[g] ==> #[trigger] r@[slot_at(
                    self@.1,
                    g as nat,
                    b as nat,
                ) as int] == (
                    draws@[borrower_draw_at(self@.0, self@.1, g as nat, b as nat) as int],
                    draws@[group_draw_at(self@.0, self@.1, g as nat) as int],
                ),
    {
        let ghost n = self@.0;
        let ghost sizes = self@.1;
        let mut out: Vec<(T, T)> = Vec::new();
        let num_groups = self.group_sizes.len();
        let mut g: usize = 0;
        while g < num_groups
            invariant
                self.wf(),
                n == self@.0,
                sizes == self@.1,
                num_groups == sizes.len(),
                draws@.len() == total_draws(n, sizes),
                g <= num_groups,
                out@.len() == slots_before(sizes, g as nat),
                forall|g2: int, b2: int|
                    0 <= g2 < g && 0 <= b2 < sizes[g2] ==> #[trigger] out@[slot_at(
                        sizes,
                        g2 as nat,
                        b2 as nat,
                    ) as int] == (
                        draws@[borrower_draw_at(n, sizes, g2 as nat, b2 as nat) as int],
                        draws@[group_draw_at(n, sizes, g2 as nat) as int],
                    ),
            decreases num_groups - g,
        {
            proof {
                lemma_before_step(sizes, g as nat);
                lemma_before_monotone(sizes, (g + 1) as nat, sizes.len());
            }
            let group = draws[self.group_starts[g]];
            let size = self.group_sizes[g];
            let mut b: usize = 0;
            while b < size
                invariant
                    self.wf(),
                    n == self@.0,
                    sizes == self@.1,
                    num_groups == sizes.len(),
                    draws@.len() == total_draws(n, sizes),
                    g < num_groups,
                    size == sizes[g as int],
                    group == draws@[group_draw_at(n, sizes, g as nat) as int],
                    b <= size,
                    draws_before(sizes, (g + 1) as nat) == draws_before(sizes, g as nat) + size + 1,
                    n + draws_before(sizes, (g + 1) as nat) <= total_draws(n, sizes),
                    out@.len() == slots_before(sizes, g as nat) + b,
                    forall|g2: int, b2: int|
                        0 <= g2 < g && 0 <= b2 < sizes[g2] ==> #[trigger] out@[slot_at(
                            sizes,
                            g2 as nat,
                            b2 as nat,
                        ) as int] == (
                            draws@[borrower_draw_at(n, sizes, g2 as nat, b2 as nat) as int],
                            draws@[group_draw_at(n, sizes, g2 as nat) as int],
                        ),
                    forall|b2: int|
                        0 <= b2 < b ==> #[trigger] out@[slot_at(sizes, g as nat, b2 as nat) as int]
                            == (
                            draws@[borrower_draw_at(n, sizes, g as nat, b2 as nat) as int],
                            group,
                        ),
                decreases size - b,
            {
                let own = draws[self.group_starts[g] + 1 + b];
                let ghost before = out@;
                out.push((own, group));
                proof {
                    assert forall|g2: int, b2: int|
                        0 <= g2 < g && 0 <= b2 < sizes[g2] implies #[trigger] out@[slot_at(
                            sizes,
                            g2 as nat,
                            b2 as nat,
                        ) as int] == (
                            draws@[borrower_draw_at(n, sizes, g2 as nat, b2 as nat) as int],
                            draws@[group_draw_at(n, sizes, g2 as nat) as int],
                        ) by {
                        lemma_before_step(sizes, g2 as nat);
                        lemma_before_monotone(sizes, (g2 + 1) as nat, g as nat);
                        assert(out@[slot_at(sizes, g2 as nat, b2 as nat) as int] == before[slot_at(
                            sizes,
                            g2 as nat,
                            b2 as nat,
                        ) as int]);
                    }
                    assert forall|b2: int| 0 <= b2 < b + 1 implies #[trigger] out@[slot_at(
                        sizes,
                        g as nat,
                        b2 as nat,
                    ) as int] == (
                        draws@[borrower_draw_at(n, sizes, g as nat, b2 as nat) as int],
                        group,
                    ) by {
                        if b2 < b {
                            assert(out@[slot_at(sizes, g as nat, b2 as nat) as int] == before[slot_at(
                                sizes,
                                g as nat,
                                b2 as nat,
                            ) as int]);
                        }
                    }
                }
                b = b + 1;
            }
            g = g + 1;
        }
        out
    }
}

/// Every draw of a group lies after the systematic draws and before the
/// next group's draws; a group's own draw comes before its members' draws;
/// every slot lies inside the loss vector.
pub proof fn lemma_layout_bounds(n: nat, sizes: Seq<usize>, g: nat, b: nat)
    requires
        g < sizes.len(),
        b < sizes[g as int],
    ensures
        n <= group_draw_at(n, sizes, g),
        group_draw_at(n, sizes, g) < borrower_draw_at(n, sizes, g, b),
        borrower_draw_at(n, sizes, g, b) < n + draws_before(sizes, g + 1),
        n + draws_before(sizes, g + 1) <= total_draws(n, sizes),
        slot_at(sizes, g, b) < total_slots(sizes),
{
    lemma_before_step(sizes, g);
    lemma_before_monotone(sizes, g + 1, sizes.len());
}

/// Draws and slots follow the order of groups and of members within a
/// group: an earlier borrower gets an earlier draw and an earlier slot, so no
/// two borrowers share either, and all of a group's draws come before the
/// next group's draw.
pub proof fn lemma_layout_order(n: nat, sizes: Seq<usize>, g1: nat, b1: nat, g2: nat, b2: nat)
    requires
        g1 < sizes.len(),
        b1 < sizes[g1 as int],
        g2 < sizes.len(),
        b2 < sizes[g2 as int],
        g1 < g2 || (g1 == g2 && b1 < b2),
    ensures
        borrower_draw_at(n, sizes, g1, b1) < borrower_draw_at(n, sizes, g2, b2),
        slot_at(sizes, g1, b1) < slot_at(sizes, g2, b2),
        g1 < g2 ==> borrower_draw_at(n, sizes, g1, b1) < group_draw_at(n, sizes, g2),
{
    lemma_before_step(sizes, g1);
    if g1 < g2 {
        lemma_before_monotone(sizes, g1 + 1, g2);
    }
}

} // verus!
