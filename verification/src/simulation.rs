//! The generation history engine: an append-only sequence of grids indexed
//! by generation number, with a movable cursor and bulk pre-computation.
//! Generation 0 is the initial state; generation `i + 1` is always exactly
//! the successor of generation `i`, and history never shrinks or mutates,
//! so stepping backward never recomputes.

use vstd::prelude::*;

use crate::screen::GridView;
use crate::screen::Screen;
use crate::screen::lemma_step_preserves_shape;

verus! {

/// Mathematical value of the engine: the computed generations, the cursor,
/// and the dimensions shared by every generation.
#[verifier::ext_equal]
pub struct SimulationView {
    pub width: nat,
    pub height: nat,
    pub grids: Seq<GridView>,
    pub cursor: nat,
}

impl SimulationView {
    /// The engine's invariant: at least the initial generation exists, the
    /// cursor points at a computed generation, every generation is a
    /// well-formed grid of the shared dimensions, and each generation is
    /// exactly the successor of its predecessor (no gaps).
    pub open spec fn wf(self) -> bool {
        &&& self.grids.len() >= 1
        &&& self.cursor < self.grids.len()
        &&& forall|i: int|
            0 <= i < self.grids.len() ==> (#[trigger] self.grids[i]).wf()
                && self.grids[i].width == self.width && self.grids[i].height == self.height
        &&& forall|i: int|
            0 <= i && i + 1 < self.grids.len() ==> self.grids[i + 1] == (
            #[trigger] self.grids[i]).step()
    }

    /// Index of the last computed generation (the frontier).
    pub open spec fn frontier(self) -> int {
        self.grids.len() - 1
    }

    /// The generation the cursor points at.
    pub open spec fn current(self) -> GridView {
        self.grids[self.cursor as int]
    }

    /// One growth step: the successor of the last generation is appended.
    /// The cursor does not move.
    pub open spec fn extend_one(self) -> SimulationView {
        SimulationView { grids: self.grids.push(self.grids.last().step()), ..self }
    }

    /// `n` growth steps from the frontier, cursor unmoved.
    pub open spec fn extended(self, n: nat) -> SimulationView
        decreases n,
    {
        if n == 0 {
            self
        } else {
            self.extended((n - 1) as nat).extend_one()
        }
    }

    /// Advancing the cursor by one, computing the next generation first when
    /// the cursor sits on the frontier.
    pub open spec fn step_forwards(self) -> SimulationView {
        let grown = if self.cursor as int == self.frontier() {
            self.extend_one()
        } else {
            self
        };
        SimulationView { cursor: (self.cursor + 1) as nat, ..grown }
    }

    /// Retreating the cursor by one, clamped at the initial generation.
    pub open spec fn step_backwards(self) -> SimulationView {
        if self.cursor > 0 {
            SimulationView { cursor: (self.cursor - 1) as nat, ..self }
        } else {
            self
        }
    }
}

/// Growing the history preserves the invariant, adds one generation, and
/// leaves the cursor and every already-computed generation untouched.
pub proof fn lemma_extend_one_wf(s: SimulationView)
    requires
        s.wf(),
    ensures
        s.extend_one().wf(),
        s.extend_one().grids.len() == s.grids.len() + 1,
        s.extend_one().cursor == s.cursor,
        s.extend_one().width == s.width,
        s.extend_one().height == s.height,
        forall|i: int| 0 <= i < s.grids.len() ==> s.extend_one().grids[i] == s.grids[i],
{
    let t = s.extend_one();
    lemma_step_preserves_shape(s.grids.last());
    assert forall|i: int| 0 <= i && i + 1 < t.grids.len() implies t.grids[i + 1] == (
    #[trigger] t.grids[i]).step() by {
        if i + 1 < s.grids.len() {
            assert(s.grids[i + 1] == s.grids[i].step());
        }
    }
}

/// `extended` preserves the invariant, adds exactly `n` generations, and
/// leaves the cursor and every already-computed generation untouched.
pub proof fn lemma_extended_wf(s: SimulationView, n: nat)
    requires
        s.wf(),
    ensures
        s.extended(n).wf(),
        s.extended(n).grids.len() == s.grids.len() + n,
        s.extended(n).cursor == s.cursor,
        s.extended(n).width == s.width,
        s.extended(n).height == s.height,
        forall|i: int| 0 <= i < s.grids.len() ==> s.extended(n).grids[i] == s.grids[i],
    decreases n,
{
    if n > 0 {
        lemma_extended_wf(s, (n - 1) as nat);
        lemma_extend_one_wf(s.extended((n - 1) as nat));
    }
}

/// Backward/forward inverse near the frontier: one step forward followed by
/// one step backward returns the cursor to where it was, and the generation
/// it points at is the very grid that was there before — never a recomputed
/// one.
pub proof fn lemma_forward_backward_inverse(s: SimulationView)
    requires
        s.wf(),
    ensures
        s.step_forwards().step_backwards().cursor == s.cursor,
        s.step_forwards().step_backwards().current() == s.current(),
{
    if s.cursor as int == s.frontier() {
        lemma_extend_one_wf(s);
    }
}

/// Idempotent clamp: stepping backward at the initial generation changes
/// nothing at all.
pub proof fn lemma_backward_clamps_at_zero(s: SimulationView)
    requires
        s.cursor == 0,
    ensures
        s.step_backwards() == s,
{
}

/// The history engine. Owns every computed generation; grows on demand.
pub struct Simulation {
    buffers: Vec<Screen>,
    current_index: usize,
    width: usize,
    height: usize,
}

impl View for Simulation {
    type V = SimulationView;

    closed spec fn view(&self) -> SimulationView {
        SimulationView {
            width: self.width as nat,
            height: self.height as nat,
            grids: self.buffers@.map_values(|s: Screen| s@),
            cursor: self.current_index as nat,
        }
    }
}

impl Simulation {
    /// An engine whose initial generation is the all-dead grid of the given
    /// dimensions, with the cursor on it.
    pub fn new(width: usize, height: usize) -> (r: Simulation)
        ensures
            r@.wf(),
            r@.width == width as nat,
            r@.height == height as nat,
            r@.grids.len() == 1,
            r@.cursor == 0,
            r@.grids[0].all_dead(),
    {
        let initial = Screen::new(width, height);
        let mut buffers: Vec<Screen> = Vec::new();
        buffers.push(initial);
        Simulation { buffers, current_index: 0, width, height }
    }

    /// An engine whose generation 0 is the given grid, with the cursor on it.
    pub fn from_initial_state(initial: Screen) -> (r: Simulation)
        requires
            initial@.wf(),
        ensures
            r@.wf(),
            r@.width == initial@.width,
            r@.height == initial@.height,
            r@.grids.len() == 1,
            r@.cursor == 0,
            r@.grids[0] == initial@,
    {
        let width = initial.width();
        let height = initial.height();
        let mut buffers: Vec<Screen> = Vec::new();
        buffers.push(initial);
        Simulation { buffers, current_index: 0, width, height }
    }

    /// The generation index the cursor stands on.
    pub fn current_generation(&self) -> (r: usize)
        ensures
            r as nat == self@.cursor,
    {
        self.current_index
    }

    /// How many generations have been computed; the frontier is one less.
    pub fn computed_generations(&self) -> (r: usize)
        ensures
            r as nat == self@.grids.len(),
    {
        self.buffers.len()
    }

    /// The last computed generation (the frontier), regardless of the cursor.
    pub fn last_buffer(&self) -> (r: &Screen)
        requires
            self@.wf(),
        ensures
            r@ == self@.grids.last(),
    {
        &self.buffers[self.buffers.len() - 1]
    }

    /// The generation the cursor points at, for the renderer to read.
    pub fn current_buffer(&self) -> (r: &Screen)
        requires
            self@.wf(),
        ensures
            r@ == self@.current(),
    {
        &self.buffers[self.current_index]
    }

    /// Computes the successor of the last generation from that generation
    /// alone and appends it. The cursor does not move.
    fn calculate_next(&mut self)
        requires
            old(self)@.wf(),
        ensures
            final(self)@ == old(self)@.extend_one(),
            final(self)@.wf(),
    {
        let next = self.last_buffer().step();
        self.buffers.push(next);
        proof {
            assert(self@.grids =~= old(self)@.grids.push(old(self)@.grids.last().step()));
            assert(self@ =~= old(self)@.extend_one());
            lemma_extend_one_wf(old(self)@);
        }
    }

    /// Appends exactly `n` new generations past the current frontier, each
    /// the successor of its predecessor. The cursor does not move, and no
    /// generation already computed is touched.
    pub fn precalculate_next_n(&mut self, n: usize)
        requires
            old(self)@.wf(),
        ensures
            final(self)@.wf(),
            final(self)@ == old(self)@.extended(n as nat),
            final(self)@.grids.len() == old(self)@.grids.len() + n,
            final(self)@.cursor == old(self)@.cursor,
            forall|i: int|
                0 <= i < old(self)@.grids.len() ==> final(self)@.grids[i] == old(self)@.grids[i],
    {
        self.buffers.reserve(n);
        let mut k: usize = 0;
        while k < n
            invariant
                k <= n,
                self@ == old(self)@.extended(k as nat),
                self@.wf(),
            decreases n - k,
        {
            self.calculate_next();
            k = k + 1;
        }
        proof {
            lemma_extended_wf(old(self)@, n as nat);
        }
    }

    /// Retreats the cursor by one generation; at generation 0 it stays put.
    pub fn step_backwards(&mut self)
        ensures
            final(self)@ == old(self)@.step_backwards(),
    {
        if self.current_index > 0 {
            self.current_index = self.current_index - 1;
        }
    }

    /// Advances the cursor by one generation, computing and appending the
    /// next generation first when the cursor sits on the frontier.
    pub fn step_forwards(&mut self)
        requires
            old(self)@.wf(),
        ensures
            final(self)@ == old(self)@.step_forwards(),
            final(self)@.wf(),
    {
        let last_calculated_index = self.buffers.len() - 1;
        if self.current_index == last_calculated_index {
            self.calculate_next();
        }
        self.current_index = self.current_index + 1;
        proof {
            lemma_extend_one_wf(old(self)@);
            assert(self@ =~= old(self)@.step_forwards());
        }
    }
}

} // verus!
