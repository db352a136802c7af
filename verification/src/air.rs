//! The algebraic intermediate representation (AIR) the prover consumes.
//!
//! An AIR describes a trace table by transition constraints (numerators
//! evaluated on a frame of consecutive rows) and boundary constraints
//! (a fixed value at a fixed step of a column). Users implement the `Air`
//! trait; each executable method is tied to a specification function, so a
//! proof about the prover holds for whatever the implementation returns.

use vstd::prelude::*;
use crate::field::{Fe, all_wf, vals, prime, fe_add, fe_sub};

verus! {

/// Adjustable knobs of the proof system.
#[derive(Clone, Copy, Debug, PartialEq, Eq)]
pub struct ProofOptions {
    /// How many times larger the low-degree-extension domain is than the
    /// trace; a small power of two.
    pub blowup_factor: u8,
    /// How many FRI query rounds the proof carries.
    pub fri_number_of_queries: usize,
    /// The offset of the evaluation coset, as a small integer.
    pub coset_offset: u64,
}

/// The shape of an AIR: trace dimensions, constraint bookkeeping and options.
#[derive(Clone, Debug, PartialEq, Eq)]
pub struct AirContext {
    pub options: ProofOptions,
    /// Number of rows of the trace; a power of two.
    pub trace_length: usize,
    /// Number of columns (registers) of the trace.
    pub trace_columns: usize,
    /// The algebraic degree of each transition constraint in the trace
    /// polynomials.
    pub transition_degrees: Vec<usize>,
    /// How many rows at the end of the trace each transition constraint
    /// exempts from its vanishing set.
    pub transition_exemptions: Vec<usize>,
    /// The row offsets a constraint frame is built from.
    pub transition_offsets: Vec<usize>,
    pub num_transition_constraints: usize,
}

/// One boundary constraint: column `col` must hold `value` at row `step`.
#[derive(Clone, Copy, Debug, PartialEq, Eq)]
pub struct BoundaryConstraint {
    pub col: usize,
    pub step: usize,
    pub value: Fe,
}

/// A rectangular witness table, one column per register.
#[derive(Clone, Debug, PartialEq, Eq)]
pub struct TraceTable {
    pub columns: Vec<Vec<Fe>>,
}

impl TraceTable {
    /// All columns have the same length and hold well-formed elements.
    pub open spec fn wf(self) -> bool {
        forall|j: int| 0 <= j < self.columns@.len()
            ==> (#[trigger] self.columns@[j]@).len() == self.n_rows()
                && all_wf(self.columns@[j]@)
    }

    pub open spec fn n_rows(self) -> int {
        if self.columns@.len() == 0 {
            0
        } else {
            self.columns@[0]@.len() as int
        }
    }

    /// The values of the table, column by column.
    pub open spec fn view_cols(self) -> Seq<Seq<int>> {
        self.columns@.map_values(|c: Vec<Fe>| vals(c@))
    }

    pub fn new_from_cols(columns: Vec<Vec<Fe>>) -> (r: TraceTable)
        ensures
            r.columns@ == columns@,
    {
        TraceTable { columns }
    }

    /// The row at `i`: one value per column.
    pub fn get_row(&self, i: usize) -> (r: Vec<Fe>)
        requires
            self.wf(),
            0 <= i < self.n_rows(),
        ensures
            r@.len() == self.columns@.len(),
            all_wf(r@),
            forall|j: int| 0 <= j < r@.len() ==> vals(r@)[j] == self.view_cols()[j][i as int],
    {
        let mut r: Vec<Fe> = Vec::new();
        let mut j: usize = 0;
        while j < self.columns.len()
            invariant
                0 <= j <= self.columns@.len(),
                self.wf(),
                0 <= i < self.n_rows(),
                r@.len() == j,
                all_wf(r@),
                forall|u: int| 0 <= u < j ==> vals(r@)[u] == self.view_cols()[u][i as int],
            decreases self.columns@.len() - j,
        {
            let ghost r_old = r@;
            r.push(self.columns[j][i]);
            proof {
                assert forall|u: int| 0 <= u < r@.len() implies vals(r@)[u]
                    == self.view_cols()[u][i as int] by {
                    assert(vals(r@)[u] == r@[u].val());
                    if u < j {
                        assert(r@[u] == r_old[u]);
                        assert(vals(r_old)[u] == r_old[u].val());
                    } else {
                        assert(vals(self.columns@[u]@)[i as int] == self.columns@[u]@[i as int].val());
                    }
                }
            }
            j = j + 1;
        }
        r
    }
}

/// A window of trace rows a transition constraint is evaluated on:
/// `rows[m][j]` is column `j` at the `m`-th offset.
#[derive(Clone, Debug, PartialEq, Eq)]
pub struct Frame {
    pub rows: Vec<Vec<Fe>>,
}

impl Frame {
    pub open spec fn wf(self) -> bool {
        forall|m: int| 0 <= m < self.rows@.len()
            ==> all_wf(#[trigger] self.rows@[m]@)
    }

    /// The values of the frame, row by row.
    pub open spec fn view_rows(self) -> Seq<Seq<int>> {
        self.rows@.map_values(|r: Vec<Fe>| vals(r@))
    }
}

/// An algebraic intermediate representation. The two specification
/// functions pin down what the executable methods return, so the prover's
/// contracts hold for any implementation.
pub trait Air {
    /// The context the implementation answers.
    spec fn ctx_spec(&self) -> AirContext;

    /// The transition-constraint numerators on a frame of values.
    spec fn transition_spec(&self, frame: Seq<Seq<int>>) -> Seq<int>;

    /// The boundary constraints the implementation answers.
    spec fn boundary_spec(&self) -> Seq<BoundaryConstraint>;

    /// The implementation is internally consistent.
    spec fn wf(&self) -> bool;

    /// The shape of this AIR.
    fn context(&self) -> (c: &AirContext)
        requires
            self.wf(),
        ensures
            *c == self.ctx_spec(),
    ;

    /// The numerators of all transition constraints on the given frame.
    fn compute_transition(&self, frame: &Frame) -> (r: Vec<Fe>)
        requires
            self.wf(),
            frame.wf(),
            frame.rows@.len() == self.ctx_spec().transition_offsets@.len(),
            forall|m: int| 0 <= m < frame.rows@.len()
                ==> (#[trigger] frame.rows@[m]@).len() == self.ctx_spec().trace_columns,
        ensures
            all_wf(r@),
            r@.len() == self.ctx_spec().num_transition_constraints,
            vals(r@) == self.transition_spec(frame.view_rows()),
    ;

    /// The boundary constraints, with well-formed values.
    fn boundary_constraints(&self) -> (b: Vec<BoundaryConstraint>)
        requires
            self.wf(),
        ensures
            b@ == self.boundary_spec(),
            forall|i: int| 0 <= i < b@.len() ==> (#[trigger] b@[i]).value.wf()
                && b@[i].col < self.ctx_spec().trace_columns
                && b@[i].step < self.ctx_spec().trace_length,
    ;
}

/// The Fibonacci example AIR: one column, one transition constraint
/// `t[i+2] - t[i+1] - t[i] = 0`, and the first two rows pinned to given
/// boundary values.
pub struct FibonacciAir {
    pub ctx: AirContext,
    pub first: Fe,
    pub second: Fe,
}

impl FibonacciAir {
    /// A context for a Fibonacci trace of the given length and options.
    pub fn new(trace_length: usize, options: ProofOptions, first: Fe, second: Fe)
        -> (r: FibonacciAir)
        requires
            first.wf(),
            second.wf(),
            trace_length >= 2,
        ensures
            r.wf(),
            r.ctx_spec().trace_length == trace_length,
            r.ctx_spec().trace_columns == 1,
            r.ctx_spec().options == options,
            r.ctx_spec().num_transition_constraints == 1,
            r.ctx_spec().transition_offsets@ == seq![0usize, 1usize, 2usize],
            r.ctx_spec().transition_exemptions@ == seq![2usize],
            r.boundary_spec() == seq![
                BoundaryConstraint { col: 0, step: 0, value: first },
                BoundaryConstraint { col: 0, step: 1, value: second },
            ],
    {
        let mut offsets: Vec<usize> = Vec::new();
        offsets.push(0);
        offsets.push(1);
        offsets.push(2);
        let mut exemptions: Vec<usize> = Vec::new();
        exemptions.push(2);
        let mut degrees: Vec<usize> = Vec::new();
        degrees.push(1);
        let ctx = AirContext {
            options,
            trace_length,
            trace_columns: 1,
            transition_degrees: degrees,
            transition_exemptions: exemptions,
            transition_offsets: offsets,
            num_transition_constraints: 1,
        };
        proof {
            assert(ctx.transition_offsets@ =~= seq![0usize, 1usize, 2usize]);
            assert(ctx.transition_exemptions@ =~= seq![2usize]);
        }
        FibonacciAir { ctx, first, second }
    }
}

impl Air for FibonacciAir {
    open spec fn ctx_spec(&self) -> AirContext {
        self.ctx
    }

    open spec fn transition_spec(&self, frame: Seq<Seq<int>>) -> Seq<int> {
        seq![
            (frame[2][0] - (frame[1][0] + frame[0][0]) % prime() + prime()) % prime(),
        ]
    }

    open spec fn boundary_spec(&self) -> Seq<BoundaryConstraint> {
        seq![
            BoundaryConstraint { col: 0, step: 0, value: self.first },
            BoundaryConstraint { col: 0, step: 1, value: self.second },
        ]
    }

    open spec fn wf(&self) -> bool {
        &&& self.first.wf()
        &&& self.second.wf()
        &&& self.ctx.trace_columns == 1
        &&& self.ctx.trace_length >= 2
        &&& self.ctx.num_transition_constraints == 1
        &&& self.ctx.transition_offsets@ == seq![0usize, 1usize, 2usize]
    }

    fn context(&self) -> (c: &AirContext) {
        &self.ctx
    }

    fn compute_transition(&self, frame: &Frame) -> (r: Vec<Fe>)
    {
        let a0 = frame.rows[0][0];
        let a1 = frame.rows[1][0];
        let a2 = frame.rows[2][0];
        let s = fe_add(&a1, &a0);
        let c = fe_sub(&a2, &s);
        let mut r: Vec<Fe> = Vec::new();
        r.push(c);
        proof {
            assert(frame.view_rows()[0] == vals(frame.rows@[0]@));
            assert(frame.view_rows()[1] == vals(frame.rows@[1]@));
            assert(frame.view_rows()[2] == vals(frame.rows@[2]@));
            assert(vals(frame.rows@[0]@)[0] == frame.rows@[0]@[0].val());
            assert(vals(frame.rows@[1]@)[0] == frame.rows@[1]@[0].val());
            assert(vals(frame.rows@[2]@)[0] == frame.rows@[2]@[0].val());
            assert(vals(r@) =~= self.transition_spec(frame.view_rows()));
        }
        r
    }

    fn boundary_constraints(&self) -> (b: Vec<BoundaryConstraint>)
    {
        let mut b: Vec<BoundaryConstraint> = Vec::new();
        b.push(BoundaryConstraint { col: 0, step: 0, value: self.first });
        b.push(BoundaryConstraint { col: 0, step: 1, value: self.second });
        proof {
            assert(b@ =~= self.boundary_spec());
        }
        b
    }
}

} // verus!
