//! The parameters one trial chooses, and writing its choices onto a program.
use vstd::prelude::*;
use vstd::string::StringExecFns;
use crate::duplicate::{append, Duplicate};
use crate::example::{Example, ExampleModel};
use crate::program::{PredictorModel, Program};
use crate::text::{decimal, decimal_text};

verus! {

/// One slot of the search space: which predictor it belongs to, whether it chooses that
/// predictor's demo set rather than its instruction, and how many choices it has.
#[derive(Clone, Copy, Debug, PartialEq, Eq, Structural)]
pub struct Slot {
    pub predictor: usize,
    pub demos: bool,
    pub cardinality: usize,
}

impl DeepView for Slot {
    type V = Slot;

    open spec fn deep_view(&self) -> Slot {
        *self
    }
}

impl Duplicate for Slot {
    fn duplicate(&self) -> (r: Self) {
        *self
    }
}

impl Slot {
    pub fn cardinality(self) -> (r: usize)
        ensures
            r == self.cardinality,
    {
        self.cardinality
    }
}

/// The name of the slot that chooses a predictor's instruction.
pub open spec fn instruction_name(predictor: nat) -> Seq<char> {
    decimal(predictor) + "_predictor_instruction"@
}

/// The name of the slot that chooses a predictor's demos.
pub open spec fn demos_name(predictor: nat) -> Seq<char> {
    decimal(predictor) + "_predictor_demos"@
}

/// The slots of the first `n` predictors, in suggest order: for each its instruction and then,
/// where demos are searched, its demo set.
pub open spec fn slots(
    candidates: Seq<Seq<Seq<char>>>,
    demo_sets: Option<Seq<Seq<Seq<ExampleModel>>>>,
    n: nat,
) -> Seq<(Seq<char>, Slot)>
    decreases n,
{
    if n == 0 {
        Seq::empty()
    } else {
        let p = (n - 1) as nat;
        let before = slots(candidates, demo_sets, p).push(
            (
                instruction_name(p),
                Slot {
                    predictor: p as usize,
                    demos: false,
                    cardinality: candidates[p as int].len() as usize,
                },
            ),
        );
        match demo_sets {
            Some(sets) => before.push(
                (
                    demos_name(p),
                    Slot {
                        predictor: p as usize,
                        demos: true,
                        cardinality: sets[p as int].len() as usize,
                    },
                ),
            ),
            None => before,
        }
    }
}

/// The parameters one trial chooses, under their names and in suggest order.
pub fn search_space(
    candidates: &Vec<Vec<String>>,
    demo_sets: &Option<Vec<Vec<Vec<Example>>>>,
) -> (r: Vec<(String, Slot)>)
    requires
        match demo_sets {
            Some(sets) => sets@.len() >= candidates@.len(),
            None => true,
        },
    ensures
        r.deep_view() == slots(
            candidates.deep_view(),
            demo_sets.deep_view(),
            candidates@.len(),
        ),
{
    let mut r: Vec<(String, Slot)> = Vec::new();
    let mut p: usize = 0;
    proof {
        assert(r.deep_view() =~= Seq::empty());
    }
    while p < candidates.len()
        invariant
            p <= candidates@.len(),
            match demo_sets {
                Some(sets) => sets@.len() >= candidates@.len(),
                None => true,
            },
            r.deep_view() == slots(candidates.deep_view(), demo_sets.deep_view(), p as nat),
        decreases candidates@.len() - p,
    {
        let mut name = decimal_text(p);
        name.append("_predictor_instruction");
        proof {
            assert(candidates.deep_view()[p as int].len() == candidates@[p as int]@.len());
        }
        append(
            &mut r,
            (name, Slot { predictor: p, demos: false, cardinality: candidates[p].len() }),
        );
        match demo_sets {
            Some(sets) => {
                let mut name = decimal_text(p);
                name.append("_predictor_demos");
                proof {
                    assert(sets.deep_view()[p as int].len() == sets@[p as int]@.len());
                }
                append(
                    &mut r,
                    (name, Slot { predictor: p, demos: true, cardinality: sets[p].len() }),
                );
            },
            None => {},
        }
        p = p + 1;
    }
    r
}

/// One slot's choice, written onto the predictor it belongs to. A slot past the program's
/// predictors writes nothing, nor does one for demos where none are searched.
pub open spec fn chosen(
    program: Seq<PredictorModel>,
    candidates: Seq<Seq<Seq<char>>>,
    demo_sets: Option<Seq<Seq<Seq<ExampleModel>>>>,
    slot: Slot,
    choice: usize,
) -> Seq<PredictorModel> {
    let p = slot.predictor as int;
    if p >= program.len() {
        program
    } else if slot.demos {
        match demo_sets {
            Some(sets) => program.update(p, program[p].with_demos(sets[p][choice as int])),
            None => program,
        }
    } else {
        program.update(p, program[p].with_instructions(candidates[p][choice as int]))
    }
}

/// The first `n` slots' choices, written in order.
pub open spec fn applied(
    program: Seq<PredictorModel>,
    candidates: Seq<Seq<Seq<char>>>,
    demo_sets: Option<Seq<Seq<Seq<ExampleModel>>>>,
    space: Seq<Slot>,
    params: Seq<usize>,
    n: nat,
) -> Seq<PredictorModel>
    decreases n,
{
    if n == 0 {
        program
    } else {
        let i = (n - 1) as int;
        chosen(
            applied(program, candidates, demo_sets, space, params, i as nat),
            candidates,
            demo_sets,
            space[i],
            params[i],
        )
    }
}

/// Whether a slot's choice is one it has, on a program of that many predictors.
pub open spec fn choice_in_range(
    predictors: nat,
    candidates: Seq<Seq<Seq<char>>>,
    demo_sets: Option<Seq<Seq<Seq<ExampleModel>>>>,
    slot: Slot,
    choice: usize,
) -> bool {
    let p = slot.predictor as int;
    p >= predictors || if slot.demos {
        match demo_sets {
            Some(sets) => p < sets.len() && choice < sets[p].len(),
            None => true,
        }
    } else {
        p < candidates.len() && choice < candidates[p].len()
    }
}

proof fn lemma_applied_len(
    program: Seq<PredictorModel>,
    candidates: Seq<Seq<Seq<char>>>,
    demo_sets: Option<Seq<Seq<Seq<ExampleModel>>>>,
    space: Seq<Slot>,
    params: Seq<usize>,
    n: nat,
)
    ensures
        applied(program, candidates, demo_sets, space, params, n).len() == program.len(),
    decreases n,
{
    if n > 0 {
        lemma_applied_len(program, candidates, demo_sets, space, params, (n - 1) as nat);
    }
}

/// Sets each predictor to the instruction, and the demo set, that the trial chose for it.
pub fn apply(
    student: &mut Program,
    candidates: &Vec<Vec<String>>,
    demo_sets: &Option<Vec<Vec<Vec<Example>>>>,
    space: &Vec<Slot>,
    params: &Vec<usize>,
)
    requires
        forall|i: int|
            0 <= i < space@.len() && i < params@.len() ==> choice_in_range(
                old(student).deep_view().len(),
                candidates.deep_view(),
                demo_sets.deep_view(),
                #[trigger] space@[i],
                params@[i],
            ),
    ensures
        final(student).deep_view() == applied(
            old(student).deep_view(),
            candidates.deep_view(),
            demo_sets.deep_view(),
            space@,
            params@,
            crate::optimize::draw::least(space@.len(), params@.len()),
        ),
{
    let mut i: usize = 0;
    while i < space.len() && i < params.len()
        invariant
            i <= space@.len(),
            i <= params@.len(),
            forall|i: int|
                0 <= i < space@.len() && i < params@.len() ==> choice_in_range(
                    old(student).deep_view().len(),
                    candidates.deep_view(),
                    demo_sets.deep_view(),
                    #[trigger] space@[i],
                    params@[i],
                ),
            student.deep_view() == applied(
                old(student).deep_view(),
                candidates.deep_view(),
                demo_sets.deep_view(),
                space@,
                params@,
                i as nat,
            ),
        decreases space@.len() - i,
    {
        let slot: Slot = space[i];
        let choice: usize = params[i];
        proof {
            lemma_applied_len(
                old(student).deep_view(),
                candidates.deep_view(),
                demo_sets.deep_view(),
                space@,
                params@,
                i as nat,
            );
            assert(choice_in_range(
                old(student).deep_view().len(),
                candidates.deep_view(),
                demo_sets.deep_view(),
                space@[i as int],
                params@[i as int],
            ));
        }
        if slot.predictor < student.len() {
            if slot.demos {
                match demo_sets {
                    Some(sets) => {
                        let set = sets[slot.predictor][choice].duplicate();
                        student.set_demos(slot.predictor, set);
                    },
                    None => {},
                }
            } else {
                student.set_instruction(
                    slot.predictor,
                    candidates[slot.predictor][choice].as_str(),
                );
            }
        }
        i = i + 1;
    }
}

/// A trial writes nothing but instructions and demos, and never adds or drops a predictor.
pub proof fn law_a_trial_keeps_the_program_shape(
    program: Seq<PredictorModel>,
    candidates: Seq<Seq<Seq<char>>>,
    demo_sets: Option<Seq<Seq<Seq<ExampleModel>>>>,
    space: Seq<Slot>,
    params: Seq<usize>,
    n: nat,
    p: int,
)
    requires
        0 <= p < program.len(),
    ensures
        ({
            let after = applied(program, candidates, demo_sets, space, params, n);
            &&& after.len() == program.len()
            &&& after[p].name == program[p].name
            &&& after[p].config == program[p].config
            &&& after[p].signature.inputs == program[p].signature.inputs
            &&& after[p].signature.outputs == program[p].signature.outputs
        }),
    decreases n,
{
    if n > 0 {
        lemma_applied_len(program, candidates, demo_sets, space, params, (n - 1) as nat);
        law_a_trial_keeps_the_program_shape(
            program,
            candidates,
            demo_sets,
            space,
            params,
            (n - 1) as nat,
            p,
        );
    }
}

/// A trial leaves each predictor with what it chose for it: the instruction, or the demo set, at the
/// position chosen in the last slot for it. What no slot chooses stays as it was.
pub proof fn law_every_choice_is_written(
    program: Seq<PredictorModel>,
    candidates: Seq<Seq<Seq<char>>>,
    demo_sets: Option<Seq<Seq<Seq<ExampleModel>>>>,
    space: Seq<Slot>,
    params: Seq<usize>,
    n: nat,
    i: int,
    p: int,
)
    requires
        0 <= p < program.len(),
    ensures
        ({
            let after = applied(program, candidates, demo_sets, space, params, n);
            let last_for = |demos: bool|
                0 <= i < n && space[i].predictor == p && space[i].demos == demos && forall|j: int|
                    i < j < n ==> !((#[trigger] space[j]).predictor == p && space[j].demos
                        == demos);
            let none_for = |demos: bool|
                forall|j: int|
                    0 <= j < n ==> !((#[trigger] space[j]).predictor == p && space[j].demos
                        == demos);
            &&& last_for(false) ==> after[p].signature.instructions
                == candidates[p][params[i] as int]
            &&& last_for(true) && demo_sets is Some ==> after[p].demos
                == demo_sets->0[p][params[i] as int]
            &&& none_for(false) ==> after[p].signature.instructions
                == program[p].signature.instructions
            &&& none_for(true) || demo_sets is None ==> after[p].demos == program[p].demos
        }),
    decreases n,
{
    if n > 0 {
        let m = (n - 1) as nat;
        lemma_applied_len(program, candidates, demo_sets, space, params, m);
        law_every_choice_is_written(program, candidates, demo_sets, space, params, m, i, p);
        let here = space[n - 1];
    }
}

/// The space has a slot for the instruction of every predictor and, where demos are searched, one for
/// its demos behind it, each with as many choices as there are.
pub proof fn law_every_predictor_has_its_slots(
    candidates: Seq<Seq<Seq<char>>>,
    demo_sets: Option<Seq<Seq<Seq<ExampleModel>>>>,
    n: nat,
    p: int,
)
    requires
        0 <= p < n <= candidates.len(),
        n <= usize::MAX,
        candidates[p].len() <= usize::MAX,
        demo_sets matches Some(sets) ==> n <= sets.len() && sets[p].len() <= usize::MAX,
    ensures
        ({
            let all = slots(candidates, demo_sets, n);
            let instruction = if demo_sets is Some {
                all[2 * p]
            } else {
                all[p]
            };
            &&& demo_sets is None ==> all.len() == n
            &&& demo_sets is Some ==> all.len() == 2 * n
            &&& instruction.0 == decimal(p as nat) + "_predictor_instruction"@
            &&& instruction.1.predictor == p && !instruction.1.demos
                && instruction.1.cardinality == candidates[p].len()
            &&& demo_sets matches Some(sets) ==> {
                &&& all[2 * p + 1].0 == decimal(p as nat) + "_predictor_demos"@
                &&& all[2 * p + 1].1.predictor == p && all[2 * p + 1].1.demos
                    && all[2 * p + 1].1.cardinality == sets[p].len()
            }
        }),
    decreases n,
{
    lemma_slots_len(candidates, demo_sets, (n - 1) as nat);
    if p < n - 1 {
        law_every_predictor_has_its_slots(candidates, demo_sets, (n - 1) as nat, p);
    }
}

proof fn lemma_slots_len(
    candidates: Seq<Seq<Seq<char>>>,
    demo_sets: Option<Seq<Seq<Seq<ExampleModel>>>>,
    n: nat,
)
    ensures
        demo_sets is None ==> slots(candidates, demo_sets, n).len() == n,
        demo_sets is Some ==> slots(candidates, demo_sets, n).len() == 2 * n,
    decreases n,
{
    if n > 0 {
        lemma_slots_len(candidates, demo_sets, (n - 1) as nat);
    }
}

} // verus!
