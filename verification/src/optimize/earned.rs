//! What a bootstrap pass earned, and which predictor earned it.
use vstd::prelude::*;
use crate::duplicate::{append, duplicate_range, Duplicate};
use crate::entries::{find, get, has, lemma_slot, lookup, slot};
use crate::example::{Example, ExampleModel};
use crate::optimize::draw::{least, lesser};

verus! {

/// Demos under the names of the predictors that earned them.
pub type Earnings = Seq<(Seq<char>, Seq<ExampleModel>)>;

/// What one solved example earned, before it is filed.
#[derive(Debug)]
pub struct Solved {
    /// The whole turn, used when nothing was traced.
    pub program: Example,
    /// One demo per traced call, under the predictor that made it.
    pub per_predictor: Vec<(String, Example)>,
}

/// What a [`Solved`] holds.
#[verifier::ext_equal]
pub struct SolvedModel {
    pub program: ExampleModel,
    pub per_predictor: Seq<(Seq<char>, ExampleModel)>,
}

impl DeepView for Solved {
    type V = SolvedModel;

    open spec fn deep_view(&self) -> SolvedModel {
        SolvedModel {
            program: self.program.deep_view(),
            per_predictor: self.per_predictor.deep_view(),
        }
    }
}

/// What one bootstrap pass produced.
#[derive(Debug)]
pub struct Bootstrapped {
    /// Demos under the predictor whose own calls earned them.
    pub per_predictor: Vec<(String, Vec<Example>)>,
    /// Demos of a program that recorded no trace, which every predictor then receives.
    pub program: Vec<Example>,
    /// The trainset examples no round solved, shuffled.
    pub validation: Vec<Example>,
}

/// What a [`Bootstrapped`] holds.
#[verifier::ext_equal]
pub struct BootstrappedModel {
    pub per_predictor: Earnings,
    pub program: Seq<ExampleModel>,
    pub validation: Seq<ExampleModel>,
}

impl DeepView for Bootstrapped {
    type V = BootstrappedModel;

    open spec fn deep_view(&self) -> BootstrappedModel {
        BootstrappedModel {
            per_predictor: self.per_predictor.deep_view(),
            program: self.program.deep_view(),
            validation: self.validation.deep_view(),
        }
    }
}

/// One more demo under a name, which is a new entry where it has none yet.
pub open spec fn filed(earnings: Earnings, name: Seq<char>, demo: ExampleModel) -> Earnings {
    if has(earnings, name) {
        let at = slot(earnings, name);
        earnings.update(at, (name, earnings[at].1.push(demo)))
    } else {
        earnings.push((name, seq![demo]))
    }
}

/// The traced demos grouped by predictor, in the order the predictors were first seen.
pub open spec fn grouped(traced: Seq<(Seq<char>, ExampleModel)>) -> Earnings
    decreases traced.len(),
{
    if traced.len() == 0 {
        Seq::empty()
    } else {
        filed(grouped(traced.drop_last()), traced.last().0, traced.last().1)
    }
}

/// The first `n` groups filed, each by its survivor.
pub open spec fn survivors_filed(
    earnings: Earnings,
    groups: Earnings,
    survivors: Seq<usize>,
    n: nat,
) -> Earnings
    decreases n,
{
    if n == 0 {
        earnings
    } else {
        let i = (n - 1) as int;
        filed(
            survivors_filed(earnings, groups, survivors, i as nat),
            groups[i].0,
            groups[i].1[survivors[i] as int],
        )
    }
}

impl BootstrappedModel {
    /// One solved example's demos filed: one per predictor that was traced, or the whole turn
    /// where none was.
    pub open spec fn with(self, solved: SolvedModel, survivors: Seq<usize>) -> BootstrappedModel {
        if solved.per_predictor.len() == 0 {
            BootstrappedModel { program: self.program.push(solved.program), ..self }
        } else {
            let groups = grouped(solved.per_predictor);
            BootstrappedModel {
                per_predictor: survivors_filed(
                    self.per_predictor,
                    groups,
                    survivors,
                    groups.len(),
                ),
                ..self
            }
        }
    }

    /// Everything a predictor is taught by: its own demos, or the program's where it has no entry.
    pub open spec fn taught(self, predictor: Seq<char>) -> Seq<ExampleModel> {
        match lookup(self.per_predictor, predictor) {
            Some(demos) => demos,
            None => self.program,
        }
    }
}

/// Whether `survivors` names one demo of every group.
pub open spec fn one_of_each(groups: Earnings, survivors: Seq<usize>) -> bool {
    &&& survivors.len() == groups.len()
    &&& forall|i: int| 0 <= i < groups.len() ==> (#[trigger] survivors[i]) < groups[i].1.len()
}

/// Which of a predictor's demos survives when it answered more than once for one example: half
/// the time the last, half the time one of the earlier ones, as the coin and the draw fell.
pub fn collapse(count: usize, earlier: bool, drawn: usize) -> (r: usize)
    requires
        count > 1,
        earlier ==> drawn < count - 1,
    ensures
        r < count,
        r == if earlier {
            drawn as int
        } else {
            count - 1
        },
{
    if earlier {
        drawn
    } else {
        count - 1
    }
}

/// Files one more demo under a name.
fn file_under(earnings: &mut Vec<(String, Vec<Example>)>, name: &str, demo: Example)
    ensures
        final(earnings).deep_view() == filed(old(earnings).deep_view(), name@, demo.deep_view()),
{
    let at: usize = find(earnings, name);
    proof {
        lemma_slot(earnings.deep_view(), name@);
    }
    if at < earnings.len() {
        let mut demos = earnings[at].1.duplicate();
        append(&mut demos, demo);
        earnings[at] = (name.to_owned(), demos);
        proof {
            assert(earnings.deep_view() =~= filed(
                old(earnings).deep_view(),
                name@,
                demo.deep_view(),
            ));
        }
    } else {
        let mut demos: Vec<Example> = Vec::new();
        demos.push(demo);
        proof {
            assert(demos.deep_view() =~= seq![demo.deep_view()]);
        }
        append(earnings, (name.to_owned(), demos));
    }
}

impl Solved {
    /// The traced demos grouped by predictor, in the order the predictors were first seen.
    pub fn groups(&self) -> (r: Vec<(String, Vec<Example>)>)
        ensures
            r.deep_view() == grouped(self.deep_view().per_predictor),
    {
        let mut r: Vec<(String, Vec<Example>)> = Vec::new();
        let mut i: usize = 0;
        let ghost traced = self.deep_view().per_predictor;
        proof {
            assert(r.deep_view() =~= grouped(traced.take(0)));
        }
        while i < self.per_predictor.len()
            invariant
                i <= self.per_predictor@.len(),
                traced == self.deep_view().per_predictor,
                r.deep_view() == grouped(traced.take(i as int)),
            decreases self.per_predictor@.len() - i,
        {
            proof {
                assert(traced.take(i + 1).drop_last() =~= traced.take(i as int));
            }
            file_under(
                &mut r,
                self.per_predictor[i].0.as_str(),
                self.per_predictor[i].1.duplicate(),
            );
            i = i + 1;
        }
        proof {
            assert(traced.take(i as int) =~= traced);
        }
        r
    }
}

impl Bootstrapped {
    /// A pass that earned nothing.
    pub fn empty() -> (r: Bootstrapped)
        ensures
            r.deep_view() == (BootstrappedModel {
                per_predictor: Seq::empty(),
                program: Seq::empty(),
                validation: Seq::empty(),
            }),
    {
        let r = Bootstrapped {
            per_predictor: Vec::new(),
            program: Vec::new(),
            validation: Vec::new(),
        };
        proof {
            assert(r.deep_view().per_predictor =~= Seq::empty());
            assert(r.deep_view().program =~= Seq::empty());
            assert(r.deep_view().validation =~= Seq::empty());
        }
        r
    }

    /// Files one solved example's demos under the predictors that earned them, each predictor's
    /// demos collapsed to the one that survives.
    pub fn file(&mut self, solved: &Solved, survivors: &Vec<usize>)
        requires
            one_of_each(grouped(solved.deep_view().per_predictor), survivors@),
        ensures
            final(self).deep_view() == old(self).deep_view().with(
                solved.deep_view(),
                survivors@,
            ),
    {
        if solved.per_predictor.len() == 0 {
            append(&mut self.program, solved.program.duplicate());
            return ;
        }
        let groups = solved.groups();
        let mut i: usize = 0;
        let ghost before = self.deep_view();
        while i < groups.len()
            invariant
                i <= groups@.len(),
                one_of_each(groups.deep_view(), survivors@),
                self.deep_view() == (BootstrappedModel {
                    per_predictor: survivors_filed(
                        before.per_predictor,
                        groups.deep_view(),
                        survivors@,
                        i as nat,
                    ),
                    ..before
                }),
            decreases groups@.len() - i,
        {
            proof {
                assert(groups.deep_view()[i as int].1.len() == groups@[i as int].1@.len());
                assert(survivors@[i as int] < groups.deep_view()[i as int].1.len());
            }
            let demo = groups[i].1[survivors[i]].duplicate();
            file_under(&mut self.per_predictor, groups[i].0.as_str(), demo);
            i = i + 1;
        }
    }

    /// The demos one predictor is taught by, capped at the bootstrapped budget.
    pub fn earned(&self, predictor: &str, most: usize) -> (r: Vec<Example>)
        ensures
            r.deep_view() == self.deep_view().taught(predictor@).take(
                least(most as nat, self.deep_view().taught(predictor@).len()) as int,
            ),
    {
        let taught: &Vec<Example> = match get(&self.per_predictor, predictor) {
            Some(demos) => demos,
            None => &self.program,
        };
        let count: usize = lesser(most, taught.len());
        let r = duplicate_range(taught, 0, count);
        proof {
            assert(taught.deep_view().subrange(0, count as int) =~= taught.deep_view().take(
                count as int,
            ));
        }
        r
    }
}

proof fn lemma_filed(earnings: Earnings, name: Seq<char>, demo: ExampleModel, other: Seq<char>)
    ensures
        lookup(filed(earnings, name, demo), name) == Some(
            match lookup(earnings, name) {
                Some(demos) => demos.push(demo),
                None => seq![demo],
            },
        ),
        other != name ==> lookup(filed(earnings, name, demo), other) == lookup(earnings, other),
{
    let demos = match lookup(earnings, name) {
        Some(demos) => demos.push(demo),
        None => seq![demo],
    };
    crate::entries::law_put_then_lookup(earnings, name, demos, other);
    assert(filed(earnings, name, demo) =~= crate::entries::put(earnings, name, demos));
}

/// A solved example that was traced teaches each traced predictor exactly one demo, and teaches
/// nothing to a predictor that never ran.
pub proof fn law_each_predictor_is_taught_by_its_own_calls(
    earnings: Earnings,
    groups: Earnings,
    survivors: Seq<usize>,
    n: nat,
    name: Seq<char>,
)
    requires
        n <= groups.len(),
        crate::entries::distinct(groups),
    ensures
        (forall|i: int| 0 <= i < n ==> (#[trigger] groups[i]).0 != name) ==> lookup(
            survivors_filed(earnings, groups, survivors, n),
            name,
        ) == lookup(earnings, name),
        forall|i: int|
            0 <= i < n && (#[trigger] groups[i]).0 == name ==> lookup(
                survivors_filed(earnings, groups, survivors, n),
                name,
            ) == Some(
                match lookup(earnings, name) {
                    Some(demos) => demos.push(groups[i].1[survivors[i] as int]),
                    None => seq![groups[i].1[survivors[i] as int]],
                },
            ),
    decreases n,
{
    if n > 0 {
        let last = n - 1;
        law_each_predictor_is_taught_by_its_own_calls(
            earnings,
            groups,
            survivors,
            last as nat,
            name,
        );
        lemma_filed(
            survivors_filed(earnings, groups, survivors, last as nat),
            groups[last].0,
            groups[last].1[survivors[last] as int],
            name,
        );
    }
}

/// Grouping names every predictor once.
pub proof fn law_groups_are_distinct(traced: Seq<(Seq<char>, ExampleModel)>)
    ensures
        crate::entries::distinct(grouped(traced)),
    decreases traced.len(),
{
    if traced.len() > 0 {
        law_groups_are_distinct(traced.drop_last());
        let before = grouped(traced.drop_last());
        let (name, demo) = traced.last();
        let demos = match lookup(before, name) {
            Some(demos) => demos.push(demo),
            None => seq![demo],
        };
        crate::entries::law_put_keeps_distinct(before, name, demos);
        assert(filed(before, name, demo) =~= crate::entries::put(before, name, demos));
    }
}

/// The demos of each predictor are grouped under its name, none lost and in the order they came: a
/// further demo joins its predictor's group, and no other group changes.
pub proof fn law_a_demo_joins_its_predictors_group(
    traced: Seq<(Seq<char>, ExampleModel)>,
    name: Seq<char>,
    demo: ExampleModel,
    other: Seq<char>,
)
    ensures
        grouped(Seq::empty()).len() == 0,
        lookup(grouped(traced.push((name, demo))), name) == Some(
            match lookup(grouped(traced), name) {
                Some(demos) => demos.push(demo),
                None => seq![demo],
            },
        ),
        other != name ==> lookup(grouped(traced.push((name, demo))), other) == lookup(
            grouped(traced),
            other,
        ),
{
    assert(traced.push((name, demo)).drop_last() =~= traced);
    lemma_filed(grouped(traced), name, demo, other);
}

/// A solved example teaches each predictor it ran the one of its demos that survived, behind those
/// of earlier examples, and every other predictor nothing. One that ran no predictor teaches the
/// program as a whole.
pub proof fn law_a_solved_example_teaches_what_ran(
    bootstrapped: BootstrappedModel,
    solved: SolvedModel,
    survivors: Seq<usize>,
    g: int,
    other: Seq<char>,
)
    requires
        one_of_each(grouped(solved.per_predictor), survivors),
    ensures
        ({
            let groups = grouped(solved.per_predictor);
            let after = bootstrapped.with(solved, survivors);
            &&& after.validation == bootstrapped.validation
            &&& solved.per_predictor.len() == 0 ==> after.program == bootstrapped.program.push(
                solved.program,
            ) && after.per_predictor == bootstrapped.per_predictor
            &&& solved.per_predictor.len() > 0 ==> after.program == bootstrapped.program
            &&& solved.per_predictor.len() > 0 && 0 <= g < groups.len() ==> lookup(
                after.per_predictor,
                groups[g].0,
            ) == Some(
                match lookup(bootstrapped.per_predictor, groups[g].0) {
                    Some(demos) => demos.push(groups[g].1[survivors[g] as int]),
                    None => seq![groups[g].1[survivors[g] as int]],
                },
            )
            &&& solved.per_predictor.len() > 0 && (forall|i: int|
                0 <= i < groups.len() ==> (#[trigger] groups[i]).0 != other) ==> lookup(
                after.per_predictor,
                other,
            ) == lookup(bootstrapped.per_predictor, other)
        }),
{
    let groups = grouped(solved.per_predictor);
    law_groups_are_distinct(solved.per_predictor);
    if 0 <= g < groups.len() {
        law_each_predictor_is_taught_by_its_own_calls(
            bootstrapped.per_predictor,
            groups,
            survivors,
            groups.len(),
            groups[g].0,
        );
    }
    law_each_predictor_is_taught_by_its_own_calls(
        bootstrapped.per_predictor,
        groups,
        survivors,
        groups.len(),
        other,
    );
}

/// A predictor that earned demos is taught by those, and any other by the program's.
pub proof fn law_a_predictor_without_demos_of_its_own_gets_the_programs(
    bootstrapped: BootstrappedModel,
    predictor: Seq<char>,
)
    ensures
        lookup(bootstrapped.per_predictor, predictor) is Some ==> bootstrapped.taught(predictor)
            == lookup(bootstrapped.per_predictor, predictor)->0,
        lookup(bootstrapped.per_predictor, predictor) is None ==> bootstrapped.taught(predictor)
            == bootstrapped.program,
{
}

} // verus!
