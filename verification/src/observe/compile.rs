//! Watching an optimizer's compile, once per compile: one that an optimizer runs on itself inside
//! its own is part of the same call.
use vstd::prelude::*;
use crate::duplicate::Duplicate;
use crate::example::{Example, ExampleModel};
use crate::observe::telling::{Answer, AnswerModel, Given, GivenModel, OutcomeModel, Point};
use crate::observe::{is_told_of, lemma_unwatched, opened, Audience, AudienceModel, Watch, WatchModel};

verus! {

/// The optimizers whose compile is under way.
#[derive(Debug)]
pub struct ActiveCompiles {
    pub instances: Vec<usize>,
}

/// A list without one value.
pub open spec fn others(instances: Seq<usize>, instance: usize) -> Seq<usize> {
    instances.filter(|held: usize| held != instance)
}

/// A list without the last occurrence of a value.
pub open spec fn without_last(instances: Seq<usize>, instance: usize) -> Seq<usize>
    decreases instances.len(),
{
    if instances.len() == 0 {
        instances
    } else if instances.last() == instance {
        instances.drop_last()
    } else {
        without_last(instances.drop_last(), instance).push(instances.last())
    }
}

impl ActiveCompiles {
    /// No compile under way.
    pub fn none() -> (r: ActiveCompiles)
        ensures
            r.instances@ == Seq::<usize>::empty(),
    {
        ActiveCompiles { instances: Vec::new() }
    }

    /// Whether this optimizer's compile is under way.
    pub fn holds(&self, instance: usize) -> (r: bool)
        ensures
            r == self.instances@.contains(instance),
    {
        let mut i: usize = 0;
        while i < self.instances.len()
            invariant
                i <= self.instances@.len(),
                forall|j: int| 0 <= j < i ==> self.instances@[j] != instance,
            decreases self.instances@.len() - i,
        {
            if self.instances[i] == instance {
                return true;
            }
            i = i + 1;
        }
        false
    }

    /// Marks an optimizer's compile as under way.
    pub fn enter(&mut self, instance: usize)
        ensures
            final(self).instances@ == old(self).instances@.push(instance),
    {
        self.instances.push(instance);
    }

    /// Unmarks an optimizer altogether.
    pub fn leave(&mut self, instance: usize)
        ensures
            final(self).instances@ == others(old(self).instances@, instance),
    {
        let mut kept: Vec<usize> = Vec::new();
        let ghost all = self.instances@;
        let mut i: usize = 0;
        proof {
            reveal(Seq::filter);
            assert(kept@ =~= others(all.take(0), instance));
        }
        while i < self.instances.len()
            invariant
                i <= self.instances@.len(),
                all == self.instances@,
                kept@ == others(all.take(i as int), instance),
            decreases self.instances@.len() - i,
        {
            proof {
                assert(all.take(i + 1).drop_last() =~= all.take(i as int));
                reveal(Seq::filter);
            }
            if self.instances[i] != instance {
                kept.push(self.instances[i]);
            }
            i = i + 1;
        }
        proof {
            assert(all.take(i as int) =~= all);
        }
        self.instances = kept;
    }

    /// Unmarks an optimizer once: its latest mark.
    pub fn leave_once(&mut self, instance: usize)
        ensures
            final(self).instances@ == without_last(old(self).instances@, instance),
    {
        let ghost all = self.instances@;
        let mut i: usize = self.instances.len();
        proof {
            assert(all.take(i as int) =~= all);
            assert(without_last(all.take(i as int), instance) + all.skip(i as int)
                =~= without_last(all, instance));
        }
        while i > 0 && self.instances[i - 1] != instance
            invariant
                i <= self.instances@.len(),
                all == self.instances@,
                without_last(all, instance) == without_last(all.take(i as int), instance)
                    + all.skip(i as int),
            decreases i,
        {
            proof {
                let before = all.take(i - 1);
                assert(all.take(i as int).drop_last() =~= before);
                assert(without_last(before, instance).push(all[i - 1]) + all.skip(i as int)
                    =~= without_last(before, instance) + all.skip(i - 1));
            }
            i = i - 1;
        }
        if i > 0 {
            proof {
                assert(all.take(i as int).drop_last() =~= all.take(i - 1));
                assert(all.remove(i - 1) =~= all.take(i - 1) + all.skip(i as int));
            }
            self.instances.remove(i - 1);
        } else {
            proof {
                assert(all.take(0) + all.skip(0) =~= all);
                assert(without_last(all.take(0), instance) =~= all.take(0));
            }
        }
    }
}

/// A compile, open: every listener is handed the rows it learns from and is scored on.
pub open spec fn compile_point(
    optimizer: Seq<char>,
    trainset: Seq<ExampleModel>,
    valset: Option<Seq<ExampleModel>>,
    call: u64,
    audience: AudienceModel,
) -> WatchModel {
    opened("compile"@, call, audience).with("optimizer"@, optimizer).started(
        GivenModel::Compile { optimizer, trainset, valset },
    )
}

/// An optimizer's compile, with the rows it is given.
pub fn compile_shown(
    optimizer: &str,
    trainset: &Vec<Example>,
    valset: Option<&Vec<Example>>,
    call: u64,
    audience: &Audience,
) -> (r: Watch)
    ensures
        r.deep_view() == compile_point(
            optimizer@,
            trainset.deep_view(),
            valset.deep_view(),
            call,
            audience.deep_view(),
        ),
{
    let mut watch = Watch::open("compile", call, audience);
    watch.record("optimizer", optimizer);
    proof {
        lemma_unwatched(watch.deep_view());
    }
    if watch.is_heard() {
        let scored_on = match valset {
            Some(rows) => Some(rows.duplicate()),
            None => None,
        };
        watch.start(
            Given::Compile {
                optimizer: optimizer.to_owned(),
                trainset: trainset.duplicate(),
                valset: scored_on,
            },
        );
    }
    watch
}

/// A compile is over, or failed.
pub fn compile_ended(watch: &mut Watch, answered: &Result<(), String>)
    ensures
        final(watch).deep_view() == old(watch).deep_view().closed(
            Point::Compile,
            match *answered {
                Ok(()) => OutcomeModel::Answered(AnswerModel::Done),
                Err(error) => OutcomeModel::Failed(error@),
            },
        ),
{
    watch.close(
        Point::Compile,
        match answered {
            Ok(()) => Ok(Answer::Done),
            Err(error) => Err(error.clone()),
        },
    );
}

/// Runs a compile that cannot fail, once, under a point of its own unless this optimizer's compile
/// is already under way. The work is told which compiles are, and the point it is done under.
pub fn compiling_sync<T, W: FnOnce(&ActiveCompiles, Option<&Watch>) -> T>(
    active: &mut ActiveCompiles,
    optimizer: &str,
    instance: usize,
    trainset: &Vec<Example>,
    valset: Option<&Vec<Example>>,
    call: u64,
    audience: &Audience,
    work: W,
) -> (r: (T, Option<Watch>))
    requires
        forall|under: &ActiveCompiles, watch: Option<&Watch>| work.requires((under, watch)),
    ensures
        match r.1 {
            Some(watch) => {
                let point = compile_point(
                    optimizer@,
                    trainset.deep_view(),
                    valset.deep_view(),
                    call,
                    audience.deep_view(),
                );
                &&& !old(active).instances@.contains(instance)
                &&& exists|under: ActiveCompiles, open: Watch| #[trigger]
                    work.ensures((&under, Some(&open)), r.0) && under.instances@ == old(
                        active,
                    ).instances@.push(instance) && open.deep_view() == point
                &&& watch.deep_view() == point.closed(
                    Point::Compile,
                    OutcomeModel::Answered(AnswerModel::Done),
                )
                &&& final(active).instances@ == others(old(active).instances@, instance)
            },
            None => {
                &&& old(active).instances@.contains(instance)
                &&& exists|under: ActiveCompiles| #[trigger]
                    work.ensures((&under, None::<&Watch>), r.0) && under.instances@ == old(
                        active,
                    ).instances@
                &&& final(active).instances@ == old(active).instances@
            },
        },
{
    if active.holds(instance) {
        let answer = work(&*active, None);
        let r: (T, Option<Watch>) = (answer, None);
        proof {
            let under = *active;
            assert(work.ensures((&under, None::<&Watch>), r.0));
        }
        return r;
    }
    let mut watch = compile_shown(optimizer, trainset, valset, call, audience);
    let ghost before = active.instances@;
    active.enter(instance);
    let ghost open = watch;
    let compiled = work(&*active, Some(&watch));
    let ghost under = *active;
    active.leave(instance);
    proof {
        let keep = |held: usize| held != instance;
        reveal(Seq::filter);
        assert(before.push(instance).drop_last() =~= before);
        assert(before.push(instance).filter(keep) == before.filter(keep));
    }
    compile_ended(&mut watch, &Ok(()));
    let r: (T, Option<Watch>) = (compiled, Some(watch));
    proof {
        assert(work.ensures((&under, Some(&open)), r.0));
    }
    r
}

/// Entering a compile and leaving it, either way, leaves the others as they were.
pub proof fn law_leaving_undoes_entering(instances: Seq<usize>, instance: usize)
    ensures
        without_last(instances.push(instance), instance) == instances,
        !instances.contains(instance) ==> others(instances.push(instance), instance) == instances,
{
    assert(instances.push(instance).drop_last() =~= instances);
    if !instances.contains(instance) {
        let keep = |held: usize| held != instance;
        reveal(Seq::filter);
        lemma_filter_keeps_all(instances, instance);
        assert(instances.push(instance).filter(keep) == instances.filter(keep));
    }
}

proof fn lemma_filter_keeps_all(instances: Seq<usize>, instance: usize)
    requires
        !instances.contains(instance),
    ensures
        others(instances, instance) == instances,
    decreases instances.len(),
{
    reveal(Seq::filter);
    if instances.len() > 0 {
        let before = instances.drop_last();
        assert forall|i: int| 0 <= i < before.len() implies before[i] != instance by {
            assert(instances[i] != instance);
        }
        lemma_filter_keeps_all(before, instance);
        assert(instances[instances.len() - 1] != instance);
        assert(before.push(instances.last()) =~= instances);
    } else {
        assert(others(instances, instance) =~= instances);
    }
}

/// Unmarking an optimizer altogether keeps every other mark, in order, and none of its own.
pub proof fn law_leaving_keeps_every_other(instances: Seq<usize>, instance: usize, held: usize)
    ensures
        others(Seq::empty(), instance).len() == 0,
        held != instance ==> others(instances.push(held), instance) == others(
            instances,
            instance,
        ).push(held),
        held == instance ==> others(instances.push(held), instance) == others(instances, instance),
{
    reveal(Seq::filter);
    assert(instances.push(held).drop_last() =~= instances);
}

/// Unmarking an optimizer once takes its latest mark and no other; with no mark of it nothing
/// changes.
pub proof fn law_leaving_once_takes_the_latest_mark(
    earlier: Seq<usize>,
    instance: usize,
    later: Seq<usize>,
)
    requires
        !later.contains(instance),
    ensures
        without_last(earlier.push(instance) + later, instance) == earlier + later,
        without_last(later, instance) == later,
    decreases later.len(),
{
    let all = earlier.push(instance) + later;
    if later.len() > 0 {
        let less = later.drop_last();
        assert(later[later.len() - 1] != instance);
        assert forall|i: int| 0 <= i < less.len() implies less[i] != instance by {
            assert(less[i] == later[i]);
        }
        law_leaving_once_takes_the_latest_mark(earlier, instance, less);
        assert(all.drop_last() =~= earlier.push(instance) + less);
        assert((earlier + less).push(later.last()) =~= earlier + later);
        assert(less.push(later.last()) =~= later);
    } else {
        assert(all =~= earlier.push(instance));
        assert(all.drop_last() =~= earlier + later);
    }
}

/// A compile is recorded under its optimizer, and every listener is handed all the rows it learns
/// from and is scored on.
pub proof fn law_a_compile_is_shown_whole(
    optimizer: Seq<char>,
    trainset: Seq<ExampleModel>,
    valset: Option<Seq<ExampleModel>>,
    call: u64,
    audience: AudienceModel,
)
    ensures
        ({
            let watch = compile_point(optimizer, trainset, valset, call, audience);
            &&& watch.point == "compile"@
            &&& watch.fields == if audience.recording {
                seq![("optimizer"@, optimizer)]
            } else {
                Seq::empty()
            }
            &&& is_told_of(
                watch,
                call,
                audience.listeners,
                GivenModel::Compile { optimizer, trainset, valset },
            )
        }),
{
    let watch = compile_point(optimizer, trainset, valset, call, audience);
    assert(watch.fields =~= if audience.recording {
        seq![("optimizer"@, optimizer)]
    } else {
        Seq::empty()
    });
}

} // verus!
