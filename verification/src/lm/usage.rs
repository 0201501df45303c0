//! What a run of a program cost, totalled across every call it made.
//!
//! Counting is scoped: a call is charged to the scope it was made in, or else to whatever is
//! counting for the whole process, or else to nothing.
use vstd::prelude::*;
use crate::duplicate::Duplicate;
use crate::entries::{
    distinct, get, has, insert, law_put_keeps_distinct, law_put_then_lookup, lemma_slot,
    lemma_slot_unique, lookup, put, slot,
};
use crate::sorted::{ascending, file, filed, law_filing_keeps_the_order, lemma_position, position};

verus! {

/// A counter.
#[derive(Clone, Copy, Debug, PartialEq, Eq, Structural)]
pub struct Count {
    pub tokens: u64,
}

impl DeepView for Count {
    type V = Count;

    open spec fn deep_view(&self) -> Count {
        *self
    }
}

impl Duplicate for Count {
    fn duplicate(&self) -> (r: Self) {
        *self
    }
}

/// What one call, or several, spent. A counter that was never reported is absent.
#[derive(Debug)]
pub struct LmUsage {
    pub input_tokens: Option<u64>,
    pub output_tokens: Option<u64>,
    /// Every other counter a provider reports, by name.
    pub details: Vec<(String, Count)>,
}

/// What an [`LmUsage`] holds.
#[verifier::ext_equal]
pub struct UsageModel {
    pub input_tokens: Option<u64>,
    pub output_tokens: Option<u64>,
    pub details: Seq<(Seq<char>, Count)>,
}

impl DeepView for LmUsage {
    type V = UsageModel;

    open spec fn deep_view(&self) -> UsageModel {
        UsageModel {
            input_tokens: self.input_tokens,
            output_tokens: self.output_tokens,
            details: self.details.deep_view(),
        }
    }
}

impl Duplicate for LmUsage {
    fn duplicate(&self) -> (r: Self) {
        LmUsage {
            input_tokens: self.input_tokens,
            output_tokens: self.output_tokens,
            details: self.details.duplicate(),
        }
    }
}

/// Nothing reported.
pub open spec fn no_usage() -> UsageModel {
    UsageModel { input_tokens: None, output_tokens: None, details: Seq::empty() }
}

/// The sum of two counters, at most the largest number there is.
pub open spec fn capped(a: nat, b: nat) -> u64 {
    if a + b <= u64::MAX {
        (a + b) as u64
    } else {
        u64::MAX
    }
}

/// The sum of two counters, either of which may be absent.
pub open spec fn plus(a: Option<u64>, b: Option<u64>) -> Option<u64> {
    match (a, b) {
        (Some(x), Some(y)) => Some(capped(x as nat, y as nat)),
        (Some(x), None) => Some(x),
        (None, other) => other,
    }
}

/// Counters by name, those of `more` added in.
pub open spec fn with_details(
    details: Seq<(Seq<char>, Count)>,
    more: Seq<(Seq<char>, Count)>,
) -> Seq<(Seq<char>, Count)>
    decreases more.len(),
{
    if more.len() == 0 {
        details
    } else {
        let before = with_details(details, more.drop_last());
        let (name, count) = more.last();
        put(
            before,
            name,
            match lookup(before, name) {
                Some(held) => Count { tokens: capped(held.tokens as nat, count.tokens as nat) },
                None => count,
            },
        )
    }
}

/// What two calls spent together.
pub open spec fn together(a: UsageModel, b: UsageModel) -> UsageModel {
    UsageModel {
        input_tokens: plus(a.input_tokens, b.input_tokens),
        output_tokens: plus(a.output_tokens, b.output_tokens),
        details: with_details(a.details, b.details),
    }
}

/// What two calls spent together, either of which may have spent nothing.
pub open spec fn merged(a: Option<UsageModel>, b: Option<UsageModel>) -> Option<UsageModel> {
    match (a, b) {
        (Some(x), Some(y)) => Some(together(x, y)),
        (Some(x), None) => Some(x),
        (None, other) => other,
    }
}

fn sum(a: u64, b: u64) -> (r: u64)
    ensures
        r == capped(a as nat, b as nat),
{
    if a <= u64::MAX - b {
        a + b
    } else {
        u64::MAX
    }
}

fn sum_of(a: Option<u64>, b: Option<u64>) -> (r: Option<u64>)
    ensures
        r == plus(a, b),
{
    match a {
        Some(x) => match b {
            Some(y) => Some(sum(x, y)),
            None => Some(x),
        },
        None => b,
    }
}

impl Default for LmUsage {
    fn default() -> (r: Self)
        ensures
            r.deep_view() == no_usage(),
    {
        let r = LmUsage { input_tokens: None, output_tokens: None, details: Vec::new() };
        proof {
            assert(r.deep_view() =~= no_usage());
        }
        r
    }
}

impl LmUsage {
    /// So many tokens in, so many out.
    pub fn counted(input_tokens: u32, output_tokens: u32) -> (r: LmUsage)
        ensures
            r.deep_view() == (UsageModel {
                input_tokens: Some(input_tokens as u64),
                output_tokens: Some(output_tokens as u64),
                details: Seq::empty(),
            }),
    {
        let r = LmUsage {
            input_tokens: Some(input_tokens as u64),
            output_tokens: Some(output_tokens as u64),
            details: Vec::new(),
        };
        proof {
            assert(r.details.deep_view() =~= Seq::empty());
        }
        r
    }

    /// The tokens in and out together.
    pub fn total(&self) -> (r: Option<u64>)
        ensures
            r == plus(self.input_tokens, self.output_tokens),
    {
        sum_of(self.input_tokens, self.output_tokens)
    }

    /// What two calls spent together, counter by counter.
    pub fn merge(a: Option<LmUsage>, b: Option<LmUsage>) -> (r: Option<LmUsage>)
        ensures
            r.deep_view() == merged(a.deep_view(), b.deep_view()),
    {
        match a {
            Some(x) => match b {
                Some(y) => {
                    let mut details = x.details;
                    let ghost first = details.deep_view();
                    let ghost more = y.details.deep_view();
                    let mut i: usize = 0;
                    proof {
                        assert(with_details(first, more.take(0)) == first);
                    }
                    while i < y.details.len()
                        invariant
                            i <= y.details@.len(),
                            more == y.details.deep_view(),
                            details.deep_view() == with_details(first, more.take(i as int)),
                        decreases y.details@.len() - i,
                    {
                        proof {
                            assert(more.take(i + 1).drop_last() =~= more.take(i as int));
                            assert(more.take(i + 1).last() == (
                                y.details@[i as int].0@,
                                y.details@[i as int].1,
                            ));
                        }
                        let name = y.details[i].0.clone();
                        let count = y.details[i].1;
                        let together = match get(&details, name.as_str()) {
                            Some(held) => Count { tokens: sum(held.tokens, count.tokens) },
                            None => count,
                        };
                        insert(&mut details, name, together);
                        i = i + 1;
                    }
                    proof {
                        assert(more.take(i as int) =~= more);
                    }
                    Some(
                        LmUsage {
                            input_tokens: sum_of(x.input_tokens, y.input_tokens),
                            output_tokens: sum_of(x.output_tokens, y.output_tokens),
                            details,
                        },
                    )
                },
                None => Some(x),
            },
            None => b,
        }
    }
}

/// What was spent, by model.
#[derive(Debug)]
pub struct UsageTracker {
    pub by_model: Vec<(String, LmUsage)>,
}

impl DeepView for UsageTracker {
    type V = Seq<(Seq<char>, UsageModel)>;

    open spec fn deep_view(&self) -> Seq<(Seq<char>, UsageModel)> {
        self.by_model.deep_view()
    }
}

impl Duplicate for UsageTracker {
    fn duplicate(&self) -> (r: Self) {
        UsageTracker { by_model: self.by_model.duplicate() }
    }
}

/// What a model was charged with so far.
pub open spec fn charged(totals: Seq<(Seq<char>, UsageModel)>, model: Seq<char>) -> UsageModel {
    match lookup(totals, model) {
        Some(usage) => usage,
        None => no_usage(),
    }
}

/// The totals with one more call charged to a model.
pub open spec fn added(
    totals: Seq<(Seq<char>, UsageModel)>,
    model: Seq<char>,
    usage: UsageModel,
) -> Seq<(Seq<char>, UsageModel)> {
    filed(totals, model, together(charged(totals, model), usage))
}

/// What all models were charged with together.
pub open spec fn grand_total(totals: Seq<(Seq<char>, UsageModel)>) -> Option<UsageModel>
    decreases totals.len(),
{
    if totals.len() == 0 {
        None
    } else {
        merged(grand_total(totals.drop_last()), Some(totals.last().1))
    }
}

/// [`grand_total`], nothing charged counting as nothing spent.
pub open spec fn spent(totals: Seq<(Seq<char>, UsageModel)>) -> UsageModel {
    match grand_total(totals) {
        Some(usage) => usage,
        None => no_usage(),
    }
}

impl Default for UsageTracker {
    fn default() -> (r: Self)
        ensures
            r.deep_view() == Seq::<(Seq<char>, UsageModel)>::empty(),
    {
        let r = UsageTracker { by_model: Vec::new() };
        proof {
            assert(r.deep_view() =~= Seq::<(Seq<char>, UsageModel)>::empty());
        }
        r
    }
}

impl UsageTracker {
    /// Charges one call to a model.
    pub fn add(&mut self, model: &str, usage: LmUsage)
        ensures
            final(self).deep_view() == added(old(self).deep_view(), model@, usage.deep_view()),
    {
        let running = match get(&self.by_model, model) {
            Some(held) => held.duplicate(),
            None => LmUsage::default(),
        };
        let merged = LmUsage::merge(Some(running), Some(usage));
        if let Some(total) = merged {
            file(&mut self.by_model, model.to_owned(), total);
        }
    }

    /// What each model was charged with, in the order of the models' names.
    pub fn by_model(&self) -> (r: Vec<(String, LmUsage)>)
        ensures
            r.deep_view() == self.deep_view(),
    {
        self.by_model.duplicate()
    }

    /// What was spent across every model.
    pub fn total(&self) -> (r: LmUsage)
        ensures
            r.deep_view() == spent(self.deep_view()),
    {
        let ghost model = self.deep_view();
        let mut running: Option<LmUsage> = None;
        let mut i: usize = 0;
        while i < self.by_model.len()
            invariant
                i <= self.by_model@.len(),
                model == self.deep_view(),
                running.deep_view() == grand_total(model.take(i as int)),
            decreases self.by_model@.len() - i,
        {
            proof {
                assert(model.take(i + 1).drop_last() =~= model.take(i as int));
                assert(model.take(i + 1).last().1 == self.by_model@[i as int].1.deep_view());
            }
            running = LmUsage::merge(running, Some(self.by_model[i].1.duplicate()));
            i = i + 1;
        }
        proof {
            assert(model.take(i as int) =~= model);
        }
        match running {
            Some(usage) => usage,
            None => LmUsage::default(),
        }
    }

    /// Whether nothing was charged yet.
    pub fn is_empty(&self) -> (r: bool)
        ensures
            r == (self.deep_view().len() == 0),
    {
        self.by_model.len() == 0
    }
}

/// Counting for one operation.
#[derive(Debug)]
pub struct UsageScope {
    pub tracker: UsageTracker,
}

impl DeepView for UsageScope {
    type V = Seq<(Seq<char>, UsageModel)>;

    open spec fn deep_view(&self) -> Seq<(Seq<char>, UsageModel)> {
        self.tracker.deep_view()
    }
}

/// A scope that has counted nothing.
pub fn scoped() -> (r: UsageScope)
    ensures
        r.deep_view() == Seq::<(Seq<char>, UsageModel)>::empty(),
{
    UsageScope { tracker: UsageTracker::default() }
}

impl UsageScope {
    pub fn tracker(&self) -> (r: &UsageTracker)
        ensures
            r.deep_view() == self.deep_view(),
    {
        &self.tracker
    }

    /// What the scope has counted so far.
    pub fn total(&self) -> (r: LmUsage)
        ensures
            r.deep_view() == spent(self.deep_view()),
    {
        self.tracker.total()
    }
}

/// Counting for the whole process.
#[derive(Debug)]
pub struct Tracking {
    pub tracker: UsageTracker,
}

impl DeepView for Tracking {
    type V = Seq<(Seq<char>, UsageModel)>;

    open spec fn deep_view(&self) -> Seq<(Seq<char>, UsageModel)> {
        self.tracker.deep_view()
    }
}

impl Tracking {
    pub fn tracker(&self) -> (r: &UsageTracker)
        ensures
            r.deep_view() == self.deep_view(),
    {
        &self.tracker
    }

    /// What was counted so far.
    pub fn total(&self) -> (r: LmUsage)
        ensures
            r.deep_view() == spent(self.deep_view()),
    {
        self.tracker.total()
    }
}

/// Who is counting.
#[derive(Debug)]
pub struct Ledger {
    /// The operation under way.
    pub scoped: Option<UsageScope>,
    /// The process.
    pub installed: Option<Tracking>,
}

/// What a [`Ledger`] holds.
#[verifier::ext_equal]
pub struct LedgerModel {
    pub scoped: Option<Seq<(Seq<char>, UsageModel)>>,
    pub installed: Option<Seq<(Seq<char>, UsageModel)>>,
}

impl DeepView for Ledger {
    type V = LedgerModel;

    open spec fn deep_view(&self) -> LedgerModel {
        LedgerModel { scoped: self.scoped.deep_view(), installed: self.installed.deep_view() }
    }
}

impl LedgerModel {
    /// A call was made: it is charged to the scope where there is one, or else to the process, or
    /// else to nothing. A call that spent nothing is charged to nobody.
    pub open spec fn recorded(self, model: Seq<char>, spend: Option<UsageModel>) -> LedgerModel {
        match spend {
            None => self,
            Some(usage) => match self.scoped {
                Some(totals) => LedgerModel {
                    scoped: Some(added(totals, model, usage)),
                    ..self
                },
                None => match self.installed {
                    Some(totals) => LedgerModel {
                        installed: Some(added(totals, model, usage)),
                        ..self
                    },
                    None => self,
                },
            },
        }
    }
}

impl Default for Ledger {
    fn default() -> (r: Self)
        ensures
            r.deep_view() == (LedgerModel { scoped: None, installed: None }),
    {
        Ledger { scoped: None, installed: None }
    }
}

/// Starts counting for the process, from nothing.
pub fn track(ledger: &mut Ledger)
    ensures
        final(ledger).deep_view() == (LedgerModel {
            installed: Some(Seq::empty()),
            ..old(ledger).deep_view()
        }),
{
    ledger.installed = Some(Tracking { tracker: UsageTracker::default() });
}

/// Charges a call to whoever is counting.
pub fn record(ledger: &mut Ledger, model: &str, spend: Option<LmUsage>)
    ensures
        final(ledger).deep_view() == old(ledger).deep_view().recorded(model@, spend.deep_view()),
{
    if let Some(usage) = spend {
        let mut held: Option<UsageScope> = None;
        std::mem::swap(&mut held, &mut ledger.scoped);
        match held {
            Some(mut scope) => {
                scope.tracker.add(model, usage);
                ledger.scoped = Some(scope);
            },
            None => {
                let mut counting: Option<Tracking> = None;
                std::mem::swap(&mut counting, &mut ledger.installed);
                if let Some(mut tracking) = counting {
                    tracking.tracker.add(model, usage);
                    ledger.installed = Some(tracking);
                }
            },
        }
    }
}

impl Ledger {
    /// Stops counting for the process, and hands back what was counted.
    pub fn untrack(&mut self) -> (r: Option<Tracking>)
        ensures
            r.deep_view() == old(self).deep_view().installed,
            final(self).deep_view() == (LedgerModel {
                installed: None,
                ..old(self).deep_view()
            }),
    {
        let mut counting: Option<Tracking> = None;
        std::mem::swap(&mut counting, &mut self.installed);
        counting
    }

    /// Puts a scope in force and takes the one that was out, which is how an operation is entered
    /// and left.
    pub fn exchange(&mut self, held: &mut Option<UsageScope>)
        ensures
            final(held).deep_view() == old(self).deep_view().scoped,
            final(self).deep_view() == (LedgerModel {
                scoped: old(held).deep_view(),
                ..old(self).deep_view()
            }),
    {
        std::mem::swap(held, &mut self.scoped);
    }
}

/// A call is charged to its own model and to no other: every other model's total stays as it was,
/// and the models stay in order.
pub proof fn law_each_model_is_totalled_on_its_own(
    totals: Seq<(Seq<char>, UsageModel)>,
    model: Seq<char>,
    usage: UsageModel,
    other: Seq<char>,
)
    requires
        ascending(totals),
    ensures
        ascending(added(totals, model, usage)),
        charged(added(totals, model, usage), model) == together(charged(totals, model), usage),
        other != model ==> charged(added(totals, model, usage), other) == charged(totals, other),
{
    law_filing_keeps_the_order(
        totals,
        model,
        together(charged(totals, model), usage),
        other,
    );
}

/// A scope counts only what is charged while it is in force: with a scope in force the process's
/// total does not move, and with nobody counting nothing does.
pub proof fn law_a_call_is_charged_once(
    ledger: LedgerModel,
    model: Seq<char>,
    spend: Option<UsageModel>,
)
    ensures
        ledger.scoped is Some ==> ledger.recorded(model, spend).installed == ledger.installed,
        ledger.scoped is None ==> ledger.recorded(model, spend).scoped is None,
        ledger.scoped is None && ledger.installed is None ==> ledger.recorded(model, spend)
            == ledger,
        spend is None ==> ledger.recorded(model, spend) == ledger,
{
}

/// One of the counters of a usage.
pub enum Counter {
    Input,
    Output,
    /// One that goes by a name.
    Detail { name: Seq<char> },
}

/// What a counter of a usage stands at, where it was reported.
pub open spec fn counter(usage: UsageModel, which: Counter) -> Option<u64> {
    match which {
        Counter::Input => usage.input_tokens,
        Counter::Output => usage.output_tokens,
        Counter::Detail { name } => match lookup(usage.details, name) {
            Some(count) => Some(count.tokens),
            None => None,
        },
    }
}

/// One counter of all these entries together.
pub open spec fn counter_sum(entries: Seq<(Seq<char>, UsageModel)>, which: Counter) -> Option<u64>
    decreases entries.len(),
{
    if entries.len() == 0 {
        None
    } else {
        plus(counter_sum(entries.drop_last(), which), counter(entries.last().1, which))
    }
}

/// Whether no usage among the entries reports a counter twice.
pub open spec fn counted_once(entries: Seq<(Seq<char>, UsageModel)>) -> bool {
    forall|i: int| 0 <= i < entries.len() ==> distinct((#[trigger] entries[i]).1.details)
}

/// The totals after these calls were charged, one after another, with nothing charged before.
pub open spec fn tally(charges: Seq<(Seq<char>, UsageModel)>) -> Seq<(Seq<char>, UsageModel)>
    decreases charges.len(),
{
    if charges.len() == 0 {
        Seq::empty()
    } else {
        added(tally(charges.drop_last()), charges.last().0, charges.last().1)
    }
}

proof fn lemma_lookup_last(entries: Seq<(Seq<char>, Count)>, name: Seq<char>)
    requires
        entries.len() > 0,
        distinct(entries),
    ensures
        distinct(entries.drop_last()),
        lookup(entries, name) == if name == entries.last().0 {
            Some(entries.last().1)
        } else {
            lookup(entries.drop_last(), name)
        },
        name == entries.last().0 ==> lookup(entries.drop_last(), name) is None,
{
    let before = entries.drop_last();
    let last = entries.len() - 1;
    assert(entries[last] == entries.last());
    assert forall|i: int, j: int| 0 <= i < j < before.len() implies (#[trigger] before[i]).0 != (
    #[trigger] before[j]).0 by {
        assert(entries[i].0 != entries[j].0);
    }
    lemma_slot(before, name);
    if name == entries.last().0 {
        assert forall|j: int| 0 <= j < last implies (#[trigger] entries[j]).0 != name by {
            assert(entries[j].0 != entries[last].0);
        }
        lemma_slot_unique(entries, name, last);
        if slot(before, name) < before.len() {
            assert(entries[slot(before, name)].0 != entries[last].0);
        }
    } else if has(before, name) {
        lemma_slot_unique(entries, name, slot(before, name));
    } else {
        lemma_slot(entries, name);
        let at = slot(entries, name);
        if at < entries.len() {
            if at < last {
                assert(before[at].0 == name);
            }
        }
    }
}

proof fn lemma_details_add_up(
    details: Seq<(Seq<char>, Count)>,
    more: Seq<(Seq<char>, Count)>,
    name: Seq<char>,
)
    requires
        distinct(more),
    ensures
        ({
            let tokens = |found: Option<Count>|
                match found {
                    Some(count) => Some(count.tokens),
                    None => None,
                };
            tokens(lookup(with_details(details, more), name)) == plus(
                tokens(lookup(details, name)),
                tokens(lookup(more, name)),
            )
        }),
        distinct(details) ==> distinct(with_details(details, more)),
    decreases more.len(),
{
    if more.len() > 0 {
        let before = with_details(details, more.drop_last());
        let (last, count) = more.last();
        let value = match lookup(before, last) {
            Some(held) => Count { tokens: capped(held.tokens as nat, count.tokens as nat) },
            None => count,
        };
        lemma_lookup_last(more, name);
        lemma_details_add_up(details, more.drop_last(), name);
        law_put_then_lookup(before, last, value, name);
        if distinct(details) {
            law_put_keeps_distinct(before, last, value);
        }
    } else {
        lemma_slot(more, name);
    }
}

proof fn lemma_together_adds_up(a: UsageModel, b: UsageModel, which: Counter)
    requires
        distinct(b.details),
    ensures
        counter(together(a, b), which) == plus(counter(a, which), counter(b, which)),
        distinct(a.details) ==> distinct(together(a, b).details),
{
    match which {
        Counter::Detail { name } => {
            lemma_details_add_up(a.details, b.details, name);
        },
        _ => {
            lemma_details_add_up(a.details, b.details, Seq::empty());
        },
    }
}

proof fn lemma_spent_sums(totals: Seq<(Seq<char>, UsageModel)>, which: Counter)
    requires
        counted_once(totals),
    ensures
        counter(spent(totals), which) == counter_sum(totals, which),
        totals.len() > 0 ==> grand_total(totals) is Some,
    decreases totals.len(),
{
    if totals.len() > 0 {
        let before = totals.drop_last();
        assert forall|i: int| 0 <= i < before.len() implies distinct(
            (#[trigger] before[i]).1.details,
        ) by {
            assert(distinct(totals[i].1.details));
        }
        assert(distinct(totals[totals.len() - 1].1.details));
        lemma_spent_sums(before, which);
        if before.len() > 0 {
            lemma_together_adds_up(grand_total(before)->0, totals.last().1, which);
        } else {
            lemma_slot(no_usage().details, Seq::empty());
        }
    } else {
        lemma_nothing_is_counted(which);
    }
}

proof fn lemma_nothing_is_counted(which: Counter)
    ensures
        counter(no_usage(), which) is None,
{
    match which {
        Counter::Detail { name } => {
            lemma_slot(no_usage().details, name);
        },
        _ => {},
    }
}

proof fn lemma_insert_sums(
    totals: Seq<(Seq<char>, UsageModel)>,
    at: int,
    entry: (Seq<char>, UsageModel),
    which: Counter,
)
    requires
        0 <= at <= totals.len(),
    ensures
        counter_sum(totals.insert(at, entry), which) == plus(
            counter_sum(totals, which),
            counter(entry.1, which),
        ),
    decreases totals.len(),
{
    let after = totals.insert(at, entry);
    if at == totals.len() {
        assert(after.drop_last() =~= totals);
    } else {
        let before = totals.drop_last();
        lemma_insert_sums(before, at, entry, which);
        assert(after.drop_last() =~= before.insert(at, entry));
        assert(after.last() == totals.last());
    }
}

proof fn lemma_update_sums(
    totals: Seq<(Seq<char>, UsageModel)>,
    at: int,
    name: Seq<char>,
    usage: UsageModel,
    which: Counter,
)
    requires
        0 <= at < totals.len(),
        distinct(usage.details),
    ensures
        counter_sum(totals.update(at, (name, together(totals[at].1, usage))), which) == plus(
            counter_sum(totals, which),
            counter(usage, which),
        ),
    decreases totals.len(),
{
    let entry = (name, together(totals[at].1, usage));
    let after = totals.update(at, entry);
    let before = totals.drop_last();
    if at == totals.len() - 1 {
        assert(after.drop_last() =~= before);
        lemma_together_adds_up(totals[at].1, usage, which);
    } else {
        lemma_update_sums(before, at, name, usage, which);
        assert(after.drop_last() =~= before.update(at, entry));
        assert(after.last() == totals.last());
    }
}

/// A scope totals every call charged to it: charging one more adds each of its counters to what was
/// spent, whichever model it is charged to.
pub proof fn law_a_charge_adds_to_the_total(
    totals: Seq<(Seq<char>, UsageModel)>,
    model: Seq<char>,
    usage: UsageModel,
    which: Counter,
)
    requires
        ascending(totals),
        counted_once(totals),
        distinct(usage.details),
    ensures
        counter(spent(added(totals, model, usage)), which) == plus(
            counter(spent(totals), which),
            counter(usage, which),
        ),
        ascending(added(totals, model, usage)),
        counted_once(added(totals, model, usage)),
{
    let after = added(totals, model, usage);
    let at = position(totals, model);
    lemma_position(totals, model);
    law_filing_keeps_the_order(totals, model, together(charged(totals, model), usage), model);
    lemma_spent_sums(totals, which);
    lemma_nothing_is_counted(which);
    let replaced = at < totals.len() && totals[at].0 == model;
    if replaced {
        crate::sorted::lemma_found(totals, at);
        assert(distinct(totals[at].1.details));
        lemma_update_sums(totals, at, model, usage, which);
        lemma_together_adds_up(totals[at].1, usage, which);
    } else {
        crate::sorted::lemma_absent(totals, model);
        lemma_insert_sums(totals, at, (model, together(no_usage(), usage)), which);
        lemma_together_adds_up(no_usage(), usage, which);
    }
    assert forall|i: int| 0 <= i < after.len() implies distinct(
        (#[trigger] after[i]).1.details,
    ) by {
        if i != at {
            let back = if replaced || i < at {
                i
            } else {
                i - 1
            };
            assert(after[i] == totals[back]);
            assert(distinct(totals[back].1.details));
        }
    }
    lemma_spent_sums(after, which);
}

/// What a scope spent is, counter by counter, the sum of every call that was charged to it,
/// whichever models they were charged to; and nothing where none was.
pub proof fn law_the_total_is_the_sum_of_every_charge(
    charges: Seq<(Seq<char>, UsageModel)>,
    which: Counter,
)
    requires
        counted_once(charges),
    ensures
        counter(spent(tally(charges)), which) == counter_sum(charges, which),
        charges.len() == 0 ==> spent(tally(charges)) == no_usage(),
        ascending(tally(charges)),
        counted_once(tally(charges)),
    decreases charges.len(),
{
    if charges.len() == 0 {
        lemma_nothing_is_counted(which);
    } else {
        let before = charges.drop_last();
        assert forall|i: int| 0 <= i < before.len() implies distinct(
            (#[trigger] before[i]).1.details,
        ) by {
            assert(distinct(charges[i].1.details));
        }
        assert(distinct(charges[charges.len() - 1].1.details));
        law_the_total_is_the_sum_of_every_charge(before, which);
        law_a_charge_adds_to_the_total(
            tally(before),
            charges.last().0,
            charges.last().1,
            which,
        );
    }
}

/// Counters add up as numbers do, up to the largest there is; an absent one adds nothing and stays
/// absent only beside another.
pub proof fn law_counters_add_up(a: u64, b: u64)
    ensures
        a + b <= u64::MAX ==> plus(Some(a), Some(b)) == Some((a + b) as u64),
        a + b > u64::MAX ==> plus(Some(a), Some(b)) == Some(u64::MAX),
        plus(Some(a), None) == Some(a),
        plus(None, Some(b)) == Some(b),
        plus(None, None) == None::<u64>,
{
}

/// A call that spent something is charged in full: to the scope in force, or else to the process
/// where it counts.
pub proof fn law_a_call_is_charged_in_full(
    ledger: LedgerModel,
    model: Seq<char>,
    usage: UsageModel,
)
    ensures
        ledger.scoped matches Some(totals) ==> ledger.recorded(model, Some(usage)).scoped == Some(
            added(totals, model, usage),
        ),
        ledger.scoped is None && ledger.installed is Some ==> ledger.recorded(
            model,
            Some(usage),
        ).installed == Some(added(ledger.installed->0, model, usage)),
{
}

/// Two usages together hold, counter by counter, the sum of the two.
pub proof fn law_two_usages_add_up(a: UsageModel, b: UsageModel, which: Counter)
    requires
        distinct(a.details),
        distinct(b.details),
    ensures
        counter(together(a, b), which) == plus(counter(a, which), counter(b, which)),
        merged(Some(a), Some(b)) == Some(together(a, b)),
        merged(Some(a), None) == Some(a),
        merged(None, Some(b)) == Some(b),
{
    lemma_together_adds_up(a, b, which);
}

/// One entry more adds its counters to the sum.
pub proof fn law_one_entry_more_adds_its_counters(
    entries: Seq<(Seq<char>, UsageModel)>,
    entry: (Seq<char>, UsageModel),
    which: Counter,
)
    ensures
        counter_sum(Seq::empty(), which) is None,
        counter_sum(entries.push(entry), which) == plus(
            counter_sum(entries, which),
            counter(entry.1, which),
        ),
{
    assert(entries.push(entry).drop_last() =~= entries);
}

} // verus!
