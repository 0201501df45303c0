//! Watching a run: a point is opened around a piece of work, what it was given and what it
//! answered is recorded, and whoever listens is told when it starts, with what, and how it ends.
//!
//! Each point is one function that opens and closes together, so that an end cannot be skipped;
//! and nothing is rendered where nobody records it.
use vstd::prelude::*;
use vstd::string::StringExecFns;
use vstd::utf8::encode_utf8;
use crate::duplicate::{append, Duplicate};
use crate::example::{Example, ExampleModel, Prediction, Value, ValueModel};
use crate::lm::turn::ChatTurn;
use crate::observe::evaluating::{describe, described};
use crate::observe::telling::{
    outcome, told_to, Answer, AnswerModel, Given, GivenModel, OutcomeModel, Point, Telling,
    TellingModel, Told, ToldModel,
};
use crate::signature::{Signature, SignatureModel};
use crate::text::{decimal, decimal_text};

pub mod compile;
pub mod evaluating;
pub mod interpreter;
pub mod telling;

verus! {

/// Who is watching.
#[derive(Debug)]
pub struct Audience {
    /// Whether anything records what a point shows.
    pub recording: bool,
    /// The listeners in force, each by its own number.
    pub listeners: Vec<u64>,
}

/// What an [`Audience`] holds.
#[verifier::ext_equal]
pub struct AudienceModel {
    pub recording: bool,
    pub listeners: Seq<u64>,
}

impl DeepView for Audience {
    type V = AudienceModel;

    open spec fn deep_view(&self) -> AudienceModel {
        AudienceModel { recording: self.recording, listeners: self.listeners@ }
    }
}

/// One point, open: the call it identifies, who watches it, and what they have seen of it.
#[derive(Debug)]
pub struct Watch {
    /// The call's id, which its start and its end are told under.
    pub call: u64,
    pub point: String,
    pub recording: bool,
    /// The listeners in force.
    pub listeners: Vec<u64>,
    /// The listeners of the instance called, beside those.
    pub instance: Vec<u64>,
    /// What was recorded, in order.
    pub fields: Vec<(String, String)>,
    /// What the listeners were told, in order.
    pub told: Vec<Told>,
}

/// What a [`Watch`] holds.
#[verifier::ext_equal]
pub struct WatchModel {
    pub call: u64,
    pub point: Seq<char>,
    pub recording: bool,
    pub listeners: Seq<u64>,
    pub instance: Seq<u64>,
    pub fields: Seq<(Seq<char>, Seq<char>)>,
    pub told: Seq<ToldModel>,
}

impl DeepView for Watch {
    type V = WatchModel;

    open spec fn deep_view(&self) -> WatchModel {
        WatchModel {
            call: self.call,
            point: self.point@,
            recording: self.recording,
            listeners: self.listeners@,
            instance: self.instance@,
            fields: self.fields.deep_view(),
            told: self.told.deep_view(),
        }
    }
}

/// A point just opened.
pub open spec fn opened(point: Seq<char>, call: u64, audience: AudienceModel) -> WatchModel {
    WatchModel {
        call,
        point,
        recording: audience.recording,
        listeners: audience.listeners,
        instance: Seq::empty(),
        fields: Seq::empty(),
        told: Seq::empty(),
    }
}

impl WatchModel {
    /// Everyone who is told of this point: the listeners in force, and the instance's own.
    pub open spec fn hearers(self) -> Seq<u64> {
        self.listeners + self.instance
    }

    /// One more thing recorded, where anything records it.
    pub open spec fn with(self, name: Seq<char>, value: Seq<char>) -> WatchModel {
        if self.recording {
            WatchModel { fields: self.fields.push((name, value)), ..self }
        } else {
            self
        }
    }

    /// Every hearer told one more thing.
    pub open spec fn telling(self, what: TellingModel) -> WatchModel {
        WatchModel { told: self.told + told_to(self.hearers(), what), ..self }
    }

    /// Every hearer told that the call starts, with what it was given.
    pub open spec fn started(self, given: GivenModel) -> WatchModel {
        self.telling(TellingModel::Started { call: self.call, given })
    }

    /// The point closed: exactly one of what came back and what went wrong is recorded, and every
    /// hearer is told that the call ended, and how.
    pub open spec fn closed(self, point: Point, outcome: OutcomeModel) -> WatchModel {
        (match outcome {
            OutcomeModel::Answered(answer) => self.with("outputs"@, described_answer(answer)),
            OutcomeModel::Failed(error) => self.with("error"@, error),
        }).telling(TellingModel::Ended { call: self.call, point, outcome })
    }
}

impl Watch {
    /// A point just opened.
    pub fn open(point: &str, call: u64, audience: &Audience) -> (r: Watch)
        ensures
            r.deep_view() == opened(point@, call, audience.deep_view()),
    {
        let r = Watch {
            call,
            point: point.to_owned(),
            recording: audience.recording,
            listeners: audience.listeners.clone(),
            instance: Vec::new(),
            fields: Vec::new(),
            told: Vec::new(),
        };
        proof {
            assert(r.listeners@ =~= audience.listeners@);
            assert(r.deep_view() =~= opened(point@, call, audience.deep_view()));
        }
        r
    }

    /// Whether anyone is told of this point.
    pub fn is_heard(&self) -> (r: bool)
        ensures
            r == (self.deep_view().hearers().len() > 0),
    {
        self.listeners.len() > 0 || self.instance.len() > 0
    }

    /// Whether anything is recorded of this point, or anyone told of it.
    pub fn is_watched(&self) -> (r: bool)
        ensures
            r == (self.recording || self.deep_view().hearers().len() > 0),
    {
        self.recording || self.is_heard()
    }

    /// Records one thing, where anything records it.
    pub fn record(&mut self, name: &str, value: &str)
        ensures
            final(self).deep_view() == old(self).deep_view().with(name@, value@),
    {
        if self.recording {
            append(&mut self.fields, (name.to_owned(), value.to_owned()));
        }
    }

    /// Tells each hearer one thing.
    pub fn tell(&mut self, what: &Telling)
        ensures
            final(self).deep_view() == old(self).deep_view().telling(what.deep_view()),
    {
        let ghost was = self.deep_view();
        let ghost hearers = was.hearers();
        let ghost model = what.deep_view();
        let ghost all = told_to(hearers, model);
        let mut i: usize = 0;
        proof {
            assert(was.told + all.take(0) =~= was.told);
        }
        while i < self.listeners.len()
            invariant
                i <= self.listeners@.len(),
                hearers == was.hearers(),
                model == what.deep_view(),
                all == told_to(hearers, model),
                self.deep_view() == (WatchModel { told: was.told + all.take(i as int), ..was }),
            decreases self.listeners@.len() - i,
        {
            let listener: u64 = self.listeners[i];
            append(&mut self.told, Told { listener, telling: what.duplicate() });
            proof {
                assert(hearers[i as int] == listener);
                assert((was.told + all.take(i as int)).push(all[i as int]) =~= was.told + all.take(
                    i + 1,
                ));
            }
            i = i + 1;
        }
        let mut j: usize = 0;
        while j < self.instance.len()
            invariant
                j <= self.instance@.len(),
                hearers == was.hearers(),
                model == what.deep_view(),
                all == told_to(hearers, model),
                self.deep_view() == (WatchModel {
                    told: was.told + all.take(was.listeners.len() + j),
                    ..was
                }),
            decreases self.instance@.len() - j,
        {
            let listener: u64 = self.instance[j];
            append(&mut self.told, Told { listener, telling: what.duplicate() });
            proof {
                let at = was.listeners.len() + j;
                assert(hearers[at] == listener);
                assert((was.told + all.take(at)).push(all[at]) =~= was.told + all.take(at + 1));
            }
            j = j + 1;
        }
        proof {
            assert(all.take(was.listeners.len() + j) =~= all);
        }
    }

    /// Tells each hearer that the call starts, with what it was given.
    pub fn start(&mut self, given: Given)
        ensures
            final(self).deep_view() == old(self).deep_view().started(given.deep_view()),
    {
        let call: u64 = self.call;
        self.tell(&Telling::Started { call, given });
    }

    /// Records what the point was shown. Where nothing records it, it is not even rendered.
    pub fn shown<F: FnOnce() -> String>(&mut self, inputs: F)
        requires
            old(self).recording ==> inputs.requires(()),
        ensures
            old(self).recording ==> exists|text: String|
                inputs.ensures((), text) && final(self).deep_view() == (#[trigger] old(
                    self,
                ).deep_view().with("inputs"@, text@)),
            !old(self).recording ==> final(self).deep_view() == old(self).deep_view(),
    {
        if self.recording {
            let text = inputs();
            self.record("inputs", text.as_str());
        }
    }

    /// Records how the point came out: what it answered, described, or why it failed. Where
    /// nothing records it, it is not even described.
    pub fn finished<T, D: FnOnce(&T) -> String>(&mut self, answered: &Result<T, String>, describe: D)
        requires
            old(self).recording && answered is Ok ==> describe.requires((&answered->Ok_0,)),
        ensures
            !old(self).recording ==> final(self).deep_view() == old(self).deep_view(),
            old(self).recording ==> match *answered {
                Ok(outputs) => exists|text: String|
                    describe.ensures((&outputs,), text) && final(self).deep_view() == (
                    #[trigger] old(self).deep_view().with("outputs"@, text@)),
                Err(error) => final(self).deep_view() == old(self).deep_view().with(
                    "error"@,
                    error@,
                ),
            },
    {
        if self.recording {
            match answered {
                Ok(outputs) => {
                    let text = describe(outputs);
                    self.record("outputs", text.as_str());
                },
                Err(error) => {
                    self.record("error", error.as_str());
                },
            }
        }
    }

    /// Closes the point: records how the call came out, and tells each hearer that it ended.
    pub fn close(&mut self, point: Point, answered: Result<Answer, String>)
        ensures
            final(self).deep_view() == old(self).deep_view().closed(point, outcome(answered)),
    {
        let describe = |answer: &Answer| -> (said: String)
            ensures
                said@ == described_answer(answer.deep_view()),
            { describe_answer(answer) };
        self.finished(&answered, describe);
        let call: u64 = self.call;
        self.tell(&Telling::Ended { call, point, answered });
    }
}

/// Where nobody hears, a telling changes nothing; and where nothing is recorded either, no more does
/// closing the point.
pub(crate) proof fn lemma_unwatched(watch: WatchModel)
    ensures
        watch.hearers().len() == 0 ==> forall|what: TellingModel| #[trigger]
            watch.telling(what) == watch,
        watch.hearers().len() == 0 && !watch.recording ==> forall|
            point: Point,
            outcome: OutcomeModel,
        | #[trigger]
            watch.closed(point, outcome) == watch,
{
    if watch.hearers().len() == 0 {
        assert forall|what: TellingModel| #[trigger] watch.telling(what) == watch by {
            assert(watch.telling(what) =~= watch);
        }
    }
}

/// Does some work under an open point, closes the point with what came back, and hands it on. The
/// work is shown the point it is done under.
pub(crate) fn returning<W: FnOnce(&Watch) -> Result<Value, String>>(
    watch: Watch,
    point: Point,
    work: W,
) -> (r: (Result<Value, String>, Watch))
    requires
        forall|under: &Watch| work.requires((under,)),
    ensures
        exists|under: Watch| #[trigger]
            work.ensures((&under,), r.0) && under.deep_view() == watch.deep_view(),
        r.1.deep_view() == watch.deep_view().closed(point, returned(r.0)),
{
    let mut watch = watch;
    let ghost under = watch;
    let answered = work(&watch);
    proof {
        lemma_unwatched(watch.deep_view());
    }
    if watch.is_watched() {
        watch.close(
            point,
            match &answered {
                Ok(value) => Ok(Answer::Returned(value.duplicate())),
                Err(error) => Err(error.clone()),
            },
        );
    }
    let r: (Result<Value, String>, Watch) = (answered, watch);
    proof {
        assert(work.ensures((&under,), r.0));
    }
    r
}

/// The outcome of a call that answers with a value.
pub open spec fn returned(answered: Result<Value, String>) -> OutcomeModel {
    match answered {
        Ok(value) => OutcomeModel::Answered(AnswerModel::Returned(value.deep_view())),
        Err(error) => OutcomeModel::Failed(error@),
    }
}

/// A hexadecimal digit.
pub open spec fn hex_digit(d: nat) -> char {
    if d < 10 {
        crate::text::digit(d)
    } else if d == 10 {
        'a'
    } else if d == 11 {
        'b'
    } else if d == 12 {
        'c'
    } else if d == 13 {
        'd'
    } else if d == 14 {
        'e'
    } else {
        'f'
    }
}

/// A character inside a JSON string.
pub open spec fn escaped(c: char) -> Seq<char> {
    let u = c as u32;
    if u == 0x22 {
        seq!['\\', '"']
    } else if u == 0x5c {
        seq!['\\', '\\']
    } else if u == 0x08 {
        seq!['\\', 'b']
    } else if u == 0x09 {
        seq!['\\', 't']
    } else if u == 0x0a {
        seq!['\\', 'n']
    } else if u == 0x0c {
        seq!['\\', 'f']
    } else if u == 0x0d {
        seq!['\\', 'r']
    } else if u < 0x20 {
        seq!['\\', 'u', '0', '0', hex_digit((u / 16) as nat), hex_digit((u % 16) as nat)]
    } else {
        seq![c]
    }
}

/// The characters of a JSON string.
pub open spec fn escaped_text(text: Seq<char>) -> Seq<char>
    decreases text.len(),
{
    if text.len() == 0 {
        Seq::empty()
    } else {
        escaped_text(text.drop_last()) + escaped(text.last())
    }
}

/// A text as a JSON string.
pub open spec fn quoted(text: Seq<char>) -> Seq<char> {
    seq!['"'] + escaped_text(text) + seq!['"']
}

/// The `Display` form of `serde_json::Value::String`: the text between double quotes, with the
/// quote mark, the backslash and the control characters below the space escaped.
#[verifier::external_body]
pub(crate) fn json_string(text: &str) -> (r: String)
    ensures
        r@ == quoted(text@),
{
    serde_json::Value::String(text.to_owned()).to_string()
}

/// A value as JSON.
pub open spec fn json_of(value: ValueModel) -> Seq<char> {
    match value {
        ValueModel::Text(text) => quoted(text),
        ValueModel::Other { json, .. } => json,
    }
}

/// [`json_of`], computed.
pub fn value_json(value: &Value) -> (r: String)
    ensures
        r@ == json_of(value.deep_view()),
{
    match value {
        Value::Text(text) => json_string(text.as_str()),
        Value::Other { json, .. } => json.clone(),
    }
}

/// The first `n` fields of a row as the inside of a JSON object.
pub open spec fn json_fields(fields: Seq<(Seq<char>, ValueModel)>, n: nat) -> Seq<char>
    decreases n,
{
    if n == 0 {
        Seq::empty()
    } else {
        json_fields(fields, (n - 1) as nat) + (if n == 1 {
            Seq::empty()
        } else {
            ","@
        }) + quoted(fields[n - 1].0) + ":"@ + json_of(fields[n - 1].1)
    }
}

/// A row's fields as a JSON object.
pub open spec fn json_object(example: ExampleModel) -> Seq<char> {
    "{"@ + json_fields(example.fields, example.fields.len()) + "}"@
}

/// A row's fields as a JSON object, in their order.
pub fn as_json(example: &Example) -> (r: String)
    ensures
        r@ == json_object(example.deep_view()),
{
    let mut rendered: String = "{".to_owned();
    let ghost fields = example.deep_view().fields;
    let mut i: usize = 0;
    proof {
        assert("{"@ + Seq::<char>::empty() =~= "{"@);
    }
    while i < example.fields.len()
        invariant
            i <= example.fields@.len(),
            fields == example.deep_view().fields,
            rendered@ == "{"@ + json_fields(fields, i as nat),
        decreases example.fields@.len() - i,
    {
        let ghost before = json_fields(fields, i as nat);
        let ghost comma = if i == 0 {
            Seq::<char>::empty()
        } else {
            ","@
        };
        if i > 0 {
            rendered.append(",");
        }
        proof {
            assert(rendered@ =~= "{"@ + before + comma);
        }
        rendered.append(json_string(example.fields[i].0.as_str()).as_str());
        rendered.append(":");
        rendered.append(value_json(&example.fields[i].1).as_str());
        proof {
            assert(fields[i as int] == (
                example.fields@[i as int].0@,
                example.fields@[i as int].1.deep_view(),
            ));
            let name = quoted(fields[i as int].0);
            let json = json_of(fields[i as int].1);
            assert("{"@ + before + comma + name + ":"@ + json =~= "{"@ + (before + comma + name
                + ":"@ + json));
        }
        i = i + 1;
    }
    rendered.append("}");
    rendered
}

/// What is recorded of a rendered prompt: the size of the system prompt in bytes, and how many
/// turns follow it.
pub open spec fn rendering(system: Seq<char>, turns: nat) -> Seq<char> {
    "{\"system_bytes\":"@ + decimal(encode_utf8(system).len()) + ",\"turns\":"@ + decimal(turns)
        + "}"@
}

fn describe_rendering(system: &str, turns: usize) -> (r: String)
    ensures
        r@ == rendering(system@, turns as nat),
{
    let mut r: String = "{\"system_bytes\":".to_owned();
    r.append(decimal_text(system.as_bytes().len()).as_str());
    r.append(",\"turns\":");
    r.append(decimal_text(turns).as_str());
    r.append("}");
    r
}

/// What is recorded of an answer.
pub open spec fn described_answer(answer: AnswerModel) -> Seq<char> {
    match answer {
        AnswerModel::Predicted(prediction) => json_object(prediction.example),
        AnswerModel::Replied(text) => text,
        AnswerModel::Returned(value) => json_of(value),
        AnswerModel::Rendered { system, turns } => rendering(system, turns.len()),
        AnswerModel::Evaluated(found) => described(found),
        AnswerModel::Executed(text) => text,
        AnswerModel::Done => ""@,
    }
}

/// [`described_answer`], computed.
pub fn describe_answer(answer: &Answer) -> (r: String)
    ensures
        r@ == described_answer(answer.deep_view()),
{
    match answer {
        Answer::Predicted(prediction) => as_json(&prediction.example),
        Answer::Replied(text) => text.clone(),
        Answer::Returned(value) => value_json(value),
        Answer::Rendered { system, turns } => describe_rendering(system.as_str(), turns.len()),
        Answer::Evaluated(found) => describe(found),
        Answer::Executed(text) => text.clone(),
        Answer::Done => "".to_owned(),
    }
}

/// A module's run, open: what it was given is recorded, and every listener told that it starts.
pub open spec fn module_point(
    kind: Seq<char>,
    inputs: ExampleModel,
    call: u64,
    audience: AudienceModel,
) -> WatchModel {
    opened("module"@, call, audience).with("module"@, kind).with(
        "inputs"@,
        json_object(inputs),
    ).started(GivenModel::Module { kind, inputs })
}

/// A module's run, with what it was given.
pub fn module_shown(kind: &str, inputs: &Example, call: u64, audience: &Audience) -> (r: Watch)
    ensures
        r.deep_view() == module_point(kind@, inputs.deep_view(), call, audience.deep_view()),
{
    let mut watch = Watch::open("module", call, audience);
    watch.record("module", kind);
    let render = || -> (text: String)
        ensures
            text@ == json_object(inputs.deep_view()),
        { as_json(inputs) };
    watch.shown(render);
    proof {
        lemma_unwatched(watch.deep_view());
    }
    if watch.is_heard() {
        watch.start(Given::Module { kind: kind.to_owned(), inputs: inputs.duplicate() });
    }
    watch
}

/// A module's run is over: what it predicted, or why it failed.
pub fn module_ended(watch: &mut Watch, answered: &Result<Prediction, String>)
    ensures
        final(watch).deep_view() == old(watch).deep_view().closed(
            Point::Module,
            match *answered {
                Ok(prediction) => OutcomeModel::Answered(
                    AnswerModel::Predicted(prediction.deep_view()),
                ),
                Err(error) => OutcomeModel::Failed(error@),
            },
        ),
{
    proof {
        lemma_unwatched(watch.deep_view());
    }
    if watch.is_watched() {
        watch.close(
            Point::Module,
            match answered {
                Ok(prediction) => Ok(Answer::Predicted(prediction.duplicate())),
                Err(error) => Err(error.clone()),
            },
        );
    }
}

/// A call to a model, open: the model's own listeners are told beside those in force.
pub open spec fn lm_point(
    model: Seq<char>,
    request: Seq<char>,
    instance: Seq<u64>,
    call: u64,
    audience: AudienceModel,
) -> WatchModel {
    (WatchModel { instance, ..opened("lm"@, call, audience) }).with("model"@, model).with(
        "inputs"@,
        request,
    ).started(GivenModel::Lm { model, request })
}

/// A call to a model, with the request as it may be shown and the model's own listeners.
pub fn lm_shown(
    model: &str,
    request: &str,
    instance: &Vec<u64>,
    call: u64,
    audience: &Audience,
) -> (r: Watch)
    ensures
        r.deep_view() == lm_point(model@, request@, instance@, call, audience.deep_view()),
{
    let mut watch = Watch::open("lm", call, audience);
    watch.instance = instance.clone();
    proof {
        assert(watch.instance@ =~= instance@);
    }
    watch.record("model", model);
    watch.record("inputs", request);
    proof {
        lemma_unwatched(watch.deep_view());
    }
    if watch.is_heard() {
        watch.start(Given::Lm { model: model.to_owned(), request: request.to_owned() });
    }
    watch
}

/// A call to a model is over: its reply as it may be shown, or why it failed.
pub fn lm_ended(watch: &mut Watch, answered: &Result<String, String>)
    ensures
        final(watch).deep_view() == old(watch).deep_view().closed(
            Point::Lm,
            match *answered {
                Ok(reply) => OutcomeModel::Answered(AnswerModel::Replied(reply@)),
                Err(error) => OutcomeModel::Failed(error@),
            },
        ),
{
    proof {
        lemma_unwatched(watch.deep_view());
    }
    if watch.is_watched() {
        watch.close(
            Point::Lm,
            match answered {
                Ok(reply) => Ok(Answer::Replied(reply.clone())),
                Err(error) => Err(error.clone()),
            },
        );
    }
}

/// A tool call, open.
pub open spec fn tool_point(
    tool: Seq<char>,
    args: ValueModel,
    call: u64,
    audience: AudienceModel,
) -> WatchModel {
    opened("tool"@, call, audience).with("tool"@, tool).with("inputs"@, json_of(args)).started(
        GivenModel::Tool { tool, args },
    )
}

/// Runs one tool call, with its arguments and either what it returned or why it refused. The call
/// is made once, after its start was told and before its end is.
pub fn tool_call<W: FnOnce(&Watch) -> Result<Value, String>>(
    tool: &str,
    args: &Value,
    call: u64,
    audience: &Audience,
    calling: W,
) -> (r: (Result<Value, String>, Watch))
    requires
        forall|under: &Watch| calling.requires((under,)),
    ensures
        exists|under: Watch| #[trigger]
            calling.ensures((&under,), r.0) && under.deep_view() == tool_point(
                tool@,
                args.deep_view(),
                call,
                audience.deep_view(),
            ),
        r.1.deep_view() == tool_point(
            tool@,
            args.deep_view(),
            call,
            audience.deep_view(),
        ).closed(Point::Tool, returned(r.0)),
{
    let mut watch = Watch::open("tool", call, audience);
    watch.record("tool", tool);
    if watch.recording {
        watch.record("inputs", value_json(args).as_str());
    }
    proof {
        lemma_unwatched(watch.deep_view());
    }
    if watch.is_heard() {
        watch.start(Given::Tool { tool: tool.to_owned(), args: args.duplicate() });
    }
    returning(watch, Point::Tool, calling)
}

/// Reading a reply back, open.
pub open spec fn parse_point(
    adapter: Seq<char>,
    raw: Seq<char>,
    call: u64,
    audience: AudienceModel,
) -> WatchModel {
    opened("adapter"@, call, audience).with("point"@, "adapter.parse"@).with(
        "adapter"@,
        adapter,
    ).with("inputs"@, raw).started(GivenModel::AdapterParse { adapter, raw })
}

/// Reads a reply back into fields, with the reply as it came.
pub fn parsing<W: FnOnce(&Watch) -> Result<Value, String>>(
    adapter: &str,
    raw: &str,
    call: u64,
    audience: &Audience,
    reading: W,
) -> (r: (Result<Value, String>, Watch))
    requires
        forall|under: &Watch| reading.requires((under,)),
    ensures
        exists|under: Watch| #[trigger]
            reading.ensures((&under,), r.0) && under.deep_view() == parse_point(
                adapter@,
                raw@,
                call,
                audience.deep_view(),
            ),
        r.1.deep_view() == parse_point(adapter@, raw@, call, audience.deep_view()).closed(
            Point::AdapterParse,
            returned(r.0),
        ),
{
    let mut watch = Watch::open("adapter", call, audience);
    watch.record("point", "adapter.parse");
    watch.record("adapter", adapter);
    watch.record("inputs", raw);
    proof {
        lemma_unwatched(watch.deep_view());
    }
    if watch.is_heard() {
        watch.start(Given::AdapterParse { adapter: adapter.to_owned(), raw: raw.to_owned() });
    }
    returning(watch, Point::AdapterParse, reading)
}

/// Rendering a prompt, open.
pub open spec fn format_point(
    adapter: Seq<char>,
    signature: SignatureModel,
    demos: Seq<ExampleModel>,
    inputs: Seq<(Seq<char>, ValueModel)>,
    call: u64,
    audience: AudienceModel,
) -> WatchModel {
    opened("adapter"@, call, audience).with("point"@, "adapter.format"@).with(
        "adapter"@,
        adapter,
    ).started(GivenModel::AdapterFormat { adapter, signature, demos, inputs })
}

/// The outcome of rendering a prompt.
pub open spec fn rendered(answered: Result<(String, Vec<ChatTurn>), String>) -> OutcomeModel {
    match answered {
        Ok(prompt) => OutcomeModel::Answered(
            AnswerModel::Rendered { system: prompt.0@, turns: prompt.1.deep_view() },
        ),
        Err(error) => OutcomeModel::Failed(error@),
    }
}

/// Renders a prompt. The rendering is done once, after its start was told and before its end is.
pub fn formatting<W: FnOnce(&Watch) -> Result<(String, Vec<ChatTurn>), String>>(
    adapter: &str,
    signature: &Signature,
    demos: &Vec<Example>,
    inputs: &Vec<(String, Value)>,
    call: u64,
    audience: &Audience,
    render: W,
) -> (r: (Result<(String, Vec<ChatTurn>), String>, Watch))
    requires
        forall|under: &Watch| render.requires((under,)),
    ensures
        exists|under: Watch| #[trigger]
            render.ensures((&under,), r.0) && under.deep_view() == format_point(
                adapter@,
                signature.deep_view(),
                demos.deep_view(),
                inputs.deep_view(),
                call,
                audience.deep_view(),
            ),
        r.1.deep_view() == format_point(
            adapter@,
            signature.deep_view(),
            demos.deep_view(),
            inputs.deep_view(),
            call,
            audience.deep_view(),
        ).closed(Point::AdapterFormat, rendered(r.0)),
{
    let mut watch = Watch::open("adapter", call, audience);
    watch.record("point", "adapter.format");
    watch.record("adapter", adapter);
    proof {
        lemma_unwatched(watch.deep_view());
    }
    if watch.is_heard() {
        watch.start(
            Given::AdapterFormat {
                adapter: adapter.to_owned(),
                signature: signature.duplicate(),
                demos: demos.duplicate(),
                inputs: inputs.duplicate(),
            },
        );
    }
    let ghost under = watch;
    let answered = render(&watch);
    proof {
        lemma_unwatched(watch.deep_view());
    }
    if watch.is_watched() {
        watch.close(
            Point::AdapterFormat,
            match &answered {
                Ok(prompt) => Ok(
                    Answer::Rendered { system: prompt.0.clone(), turns: prompt.1.duplicate() },
                ),
                Err(error) => Err(error.clone()),
            },
        );
    }
    let r: (Result<(String, Vec<ChatTurn>), String>, Watch) = (answered, watch);
    proof {
        assert(render.ensures((&under,), r.0));
    }
    r
}

/// A point that nobody records leaves nothing recorded, and one that nobody hears leaves nothing
/// told, whatever happens under it.
pub proof fn law_nothing_is_recorded_unwatched(
    watch: WatchModel,
    given: GivenModel,
    point: Point,
    outcome: OutcomeModel,
)
    ensures
        !watch.recording ==> watch.started(given).closed(point, outcome).fields == watch.fields,
        watch.hearers().len() == 0 ==> watch.started(given).closed(point, outcome).told
            == watch.told,
{
    if watch.hearers().len() == 0 {
        assert(watch.started(given).closed(point, outcome).told =~= watch.told);
    }
}

/// Every hearer of a point is told its start once and its end once, in that order, under one call
/// id: the start with what was given, the end with how it came out, and both go to the same
/// hearers.
pub proof fn law_every_hearer_is_told_one_start_and_one_end(
    watch: WatchModel,
    given: GivenModel,
    point: Point,
    outcome: OutcomeModel,
    i: int,
)
    requires
        watch.told.len() == 0,
        0 <= i < watch.hearers().len(),
    ensures
        ({
            let told = watch.started(given).closed(point, outcome).told;
            let n = watch.hearers().len();
            &&& told.len() == 2 * n
            &&& told[i] == (ToldModel {
                listener: watch.hearers()[i],
                telling: TellingModel::Started { call: watch.call, given },
            })
            &&& told[n + i] == (ToldModel {
                listener: watch.hearers()[i],
                telling: TellingModel::Ended { call: watch.call, point, outcome },
            })
        }),
{
}

/// Where a point is recorded, exactly one of the outcome and the failure is, and last: the error in
/// its own words.
pub proof fn law_a_point_opens_and_closes_together(
    watch: WatchModel,
    given: GivenModel,
    point: Point,
    outcome: OutcomeModel,
)
    requires
        watch.recording,
    ensures
        watch.started(given).closed(point, outcome).fields.len() == watch.fields.len() + 1,
        watch.started(given).closed(point, outcome).fields.last().0 == if outcome is Answered {
            "outputs"@
        } else {
            "error"@
        },
        watch.started(given).closed(point, outcome).fields.drop_last() == watch.fields,
        outcome matches OutcomeModel::Failed(error) ==> watch.started(given).closed(
            point,
            outcome,
        ).fields.last().1 == error,
        outcome matches OutcomeModel::Answered(answer) ==> watch.started(given).closed(
            point,
            outcome,
        ).fields.last().1 == described_answer(answer),
{
    assert(watch.started(given).closed(point, outcome).fields.drop_last() =~= watch.fields);
}

/// Whether a point of this call has told each of its hearers, in their order, that it started, with
/// what it was given, and nothing else yet.
pub open spec fn is_told_of(
    watch: WatchModel,
    call: u64,
    hearers: Seq<u64>,
    given: GivenModel,
) -> bool {
    &&& watch.call == call
    &&& watch.told.len() == hearers.len()
    &&& forall|i: int|
        0 <= i < hearers.len() ==> #[trigger] watch.told[i] == (ToldModel {
            listener: hearers[i],
            telling: TellingModel::Started { call, given },
        })
}

/// A module's run is recorded under its kind with all it was given, and every listener is told so.
pub proof fn law_a_run_is_shown_whole(
    kind: Seq<char>,
    inputs: ExampleModel,
    call: u64,
    audience: AudienceModel,
)
    ensures
        ({
            let watch = module_point(kind, inputs, call, audience);
            &&& watch.point == "module"@
            &&& !audience.recording ==> watch.fields.len() == 0
            &&& audience.recording ==> watch.fields == seq![
                ("module"@, kind),
                ("inputs"@, json_object(inputs)),
            ]
            &&& is_told_of(watch, call, audience.listeners, GivenModel::Module { kind, inputs })
        }),
{
}

/// A call to a model is recorded with the request, and told to every listener in force and to every
/// one of the model's own behind them.
pub proof fn law_a_model_call_is_shown_to_all(
    model: Seq<char>,
    request: Seq<char>,
    instance: Seq<u64>,
    call: u64,
    audience: AudienceModel,
)
    ensures
        ({
            let watch = lm_point(model, request, instance, call, audience);
            &&& watch.point == "lm"@
            &&& !audience.recording ==> watch.fields.len() == 0
            &&& audience.recording ==> watch.fields == seq![
                ("model"@, model),
                ("inputs"@, request),
            ]
            &&& is_told_of(
                watch,
                call,
                audience.listeners + instance,
                GivenModel::Lm { model, request },
            )
        }),
{
}

/// A tool call is recorded with its arguments, and every listener is told so.
pub proof fn law_a_tool_call_is_shown_whole(
    tool: Seq<char>,
    args: ValueModel,
    call: u64,
    audience: AudienceModel,
)
    ensures
        ({
            let watch = tool_point(tool, args, call, audience);
            &&& watch.point == "tool"@
            &&& !audience.recording ==> watch.fields.len() == 0
            &&& audience.recording ==> watch.fields == seq![
                ("tool"@, tool),
                ("inputs"@, json_of(args)),
            ]
            &&& is_told_of(watch, call, audience.listeners, GivenModel::Tool { tool, args })
        }),
{
}

/// What an adapter reads and what it renders are told apart in the record; a reply is recorded as
/// it came, and every listener is handed the whole of what the adapter was.
pub proof fn law_an_adapters_work_is_shown_whole(
    adapter: Seq<char>,
    raw: Seq<char>,
    signature: SignatureModel,
    demos: Seq<ExampleModel>,
    inputs: Seq<(Seq<char>, ValueModel)>,
    call: u64,
    audience: AudienceModel,
)
    ensures
        ({
            let read = parse_point(adapter, raw, call, audience);
            let written = format_point(adapter, signature, demos, inputs, call, audience);
            &&& read.point == "adapter"@ && written.point == "adapter"@
            &&& !audience.recording ==> read.fields.len() == 0 && written.fields.len() == 0
            &&& audience.recording ==> read.fields == seq![
                ("point"@, "adapter.parse"@),
                ("adapter"@, adapter),
                ("inputs"@, raw),
            ]
            &&& audience.recording ==> written.fields == seq![
                ("point"@, "adapter.format"@),
                ("adapter"@, adapter),
            ]
            &&& is_told_of(
                read,
                call,
                audience.listeners,
                GivenModel::AdapterParse { adapter, raw },
            )
            &&& is_told_of(
                written,
                call,
                audience.listeners,
                GivenModel::AdapterFormat { adapter, signature, demos, inputs },
            )
        }),
{
}

proof fn lemma_json_fields_of_a_prefix(
    fields: Seq<(Seq<char>, ValueModel)>,
    more: (Seq<char>, ValueModel),
    n: nat,
)
    requires
        n <= fields.len(),
    ensures
        json_fields(fields.push(more), n) == json_fields(fields, n),
    decreases n,
{
    if n > 0 {
        lemma_json_fields_of_a_prefix(fields, more, (n - 1) as nat);
    }
}

/// Every field of a row is in its JSON object, once and in order: a row with one field more is the
/// object with that field at its end, behind a comma where there are others.
pub proof fn law_every_field_is_in_the_object(
    fields: Seq<(Seq<char>, ValueModel)>,
    name: Seq<char>,
    value: ValueModel,
    keys: Option<Seq<Seq<char>>>,
)
    ensures
        ({
            let row = ExampleModel { fields, input_keys: keys };
            let longer = ExampleModel { fields: fields.push((name, value)), input_keys: keys };
            let inside = json_fields(fields, fields.len());
            &&& json_object(row) == "{"@ + inside + "}"@
            &&& fields.len() == 0 ==> inside.len() == 0
            &&& json_object(longer) == "{"@ + (inside + (if fields.len() == 0 {
                Seq::empty()
            } else {
                ","@
            }) + quoted(name) + ":"@ + json_of(value)) + "}"@
        }),
{
    lemma_json_fields_of_a_prefix(fields, (name, value), fields.len());
}

/// A text between quote marks holds every character of it, in order: as it is, or escaped where it
/// would end the text, open an escape or not be seen.
pub proof fn law_a_quoted_text_holds_every_character(text: Seq<char>, c: char)
    ensures
        quoted(Seq::empty()) == seq!['"', '"'],
        quoted(text.push(c)) == quoted(text).drop_last() + escaped(c) + seq!['"'],
        c as u32 >= 0x20 && c != '"' && c != '\\' ==> escaped(c) == seq![c],
        c == '"' || c == '\\' ==> escaped(c) == seq!['\\', c],
        (c as u32) < 0x20 ==> escaped(c).len() >= 2 && escaped(c)[0] == '\\',
{
    assert(text.push(c).drop_last() =~= text);
    assert(quoted(Seq::empty()) =~= seq!['"', '"']);
    assert(quoted(text).drop_last() =~= seq!['"'] + escaped_text(text));
    assert(quoted(text.push(c)) =~= quoted(text).drop_last() + escaped(c) + seq!['"']);
}

/// No two characters are escaped alike, so a quoted text says which text it is.
pub proof fn law_no_two_characters_are_escaped_alike(c: char, d: char)
    ensures
        escaped(c) == escaped(d) ==> c == d,
{
    let (e, f) = (escaped(c), escaped(d));
    if e == f {
        assert(e.len() == f.len());
        assert(e[0] == f[0]);
        if e.len() > 1 {
            assert(e[1] == f[1]);
        }
        if e.len() > 2 {
            assert(e[4] == f[4]);
            assert(e[5] == f[5]);
            lemma_hex_digits_differ(((c as u32) / 16) as nat, ((d as u32) / 16) as nat);
            lemma_hex_digits_differ(((c as u32) % 16) as nat, ((d as u32) % 16) as nat);
        }
    }
}

proof fn lemma_hex_digits_differ(a: nat, b: nat)
    requires
        a < 16,
        b < 16,
        hex_digit(a) == hex_digit(b),
    ensures
        a == b,
{
}

} // verus!
