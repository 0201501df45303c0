//! What a listener is told: that a call started, with what it was given, and that it ended, with
//! what it answered or why it failed.
use vstd::prelude::*;
use crate::duplicate::Duplicate;
use crate::example::{Example, ExampleModel, Prediction, PredictionModel, Value, ValueModel};
use crate::lm::turn::{ChatTurn, TurnModel};
use crate::observe::evaluating::{Evaluation, EvaluationModel, Pass};
use crate::observe::interpreter::InterpreterLifecycle;
use crate::signature::{Signature, SignatureModel};

verus! {

/// The points that are told of, each with a handler for its start and one for its end.
#[derive(Clone, Copy, Debug, PartialEq, Eq, Structural)]
pub enum Point {
    Module,
    Lm,
    Tool,
    AdapterFormat,
    AdapterParse,
    Evaluate,
    Compile,
    InterpreterExecute,
    InterpreterToolCall,
    InterpreterStartup,
    InterpreterShutdown,
}

/// What a call was given.
#[derive(Debug)]
#[allow(inconsistent_fields)]
pub enum Given {
    Module { kind: String, inputs: Example },
    Lm { model: String, request: String },
    Tool { tool: String, args: Value },
    AdapterFormat {
        adapter: String,
        signature: Signature,
        demos: Vec<Example>,
        inputs: Vec<(String, Value)>,
    },
    AdapterParse { adapter: String, raw: String },
    Evaluate { devset: Vec<Example>, threads: usize, pass: Option<Pass> },
    Compile { optimizer: String, trainset: Vec<Example>, valset: Option<Vec<Example>> },
    InterpreterExecute { interpreter: String, code: String },
    InterpreterToolCall { tool: String, args: Value },
    InterpreterLifecycle { end: InterpreterLifecycle, interpreter: String },
}

/// What a [`Given`] holds.
#[verifier::ext_equal]
#[allow(inconsistent_fields)]
pub enum GivenModel {
    Module { kind: Seq<char>, inputs: ExampleModel },
    Lm { model: Seq<char>, request: Seq<char> },
    Tool { tool: Seq<char>, args: ValueModel },
    AdapterFormat {
        adapter: Seq<char>,
        signature: SignatureModel,
        demos: Seq<ExampleModel>,
        inputs: Seq<(Seq<char>, ValueModel)>,
    },
    AdapterParse { adapter: Seq<char>, raw: Seq<char> },
    Evaluate { devset: Seq<ExampleModel>, threads: usize, pass: Option<Pass> },
    Compile {
        optimizer: Seq<char>,
        trainset: Seq<ExampleModel>,
        valset: Option<Seq<ExampleModel>>,
    },
    InterpreterExecute { interpreter: Seq<char>, code: Seq<char> },
    InterpreterToolCall { tool: Seq<char>, args: ValueModel },
    InterpreterLifecycle { end: InterpreterLifecycle, interpreter: Seq<char> },
}

impl DeepView for Given {
    type V = GivenModel;

    open spec fn deep_view(&self) -> GivenModel {
        match *self {
            Given::Module { kind, inputs } => GivenModel::Module {
                kind: kind@,
                inputs: inputs.deep_view(),
            },
            Given::Lm { model, request } => GivenModel::Lm { model: model@, request: request@ },
            Given::Tool { tool, args } => GivenModel::Tool { tool: tool@, args: args.deep_view() },
            Given::AdapterFormat { adapter, signature, demos, inputs } => GivenModel::AdapterFormat {
                adapter: adapter@,
                signature: signature.deep_view(),
                demos: demos.deep_view(),
                inputs: inputs.deep_view(),
            },
            Given::AdapterParse { adapter, raw } => GivenModel::AdapterParse {
                adapter: adapter@,
                raw: raw@,
            },
            Given::Evaluate { devset, threads, pass } => GivenModel::Evaluate {
                devset: devset.deep_view(),
                threads,
                pass,
            },
            Given::Compile { optimizer, trainset, valset } => GivenModel::Compile {
                optimizer: optimizer@,
                trainset: trainset.deep_view(),
                valset: valset.deep_view(),
            },
            Given::InterpreterExecute { interpreter, code } => GivenModel::InterpreterExecute {
                interpreter: interpreter@,
                code: code@,
            },
            Given::InterpreterToolCall { tool, args } => GivenModel::InterpreterToolCall {
                tool: tool@,
                args: args.deep_view(),
            },
            Given::InterpreterLifecycle { end, interpreter } => GivenModel::InterpreterLifecycle {
                end,
                interpreter: interpreter@,
            },
        }
    }
}

impl Duplicate for Given {
    fn duplicate(&self) -> (r: Self) {
        match self {
            Given::Module { kind, inputs } => Given::Module {
                kind: kind.clone(),
                inputs: inputs.duplicate(),
            },
            Given::Lm { model, request } => Given::Lm {
                model: model.clone(),
                request: request.clone(),
            },
            Given::Tool { tool, args } => Given::Tool {
                tool: tool.clone(),
                args: args.duplicate(),
            },
            Given::AdapterFormat { adapter, signature, demos, inputs } => Given::AdapterFormat {
                adapter: adapter.clone(),
                signature: signature.duplicate(),
                demos: demos.duplicate(),
                inputs: inputs.duplicate(),
            },
            Given::AdapterParse { adapter, raw } => Given::AdapterParse {
                adapter: adapter.clone(),
                raw: raw.clone(),
            },
            Given::Evaluate { devset, threads, pass } => Given::Evaluate {
                devset: devset.duplicate(),
                threads: *threads,
                pass: *pass,
            },
            Given::Compile { optimizer, trainset, valset } => Given::Compile {
                optimizer: optimizer.clone(),
                trainset: trainset.duplicate(),
                valset: valset.duplicate(),
            },
            Given::InterpreterExecute { interpreter, code } => Given::InterpreterExecute {
                interpreter: interpreter.clone(),
                code: code.clone(),
            },
            Given::InterpreterToolCall { tool, args } => Given::InterpreterToolCall {
                tool: tool.clone(),
                args: args.duplicate(),
            },
            Given::InterpreterLifecycle { end, interpreter } => Given::InterpreterLifecycle {
                end: *end,
                interpreter: interpreter.clone(),
            },
        }
    }
}

/// What a call answered.
#[derive(Debug)]
pub enum Answer {
    /// A module's prediction.
    Predicted(Prediction),
    /// A model's reply, as it may be shown.
    Replied(String),
    /// A tool's result, or the fields read from a reply.
    Returned(Value),
    /// A rendered prompt.
    Rendered { system: String, turns: Vec<ChatTurn> },
    /// What an evaluation found.
    Evaluated(Evaluation),
    /// What code came to, in words.
    Executed(String),
    /// Nothing beyond having finished.
    Done,
}

/// What an [`Answer`] holds.
#[verifier::ext_equal]
pub enum AnswerModel {
    Predicted(PredictionModel),
    Replied(Seq<char>),
    Returned(ValueModel),
    Rendered { system: Seq<char>, turns: Seq<TurnModel> },
    Evaluated(EvaluationModel),
    Executed(Seq<char>),
    Done,
}

impl DeepView for Answer {
    type V = AnswerModel;

    open spec fn deep_view(&self) -> AnswerModel {
        match *self {
            Answer::Predicted(prediction) => AnswerModel::Predicted(prediction.deep_view()),
            Answer::Replied(text) => AnswerModel::Replied(text@),
            Answer::Returned(value) => AnswerModel::Returned(value.deep_view()),
            Answer::Rendered { system, turns } => AnswerModel::Rendered {
                system: system@,
                turns: turns.deep_view(),
            },
            Answer::Evaluated(found) => AnswerModel::Evaluated(found.deep_view()),
            Answer::Executed(text) => AnswerModel::Executed(text@),
            Answer::Done => AnswerModel::Done,
        }
    }
}

impl Duplicate for Answer {
    fn duplicate(&self) -> (r: Self) {
        match self {
            Answer::Predicted(prediction) => Answer::Predicted(prediction.duplicate()),
            Answer::Replied(text) => Answer::Replied(text.clone()),
            Answer::Returned(value) => Answer::Returned(value.duplicate()),
            Answer::Rendered { system, turns } => Answer::Rendered {
                system: system.clone(),
                turns: turns.duplicate(),
            },
            Answer::Evaluated(found) => Answer::Evaluated(found.duplicate()),
            Answer::Executed(text) => Answer::Executed(text.clone()),
            Answer::Done => Answer::Done,
        }
    }
}

/// How a call came out: what it answered, or why it failed.
#[verifier::ext_equal]
pub enum OutcomeModel {
    Answered(AnswerModel),
    Failed(Seq<char>),
}

/// The outcome that an answer or an error stands for.
pub open spec fn outcome(answered: Result<Answer, String>) -> OutcomeModel {
    match answered {
        Ok(answer) => OutcomeModel::Answered(answer.deep_view()),
        Err(error) => OutcomeModel::Failed(error@),
    }
}

/// What a listener is told. The two tellings of one call carry the same call id.
#[derive(Debug)]
#[allow(inconsistent_fields)]
pub enum Telling {
    Started { call: u64, given: Given },
    Ended { call: u64, point: Point, answered: Result<Answer, String> },
}

/// What a [`Telling`] holds.
#[verifier::ext_equal]
#[allow(inconsistent_fields)]
pub enum TellingModel {
    Started { call: u64, given: GivenModel },
    Ended { call: u64, point: Point, outcome: OutcomeModel },
}

impl DeepView for Telling {
    type V = TellingModel;

    open spec fn deep_view(&self) -> TellingModel {
        match *self {
            Telling::Started { call, given } => TellingModel::Started {
                call,
                given: given.deep_view(),
            },
            Telling::Ended { call, point, answered } => TellingModel::Ended {
                call,
                point,
                outcome: outcome(answered),
            },
        }
    }
}

impl Duplicate for Telling {
    fn duplicate(&self) -> (r: Self) {
        match self {
            Telling::Started { call, given } => Telling::Started {
                call: *call,
                given: given.duplicate(),
            },
            Telling::Ended { call, point, answered } => Telling::Ended {
                call: *call,
                point: *point,
                answered: match answered {
                    Ok(answer) => Ok(answer.duplicate()),
                    Err(error) => Err(error.clone()),
                },
            },
        }
    }
}

/// One listener told one thing.
#[derive(Debug)]
pub struct Told {
    pub listener: u64,
    pub telling: Telling,
}

/// What a [`Told`] holds.
#[verifier::ext_equal]
pub struct ToldModel {
    pub listener: u64,
    pub telling: TellingModel,
}

impl DeepView for Told {
    type V = ToldModel;

    open spec fn deep_view(&self) -> ToldModel {
        ToldModel { listener: self.listener, telling: self.telling.deep_view() }
    }
}

/// Each of the listeners told one thing, once, in their order.
pub open spec fn told_to(listeners: Seq<u64>, telling: TellingModel) -> Seq<ToldModel> {
    Seq::new(listeners.len(), |i: int| ToldModel { listener: listeners[i], telling })
}

} // verus!
