//! Watching an interpreter: one execution, one tool the code called back into, and the two ends of
//! its life.
use vstd::prelude::*;
use crate::duplicate::Duplicate;
use crate::example::{Value, ValueModel};
use crate::observe::telling::{Answer, AnswerModel, Given, GivenModel, OutcomeModel, Point};
use crate::observe::{
    is_told_of, json_of, lemma_unwatched, opened, returned, returning, value_json, Audience,
    AudienceModel, Watch, WatchModel,
};

verus! {

/// The two ends of an interpreter's life.
#[derive(Clone, Copy, Debug, PartialEq, Eq, Structural)]
pub enum InterpreterLifecycle {
    Startup,
    Shutdown,
}

impl InterpreterLifecycle {
    pub open spec fn named(self) -> Seq<char> {
        match self {
            InterpreterLifecycle::Startup => "startup"@,
            InterpreterLifecycle::Shutdown => "shutdown"@,
        }
    }

    /// The point this end of a life is told as.
    pub open spec fn point(self) -> Point {
        match self {
            InterpreterLifecycle::Startup => Point::InterpreterStartup,
            InterpreterLifecycle::Shutdown => Point::InterpreterShutdown,
        }
    }

    /// The name of the point.
    pub fn name(self) -> (r: &'static str)
        ensures
            r@ == self.named(),
    {
        match self {
            InterpreterLifecycle::Startup => "startup",
            InterpreterLifecycle::Shutdown => "shutdown",
        }
    }
}

/// An interpreter's point, just opened.
pub open spec fn interpreter_point(
    point: Seq<char>,
    interpreter: Seq<char>,
    call: u64,
    audience: AudienceModel,
) -> WatchModel {
    opened("interpreter"@, call, audience).with("point"@, point).with("interpreter"@, interpreter)
}

fn open_point(point: &str, interpreter: &str, call: u64, audience: &Audience) -> (r: Watch)
    ensures
        r.deep_view() == interpreter_point(point@, interpreter@, call, audience.deep_view()),
{
    let mut watch = Watch::open("interpreter", call, audience);
    watch.record("point", point);
    watch.record("interpreter", interpreter);
    watch
}

/// An execution, open.
pub open spec fn execute_point(
    interpreter: Seq<char>,
    code: Seq<char>,
    call: u64,
    audience: AudienceModel,
) -> WatchModel {
    interpreter_point("execute"@, interpreter, call, audience).with("inputs"@, code).started(
        GivenModel::InterpreterExecute { interpreter, code },
    )
}

/// Runs a piece of code, once, after its start was told and before its end is. What it came to is
/// handed back in words.
pub fn executing<W: FnOnce(&Watch) -> Result<String, String>>(
    interpreter: &str,
    code: &str,
    call: u64,
    audience: &Audience,
    running: W,
) -> (r: (Result<String, String>, Watch))
    requires
        forall|under: &Watch| running.requires((under,)),
    ensures
        exists|under: Watch| #[trigger]
            running.ensures((&under,), r.0) && under.deep_view() == execute_point(
                interpreter@,
                code@,
                call,
                audience.deep_view(),
            ),
        r.1.deep_view() == execute_point(
            interpreter@,
            code@,
            call,
            audience.deep_view(),
        ).closed(
            Point::InterpreterExecute,
            match r.0 {
                Ok(executed) => OutcomeModel::Answered(AnswerModel::Executed(executed@)),
                Err(error) => OutcomeModel::Failed(error@),
            },
        ),
{
    let mut watch = open_point("execute", interpreter, call, audience);
    watch.record("inputs", code);
    proof {
        lemma_unwatched(watch.deep_view());
    }
    if watch.is_heard() {
        watch.start(
            Given::InterpreterExecute { interpreter: interpreter.to_owned(), code: code.to_owned() },
        );
    }
    let ghost under = watch;
    let answered = running(&watch);
    proof {
        lemma_unwatched(watch.deep_view());
    }
    if watch.is_watched() {
        watch.close(
            Point::InterpreterExecute,
            match &answered {
                Ok(executed) => Ok(Answer::Executed(executed.clone())),
                Err(error) => Err(error.clone()),
            },
        );
    }
    let r: (Result<String, String>, Watch) = (answered, watch);
    proof {
        assert(running.ensures((&under,), r.0));
    }
    r
}

/// A tool that the code called back into, open.
pub open spec fn interpreter_tool_point(
    tool: Seq<char>,
    args: ValueModel,
    call: u64,
    audience: AudienceModel,
) -> WatchModel {
    interpreter_point("tool_call"@, "DenoInterpreter"@, call, audience).with(
        "inputs"@,
        json_of(args),
    ).started(GivenModel::InterpreterToolCall { tool, args })
}

/// Runs a tool that the code called back into, once, after its start was told and before its end
/// is.
pub fn interpreter_tool_call<W: FnOnce(&Watch) -> Result<Value, String>>(
    tool: &str,
    args: &Value,
    call: u64,
    audience: &Audience,
    running: W,
) -> (r: (Result<Value, String>, Watch))
    requires
        forall|under: &Watch| running.requires((under,)),
    ensures
        exists|under: Watch| #[trigger]
            running.ensures((&under,), r.0) && under.deep_view() == interpreter_tool_point(
                tool@,
                args.deep_view(),
                call,
                audience.deep_view(),
            ),
        r.1.deep_view() == interpreter_tool_point(
            tool@,
            args.deep_view(),
            call,
            audience.deep_view(),
        ).closed(Point::InterpreterToolCall, returned(r.0)),
{
    let mut watch = open_point("tool_call", "DenoInterpreter", call, audience);
    if watch.recording {
        watch.record("inputs", value_json(args).as_str());
    }
    proof {
        lemma_unwatched(watch.deep_view());
    }
    if watch.is_heard() {
        watch.start(Given::InterpreterToolCall { tool: tool.to_owned(), args: args.duplicate() });
    }
    returning(watch, Point::InterpreterToolCall, running)
}

/// One end of an interpreter's life, open.
pub open spec fn lifecycle_point(
    end: InterpreterLifecycle,
    interpreter: Seq<char>,
    call: u64,
    audience: AudienceModel,
) -> WatchModel {
    interpreter_point(end.named(), interpreter, call, audience).started(
        GivenModel::InterpreterLifecycle { end, interpreter },
    )
}

/// Brings an interpreter up, or takes it down, once, after its start was told and before its end
/// is.
pub fn interpreter_lifecycle<W: FnOnce(&Watch) -> Result<(), String>>(
    end: InterpreterLifecycle,
    interpreter: &str,
    call: u64,
    audience: &Audience,
    running: W,
) -> (r: (Result<(), String>, Watch))
    requires
        forall|under: &Watch| running.requires((under,)),
    ensures
        exists|under: Watch| #[trigger]
            running.ensures((&under,), r.0) && under.deep_view() == lifecycle_point(
                end,
                interpreter@,
                call,
                audience.deep_view(),
            ),
        r.1.deep_view() == lifecycle_point(end, interpreter@, call, audience.deep_view()).closed(
            end.point(),
            match r.0 {
                Ok(()) => OutcomeModel::Answered(AnswerModel::Done),
                Err(error) => OutcomeModel::Failed(error@),
            },
        ),
{
    let mut watch = open_point(end.name(), interpreter, call, audience);
    proof {
        lemma_unwatched(watch.deep_view());
    }
    if watch.is_heard() {
        watch.start(Given::InterpreterLifecycle { end, interpreter: interpreter.to_owned() });
    }
    let ghost under = watch;
    let answered = running(&watch);
    proof {
        lemma_unwatched(watch.deep_view());
    }
    if watch.is_watched() {
        watch.close(
            match end {
                InterpreterLifecycle::Startup => Point::InterpreterStartup,
                InterpreterLifecycle::Shutdown => Point::InterpreterShutdown,
            },
            match &answered {
                Ok(()) => Ok(Answer::Done),
                Err(error) => Err(error.clone()),
            },
        );
    }
    let r: (Result<(), String>, Watch) = (answered, watch);
    proof {
        assert(running.ensures((&under,), r.0));
    }
    r
}

/// What an interpreter is asked to do is recorded with the interpreter's name and the whole code or
/// arguments, and every listener is told so; its start and its end are told apart.
pub proof fn law_an_interpreters_work_is_shown_whole(
    interpreter: Seq<char>,
    code: Seq<char>,
    tool: Seq<char>,
    args: ValueModel,
    end: InterpreterLifecycle,
    call: u64,
    audience: AudienceModel,
)
    ensures
        ({
            let run = execute_point(interpreter, code, call, audience);
            let called = interpreter_tool_point(tool, args, call, audience);
            let ends = lifecycle_point(end, interpreter, call, audience);
            &&& run.point == "interpreter"@ && called.point == "interpreter"@ && ends.point
                == "interpreter"@
            &&& !audience.recording ==> run.fields.len() == 0 && called.fields.len() == 0
                && ends.fields.len() == 0
            &&& audience.recording ==> {
                &&& run.fields == seq![
                    ("point"@, "execute"@),
                    ("interpreter"@, interpreter),
                    ("inputs"@, code),
                ]
                &&& called.fields == seq![
                    ("point"@, "tool_call"@),
                    ("interpreter"@, "DenoInterpreter"@),
                    ("inputs"@, json_of(args)),
                ]
                &&& ends.fields == seq![
                    (
                        "point"@,
                        if end == InterpreterLifecycle::Startup {
                            "startup"@
                        } else {
                            "shutdown"@
                        },
                    ),
                    ("interpreter"@, interpreter),
                ]
            }
            &&& is_told_of(
                run,
                call,
                audience.listeners,
                GivenModel::InterpreterExecute { interpreter, code },
            )
            &&& is_told_of(
                called,
                call,
                audience.listeners,
                GivenModel::InterpreterToolCall { tool, args },
            )
            &&& is_told_of(
                ends,
                call,
                audience.listeners,
                GivenModel::InterpreterLifecycle { end, interpreter },
            )
            &&& end.point() == if end == InterpreterLifecycle::Startup {
                Point::InterpreterStartup
            } else {
                Point::InterpreterShutdown
            }
        }),
{
}

} // verus!
