//! The evaluator: what a statement comes to in a session, given what the host has replied to
//! the requests of the statement so far.

use crate::context::Context;
use crate::context::ContextView;
use crate::line::parse::argument_views;
use crate::line::parse::fragment_views;
use crate::line::parse::lemma_argument_view;
use crate::line::parse::lemma_command_view;
use crate::line::parse::Argument;
use crate::line::parse::ArgumentView;
use crate::line::parse::Assignment;
use crate::line::parse::AssignmentView;
use crate::line::parse::Command;
use crate::line::parse::CommandView;
use crate::line::parse::Fragment;
use crate::line::parse::FragmentView;
use crate::line::parse::Statement;
use crate::line::parse::StatementView;
use crate::path::path_of;
use crate::path::resolve;
use crate::path::VirtualPathBuf;
use crate::text::texts;
use crate::text::trimmed;
use crate::value::json_error_message;
use crate::value::json_error_text;
use crate::value::json_parsed;
use crate::value::parse_json;
use crate::value::protocol_value;
use crate::value::to_protocol_value;
use crate::value::value_error_message;
use crate::value::value_error_text;
use lighthouse_client::protocol::Value;
use vstd::prelude::*;
use vstd::string::StringExecFns;

verus! {

/// Why a statement could not be evaluated.
#[derive(Debug, PartialEq, Eq)]
pub enum EvalError {
    /// The variable of this name has no value.
    UnboundVariable(String),
    /// The invocation has no arguments, so that it names no command.
    EmptyInvocation,
    /// The host knows no command of this name.
    UnknownCommand(String),
    /// The output that a redirect is to send is no structured value. The text says why.
    MalformedRedirectValue(String),
    /// The host could not perform an operation. The text says why.
    RemoteOperationFailed(String),
}

/// The mathematical value of an [`EvalError`].
pub enum EvalErrorView {
    UnboundVariable(Seq<char>),
    EmptyInvocation,
    UnknownCommand(Seq<char>),
    MalformedRedirectValue(Seq<char>),
    RemoteOperationFailed(Seq<char>),
}

impl View for EvalError {
    type V = EvalErrorView;

    open spec fn view(&self) -> EvalErrorView {
        match self {
            EvalError::UnboundVariable(name) => EvalErrorView::UnboundVariable(name@),
            EvalError::EmptyInvocation => EvalErrorView::EmptyInvocation,
            EvalError::UnknownCommand(name) => EvalErrorView::UnknownCommand(name@),
            EvalError::MalformedRedirectValue(reason) => EvalErrorView::MalformedRedirectValue(
                reason@,
            ),
            EvalError::RemoteOperationFailed(reason) => EvalErrorView::RemoteOperationFailed(
                reason@,
            ),
        }
    }
}

impl EvalErrorView {
    /// The words that tell the user of this error.
    pub open spec fn text(self) -> Seq<char> {
        match self {
            EvalErrorView::UnboundVariable(name) => "Unbound variable: "@ + name,
            EvalErrorView::EmptyInvocation => "Cannot interpret empty invocation"@,
            EvalErrorView::UnknownCommand(name) => "Unrecognized command: "@ + name,
            EvalErrorView::MalformedRedirectValue(reason) => reason,
            EvalErrorView::RemoteOperationFailed(reason) => reason,
        }
    }
}

impl EvalError {
    /// The words that tell the user of this error.
    pub fn message(&self) -> (message: String)
        ensures
            message@ == self@.text(),
    {
        match self {
            EvalError::UnboundVariable(name) => {
                let mut message = "Unbound variable: ".to_owned();
                message.append(name.as_str());
                message
            },
            EvalError::EmptyInvocation => "Cannot interpret empty invocation".to_owned(),
            EvalError::UnknownCommand(name) => {
                let mut message = "Unrecognized command: ".to_owned();
                message.append(name.as_str());
                message
            },
            EvalError::MalformedRedirectValue(reason) => reason.clone(),
            EvalError::RemoteOperationFailed(reason) => reason.clone(),
        }
    }
}

impl Clone for EvalError {
    fn clone(&self) -> (copy: Self)
        ensures
            copy@ == self@,
    {
        match self {
            EvalError::UnboundVariable(name) => EvalError::UnboundVariable(name.clone()),
            EvalError::EmptyInvocation => EvalError::EmptyInvocation,
            EvalError::UnknownCommand(name) => EvalError::UnknownCommand(name.clone()),
            EvalError::MalformedRedirectValue(reason) => EvalError::MalformedRedirectValue(
                reason.clone(),
            ),
            EvalError::RemoteOperationFailed(reason) => EvalError::RemoteOperationFailed(
                reason.clone(),
            ),
        }
    }
}

/// What the evaluator asks of its host. The host performs it and answers with a [`Reply`].
#[derive(Debug, PartialEq)]
pub enum Request {
    /// Run the command that the first argument names, with these arguments, and capture what
    /// it writes.
    Invoke { args: Vec<String> },
    /// Write the value to the resource at the path.
    Post { path: VirtualPathBuf, value: Value },
}

/// The mathematical value of a [`Request`].
pub enum RequestView {
    Invoke { args: Seq<Seq<char>> },
    Post { path: Seq<Seq<char>>, value: Value },
}

impl View for Request {
    type V = RequestView;

    open spec fn view(&self) -> RequestView {
        match self {
            Request::Invoke { args } => RequestView::Invoke { args: texts(args@) },
            Request::Post { path, value } => RequestView::Post { path: path@, value: *value },
        }
    }
}

/// What the host answers to a [`Request`].
#[derive(Debug, PartialEq, Eq)]
pub enum Reply {
    /// The operation was performed. The text is what the command wrote; nothing is read from
    /// it after a write.
    Completed(String),
    /// The operation failed.
    Failed(EvalError),
}

/// The mathematical value of a [`Reply`].
pub enum ReplyView {
    Completed(Seq<char>),
    Failed(EvalErrorView),
}

impl View for Reply {
    type V = ReplyView;

    open spec fn view(&self) -> ReplyView {
        match self {
            Reply::Completed(output) => ReplyView::Completed(output@),
            Reply::Failed(error) => ReplyView::Failed(error@),
        }
    }
}

impl Clone for Reply {
    fn clone(&self) -> (copy: Self)
        ensures
            copy@ == self@,
    {
        match self {
            Reply::Completed(output) => Reply::Completed(output.clone()),
            Reply::Failed(error) => Reply::Failed(error.clone()),
        }
    }
}

/// The values of a sequence of replies, in order.
pub open spec fn reply_views(replies: Seq<Reply>) -> Seq<ReplyView> {
    replies.map_values(|r: Reply| r@)
}

/// How far an evaluation has come with the replies that the host has given so far.
#[derive(Debug, PartialEq)]
pub enum Progress<T> {
    /// It is complete, with this result.
    Done(T),
    /// It has failed.
    Failed(EvalError),
    /// It waits for the host's reply to this request.
    Pending(Request),
}

/// The mathematical value of a [`Progress`].
pub enum ProgressView<T> {
    Done(T),
    Failed(EvalErrorView),
    Pending(RequestView),
}

impl<T: View> View for Progress<T> {
    type V = ProgressView<T::V>;

    open spec fn view(&self) -> ProgressView<T::V> {
        match self {
            Progress::Done(result) => ProgressView::Done(result@),
            Progress::Failed(error) => ProgressView::Failed(error@),
            Progress::Pending(request) => ProgressView::Pending(request@),
        }
    }
}

/// What a command evaluates to.
#[derive(Debug, PartialEq, Eq)]
pub struct Interpretation {
    /// The text that the command wrote.
    pub output: String,
    /// Whether the text was sent to a resource, and so is not to be shown.
    pub redirected: bool,
}

/// The mathematical value of an [`Interpretation`].
pub struct InterpretationView {
    pub output: Seq<char>,
    pub redirected: bool,
}

impl View for Interpretation {
    type V = InterpretationView;

    open spec fn view(&self) -> InterpretationView {
        InterpretationView { output: self.output@, redirected: self.redirected }
    }
}

impl Clone for Interpretation {
    fn clone(&self) -> (copy: Self)
        ensures
            copy@ == self@,
    {
        Interpretation { output: self.output.clone(), redirected: self.redirected }
    }
}

/// An evaluation against a sequence of replies: how far it has come, and the place of the
/// first reply that it has not read.
pub struct Run<T> {
    pub progress: ProgressView<T>,
    pub next: int,
}

impl<T> Run<T> {
    /// An evaluation that is complete.
    pub open spec fn done(result: T, next: int) -> Run<T> {
        Run { progress: ProgressView::Done(result), next }
    }

    /// An evaluation that has failed.
    pub open spec fn failed(error: EvalErrorView, next: int) -> Run<T> {
        Run { progress: ProgressView::Failed(error), next }
    }

    /// An evaluation that waits for a reply.
    pub open spec fn pending(request: RequestView, next: int) -> Run<T> {
        Run { progress: ProgressView::Pending(request), next }
    }

    /// An evaluation that did not complete, as the part of a larger one that then does not
    /// complete either.
    pub open spec fn within<U>(self) -> Run<U> {
        match self.progress {
            ProgressView::Done(_) => arbitrary(),
            ProgressView::Failed(error) => Run::failed(error, self.next),
            ProgressView::Pending(request) => Run::pending(request, self.next),
        }
    }
}

/// What comes of a request: the host's reply at `at`, where it has given one, else the wait
/// for it.
pub open spec fn asked(request: RequestView, replies: Seq<ReplyView>, at: int) -> Run<Seq<char>> {
    if 0 <= at < replies.len() {
        match replies[at] {
            ReplyView::Completed(output) => Run::done(output, at + 1),
            ReplyView::Failed(error) => Run::failed(error, at + 1),
        }
    } else {
        Run::pending(request, at)
    }
}

/// What a redirect sends for an output that parsed as given: the value in the protocol's
/// representation, or the reason why there is none.
pub open spec fn redirect_value(parsed: Result<serde_json::Value, serde_json::Error>) -> Result<
    Value,
    EvalErrorView,
> {
    match parsed {
        Ok(json) => match protocol_value(json) {
            Ok(value) => Ok(value),
            Err(error) => Err(EvalErrorView::MalformedRedirectValue(value_error_text(error))),
        },
        Err(error) => Err(EvalErrorView::MalformedRedirectValue(json_error_text(error))),
    }
}

/// The text of a fragment: a literal's own, a variable's value, a command's output.
pub open spec fn eval_fragment(
    fragment: FragmentView,
    env: ContextView,
    replies: Seq<ReplyView>,
    at: int,
) -> Run<Seq<char>>
    decreases fragment, 0int,
{
    match fragment {
        FragmentView::Literal(text) => Run::done(text, at),
        FragmentView::Variable(name) => if env.variables.contains_key(name) {
            Run::done(env.variables[name], at)
        } else {
            Run::failed(EvalErrorView::UnboundVariable(name), at)
        },
        FragmentView::Command(command) => {
            let run = eval_command(command, env, replies, at);
            match run.progress {
                ProgressView::Done(interpretation) => Run::done(interpretation.output, run.next),
                _ => run.within(),
            }
        },
    }
}

/// The texts of the first `n` fragments, one after the other.
pub open spec fn eval_fragments(
    fragments: Seq<FragmentView>,
    n: int,
    env: ContextView,
    replies: Seq<ReplyView>,
    at: int,
) -> Run<Seq<char>>
    decreases fragments, n,
{
    if n <= 0 || n > fragments.len() {
        Run::done(Seq::empty(), at)
    } else {
        let front = eval_fragments(fragments, n - 1, env, replies, at);
        match front.progress {
            ProgressView::Done(text) => {
                let last = eval_fragment(fragments[n - 1], env, replies, front.next);
                match last.progress {
                    ProgressView::Done(more) => Run::done(text + more, last.next),
                    _ => last.within(),
                }
            },
            _ => front.within(),
        }
    }
}

/// The text of an argument: the texts of its fragments, one after the other.
pub open spec fn eval_argument(
    argument: ArgumentView,
    env: ContextView,
    replies: Seq<ReplyView>,
    at: int,
) -> Run<Seq<char>>
    decreases argument, 0int,
{
    eval_fragments(argument.fragments, argument.fragments.len() as int, env, replies, at)
}

/// The texts of the first `n` arguments, each wholly evaluated before the next.
pub open spec fn eval_arguments(
    arguments: Seq<ArgumentView>,
    n: int,
    env: ContextView,
    replies: Seq<ReplyView>,
    at: int,
) -> Run<Seq<Seq<char>>>
    decreases arguments, n,
{
    if n <= 0 || n > arguments.len() {
        Run::done(Seq::empty(), at)
    } else {
        let front = eval_arguments(arguments, n - 1, env, replies, at);
        match front.progress {
            ProgressView::Done(texts) => {
                let last = eval_argument(arguments[n - 1], env, replies, front.next);
                match last.progress {
                    ProgressView::Done(text) => Run::done(texts.push(text), last.next),
                    _ => last.within(),
                }
            },
            _ => front.within(),
        }
    }
}

/// Once the fragments up to some place have not all evaluated, no longer run of them does.
pub proof fn lemma_fragments_stop(
    fragments: Seq<FragmentView>,
    n: int,
    m: int,
    env: ContextView,
    replies: Seq<ReplyView>,
    at: int,
)
    requires
        0 <= n <= m <= fragments.len(),
        !(eval_fragments(fragments, n, env, replies, at).progress is Done),
    ensures
        eval_fragments(fragments, m, env, replies, at) == eval_fragments(
            fragments,
            n,
            env,
            replies,
            at,
        ),
    decreases m - n,
{
    if n < m {
        lemma_fragments_stop(fragments, n, m - 1, env, replies, at);
    }
}

/// Once the arguments up to some place have not all evaluated, no longer run of them does.
pub proof fn lemma_arguments_stop(
    arguments: Seq<ArgumentView>,
    n: int,
    m: int,
    env: ContextView,
    replies: Seq<ReplyView>,
    at: int,
)
    requires
        0 <= n <= m <= arguments.len(),
        !(eval_arguments(arguments, n, env, replies, at).progress is Done),
    ensures
        eval_arguments(arguments, m, env, replies, at) == eval_arguments(
            arguments,
            n,
            env,
            replies,
            at,
        ),
    decreases m - n,
{
    if n < m {
        lemma_arguments_stop(arguments, n, m - 1, env, replies, at);
    }
}

/// What a redirect comes to once its inner command has given `inner` and its target has
/// evaluated to `target`: the output is read as a structured value and sent to the target,
/// resolved against the working path.
pub open spec fn eval_redirect(
    inner: InterpretationView,
    target: Seq<char>,
    env: ContextView,
    replies: Seq<ReplyView>,
    at: int,
) -> Run<InterpretationView> {
    match redirect_value(json_parsed(inner.output)) {
        Ok(value) => {
            let request = RequestView::Post { path: resolve(env.cwd, path_of(target)), value };
            let sent = asked(request, replies, at);
            match sent.progress {
                ProgressView::Done(_) => Run::done(
                    InterpretationView { output: inner.output, redirected: true },
                    sent.next,
                ),
                _ => sent.within(),
            }
        },
        Err(error) => Run::failed(error, at),
    }
}

/// What a command evaluates to. An invocation evaluates its arguments and asks the host to
/// run them; a redirect evaluates its inner command first, then its target.
pub open spec fn eval_command(
    command: CommandView,
    env: ContextView,
    replies: Seq<ReplyView>,
    at: int,
) -> Run<InterpretationView>
    decreases command, 0int,
{
    match command {
        CommandView::Invocation { args } => if args.len() == 0 {
            Run::failed(EvalErrorView::EmptyInvocation, at)
        } else {
            let evaluated = eval_arguments(args, args.len() as int, env, replies, at);
            match evaluated.progress {
                ProgressView::Done(texts) => {
                    let invoked = asked(RequestView::Invoke { args: texts }, replies, evaluated.next);
                    match invoked.progress {
                        ProgressView::Done(output) => Run::done(
                            InterpretationView { output, redirected: false },
                            invoked.next,
                        ),
                        _ => invoked.within(),
                    }
                },
                _ => evaluated.within(),
            }
        },
        CommandView::Redirect { inner, path } => {
            let first = eval_command(*inner, env, replies, at);
            match first.progress {
                ProgressView::Done(interpretation) => {
                    let target = eval_argument(path, env, replies, first.next);
                    match target.progress {
                        ProgressView::Done(text) => eval_redirect(
                            interpretation,
                            text,
                            env,
                            replies,
                            target.next,
                        ),
                        _ => target.within(),
                    }
                },
                _ => first.within(),
            }
        },
    }
}


/// What a command's result shows to the user: its output without the whitespace at either
/// end, and nothing where the output was redirected.
pub open spec fn shown(interpretation: InterpretationView) -> Seq<char> {
    if interpretation.redirected {
        Seq::empty()
    } else {
        trimmed(interpretation.output)
    }
}

/// What comes of a statement, and the session after it.
pub struct Outcome {
    pub progress: ProgressView<Seq<char>>,
    pub context: ContextView,
}

/// What an assignment comes to: once the name and then the value have evaluated, the session
/// binds the one to the other, and nothing is shown.
pub open spec fn eval_assignment(
    assignment: AssignmentView,
    env: ContextView,
    replies: Seq<ReplyView>,
) -> Outcome {
    let lhs = eval_argument(assignment.lhs, env, replies, 0);
    match lhs.progress {
        ProgressView::Done(name) => {
            let rhs = eval_argument(assignment.rhs, env, replies, lhs.next);
            match rhs.progress {
                ProgressView::Done(value) => Outcome {
                    progress: ProgressView::Done(Seq::empty()),
                    context: env.bind(name, value),
                },
                _ => Outcome { progress: rhs.within::<Seq<char>>().progress, context: env },
            }
        },
        _ => Outcome { progress: lhs.within::<Seq<char>>().progress, context: env },
    }
}

/// What a statement comes to when the host has given `replies` so far: the text to show, the
/// failure, or the request that the host has yet to answer; and the session after it. Only a
/// completed assignment changes the session.
pub open spec fn eval_statement(
    statement: StatementView,
    env: ContextView,
    replies: Seq<ReplyView>,
) -> Outcome {
    match statement {
        StatementView::Assignment(assignment) => eval_assignment(assignment, env, replies),
        StatementView::Command(command) => {
            let run = eval_command(command, env, replies, 0);
            match run.progress {
                ProgressView::Done(interpretation) => Outcome {
                    progress: ProgressView::Done(shown(interpretation)),
                    context: env,
                },
                _ => Outcome { progress: run.within::<Seq<char>>().progress, context: env },
            }
        },
    }
}

/// An evaluation at work: how far it has come, and the place of the first reply that it has
/// not read.
#[derive(Debug, PartialEq)]
pub struct Evaluation<T> {
    pub progress: Progress<T>,
    pub next: usize,
}

impl<T: View> View for Evaluation<T> {
    type V = Run<T::V>;

    open spec fn view(&self) -> Run<T::V> {
        Run { progress: self.progress@, next: self.next as int }
    }
}

/// The value of an evaluation that gives a list of texts.
pub open spec fn texts_view(evaluation: Evaluation<Vec<String>>) -> Run<Seq<Seq<char>>> {
    Run {
        progress: match evaluation.progress {
            Progress::Done(values) => ProgressView::Done(texts(values@)),
            Progress::Failed(error) => ProgressView::Failed(error@),
            Progress::Pending(request) => ProgressView::Pending(request@),
        },
        next: evaluation.next as int,
    }
}

impl<T> Evaluation<T> {
    /// This evaluation, which did not complete, as the part of a larger one.
    pub fn within<U>(self) -> (r: Evaluation<U>)
        requires
            !(self.progress is Done),
        ensures
            r.next == self.next,
            self.progress matches Progress::Failed(error) ==> r.progress == Progress::<U>::Failed(
                error,
            ),
            self.progress matches Progress::Pending(request) ==> r.progress == Progress::<
                U,
            >::Pending(request),
    {
        let progress = match self.progress {
            Progress::Done(_) => vstd::pervasive::unreached(),
            Progress::Failed(error) => Progress::Failed(error),
            Progress::Pending(request) => Progress::Pending(request),
        };
        Evaluation { progress, next: self.next }
    }
}

/// Hands the request to the host: gives the host's reply at `at`, where there is one, else
/// the request as what the evaluation waits for.
pub fn ask(request: Request, replies: &[Reply], at: usize) -> (r: Evaluation<String>)
    ensures
        r@ == asked(request@, reply_views(replies@), at as int),
        at <= r.next,
{
    if at < replies.len() {
        match &replies[at] {
            Reply::Completed(output) => Evaluation {
                progress: Progress::Done(output.clone()),
                next: at + 1,
            },
            Reply::Failed(error) => Evaluation {
                progress: Progress::Failed(error.clone()),
                next: at + 1,
            },
        }
    } else {
        Evaluation { progress: Progress::Pending(request), next: at }
    }
}

/// Evaluates one fragment to its text.
pub fn evaluate_fragment(fragment: &Fragment, ctx: &Context, replies: &[Reply], at: usize) -> (r:
    Evaluation<String>)
    ensures
        r@ == eval_fragment(fragment@, ctx@, reply_views(replies@), at as int),
        at <= r.next,
    decreases fragment,
{
    match fragment {
        Fragment::Literal(text) => Evaluation { progress: Progress::Done(text.clone()), next: at },
        Fragment::Variable(name) => match ctx.variable(name.as_str()) {
            Some(value) => Evaluation { progress: Progress::Done(value.clone()), next: at },
            None => Evaluation {
                progress: Progress::Failed(EvalError::UnboundVariable(name.clone())),
                next: at,
            },
        },
        Fragment::Command(command) => {
            let run = interpret_command(command, ctx, replies, at);
            match run.progress {
                Progress::Done(interpretation) => Evaluation {
                    progress: Progress::Done(interpretation.output),
                    next: run.next,
                },
                _ => run.within(),
            }
        },
    }
}

/// Evaluates an argument to its text: the texts of its fragments, one after the other.
pub fn evaluate_argument(argument: &Argument, ctx: &Context, replies: &[Reply], at: usize) -> (r:
    Evaluation<String>)
    ensures
        r@ == eval_argument(argument@, ctx@, reply_views(replies@), at as int),
        at <= r.next,
    decreases argument,
{
    let mut evaluated = String::new();
    let mut next = at;
    proof {
        lemma_argument_view(*argument);
    }
    for i in 0..argument.fragments.len()
        invariant
            argument@.fragments == fragment_views(argument.fragments@),
            at <= next,
            eval_fragments(argument@.fragments, i as int, ctx@, reply_views(replies@), at as int)
                == Run::done(evaluated@, next as int),
    {
        let run = evaluate_fragment(&argument.fragments[i], ctx, replies, next);
        match run.progress {
            Progress::Done(text) => {
                evaluated.append(text.as_str());
                next = run.next;
            },
            _ => {
                proof {
                    lemma_fragments_stop(
                        argument@.fragments,
                        i + 1,
                        argument@.fragments.len() as int,
                        ctx@,
                        reply_views(replies@),
                        at as int,
                    );
                }
                return run.within();
            },
        }
    }
    Evaluation { progress: Progress::Done(evaluated), next }
}

/// Evaluates the arguments to their texts, in order, each wholly before the next.
pub fn evaluate_arguments(args: &Vec<Argument>, ctx: &Context, replies: &[Reply], at: usize) -> (r:
    Evaluation<Vec<String>>)
    ensures
        texts_view(r) == eval_arguments(
            argument_views(args@),
            args@.len() as int,
            ctx@,
            reply_views(replies@),
            at as int,
        ),
        at <= r.next,
    decreases args,
{
    let mut evaluated: Vec<String> = Vec::new();
    let mut next = at;
    assert(texts(evaluated@) =~= Seq::<Seq<char>>::empty());
    for i in 0..args.len()
        invariant
            at <= next,
            eval_arguments(
                argument_views(args@),
                i as int,
                ctx@,
                reply_views(replies@),
                at as int,
            ) == Run::done(texts(evaluated@), next as int),
    {
        let run = evaluate_argument(&args[i], ctx, replies, next);
        match run.progress {
            Progress::Done(text) => {
                assert(texts(evaluated@.push(text)) =~= texts(evaluated@).push(
                    text@,
                ));
                evaluated.push(text);
                next = run.next;
            },
            _ => {
                proof {
                    lemma_arguments_stop(
                        argument_views(args@),
                        i + 1,
                        args@.len() as int,
                        ctx@,
                        reply_views(replies@),
                        at as int,
                    );
                }
                return run.within();
            },
        }
    }
    Evaluation { progress: Progress::Done(evaluated), next }
}

/// Turns the output of a redirected command, as `serde_json` has read it, into the value to
/// send.
pub fn convert(parsed: Result<serde_json::Value, serde_json::Error>) -> (r: Result<
    Value,
    EvalError,
>)
    ensures
        match r {
            Ok(value) => redirect_value(parsed) == Ok::<Value, EvalErrorView>(value),
            Err(error) => redirect_value(parsed) == Err::<Value, EvalErrorView>(error@),
        },
{
    match parsed {
        Ok(json) => match to_protocol_value(json) {
            Ok(value) => Ok(value),
            Err(error) => Err(EvalError::MalformedRedirectValue(value_error_message(&error))),
        },
        Err(error) => Err(EvalError::MalformedRedirectValue(json_error_message(&error))),
    }
}

/// Sends the output of the inner command to the target of its redirect.
pub fn redirect(
    inner: Interpretation,
    target: &str,
    ctx: &Context,
    replies: &[Reply],
    at: usize,
) -> (r: Evaluation<Interpretation>)
    ensures
        r@ == eval_redirect(inner@, target@, ctx@, reply_views(replies@), at as int),
        at <= r.next,
{
    match convert(parse_json(inner.output.as_str())) {
        Ok(value) => {
            let path = ctx.cwd.as_path().join(VirtualPathBuf::from(target).as_path());
            let sent = ask(Request::Post { path, value }, replies, at);
            match sent.progress {
                Progress::Done(_) => Evaluation {
                    progress: Progress::Done(
                        Interpretation { output: inner.output, redirected: true },
                    ),
                    next: sent.next,
                },
                _ => sent.within(),
            }
        },
        Err(error) => Evaluation { progress: Progress::Failed(error), next: at },
    }
}

/// Evaluates a command against the replies that the host has given from `at` on.
pub fn interpret_command(command: &Command, ctx: &Context, replies: &[Reply], at: usize) -> (r:
    Evaluation<Interpretation>)
    ensures
        r@ == eval_command(command@, ctx@, reply_views(replies@), at as int),
        at <= r.next,
    decreases command,
{
    proof {
        lemma_command_view(*command);
    }
    match command {
        Command::Invocation { args } => {
            if args.len() == 0 {
                return Evaluation { progress: Progress::Failed(EvalError::EmptyInvocation), next: at };
            }
            let evaluated = evaluate_arguments(args, ctx, replies, at);
            match evaluated.progress {
                Progress::Done(values) => {
                    let invoked = ask(Request::Invoke { args: values }, replies, evaluated.next);
                    match invoked.progress {
                        Progress::Done(output) => Evaluation {
                            progress: Progress::Done(Interpretation { output, redirected: false }),
                            next: invoked.next,
                        },
                        _ => invoked.within(),
                    }
                },
                _ => evaluated.within(),
            }
        },
        Command::Redirect { inner, path } => {
            let first = interpret_command(inner, ctx, replies, at);
            match first.progress {
                Progress::Done(interpretation) => {
                    let target = evaluate_argument(path, ctx, replies, first.next);
                    match target.progress {
                        Progress::Done(text) => redirect(
                            interpretation,
                            text.as_str(),
                            ctx,
                            replies,
                            target.next,
                        ),
                        _ => target.within(),
                    }
                },
                _ => first.within(),
            }
        },
    }
}


/// Evaluates an assignment and, once name and value are there, binds the one to the other.
pub fn interpret_assignment(assignment: &Assignment, ctx: &mut Context, replies: &[Reply]) -> (r:
    Progress<String>)
    ensures
        r@ == eval_assignment(assignment@, old(ctx)@, reply_views(replies@)).progress,
        final(ctx)@ == eval_assignment(assignment@, old(ctx)@, reply_views(replies@)).context,
{
    let lhs = evaluate_argument(&assignment.lhs, ctx, replies, 0);
    match lhs.progress {
        Progress::Done(name) => {
            let rhs = evaluate_argument(&assignment.rhs, ctx, replies, lhs.next);
            match rhs.progress {
                Progress::Done(value) => {
                    ctx.set_variable(name, value);
                    Progress::Done(String::new())
                },
                _ => rhs.within::<String>().progress,
            }
        },
        _ => lhs.within::<String>().progress,
    }
}

/// Evaluates a statement as far as the replies that the host has given so far carry it. The
/// host performs a pending request, adds the reply to `replies` and calls again with the same
/// statement, until the statement is done or has failed.
pub fn interpret(statement: &Statement, ctx: &mut Context, replies: &[Reply]) -> (r: Progress<
    String,
>)
    ensures
        r@ == eval_statement(statement@, old(ctx)@, reply_views(replies@)).progress,
        final(ctx)@ == eval_statement(statement@, old(ctx)@, reply_views(replies@)).context,
{
    match statement {
        Statement::Assignment(assignment) => interpret_assignment(assignment, ctx, replies),
        Statement::Command(command) => {
            let run = interpret_command(command, ctx, replies, 0);
            match run.progress {
                Progress::Done(interpretation) => {
                    if interpretation.redirected {
                        Progress::Done(String::new())
                    } else {
                        Progress::Done(interpretation.output.as_str().trim().to_owned())
                    }
                },
                _ => run.within::<String>().progress,
            }
        },
    }
}


/// Whether an evaluation from `at` against `replies` has read no reply but those that are
/// there, has read all of them where it waits for one more, and comes to the same whatever
/// replies follow where it does not wait.
pub open spec fn settled<T>(run: Run<T>, longer: Run<T>, replies: Seq<ReplyView>, at: int) -> bool {
    &&& at <= run.next <= replies.len()
    &&& run.progress is Pending ==> run.next == replies.len()
    &&& !(run.progress is Pending) ==> longer == run
}

/// A request reads at most the one reply at `at`.
pub proof fn lemma_asked_settled(
    request: RequestView,
    replies: Seq<ReplyView>,
    more: Seq<ReplyView>,
    at: int,
)
    requires
        0 <= at <= replies.len(),
    ensures
        settled(asked(request, replies, at), asked(request, replies + more, at), replies, at),
{
    if at < replies.len() {
        assert((replies + more)[at] == replies[at]);
    }
}

/// The evaluation of a fragment depends on the replies that it reads alone.
pub proof fn lemma_fragment_settled(
    fragment: FragmentView,
    env: ContextView,
    replies: Seq<ReplyView>,
    more: Seq<ReplyView>,
    at: int,
)
    requires
        0 <= at <= replies.len(),
    ensures
        settled(
            eval_fragment(fragment, env, replies, at),
            eval_fragment(fragment, env, replies + more, at),
            replies,
            at,
        ),
    decreases fragment, 0int,
{
    match fragment {
        FragmentView::Command(command) => {
            lemma_command_settled(command, env, replies, more, at);
        },
        _ => {},
    }
}

/// The evaluation of the first `n` fragments depends on the replies that it reads alone.
pub proof fn lemma_fragments_settled(
    fragments: Seq<FragmentView>,
    n: int,
    env: ContextView,
    replies: Seq<ReplyView>,
    more: Seq<ReplyView>,
    at: int,
)
    requires
        0 <= at <= replies.len(),
    ensures
        settled(
            eval_fragments(fragments, n, env, replies, at),
            eval_fragments(fragments, n, env, replies + more, at),
            replies,
            at,
        ),
    decreases fragments, n,
{
    if 0 < n <= fragments.len() {
        lemma_fragments_settled(fragments, n - 1, env, replies, more, at);
        let front = eval_fragments(fragments, n - 1, env, replies, at);
        if front.progress is Done {
            lemma_fragment_settled(fragments[n - 1], env, replies, more, front.next);
        }
    }
}

/// The evaluation of an argument depends on the replies that it reads alone.
pub proof fn lemma_argument_settled(
    argument: ArgumentView,
    env: ContextView,
    replies: Seq<ReplyView>,
    more: Seq<ReplyView>,
    at: int,
)
    requires
        0 <= at <= replies.len(),
    ensures
        settled(
            eval_argument(argument, env, replies, at),
            eval_argument(argument, env, replies + more, at),
            replies,
            at,
        ),
    decreases argument, 0int,
{
    lemma_fragments_settled(
        argument.fragments,
        argument.fragments.len() as int,
        env,
        replies,
        more,
        at,
    );
}

/// The evaluation of the first `n` arguments depends on the replies that it reads alone.
pub proof fn lemma_arguments_settled(
    arguments: Seq<ArgumentView>,
    n: int,
    env: ContextView,
    replies: Seq<ReplyView>,
    more: Seq<ReplyView>,
    at: int,
)
    requires
        0 <= at <= replies.len(),
    ensures
        settled(
            eval_arguments(arguments, n, env, replies, at),
            eval_arguments(arguments, n, env, replies + more, at),
            replies,
            at,
        ),
    decreases arguments, n,
{
    if 0 < n <= arguments.len() {
        lemma_arguments_settled(arguments, n - 1, env, replies, more, at);
        let front = eval_arguments(arguments, n - 1, env, replies, at);
        if front.progress is Done {
            lemma_argument_settled(arguments[n - 1], env, replies, more, front.next);
        }
    }
}

/// The evaluation of a command depends on the replies that it reads alone: it waits for a
/// reply only when it has read all that are there, and once it is done or has failed, further
/// replies change nothing.
pub proof fn lemma_command_settled(
    command: CommandView,
    env: ContextView,
    replies: Seq<ReplyView>,
    more: Seq<ReplyView>,
    at: int,
)
    requires
        0 <= at <= replies.len(),
    ensures
        settled(
            eval_command(command, env, replies, at),
            eval_command(command, env, replies + more, at),
            replies,
            at,
        ),
    decreases command, 0int,
{
    match command {
        CommandView::Invocation { args } => {
            if args.len() > 0 {
                lemma_arguments_settled(args, args.len() as int, env, replies, more, at);
                let evaluated = eval_arguments(args, args.len() as int, env, replies, at);
                if let ProgressView::Done(texts) = evaluated.progress {
                    lemma_asked_settled(
                        RequestView::Invoke { args: texts },
                        replies,
                        more,
                        evaluated.next,
                    );
                }
            }
        },
        CommandView::Redirect { inner, path } => {
            lemma_command_settled(*inner, env, replies, more, at);
            let first = eval_command(*inner, env, replies, at);
            if let ProgressView::Done(interpretation) = first.progress {
                lemma_argument_settled(path, env, replies, more, first.next);
                let target = eval_argument(path, env, replies, first.next);
                if let ProgressView::Done(text) = target.progress {
                    if let Ok(value) = redirect_value(json_parsed(interpretation.output)) {
                        lemma_asked_settled(
                            RequestView::Post { path: resolve(env.cwd, path_of(text)), value },
                            replies,
                            more,
                            target.next,
                        );
                    }
                }
            }
        },
    }
}

/// A statement that is done or has failed comes to the same whatever replies follow: the
/// host can stop asking. One that waits has read every reply that the host has given.
pub proof fn lemma_statement_settled(
    statement: StatementView,
    env: ContextView,
    replies: Seq<ReplyView>,
    more: Seq<ReplyView>,
)
    ensures
        !(eval_statement(statement, env, replies).progress is Pending) ==> eval_statement(
            statement,
            env,
            replies + more,
        ) == eval_statement(statement, env, replies),
        eval_statement(statement, env, replies).progress is Pending ==> eval_statement(
            statement,
            env,
            replies,
        ).context == env,
{
    match statement {
        StatementView::Assignment(assignment) => {
            lemma_argument_settled(assignment.lhs, env, replies, more, 0);
            let lhs = eval_argument(assignment.lhs, env, replies, 0);
            if lhs.progress is Done {
                lemma_argument_settled(assignment.rhs, env, replies, more, lhs.next);
            }
        },
        StatementView::Command(command) => {
            lemma_command_settled(command, env, replies, more, 0);
        },
    }
}


/// How many requests the evaluation of a fragment makes at most: those of its command.
pub open spec fn fragment_requests(fragment: FragmentView) -> nat
    decreases fragment, 0int,
{
    match fragment {
        FragmentView::Command(command) => command_requests(command),
        _ => 0,
    }
}

/// How many requests the evaluation of the first `n` fragments makes at most.
pub open spec fn fragments_requests(fragments: Seq<FragmentView>, n: int) -> nat
    decreases fragments, n,
{
    if n <= 0 || n > fragments.len() {
        0
    } else {
        fragments_requests(fragments, n - 1) + fragment_requests(fragments[n - 1])
    }
}

/// How many requests the evaluation of an argument makes at most.
pub open spec fn argument_requests(argument: ArgumentView) -> nat
    decreases argument, 0int,
{
    fragments_requests(argument.fragments, argument.fragments.len() as int)
}

/// How many requests the evaluation of the first `n` arguments makes at most.
pub open spec fn arguments_requests(arguments: Seq<ArgumentView>, n: int) -> nat
    decreases arguments, n,
{
    if n <= 0 || n > arguments.len() {
        0
    } else {
        arguments_requests(arguments, n - 1) + argument_requests(arguments[n - 1])
    }
}

/// How many requests the evaluation of a command makes at most: one for each invocation and
/// one for each redirect in it.
pub open spec fn command_requests(command: CommandView) -> nat
    decreases command, 0int,
{
    match command {
        CommandView::Invocation { args } => arguments_requests(args, args.len() as int) + 1,
        CommandView::Redirect { inner, path } => command_requests(*inner) + argument_requests(
            path,
        ) + 1,
    }
}

/// How many requests the evaluation of a statement makes at most.
pub open spec fn statement_requests(statement: StatementView) -> nat {
    match statement {
        StatementView::Assignment(assignment) => argument_requests(assignment.lhs)
            + argument_requests(assignment.rhs),
        StatementView::Command(command) => command_requests(command),
    }
}

/// Whether an evaluation from `at` has read at most `limit` replies, and fewer where it waits
/// for one more.
pub open spec fn bounded<T>(run: Run<T>, at: int, limit: nat) -> bool {
    &&& run.next - at <= limit
    &&& run.progress is Pending ==> run.next - at < limit
}

/// The evaluation of a fragment reads no more replies than it makes requests.
pub proof fn lemma_fragment_bounded(
    fragment: FragmentView,
    env: ContextView,
    replies: Seq<ReplyView>,
    at: int,
)
    ensures
        bounded(eval_fragment(fragment, env, replies, at), at, fragment_requests(fragment)),
    decreases fragment, 0int,
{
    match fragment {
        FragmentView::Command(command) => {
            lemma_command_bounded(command, env, replies, at);
        },
        _ => {},
    }
}

/// The evaluation of the first `n` fragments reads no more replies than it makes requests.
pub proof fn lemma_fragments_bounded(
    fragments: Seq<FragmentView>,
    n: int,
    env: ContextView,
    replies: Seq<ReplyView>,
    at: int,
)
    ensures
        bounded(
            eval_fragments(fragments, n, env, replies, at),
            at,
            fragments_requests(fragments, n),
        ),
    decreases fragments, n,
{
    if 0 < n <= fragments.len() {
        lemma_fragments_bounded(fragments, n - 1, env, replies, at);
        let front = eval_fragments(fragments, n - 1, env, replies, at);
        lemma_fragment_bounded(fragments[n - 1], env, replies, front.next);
    }
}

/// The evaluation of an argument reads no more replies than it makes requests.
pub proof fn lemma_argument_bounded(
    argument: ArgumentView,
    env: ContextView,
    replies: Seq<ReplyView>,
    at: int,
)
    ensures
        bounded(eval_argument(argument, env, replies, at), at, argument_requests(argument)),
    decreases argument, 0int,
{
    lemma_fragments_bounded(
        argument.fragments,
        argument.fragments.len() as int,
        env,
        replies,
        at,
    );
}

/// The evaluation of the first `n` arguments reads no more replies than it makes requests.
pub proof fn lemma_arguments_bounded(
    arguments: Seq<ArgumentView>,
    n: int,
    env: ContextView,
    replies: Seq<ReplyView>,
    at: int,
)
    ensures
        bounded(
            eval_arguments(arguments, n, env, replies, at),
            at,
            arguments_requests(arguments, n),
        ),
    decreases arguments, n,
{
    if 0 < n <= arguments.len() {
        lemma_arguments_bounded(arguments, n - 1, env, replies, at);
        let front = eval_arguments(arguments, n - 1, env, replies, at);
        lemma_argument_bounded(arguments[n - 1], env, replies, front.next);
    }
}

/// The evaluation of a command reads no more replies than it makes requests, and fewer
/// while it waits.
pub proof fn lemma_command_bounded(
    command: CommandView,
    env: ContextView,
    replies: Seq<ReplyView>,
    at: int,
)
    ensures
        bounded(eval_command(command, env, replies, at), at, command_requests(command)),
    decreases command, 0int,
{
    match command {
        CommandView::Invocation { args } => {
            if args.len() > 0 {
                lemma_arguments_bounded(args, args.len() as int, env, replies, at);
            }
        },
        CommandView::Redirect { inner, path } => {
            lemma_command_bounded(*inner, env, replies, at);
            let first = eval_command(*inner, env, replies, at);
            lemma_argument_bounded(path, env, replies, first.next);
        },
    }
}

/// A statement waits for the host only while the host has given fewer replies than the
/// statement makes requests: the host's work on a statement comes to an end.
pub proof fn lemma_statement_ends(
    statement: StatementView,
    env: ContextView,
    replies: Seq<ReplyView>,
)
    ensures
        eval_statement(statement, env, replies).progress is Pending ==> replies.len()
            < statement_requests(statement),
{
    match statement {
        StatementView::Assignment(assignment) => {
            lemma_argument_bounded(assignment.lhs, env, replies, 0);
            lemma_argument_settled(assignment.lhs, env, replies, Seq::empty(), 0);
            let lhs = eval_argument(assignment.lhs, env, replies, 0);
            if lhs.progress is Done {
                lemma_argument_bounded(assignment.rhs, env, replies, lhs.next);
                lemma_argument_settled(assignment.rhs, env, replies, Seq::empty(), lhs.next);
            }
        },
        StatementView::Command(command) => {
            lemma_command_bounded(command, env, replies, 0);
            lemma_command_settled(command, env, replies, Seq::empty(), 0);
        },
    }
}

} // verus!
