//! The interpreter as a state machine. Each step looks at the innermost
//! frame of the machine, changes the shell's state, and says what the
//! program around the library has to do (run a process, write text, ...);
//! the answer comes back as the event of the next step.

use vstd::prelude::*;
use crate::ast::{copy_node, copy_nodes, list_view, node_view, nodes_view, word_view, words_view, Node, RedirectKind, Sep, SimpleCommand, SpecNode, Word};
use crate::exec::{entered, join_spaces, left, restore_vars, saved_view};
use crate::builtins::{builtin_effect, is_builtin_spec};
use crate::state::child_env;
use crate::lexer::{lemma_tokens_end_with_eof, tokenize_spec, Lexer};
use crate::parser::{parse, parse_spec};
use crate::repl::source_spec;
use crate::builtins::{texts, BuiltinAction};
use crate::exec::{expand_spec, expand_step_view, pipeline_status, return_code, skip_next, skip_next_spec, parse_i32_spec, ExpandStep, Expansion, Flow};
use crate::arith::{arith_message, ArithError};
use crate::glob::glob_matches;
use crate::state::Shell;
use crate::strmap::{lemma_text_map_insert, text_map};
use crate::text::{concat_str, trim_spec};

verus! {

broadcast use vstd::string::group_string_axioms;

/// What the program reports back after doing an action.
pub enum Event {
    /// The action needed no answer.
    Nothing,
    /// The exit status of a process (or of a builtin that needed the system).
    Status(i32),
    /// The output of a command substitution.
    Output(String),
    /// A redirection could not be set up: the message.
    RedirectFailed(String),
    /// The text of a file to run with `source`.
    SourceText(String),
    /// A background job was started, with its process id (`None`: the fork
    /// failed).
    Spawned(Option<i32>),
}

/// What the machine asks the program to do.
pub enum Action {
    /// Nothing: step again.
    Continue,
    /// Write `out` to standard output and `err` to standard error.
    Write { out: String, err: String },
    /// Run `$(SRC)` in a child shell and answer with its output.
    Capture(String),
    /// Save the standard descriptors and apply these redirections in turn;
    /// answer `Nothing`, or `RedirectFailed` (with the descriptors restored).
    ApplyRedirects(Vec<(RedirectKind, String)>),
    /// Restore the standard descriptors saved by `ApplyRedirects`.
    RestoreRedirects,
    /// Run an external command in a child process with these redirections
    /// and environment; answer with its status.
    Spawn { argv: Vec<String>, redirects: Vec<(RedirectKind, String)>, env: Vec<(String, String)> },
    /// Apply the redirections and replace this process by the command.
    Replace { argv: Vec<String>, redirects: Vec<(RedirectKind, String)>, env: Vec<(String, String)> },
    /// The part of a builtin that needs the system; answer with its status.
    System { action: BuiltinAction, args: Vec<String> },
    /// Read this file for `source`; answer with its text, or (after
    /// reporting the error) with status 1.
    ReadSource(String),
    /// Run each command in its own child, connected by pipes; answer with
    /// the status of the last.
    Pipeline(Vec<Node>),
    /// Run the statements in a child shell; answer with its status.
    Subshell(Vec<Node>),
    /// Run the statement in a child shell in the background; answer with
    /// `Spawned`.
    Background(Node),
    /// Note the time (for `time`).
    StartClock,
    /// Report the time since the matching `StartClock`.
    StopClock,
    /// The machine is done: the status it ends with.
    Finished(i32),
}

/// The stages of a simple command.
pub enum SimpleStage {
    /// Expanding the value of the `i`th assignment.
    Assign(usize),
    /// Expanding the `i`th word.
    Word(usize),
    /// Replacing an alias at the head of the arguments.
    Alias,
    /// Expanding the `j`th word of an alias.
    AliasWord(usize),
    /// The arguments are final.
    Resolved,
    /// Expanding the target of the `k`th redirection.
    Target(usize),
    /// Choosing between function, builtin and external command.
    Dispatch,
    /// Redirections for a function call were asked for.
    FunctionRedirects,
    /// A function body is running.
    Function,
    /// Redirections for a builtin were asked for.
    BuiltinRedirects,
    /// Running the builtin.
    Builtin,
    /// Waiting for the status of a builtin's system part.
    BuiltinSystem,
    /// Waiting for the text of a sourced file.
    SourceRead,
    /// A sourced file is running.
    Sourcing,
    /// Waiting for an external command.
    External,
    /// Putting the standard descriptors back.
    AfterRun,
    /// Done with this status.
    Finish,
}

/// A simple command being run.
pub struct SimpleRun {
    pub cmd: SimpleCommand,
    /// Run as a member of a pipeline (in its own process): no readonly
    /// check, nothing restored, and an external command replaces the process.
    pub child: bool,
    pub stage: SimpleStage,
    /// Values of the assigned variables from before the command.
    pub saved: Vec<(String, Option<String>)>,
    pub argv: Vec<String>,
    /// Outputs of the command substitutions of the word being expanded.
    pub captured: Vec<String>,
    /// Aliases already replaced.
    pub seen: Vec<String>,
    pub alias_words: Vec<Word>,
    pub alias_argv: Vec<String>,
    pub targets: Vec<(RedirectKind, String)>,
    /// Whether the standard descriptors were saved and must be restored.
    pub redirected: bool,
    pub status: i32,
}

/// A frame of the machine: a construct being run.
pub enum Frame {
    /// The statements of a source text; stops after a failure under `set -e`.
    Source { nodes: Vec<Node>, next: usize },
    /// A list of statements.
    Block { nodes: Vec<Node>, next: usize },
    /// A statement about to run.
    Pending(Node),
    /// A pipeline of a single command, running.
    Single { negate: bool },
    /// Waiting for a pipeline of several commands.
    AwaitPipeline { negate: bool },
    /// Waiting for a subshell.
    AwaitSubshell,
    /// Waiting for a background job to start.
    AwaitBackground,
    /// An and-or list: the next item, whether it is skipped, and the status
    /// of the last item that ran.
    AndOr { items: Vec<(Node, Sep)>, next: usize, skip: bool, prev: i32 },
    /// An `if`: the branch whose condition is next (or running), and
    /// whether a body is running.
    If { branches: Vec<(Vec<Node>, Vec<Node>)>, else_branch: Option<Vec<Node>>, next: usize, in_body: bool },
    /// A `for` loop: the values expanded so far and the next to run.
    For { var: String, words: Vec<Word>, body: Vec<Node>, values: Vec<String>, captured: Vec<String>, next: usize },
    /// A `while` or `until` loop.
    While { cond: Vec<Node>, body: Vec<Node>, until: bool, in_body: bool },
    /// A `case`: the subject once expanded, the arm and pattern tried next.
    Case {
        word: Word,
        arms: Vec<(Vec<Word>, Vec<Node>)>,
        subject: Option<String>,
        arm: usize,
        pat: usize,
        captured: Vec<String>,
        in_body: bool,
    },
    /// `return WORD`, expanding the word.
    Return { word: Word, captured: Vec<String> },
    /// A timed statement, running.
    Timed,
    /// A source text that could not be parsed: the message to report.
    Report(String),
    /// A simple command.
    Simple(SimpleRun),
}

/// One step of a frame: the frames that replace it (in order, innermost
/// last), the flow it ends with when it is done, and the action.
pub struct Trans {
    pub push: Vec<Frame>,
    pub ret: Option<Flow>,
    pub action: Action,
}

// ----- helpers -----

/// The status an event reports (1 when it reports none).
pub open spec fn event_status(ev: Event) -> i32 {
    match ev {
        Event::Status(s) => s,
        _ => 1i32,
    }
}

/// The message reported when an expansion fails.
pub open spec fn expansion_error(e: Expansion) -> Seq<char> {
    match e {
        Expansion::Failed(m) => "xsh: "@ + m + "\n"@,
        _ => "xsh: "@ + arith_message(ArithError::Overflow) + "\n"@,
    }
}

/// The action writes `err` to standard error and nothing to standard output.
pub open spec fn writes_err(a: Action, err: Seq<char>) -> bool {
    a matches Action::Write { out, err: e } && out@.len() == 0 && e@ == err
}

/// The frame finishes with `f` and asks for nothing.
pub open spec fn finishes(t: Trans, f: Flow) -> bool {
    t.push@.len() == 0 && t.ret == Some(f) && t.action is Continue
}

/// The frame is replaced by `f` alone, with nothing asked.
pub open spec fn stays(t: Trans, f: Frame) -> bool {
    t.push@ == seq![f] && t.ret is None && t.action is Continue
}

/// The frame is replaced by `f`, with a statement to run on top of it:
/// a copy of `n`.
pub open spec fn runs_node(t: Trans, f: Frame, n: Node) -> bool {
    &&& t.push@.len() == 2
    &&& t.push@[0] == f
    &&& t.push@[1] matches Frame::Pending(c) && node_view(c) == node_view(n)
    &&& t.ret is None
    &&& t.action is Continue
}

/// The frame is replaced by `f`, with a list of statements to run on top
/// of it: a copy of `body`.
pub open spec fn runs_block(t: Trans, f: Frame, body: Seq<Node>) -> bool {
    &&& t.push@.len() == 2
    &&& t.push@[0] == f
    &&& t.push@[1] matches Frame::Block { nodes, next } && next == 0 && list_view(nodes@) == list_view(body)
    &&& t.ret is None
    &&& t.action is Continue
}

fn done(f: Flow) -> (t: Trans)
    ensures
        finishes(t, f),
{
    Trans { push: Vec::new(), ret: Some(f), action: Action::Continue }
}

fn stay(f: Frame) -> (t: Trans)
    ensures
        stays(t, f),
{
    let mut v = Vec::new();
    v.push(f);
    Trans { push: v, ret: None, action: Action::Continue }
}

fn err_write(e: String) -> (a: Action)
    ensures
        writes_err(a, e@),
{
    Action::Write { out: String::new(), err: e }
}

/// The message for a failed expansion.
fn expansion_message(r: &ExpandStep) -> (m: String)
    ensures
        m@ == expansion_error(expand_step_view(*r)),
{
    match r {
        ExpandStep::Failed(m) => {
            let a = concat_str("xsh: ", m.as_str());
            concat_str(a.as_str(), "\n")
        },
        _ => {
            let a = concat_str("xsh: ", "arith: integer overflow");
            concat_str(a.as_str(), "\n")
        },
    }
}

/// Whether the flow is `Normal`.
fn is_normal(f: &Flow) -> (r: bool)
    ensures
        r == (*f is Normal),
{
    match f {
        Flow::Normal => true,
        _ => false,
    }
}

fn copy_flow(f: &Flow) -> (r: Flow)
    ensures
        r == *f,
{
    match f {
        Flow::Normal => Flow::Normal,
        Flow::Break => Flow::Break,
        Flow::Continue => Flow::Continue,
        Flow::Return(c) => Flow::Return(*c),
    }
}

// ----- statement lists -----

/// A step of the statements of a source text.
pub open spec fn source_rel(nodes: Vec<Node>, next: usize, sh0: Shell, ret: Option<Flow>, sh1: Shell, t: Trans) -> bool {
    if ret is Some {
        if sh0.errexit && sh0.last_status != 0 {
            sh1 == Shell { should_exit: Some(sh0.last_status), ..sh0 } && finishes(t, Flow::Normal)
        } else {
            sh1 == sh0 && stays(t, Frame::Source { nodes, next })
        }
    } else if next >= nodes@.len() || sh0.should_exit is Some {
        sh1 == sh0 && finishes(t, Flow::Normal)
    } else {
        sh1 == sh0 && runs_node(t, Frame::Source { nodes, next: (next + 1) as usize }, nodes@[next as int])
    }
}

fn step_source(nodes: Vec<Node>, next: usize, sh: &mut Shell, ret: Option<Flow>) -> (t: Trans)
    ensures
        source_rel(nodes, next, *old(sh), ret, *final(sh), t),
{
    if ret.is_some() {
        if sh.errexit && sh.last_status != 0 {
            sh.should_exit = Some(sh.last_status);
            done(Flow::Normal)
        } else {
            stay(Frame::Source { nodes, next })
        }
    } else if next >= nodes.len() || sh.should_exit.is_some() {
        done(Flow::Normal)
    } else {
        let n = copy_node(&nodes[next]);
        let mut v = Vec::new();
        v.push(Frame::Source { nodes, next: next + 1 });
        v.push(Frame::Pending(n));
        Trans { push: v, ret: None, action: Action::Continue }
    }
}

/// A step of a list of statements.
pub open spec fn block_rel(nodes: Vec<Node>, next: usize, sh0: Shell, ret: Option<Flow>, sh1: Shell, t: Trans) -> bool {
    &&& sh1 == sh0
    &&& match ret {
        Some(f) => if f is Normal {
            stays(t, Frame::Block { nodes, next })
        } else {
            finishes(t, f)
        },
        None => if next >= nodes@.len() || sh0.should_exit is Some {
            finishes(t, Flow::Normal)
        } else {
            runs_node(t, Frame::Block { nodes, next: (next + 1) as usize }, nodes@[next as int])
        },
    }
}

fn step_block(nodes: Vec<Node>, next: usize, sh: &Shell, ret: Option<Flow>) -> (t: Trans)
    ensures
        block_rel(nodes, next, *sh, ret, *sh, t),
{
    match ret {
        Some(f) => {
            if is_normal(&f) {
                stay(Frame::Block { nodes, next })
            } else {
                done(f)
            }
        },
        None => {
            if next >= nodes.len() || sh.should_exit.is_some() {
                done(Flow::Normal)
            } else {
                let n = copy_node(&nodes[next]);
                let mut v = Vec::new();
                v.push(Frame::Block { nodes, next: next + 1 });
                v.push(Frame::Pending(n));
                Trans { push: v, ret: None, action: Action::Continue }
            }
        },
    }
}

// ----- statements -----

/// A simple command about to start.
pub open spec fn fresh_simple(r: SimpleRun, cmd: SimpleCommand, child: bool) -> bool {
    &&& r.cmd == cmd
    &&& r.child == child
    &&& r.stage matches SimpleStage::Assign(i) && i == 0
    &&& r.saved@.len() == 0
    &&& r.argv@.len() == 0
    &&& r.captured@.len() == 0
    &&& r.seen@.len() == 0
    &&& r.alias_words@.len() == 0
    &&& r.alias_argv@.len() == 0
    &&& r.targets@.len() == 0
    &&& !r.redirected
    &&& r.status == 0
}

/// A `for` frame with these parts.
pub open spec fn for_frame(
    f: Frame,
    var: String,
    words: Vec<Word>,
    body: Vec<Node>,
    vals: Seq<Seq<char>>,
    caps: Seq<Seq<char>>,
    next: int,
) -> bool {
    f matches Frame::For { var: a, words: b, body: c, values, captured, next: n } && a == var && b == words && c == body
        && texts(values@) == vals && texts(captured@) == caps && n == next
}

/// A `case` frame with these parts.
pub open spec fn case_frame(
    f: Frame,
    word: Word,
    arms: Vec<(Vec<Word>, Vec<Node>)>,
    subject: Option<Seq<char>>,
    arm: int,
    pat: int,
    caps: Seq<Seq<char>>,
    in_body: bool,
) -> bool {
    f matches Frame::Case { word: w, arms: a, subject: s, arm: i, pat: j, captured, in_body: b } && w == word && a == arms
        && match s {
        Some(x) => subject == Some(x@),
        None => subject is None,
    } && i == arm && j == pat && texts(captured@) == caps && b == in_body
}

/// A `return` frame with these parts.
pub open spec fn return_frame(f: Frame, word: Word, caps: Seq<Seq<char>>) -> bool {
    f matches Frame::Return { word: w, captured } && w == word && texts(captured@) == caps
}

/// The frame is replaced by one frame, and is not done.
pub open spec fn one_frame(t: Trans) -> bool {
    t.push@.len() == 1 && t.ret is None
}

/// The frame is replaced by itself (as `t.push@[0]`) with a copy of
/// `body` to run on top of it.
pub open spec fn pushes_block(t: Trans, body: Seq<Node>) -> bool {
    &&& t.push@.len() == 2
    &&& t.push@[1] matches Frame::Block { nodes, next } && next == 0 && list_view(nodes@) == list_view(body)
    &&& t.ret is None
    &&& t.action is Continue
}

/// The status of a pipeline from that of its last command.
pub open spec fn negated(status: i32, negate: bool) -> i32 {
    if negate {
        if status == 0 { 1i32 } else { 0i32 }
    } else {
        status
    }
}

/// The status `return WORD` gives for the expanded word.
pub open spec fn return_value(s: Seq<char>) -> i32 {
    match parse_i32_spec(trim_spec(s)) {
        Some(v) => v as i32,
        None => 0i32,
    }
}

/// A step of a statement about to run.
pub open spec fn pending_rel(n: Node, sh0: Shell, sh1: Shell, t: Trans) -> bool {
    match n {
        Node::Simple(sc) => sh1 == sh0 && one_frame(t) && t.action is Continue && (t.push@[0] matches Frame::Simple(r)
            && fresh_simple(r, sc, false)),
        Node::Pipeline(cmds, negate) => sh1 == sh0 && if cmds@.len() == 1 {
            t.push@ == seq![Frame::Single { negate }, Frame::Pending(cmds@[0])] && t.ret is None && t.action is Continue
        } else {
            t.push@ == seq![Frame::AwaitPipeline { negate }] && t.ret is None && t.action == Action::Pipeline(cmds)
        },
        Node::List(items) => sh1 == sh0 && stays(t, Frame::AndOr { items, next: 0, skip: false, prev: sh0.last_status }),
        Node::If { branches, else_branch } => sh1 == sh0 && stays(
            t,
            Frame::If { branches, else_branch, next: 0, in_body: false },
        ),
        Node::For { var, words, body } => sh1 == sh0 && one_frame(t) && t.action is Continue && for_frame(
            t.push@[0],
            var,
            words,
            body,
            Seq::empty(),
            Seq::empty(),
            0,
        ),
        Node::While { cond, body, until } => sh1 == sh0 && stays(t, Frame::While { cond, body, until, in_body: false }),
        Node::FunctionDef { name, body } => sh1 == Shell { functions: sh1.functions, last_status: 0, ..sh0 }
            && sh1.functions@ == sh0.functions@.insert(name@, body) && finishes(t, Flow::Normal),
        Node::Subshell(body) => sh1 == sh0 && t.push@ == seq![Frame::AwaitSubshell] && t.ret is None && t.action
            == Action::Subshell(body),
        Node::Background(inner) => sh1 == sh0 && t.push@ == seq![Frame::AwaitBackground] && t.ret is None && t.action
            == Action::Background(*inner),
        Node::Return(w) => sh1 == sh0 && match w {
            None => finishes(t, Flow::Return(sh0.last_status)),
            Some(word) => one_frame(t) && t.action is Continue && return_frame(t.push@[0], word, Seq::empty()),
        },
        Node::Break => sh1 == sh0 && finishes(t, Flow::Break),
        Node::Continue => sh1 == sh0 && finishes(t, Flow::Continue),
        Node::Case { word, arms } => sh1 == sh0 && one_frame(t) && t.action is Continue && case_frame(
            t.push@[0],
            word,
            arms,
            None,
            0,
            0,
            Seq::empty(),
            false,
        ),
        Node::Timed(inner) => sh1 == sh0 && t.push@ == seq![Frame::Timed, Frame::Pending(*inner)] && t.ret is None
            && t.action is StartClock,
    }
}

fn new_simple(cmd: SimpleCommand, child: bool) -> (r: SimpleRun)
    ensures
        fresh_simple(r, cmd, child),
{
    SimpleRun {
        cmd,
        child,
        stage: SimpleStage::Assign(0),
        saved: Vec::new(),
        argv: Vec::new(),
        captured: Vec::new(),
        seen: Vec::new(),
        alias_words: Vec::new(),
        alias_argv: Vec::new(),
        targets: Vec::new(),
        redirected: false,
        status: 0,
    }
}

fn one(f: Frame, a: Action) -> (t: Trans)
    ensures
        t.push@ == seq![f],
        t.ret is None,
        t.action == a,
{
    let mut v = Vec::new();
    v.push(f);
    Trans { push: v, ret: None, action: a }
}

fn step_pending(n: Node, sh: &mut Shell) -> (t: Trans)
    ensures
        pending_rel(n, *old(sh), *final(sh), t),
{
    match n {
        Node::Simple(sc) => stay(Frame::Simple(new_simple(sc, false))),
        Node::Pipeline(cmds, negate) => {
            if cmds.len() == 1 {
                let mut c = cmds;
                let first = c.remove(0);
                let mut v = Vec::new();
                v.push(Frame::Single { negate });
                v.push(Frame::Pending(first));
                assert(v@ =~= seq![Frame::Single { negate }, Frame::Pending(cmds@[0])]);
                Trans { push: v, ret: None, action: Action::Continue }
            } else {
                one(Frame::AwaitPipeline { negate }, Action::Pipeline(cmds))
            }
        },
        Node::List(items) => stay(Frame::AndOr { items, next: 0, skip: false, prev: sh.last_status }),
        Node::If { branches, else_branch } => stay(Frame::If { branches, else_branch, next: 0, in_body: false }),
        Node::For { var, words, body } => {
            let values: Vec<String> = Vec::new();
            let captured: Vec<String> = Vec::new();
            assert(texts(values@) =~= Seq::empty());
            assert(texts(captured@) =~= Seq::empty());
            stay(Frame::For { var, words, body, values, captured, next: 0 })
        },
        Node::While { cond, body, until } => stay(Frame::While { cond, body, until, in_body: false }),
        Node::FunctionDef { name, body } => {
            sh.functions.insert(name, body);
            sh.last_status = 0;
            done(Flow::Normal)
        },
        Node::Subshell(body) => one(Frame::AwaitSubshell, Action::Subshell(body)),
        Node::Background(inner) => one(Frame::AwaitBackground, Action::Background(*inner)),
        Node::Return(w) => match w {
            None => done(Flow::Return(sh.last_status)),
            Some(word) => {
                let captured: Vec<String> = Vec::new();
                assert(texts(captured@) =~= Seq::empty());
                stay(Frame::Return { word, captured })
            },
        },
        Node::Break => done(Flow::Break),
        Node::Continue => done(Flow::Continue),
        Node::Case { word, arms } => {
            let captured: Vec<String> = Vec::new();
            assert(texts(captured@) =~= Seq::empty());
            stay(Frame::Case { word, arms, subject: None, arm: 0, pat: 0, captured, in_body: false })
        },
        Node::Timed(inner) => {
            let mut v = Vec::new();
            v.push(Frame::Timed);
            v.push(Frame::Pending(*inner));
            assert(v@ =~= seq![Frame::Timed, Frame::Pending(*inner)]);
            Trans { push: v, ret: None, action: Action::StartClock }
        },
    }
}

/// A step of the frames that wait for one answer.
pub open spec fn await_rel(f: Frame, sh0: Shell, ret: Option<Flow>, ev: Event, sh1: Shell, t: Trans) -> bool {
    match f {
        Frame::Single { negate } => sh1 == Shell { last_status: negated(sh0.last_status, negate), ..sh0 } && finishes(
            t,
            Flow::Normal,
        ),
        Frame::AwaitPipeline { negate } => sh1 == Shell { last_status: negated(event_status(ev), negate), ..sh0 }
            && finishes(t, Flow::Normal),
        Frame::AwaitSubshell => sh1 == Shell { last_status: event_status(ev), ..sh0 } && finishes(t, Flow::Normal),
        Frame::AwaitBackground => finishes(t, Flow::Normal) && match ev {
            Event::Spawned(Some(pid)) => sh1 == Shell { bg_jobs: sh1.bg_jobs, last_status: 0, ..sh0 } && sh1.bg_jobs@
                == sh0.bg_jobs@.push(pid),
            _ => sh1 == Shell { last_status: 0, ..sh0 },
        },
        Frame::Timed => sh1 == sh0 && t.push@.len() == 0 && t.ret == Some(
            match ret {
                Some(f) => f,
                None => Flow::Normal,
            },
        ) && t.action is StopClock,
        Frame::Report(m) => sh1 == sh0 && t.push@.len() == 0 && t.ret == Some(Flow::Normal) && writes_err(t.action, m@),
        _ => true,
    }
}

fn event_status_of(ev: &Event) -> (s: i32)
    ensures
        s == event_status(*ev),
{
    match ev {
        Event::Status(s) => *s,
        _ => 1,
    }
}

fn step_single(negate: bool, sh: &mut Shell) -> (t: Trans)
    ensures
        await_rel(Frame::Single { negate }, *old(sh), None, Event::Nothing, *final(sh), t),
{
    sh.last_status = pipeline_status(sh.last_status, negate);
    done(Flow::Normal)
}

fn step_await_pipeline(negate: bool, sh: &mut Shell, ev: Event) -> (t: Trans)
    ensures
        await_rel(Frame::AwaitPipeline { negate }, *old(sh), None, ev, *final(sh), t),
{
    let st = event_status_of(&ev);
    sh.last_status = pipeline_status(st, negate);
    done(Flow::Normal)
}

fn step_await_subshell(sh: &mut Shell, ev: Event) -> (t: Trans)
    ensures
        await_rel(Frame::AwaitSubshell, *old(sh), None, ev, *final(sh), t),
{
    sh.last_status = event_status_of(&ev);
    done(Flow::Normal)
}

fn step_await_background(sh: &mut Shell, ev: Event) -> (t: Trans)
    ensures
        await_rel(Frame::AwaitBackground, *old(sh), None, ev, *final(sh), t),
{
    match ev {
        Event::Spawned(Some(pid)) => {
            sh.bg_jobs.push(pid);
        },
        _ => {},
    }
    sh.last_status = 0;
    done(Flow::Normal)
}

fn step_timed(ret: Option<Flow>) -> (t: Trans)
    ensures
        t.push@.len() == 0,
        t.ret == Some(
            match ret {
                Some(f) => f,
                None => Flow::Normal,
            },
        ),
        t.action is StopClock,
{
    let f = match ret {
        Some(f) => f,
        None => Flow::Normal,
    };
    Trans { push: Vec::new(), ret: Some(f), action: Action::StopClock }
}

fn step_report(m: String) -> (t: Trans)
    ensures
        t.push@.len() == 0,
        t.ret == Some(Flow::Normal),
        writes_err(t.action, m@),
{
    Trans { push: Vec::new(), ret: Some(Flow::Normal), action: err_write(m) }
}

/// A step of an and-or list.
pub open spec fn and_or_rel(
    items: Vec<(Node, Sep)>,
    next: usize,
    skip: bool,
    prev: i32,
    sh0: Shell,
    ret: Option<Flow>,
    sh1: Shell,
    t: Trans,
) -> bool {
    match ret {
        Some(f) => sh1 == sh0 && if !(f is Normal) {
            finishes(t, f)
        } else if next < items@.len() {
            stays(
                t,
                Frame::AndOr {
                    items,
                    next: (next + 1) as usize,
                    skip: skip_next_spec(items@[next as int].1, sh0.last_status),
                    prev: sh0.last_status,
                },
            )
        } else {
            stays(t, Frame::AndOr { items, next, skip, prev })
        },
        None => if next >= items@.len() {
            sh1 == Shell { last_status: prev, ..sh0 } && finishes(t, Flow::Normal)
        } else if skip {
            sh1 == sh0 && stays(
                t,
                Frame::AndOr {
                    items,
                    next: (next + 1) as usize,
                    skip: skip_next_spec(items@[next as int].1, prev),
                    prev,
                },
            )
        } else {
            sh1 == sh0 && runs_node(t, Frame::AndOr { items, next, skip, prev }, items@[next as int].0)
        },
    }
}

fn step_and_or(items: Vec<(Node, Sep)>, next: usize, skip: bool, prev: i32, sh: &mut Shell, ret: Option<Flow>) -> (t: Trans)
    ensures
        and_or_rel(items, next, skip, prev, *old(sh), ret, *final(sh), t),
{
    match ret {
        Some(f) => {
            if !is_normal(&f) {
                done(f)
            } else if next < items.len() {
                let p = sh.last_status;
                let sk = skip_next(items[next].1, p);
                stay(Frame::AndOr { items, next: next + 1, skip: sk, prev: p })
            } else {
                stay(Frame::AndOr { items, next, skip, prev })
            }
        },
        None => {
            if next >= items.len() {
                sh.last_status = prev;
                done(Flow::Normal)
            } else if skip {
                let sk = skip_next(items[next].1, prev);
                stay(Frame::AndOr { items, next: next + 1, skip: sk, prev })
            } else {
                let c = copy_node(&items[next].0);
                let mut v = Vec::new();
                v.push(Frame::AndOr { items, next, skip, prev });
                v.push(Frame::Pending(c));
                Trans { push: v, ret: None, action: Action::Continue }
            }
        },
    }
}

/// A step of an `if`.
pub open spec fn if_rel(
    branches: Vec<(Vec<Node>, Vec<Node>)>,
    else_branch: Option<Vec<Node>>,
    next: usize,
    in_body: bool,
    sh0: Shell,
    ret: Option<Flow>,
    sh1: Shell,
    t: Trans,
) -> bool {
    if in_body {
        sh1 == sh0 && finishes(
            t,
            match ret {
                Some(f) => f,
                None => Flow::Normal,
            },
        )
    } else {
        match ret {
            Some(f) => sh1 == sh0 && if !(f is Normal) {
                finishes(t, f)
            } else if next >= branches@.len() {
                stays(t, Frame::If { branches, else_branch, next, in_body: false })
            } else if sh0.last_status == 0 {
                runs_block(t, Frame::If { branches, else_branch, next, in_body: true }, branches@[next as int].1@)
            } else {
                stays(t, Frame::If { branches, else_branch, next: (next + 1) as usize, in_body: false })
            },
            None => if next < branches@.len() {
                sh1 == sh0 && runs_block(
                    t,
                    Frame::If { branches, else_branch, next, in_body: false },
                    branches@[next as int].0@,
                )
            } else {
                match else_branch {
                    Some(b) => sh1 == sh0 && runs_block(
                        t,
                        Frame::If { branches, else_branch, next, in_body: true },
                        b@,
                    ),
                    None => sh1 == Shell { last_status: 0, ..sh0 } && finishes(t, Flow::Normal),
                }
            },
        }
    }
}

fn step_if(
    branches: Vec<(Vec<Node>, Vec<Node>)>,
    else_branch: Option<Vec<Node>>,
    next: usize,
    in_body: bool,
    sh: &mut Shell,
    ret: Option<Flow>,
) -> (t: Trans)
    ensures
        if_rel(branches, else_branch, next, in_body, *old(sh), ret, *final(sh), t),
{
    if in_body {
        let f = match ret {
            Some(f) => f,
            None => Flow::Normal,
        };
        return done(f);
    }
    match ret {
        Some(f) => {
            if !is_normal(&f) {
                done(f)
            } else if next >= branches.len() {
                stay(Frame::If { branches, else_branch, next, in_body: false })
            } else if sh.last_status == 0 {
                let c = copy_nodes(&branches[next].1);
                let mut v = Vec::new();
                v.push(Frame::If { branches, else_branch, next, in_body: true });
                v.push(Frame::Block { nodes: c, next: 0 });
                Trans { push: v, ret: None, action: Action::Continue }
            } else {
                stay(Frame::If { branches, else_branch, next: next + 1, in_body: false })
            }
        },
        None => {
            if next < branches.len() {
                let c = copy_nodes(&branches[next].0);
                let mut v = Vec::new();
                v.push(Frame::If { branches, else_branch, next, in_body: false });
                v.push(Frame::Block { nodes: c, next: 0 });
                Trans { push: v, ret: None, action: Action::Continue }
            } else {
                match else_branch {
                    Some(b) => {
                        let c = copy_nodes(&b);
                        let mut v = Vec::new();
                        v.push(Frame::If { branches, else_branch: Some(b), next, in_body: true });
                        v.push(Frame::Block { nodes: c, next: 0 });
                        Trans { push: v, ret: None, action: Action::Continue }
                    },
                    None => {
                        sh.last_status = 0;
                        done(Flow::Normal)
                    },
                }
            }
        },
    }
}

/// A step of a `while` or `until` loop.
pub open spec fn while_rel(
    cond: Vec<Node>,
    body: Vec<Node>,
    until: bool,
    in_body: bool,
    sh0: Shell,
    ret: Option<Flow>,
    sh1: Shell,
    t: Trans,
) -> bool {
    if !in_body {
        match ret {
            None => sh1 == sh0 && runs_block(t, Frame::While { cond, body, until, in_body: false }, cond@),
            Some(f) => if !(f is Normal) {
                sh1 == sh0 && finishes(t, f)
            } else if (if until { sh0.last_status != 0 } else { sh0.last_status == 0 }) {
                sh1 == sh0 && runs_block(t, Frame::While { cond, body, until, in_body: true }, body@)
            } else {
                sh1 == Shell { last_status: 0, ..sh0 } && finishes(t, Flow::Normal)
            },
        }
    } else {
        match ret {
            Some(Flow::Break) => sh1 == Shell { last_status: 0, ..sh0 } && finishes(t, Flow::Normal),
            Some(Flow::Return(c)) => sh1 == sh0 && finishes(t, Flow::Return(c)),
            _ => sh1 == sh0 && stays(t, Frame::While { cond, body, until, in_body: false }),
        }
    }
}

fn step_while(cond: Vec<Node>, body: Vec<Node>, until: bool, in_body: bool, sh: &mut Shell, ret: Option<Flow>) -> (t: Trans)
    ensures
        while_rel(cond, body, until, in_body, *old(sh), ret, *final(sh), t),
{
    if !in_body {
        match ret {
            None => {
                let c = copy_nodes(&cond);
                let mut v = Vec::new();
                v.push(Frame::While { cond, body, until, in_body: false });
                v.push(Frame::Block { nodes: c, next: 0 });
                Trans { push: v, ret: None, action: Action::Continue }
            },
            Some(f) => {
                if !is_normal(&f) {
                    done(f)
                } else if (if until { sh.last_status != 0 } else { sh.last_status == 0 }) {
                    let c = copy_nodes(&body);
                    let mut v = Vec::new();
                    v.push(Frame::While { cond, body, until, in_body: true });
                    v.push(Frame::Block { nodes: c, next: 0 });
                    Trans { push: v, ret: None, action: Action::Continue }
                } else {
                    sh.last_status = 0;
                    done(Flow::Normal)
                }
            },
        }
    } else {
        match ret {
            Some(Flow::Break) => {
                sh.last_status = 0;
                done(Flow::Normal)
            },
            Some(Flow::Return(c)) => done(Flow::Return(c)),
            _ => stay(Frame::While { cond, body, until, in_body: false }),
        }
    }
}

// ----- constructs that expand words -----

/// A step of a `for` loop.
pub open spec fn for_rel(
    var: String,
    words: Vec<Word>,
    body: Vec<Node>,
    values: Vec<String>,
    captured: Vec<String>,
    next: usize,
    sh0: Shell,
    ret: Option<Flow>,
    ev: Event,
    sh1: Shell,
    t: Trans,
) -> bool {
    let vals = texts(values@);
    let caps = texts(captured@);
    if vals.len() < words@.len() {
        match ev {
            Event::Output(o) => sh1 == sh0 && one_frame(t) && t.action is Continue && for_frame(
                t.push@[0],
                var,
                words,
                body,
                vals,
                caps.push(o@),
                next as int,
            ),
            _ => match expand_spec(sh0, word_view(words@[vals.len() as int]@), caps) {
                Expansion::Text(x) => sh1 == sh0 && one_frame(t) && t.action is Continue && for_frame(
                    t.push@[0],
                    var,
                    words,
                    body,
                    vals.push(x),
                    Seq::empty(),
                    next as int,
                ),
                Expansion::NeedsOutput(src) => sh1 == sh0 && one_frame(t) && (t.action matches Action::Capture(c)
                    && c@ == src) && for_frame(t.push@[0], var, words, body, vals, caps, next as int),
                e => sh1 == Shell { last_status: 1, ..sh0 } && t.push@.len() == 0 && t.ret == Some(Flow::Normal)
                    && writes_err(t.action, expansion_error(e)),
            },
        }
    } else {
        match ret {
            Some(Flow::Break) => sh1 == Shell { last_status: 0, ..sh0 } && finishes(t, Flow::Normal),
            Some(Flow::Return(c)) => sh1 == sh0 && finishes(t, Flow::Return(c)),
            _ => if next >= vals.len() {
                sh1 == Shell { last_status: 0, ..sh0 } && finishes(t, Flow::Normal)
            } else {
                &&& sh1 == Shell { vars: sh1.vars, ..sh0 }
                &&& text_map(sh1.vars@) == text_map(sh0.vars@).insert(var@, vals[next as int])
                &&& pushes_block(t, body@)
                &&& for_frame(t.push@[0], var, words, body, vals, caps, next + 1)
            },
        }
    }
}

fn step_for(
    var: String,
    words: Vec<Word>,
    body: Vec<Node>,
    values: Vec<String>,
    captured: Vec<String>,
    next: usize,
    sh: &mut Shell,
    ret: Option<Flow>,
    ev: Event,
) -> (t: Trans)
    ensures
        for_rel(var, words, body, values, captured, next, *old(sh), ret, ev, *final(sh), t),
{
    let ghost vals = texts(values@);
    let ghost caps = texts(captured@);
    if values.len() < words.len() {
        match ev {
            Event::Output(o) => {
                let mut c = captured;
                c.push(o);
                assert(texts(c@) =~= caps.push(o@));
                stay(Frame::For { var, words, body, values, captured: c, next })
            },
            _ => {
                let r = sh.expand_word(&words[values.len()], captured.as_slice());
                assert(captured@.map_values(|c: String| c@) == caps);
                match &r {
                    ExpandStep::Text(x) => {
                        let mut vs = values;
                        vs.push(x.clone());
                        assert(texts(vs@) =~= vals.push(x@));
                        let empty: Vec<String> = Vec::new();
                        assert(texts(empty@) =~= Seq::empty());
                        stay(Frame::For { var, words, body, values: vs, captured: empty, next })
                    },
                    ExpandStep::NeedsOutput(src) => one(
                        Frame::For { var, words, body, values, captured, next },
                        Action::Capture(src.clone()),
                    ),
                    _ => {
                        let m = expansion_message(&r);
                        sh.last_status = 1;
                        Trans { push: Vec::new(), ret: Some(Flow::Normal), action: err_write(m) }
                    },
                }
            },
        }
    } else {
        match ret {
            Some(Flow::Break) => {
                sh.last_status = 0;
                done(Flow::Normal)
            },
            Some(Flow::Return(c)) => done(Flow::Return(c)),
            _ => {
                if next >= values.len() {
                    sh.last_status = 0;
                    done(Flow::Normal)
                } else {
                    let v = values[next].clone();
                    proof {
                        lemma_text_map_insert(sh.vars@, var@, v);
                    }
                    sh.vars.insert(var.clone(), v);
                    let c = copy_nodes(&body);
                    let mut out = Vec::new();
                    out.push(Frame::For { var, words, body, values, captured, next: next + 1 });
                    out.push(Frame::Block { nodes: c, next: 0 });
                    Trans { push: out, ret: None, action: Action::Continue }
                }
            },
        }
    }
}

/// A step of a `case`.
pub open spec fn case_rel(
    word: Word,
    arms: Vec<(Vec<Word>, Vec<Node>)>,
    subject: Option<String>,
    arm: usize,
    pat: usize,
    captured: Vec<String>,
    in_body: bool,
    sh0: Shell,
    ret: Option<Flow>,
    ev: Event,
    sh1: Shell,
    t: Trans,
) -> bool {
    let caps = texts(captured@);
    let subj = match subject {
        Some(x) => Some(x@),
        None => None,
    };
    if in_body {
        sh1 == sh0 && finishes(
            t,
            match ret {
                Some(f) => f,
                None => Flow::Normal,
            },
        )
    } else if ev is Output {
        sh1 == sh0 && one_frame(t) && t.action is Continue && case_frame(
            t.push@[0],
            word,
            arms,
            subj,
            arm as int,
            pat as int,
            caps.push(ev->Output_0@),
            false,
        )
    } else {
        match subject {
            None => match expand_spec(sh0, word_view(word@), caps) {
                Expansion::Text(x) => sh1 == sh0 && one_frame(t) && t.action is Continue && case_frame(
                    t.push@[0],
                    word,
                    arms,
                    Some(x),
                    0,
                    0,
                    Seq::empty(),
                    false,
                ),
                Expansion::NeedsOutput(src) => sh1 == sh0 && one_frame(t) && (t.action matches Action::Capture(c)
                    && c@ == src) && case_frame(t.push@[0], word, arms, subj, arm as int, pat as int, caps, false),
                e => sh1 == Shell { last_status: 1, ..sh0 } && t.push@.len() == 0 && t.ret == Some(Flow::Normal)
                    && writes_err(t.action, expansion_error(e)),
            },
            Some(s) => if arm >= arms@.len() {
                sh1 == Shell { last_status: 0, ..sh0 } && finishes(t, Flow::Normal)
            } else if pat >= arms@[arm as int].0@.len() {
                sh1 == sh0 && one_frame(t) && t.action is Continue && case_frame(
                    t.push@[0],
                    word,
                    arms,
                    subj,
                    arm + 1,
                    0,
                    caps,
                    false,
                )
            } else {
                match expand_spec(sh0, word_view(arms@[arm as int].0@[pat as int]@), caps) {
                    Expansion::Text(p) => sh1 == sh0 && if glob_matches(p, s@) {
                        pushes_block(t, arms@[arm as int].1@) && case_frame(
                            t.push@[0],
                            word,
                            arms,
                            subj,
                            arm as int,
                            pat as int,
                            Seq::empty(),
                            true,
                        )
                    } else {
                        one_frame(t) && t.action is Continue && case_frame(
                            t.push@[0],
                            word,
                            arms,
                            subj,
                            arm as int,
                            pat + 1,
                            Seq::empty(),
                            false,
                        )
                    },
                    Expansion::NeedsOutput(src) => sh1 == sh0 && one_frame(t) && (t.action matches Action::Capture(c)
                        && c@ == src) && case_frame(t.push@[0], word, arms, subj, arm as int, pat as int, caps, false),
                    e => sh1 == Shell { last_status: 1, ..sh0 } && t.push@.len() == 0 && t.ret == Some(Flow::Normal)
                        && writes_err(t.action, expansion_error(e)),
                }
            },
        }
    }
}

fn step_case(
    word: Word,
    arms: Vec<(Vec<Word>, Vec<Node>)>,
    subject: Option<String>,
    arm: usize,
    pat: usize,
    captured: Vec<String>,
    in_body: bool,
    sh: &mut Shell,
    ret: Option<Flow>,
    ev: Event,
) -> (t: Trans)
    ensures
        case_rel(word, arms, subject, arm, pat, captured, in_body, *old(sh), ret, ev, *final(sh), t),
{
    let ghost caps = texts(captured@);
    if in_body {
        let f = match ret {
            Some(f) => f,
            None => Flow::Normal,
        };
        return done(f);
    }
    if let Event::Output(o) = ev {
        let mut c = captured;
        c.push(o);
        assert(texts(c@) =~= caps.push(o@));
        return stay(Frame::Case { word, arms, subject, arm, pat, captured: c, in_body: false });
    }
    match subject {
        None => {
            let r = sh.expand_word(&word, captured.as_slice());
            assert(captured@.map_values(|c: String| c@) == caps);
            match &r {
                ExpandStep::Text(x) => {
                    let empty: Vec<String> = Vec::new();
                    assert(texts(empty@) =~= Seq::empty());
                    stay(
                        Frame::Case {
                            word,
                            arms,
                            subject: Some(x.clone()),
                            arm: 0,
                            pat: 0,
                            captured: empty,
                            in_body: false,
                        },
                    )
                },
                ExpandStep::NeedsOutput(src) => one(
                    Frame::Case { word, arms, subject: None, arm, pat, captured, in_body: false },
                    Action::Capture(src.clone()),
                ),
                _ => {
                    let m = expansion_message(&r);
                    sh.last_status = 1;
                    Trans { push: Vec::new(), ret: Some(Flow::Normal), action: err_write(m) }
                },
            }
        },
        Some(s) => {
            if arm >= arms.len() {
                sh.last_status = 0;
                done(Flow::Normal)
            } else if pat >= arms[arm].0.len() {
                stay(Frame::Case { word, arms, subject: Some(s), arm: arm + 1, pat: 0, captured, in_body: false })
            } else {
                let r = sh.expand_word(&arms[arm].0[pat], captured.as_slice());
                assert(captured@.map_values(|c: String| c@) == caps);
                match &r {
                    ExpandStep::Text(p) => {
                        let empty: Vec<String> = Vec::new();
                        assert(texts(empty@) =~= Seq::empty());
                        if crate::glob::matches(p.as_str(), s.as_str()) {
                            let c = copy_nodes(&arms[arm].1);
                            let mut v = Vec::new();
                            v.push(Frame::Case { word, arms, subject: Some(s), arm, pat, captured: empty, in_body: true });
                            v.push(Frame::Block { nodes: c, next: 0 });
                            Trans { push: v, ret: None, action: Action::Continue }
                        } else {
                            stay(
                                Frame::Case {
                                    word,
                                    arms,
                                    subject: Some(s),
                                    arm,
                                    pat: pat + 1,
                                    captured: empty,
                                    in_body: false,
                                },
                            )
                        }
                    },
                    ExpandStep::NeedsOutput(src) => one(
                        Frame::Case { word, arms, subject: Some(s), arm, pat, captured, in_body: false },
                        Action::Capture(src.clone()),
                    ),
                    _ => {
                        let m = expansion_message(&r);
                        sh.last_status = 1;
                        Trans { push: Vec::new(), ret: Some(Flow::Normal), action: err_write(m) }
                    },
                }
            }
        },
    }
}

/// A step of `return WORD`.
pub open spec fn return_rel(word: Word, captured: Vec<String>, sh0: Shell, ev: Event, sh1: Shell, t: Trans) -> bool {
    let caps = texts(captured@);
    &&& sh1 == sh0
    &&& match ev {
        Event::Output(o) => one_frame(t) && t.action is Continue && return_frame(t.push@[0], word, caps.push(o@)),
        _ => match expand_spec(sh0, word_view(word@), caps) {
            Expansion::Text(x) => finishes(t, Flow::Return(return_value(x))),
            Expansion::NeedsOutput(src) => one_frame(t) && (t.action matches Action::Capture(c) && c@ == src)
                && return_frame(t.push@[0], word, caps),
            _ => finishes(t, Flow::Return(0)),
        },
    }
}

fn step_return(word: Word, captured: Vec<String>, sh: &Shell, ev: Event) -> (t: Trans)
    ensures
        return_rel(word, captured, *sh, ev, *sh, t),
{
    let ghost caps = texts(captured@);
    match ev {
        Event::Output(o) => {
            let mut c = captured;
            c.push(o);
            assert(texts(c@) =~= caps.push(o@));
            stay(Frame::Return { word, captured: c })
        },
        _ => {
            let r = sh.expand_word(&word, captured.as_slice());
            assert(captured@.map_values(|c: String| c@) == caps);
            match r {
                ExpandStep::Text(x) => done(Flow::Return(return_code(x.as_str()))),
                ExpandStep::NeedsOutput(src) => one(Frame::Return { word, captured }, Action::Capture(src)),
                _ => done(Flow::Return(0)),
            }
        },
    }
}

// ----- simple commands -----

/// The frame stays a simple command (the new one is `run_of(t)`).
pub open spec fn keeps_run(t: Trans) -> bool {
    t.push@.len() == 1 && t.ret is None && t.push@[0] is Simple
}

pub open spec fn run_of(t: Trans) -> SimpleRun {
    t.push@[0]->Simple_0
}

/// The command goes on to finish with `status`, reporting `err`.
pub open spec fn fails_to(r0: SimpleRun, t: Trans, status: i32, err: Seq<char>) -> bool {
    keeps_run(t) && run_of(t) == (SimpleRun { stage: SimpleStage::Finish, status, ..r0 }) && writes_err(t.action, err)
}

/// The command moves to stage `st`, asking for nothing.
pub open spec fn moves_to(r0: SimpleRun, t: Trans, st: SimpleStage) -> bool {
    keeps_run(t) && t.action is Continue && run_of(t) == (SimpleRun { stage: st, ..r0 })
}

/// The command asks for the output of `src`, staying as it is.
pub open spec fn captures(r0: SimpleRun, t: Trans, src: Seq<char>) -> bool {
    t.push@ == seq![Frame::Simple(r0)] && t.ret is None && (t.action matches Action::Capture(c) && c@ == src)
}

/// The output `o` of a command substitution is kept.
pub open spec fn absorbs(r0: SimpleRun, t: Trans, o: Seq<char>) -> bool {
    &&& keeps_run(t)
    &&& t.action is Continue
    &&& run_of(t) == (SimpleRun { captured: run_of(t).captured, ..r0 })
    &&& texts(run_of(t).captured@) == texts(r0.captured@).push(o)
}

/// The arguments after the first.
pub open spec fn tail_of(s: Seq<Seq<char>>) -> Seq<Seq<char>> {
    if s.len() > 0 {
        s.drop_first()
    } else {
        Seq::empty()
    }
}

/// Redirections with their targets as texts.
pub open spec fn targets_view(v: Seq<(RedirectKind, String)>) -> Seq<(RedirectKind, Seq<char>)> {
    v.map_values(|x: (RedirectKind, String)| (x.0, x.1@))
}

/// The statements of a source text, or the message to report: a lexical
/// error is reported with the shell's name in front.
pub open spec fn parse_source_spec(src: Seq<char>) -> Result<Seq<SpecNode>, Seq<char>> {
    match tokenize_spec(src) {
        Err(e) => Err("xsh: "@ + e + "\n"@),
        Ok(ts) => match parse_spec(ts) {
            Ok(n) => Ok(n),
            Err(e) => Err(e + "\n"@),
        },
    }
}

/// Parses a source text; the error is the message to report.
pub fn parse_source(src: &str) -> (r: Result<Vec<Node>, String>)
    ensures
        match r {
            Ok(v) => parse_source_spec(src@) == Ok::<Seq<SpecNode>, Seq<char>>(nodes_view(v@)),
            Err(e) => parse_source_spec(src@) == Err::<Seq<SpecNode>, Seq<char>>(e@),
        },
{
    let lx = Lexer::new(src);
    match lx.tokenize() {
        Ok(tokens) => {
            proof {
                lemma_tokens_end_with_eof(src@, 0, Seq::empty());
            }
            match parse(tokens) {
                Ok(v) => Ok(v),
                Err(e) => Err(concat_str(e.as_str(), "\n")),
            }
        },
        Err(e) => {
            let a = concat_str("xsh: ", e.as_str());
            Err(concat_str(a.as_str(), "\n"))
        },
    }
}

fn absorb(r: SimpleRun, o: String) -> (t: Trans)
    ensures
        absorbs(r, t, o@),
{
    let mut r1 = r;
    let ghost c0 = texts(r1.captured@);
    r1.captured.push(o);
    assert(texts(r1.captured@) =~= c0.push(o@));
    stay(Frame::Simple(r1))
}

fn move_to(r: SimpleRun, st: SimpleStage) -> (t: Trans)
    ensures
        moves_to(r, t, st),
{
    let mut r1 = r;
    r1.stage = st;
    stay(Frame::Simple(r1))
}

fn fail_to(r: SimpleRun, status: i32, err: String) -> (t: Trans)
    ensures
        fails_to(r, t, status, err@),
{
    let mut r1 = r;
    r1.stage = SimpleStage::Finish;
    r1.status = status;
    one(Frame::Simple(r1), err_write(err))
}

fn capture(r: SimpleRun, src: &String) -> (t: Trans)
    ensures
        captures(r, t, src@),
{
    one(Frame::Simple(r), Action::Capture(src.clone()))
}

/// Whether `s` is one of the strings.
fn contains_text(v: &Vec<String>, s: &str) -> (r: bool)
    ensures
        r == texts(v@).contains(s@),
{
    let mut i: usize = 0;
    while i < v.len()
        invariant
            i <= v@.len(),
            forall|j: int| 0 <= j < i ==> (#[trigger] v@[j])@ != s@,
        decreases v.len() - i,
    {
        if crate::text::str_eq(v[i].as_str(), s) {
            assert(texts(v@)[i as int] == s@);
            return true;
        }
        i = i + 1;
    }
    assert(!texts(v@).contains(s@)) by {
        if texts(v@).contains(s@) {
            let j = choose|j: int| 0 <= j < texts(v@).len() && texts(v@)[j] == s@;
            assert(v@[j]@ == s@);
        }
    }
    false
}

/// The strings after the first.
fn tail_strings(v: &Vec<String>) -> (r: Vec<String>)
    ensures
        texts(r@) == tail_of(texts(v@)),
{
    let mut r: Vec<String> = Vec::new();
    if v.len() == 0 {
        assert(texts(r@) =~= Seq::empty());
        return r;
    }
    let mut i: usize = 1;
    while i < v.len()
        invariant
            1 <= i <= v@.len(),
            texts(r@) == texts(v@).subrange(1, i as int),
        decreases v.len() - i,
    {
        let ghost before = r@;
        r.push(v[i].clone());
        assert(texts(r@) =~= texts(before).push(v@[i as int]@));
        i = i + 1;
        assert(texts(r@) =~= texts(v@).subrange(1, i as int));
    }
    assert(texts(v@).subrange(1, v@.len() as int) =~= texts(v@).drop_first());
    r
}

fn copy_strings(v: &Vec<String>) -> (r: Vec<String>)
    ensures
        texts(r@) == texts(v@),
{
    let mut r: Vec<String> = Vec::new();
    let mut i: usize = 0;
    while i < v.len()
        invariant
            i <= v@.len(),
            texts(r@) == texts(v@).subrange(0, i as int),
        decreases v.len() - i,
    {
        let ghost before = r@;
        r.push(v[i].clone());
        assert(texts(r@) =~= texts(before).push(v@[i as int]@));
        i = i + 1;
        assert(texts(r@) =~= texts(v@).subrange(0, i as int));
    }
    assert(texts(v@).subrange(0, v@.len() as int) =~= texts(v@));
    r
}

fn copy_targets(v: &Vec<(RedirectKind, String)>) -> (r: Vec<(RedirectKind, String)>)
    ensures
        targets_view(r@) == targets_view(v@),
{
    let mut r: Vec<(RedirectKind, String)> = Vec::new();
    let mut i: usize = 0;
    while i < v.len()
        invariant
            i <= v@.len(),
            targets_view(r@) == targets_view(v@).subrange(0, i as int),
        decreases v.len() - i,
    {
        let ghost before = r@;
        r.push((v[i].0, v[i].1.clone()));
        assert(targets_view(r@) =~= targets_view(before).push((v@[i as int].0, v@[i as int].1@)));
        i = i + 1;
        assert(targets_view(r@) =~= targets_view(v@).subrange(0, i as int));
    }
    assert(targets_view(v@).subrange(0, v@.len() as int) =~= targets_view(v@));
    r
}

/// A step of expanding an assignment.
pub open spec fn assign_rel(r0: SimpleRun, i: usize, sh0: Shell, sh1: Shell, t: Trans) -> bool {
    let sc = r0.cmd;
    if i >= sc.assignments@.len() {
        sh1 == sh0 && moves_to(r0, t, SimpleStage::Word(0))
    } else {
        let name = sc.assignments@[i as int].0@;
        if !r0.child && sh0.readonly@.contains_key(name) {
            sh1 == (Shell { last_status: 1, ..sh0 }) && t.push@.len() == 0 && t.ret == Some(Flow::Normal) && writes_err(
                t.action,
                "xsh: "@ + name + ": readonly variable\n"@,
            )
        } else {
            match expand_spec(sh0, word_view(sc.assignments@[i as int].1@), texts(r0.captured@)) {
                Expansion::Text(v) => {
                    let r1 = run_of(t);
                    &&& keeps_run(t)
                    &&& t.action is Continue
                    &&& r1 == (SimpleRun {
                        saved: r1.saved,
                        captured: r1.captured,
                        stage: SimpleStage::Assign((i + 1) as usize),
                        ..r0
                    })
                    &&& r1.captured@.len() == 0
                    &&& if r0.child {
                        r1.saved == r0.saved
                    } else {
                        saved_view(r1.saved@) == saved_view(r0.saved@).push(
                            (name, if text_map(sh0.vars@).contains_key(name) {
                                Some(text_map(sh0.vars@)[name])
                            } else {
                                None
                            }),
                        )
                    }
                    &&& sh1 == (Shell { vars: sh1.vars, ..sh0 })
                    &&& text_map(sh1.vars@) == text_map(sh0.vars@).insert(name, v)
                },
                Expansion::NeedsOutput(src) => sh1 == sh0 && captures(r0, t, src),
                e => if r0.child {
                    &&& sh1 == sh0
                    &&& keeps_run(t)
                    &&& t.action is Continue
                    &&& run_of(t) == (SimpleRun {
                        captured: run_of(t).captured,
                        stage: SimpleStage::Assign((i + 1) as usize),
                        ..r0
                    })
                    &&& run_of(t).captured@.len() == 0
                } else {
                    sh1 == (Shell { last_status: 1, ..sh0 }) && t.push@.len() == 0 && t.ret == Some(Flow::Normal)
                        && writes_err(t.action, expansion_error(e))
                },
            }
        }
    }
}

fn simple_assign(r: SimpleRun, i: usize, sh: &mut Shell) -> (t: Trans)
    ensures
        assign_rel(r, i, *old(sh), *final(sh), t),
{
    if i >= r.cmd.assignments.len() {
        return move_to(r, SimpleStage::Word(0));
    }
    if !r.child && sh.readonly.contains_key(r.cmd.assignments[i].0.as_str()) {
        let a = concat_str("xsh: ", r.cmd.assignments[i].0.as_str());
        let m = concat_str(a.as_str(), ": readonly variable\n");
        sh.last_status = 1;
        return Trans { push: Vec::new(), ret: Some(Flow::Normal), action: err_write(m) };
    }
    let e = sh.expand_word(&r.cmd.assignments[i].1, r.captured.as_slice());
    assert(r.captured@.map_values(|c: String| c@) == texts(r.captured@));
    match &e {
        ExpandStep::Text(v) => {
            let mut r1 = r;
            let name = r1.cmd.assignments[i].0.clone();
            if !r1.child {
                let old_v = match sh.vars.get(name.as_str()) {
                    Some(x) => Some(x.clone()),
                    None => None,
                };
                let ghost before = r1.saved@;
                r1.saved.push((name.clone(), old_v));
                assert(saved_view(r1.saved@) =~= saved_view(before).push((name@, crate::text::opt_text(old_v))));
            }
            proof {
                lemma_text_map_insert(sh.vars@, name@, *v);
            }
            sh.vars.insert(name, v.clone());
            r1.captured = Vec::new();
            r1.stage = SimpleStage::Assign(i + 1);
            stay(Frame::Simple(r1))
        },
        ExpandStep::NeedsOutput(src) => capture(r, src),
        _ => {
            if r.child {
                let mut r1 = r;
                r1.captured = Vec::new();
                r1.stage = SimpleStage::Assign(i + 1);
                stay(Frame::Simple(r1))
            } else {
                let m = expansion_message(&e);
                sh.last_status = 1;
                Trans { push: Vec::new(), ret: Some(Flow::Normal), action: err_write(m) }
            }
        },
    }
}

/// A step of expanding a word of the command.
pub open spec fn word_rel(r0: SimpleRun, i: usize, sh0: Shell, t: Trans) -> bool {
    let sc = r0.cmd;
    if i >= sc.words@.len() {
        if r0.argv@.len() == 0 {
            keeps_run(t) && t.action is Continue && run_of(t) == (SimpleRun {
                stage: SimpleStage::Finish,
                status: 0,
                ..r0
            })
        } else {
            moves_to(r0, t, SimpleStage::Alias)
        }
    } else {
        match expand_spec(sh0, word_view(sc.words@[i as int]@), texts(r0.captured@)) {
            Expansion::Text(x) => {
                let r1 = run_of(t);
                &&& keeps_run(t)
                &&& t.action is Continue
                &&& r1 == (SimpleRun {
                    argv: r1.argv,
                    captured: r1.captured,
                    stage: SimpleStage::Word((i + 1) as usize),
                    ..r0
                })
                &&& r1.captured@.len() == 0
                &&& texts(r1.argv@) == texts(r0.argv@).push(x)
            },
            Expansion::NeedsOutput(src) => captures(r0, t, src),
            e => fails_to(r0, t, 1, expansion_error(e)),
        }
    }
}

fn simple_word(r: SimpleRun, i: usize, sh: &Shell) -> (t: Trans)
    ensures
        word_rel(r, i, *sh, t),
{
    if i >= r.cmd.words.len() {
        if r.argv.len() == 0 {
            let mut r1 = r;
            r1.stage = SimpleStage::Finish;
            r1.status = 0;
            return stay(Frame::Simple(r1));
        } else {
            return move_to(r, SimpleStage::Alias);
        }
    }
    let e = sh.expand_word(&r.cmd.words[i], r.captured.as_slice());
    assert(r.captured@.map_values(|c: String| c@) == texts(r.captured@));
    match &e {
        ExpandStep::Text(x) => {
            let mut r1 = r;
            let ghost before = r1.argv@;
            r1.argv.push(x.clone());
            assert(texts(r1.argv@) =~= texts(before).push(x@));
            r1.captured = Vec::new();
            r1.stage = SimpleStage::Word(i + 1);
            stay(Frame::Simple(r1))
        },
        ExpandStep::NeedsOutput(src) => capture(r, src),
        _ => {
            let m = expansion_message(&e);
            fail_to(r, 1, m)
        },
    }
}

/// A step of replacing an alias at the head of the arguments.
pub open spec fn alias_rel(r0: SimpleRun, sh0: Shell, t: Trans) -> bool {
    let av = texts(r0.argv@);
    if av.len() == 0 || texts(r0.seen@).contains(av[0]) || !sh0.aliases@.contains_key(av[0]) {
        moves_to(r0, t, SimpleStage::Resolved)
    } else {
        let head = av[0];
        let r1 = run_of(t);
        &&& keeps_run(t)
        &&& texts(r1.seen@) == texts(r0.seen@).push(head)
        &&& match source_spec(text_map(sh0.aliases@)[head]) {
            Err(e) => r1 == (SimpleRun { seen: r1.seen, stage: SimpleStage::Finish, status: 1, ..r0 }) && writes_err(
                t.action,
                "xsh: "@ + e + "\n"@,
            ),
            Ok(prog) => t.action is Continue && if prog.len() > 0 && prog[0] is Simple {
                &&& r1 == (SimpleRun {
                    seen: r1.seen,
                    alias_words: r1.alias_words,
                    alias_argv: r1.alias_argv,
                    stage: SimpleStage::AliasWord(0),
                    ..r0
                })
                &&& words_view(r1.alias_words@) == prog[0]->Simple_0.words
                &&& r1.alias_argv@.len() == 0
            } else {
                r1 == (SimpleRun { seen: r1.seen, stage: SimpleStage::Resolved, ..r0 })
            },
        }
    }
}

fn simple_alias(r: SimpleRun, sh: &Shell) -> (t: Trans)
    ensures
        alias_rel(r, *sh, t),
{
    if r.argv.len() == 0 {
        return move_to(r, SimpleStage::Resolved);
    }
    assert(texts(r.argv@)[0] == r.argv@[0]@);
    if contains_text(&r.seen, r.argv[0].as_str()) {
        return move_to(r, SimpleStage::Resolved);
    }
    let value = match sh.aliases.get(r.argv[0].as_str()) {
        Some(v) => v.clone(),
        None => {
            return move_to(r, SimpleStage::Resolved);
        },
    };
    let mut r1 = r;
    let head = r1.argv[0].clone();
    let ghost s0 = texts(r1.seen@);
    r1.seen.push(head);
    assert(texts(r1.seen@) =~= s0.push(r.argv@[0]@));
    match crate::repl::try_parse(value.as_str()) {
        Err(e) => {
            let a = concat_str("xsh: ", e.as_str());
            let m = concat_str(a.as_str(), "\n");
            fail_to(r1, 1, m)
        },
        Ok(prog) => {
            let mut p = prog;
            if p.len() > 0 {
                let first = p.remove(0);
                match first {
                    Node::Simple(sc0) => {
                        r1.alias_words = sc0.words;
                        r1.alias_argv = Vec::new();
                        r1.stage = SimpleStage::AliasWord(0);
                        stay(Frame::Simple(r1))
                    },
                    _ => move_to(r1, SimpleStage::Resolved),
                }
            } else {
                move_to(r1, SimpleStage::Resolved)
            }
        },
    }
}

/// A step of expanding a word of an alias.
pub open spec fn alias_word_rel(r0: SimpleRun, j: usize, sh0: Shell, t: Trans) -> bool {
    if j >= r0.alias_words@.len() {
        let r1 = run_of(t);
        &&& keeps_run(t)
        &&& t.action is Continue
        &&& r1 == (SimpleRun { argv: r1.argv, alias_argv: r1.alias_argv, stage: SimpleStage::Alias, ..r0 })
        &&& texts(r1.argv@) == texts(r0.alias_argv@) + tail_of(texts(r0.argv@))
        &&& r1.alias_argv@.len() == 0
    } else {
        match expand_spec(sh0, word_view(r0.alias_words@[j as int]@), texts(r0.captured@)) {
            Expansion::Text(x) => {
                let r1 = run_of(t);
                &&& keeps_run(t)
                &&& t.action is Continue
                &&& r1 == (SimpleRun {
                    alias_argv: r1.alias_argv,
                    captured: r1.captured,
                    stage: SimpleStage::AliasWord((j + 1) as usize),
                    ..r0
                })
                &&& r1.captured@.len() == 0
                &&& texts(r1.alias_argv@) == texts(r0.alias_argv@).push(x)
            },
            Expansion::NeedsOutput(src) => captures(r0, t, src),
            e => fails_to(r0, t, 1, expansion_error(e)),
        }
    }
}

fn simple_alias_word(r: SimpleRun, j: usize, sh: &Shell) -> (t: Trans)
    ensures
        alias_word_rel(r, j, *sh, t),
{
    if j >= r.alias_words.len() {
        let rest = tail_strings(&r.argv);
        let mut r1 = r;
        let mut argv = Vec::new();
        std::mem::swap(&mut argv, &mut r1.alias_argv);
        let ghost a0 = texts(argv@);
        let mut k: usize = 0;
        while k < rest.len()
            invariant
                k <= rest@.len(),
                texts(argv@) == a0 + texts(rest@).subrange(0, k as int),
            decreases rest.len() - k,
        {
            let ghost before = argv@;
            argv.push(rest[k].clone());
            assert(texts(argv@) =~= texts(before).push(rest@[k as int]@));
            k = k + 1;
            assert(texts(argv@) =~= a0 + texts(rest@).subrange(0, k as int));
        }
        assert(texts(rest@).subrange(0, rest@.len() as int) =~= texts(rest@));
        r1.argv = argv;
        r1.stage = SimpleStage::Alias;
        return stay(Frame::Simple(r1));
    }
    let e = sh.expand_word(&r.alias_words[j], r.captured.as_slice());
    assert(r.captured@.map_values(|c: String| c@) == texts(r.captured@));
    match &e {
        ExpandStep::Text(x) => {
            let mut r1 = r;
            let ghost before = r1.alias_argv@;
            r1.alias_argv.push(x.clone());
            assert(texts(r1.alias_argv@) =~= texts(before).push(x@));
            r1.captured = Vec::new();
            r1.stage = SimpleStage::AliasWord(j + 1);
            stay(Frame::Simple(r1))
        },
        ExpandStep::NeedsOutput(src) => capture(r, src),
        _ => {
            let m = expansion_message(&e);
            fail_to(r, 1, m)
        },
    }
}

/// A step once the arguments are final.
pub open spec fn resolved_rel(r0: SimpleRun, sh0: Shell, t: Trans) -> bool {
    if r0.argv@.len() == 0 {
        keeps_run(t) && t.action is Continue && run_of(t) == (SimpleRun { stage: SimpleStage::Finish, status: 0, ..r0 })
    } else if !r0.child && sh0.xtrace {
        keeps_run(t) && run_of(t) == (SimpleRun { stage: SimpleStage::Target(0), ..r0 }) && writes_err(
            t.action,
            "+ "@ + join_spaces(texts(r0.argv@)) + "\n"@,
        )
    } else {
        moves_to(r0, t, SimpleStage::Target(0))
    }
}

fn simple_resolved(r: SimpleRun, sh: &Shell) -> (t: Trans)
    ensures
        resolved_rel(r, *sh, t),
{
    if r.argv.len() == 0 {
        let mut r1 = r;
        r1.stage = SimpleStage::Finish;
        r1.status = 0;
        stay(Frame::Simple(r1))
    } else if !r.child && sh.xtrace {
        let j = crate::exec::join_with_spaces(r.argv.as_slice());
        assert(r.argv@.map_values(|a: String| a@) == texts(r.argv@));
        let a = concat_str("+ ", j.as_str());
        let m = concat_str(a.as_str(), "\n");
        let mut r1 = r;
        r1.stage = SimpleStage::Target(0);
        one(Frame::Simple(r1), err_write(m))
    } else {
        move_to(r, SimpleStage::Target(0))
    }
}

/// A step of expanding the target of a redirection.
pub open spec fn target_rel(r0: SimpleRun, k: usize, sh0: Shell, t: Trans) -> bool {
    let rs = r0.cmd.redirects@;
    if k >= rs.len() {
        moves_to(r0, t, SimpleStage::Dispatch)
    } else if rs[k as int].kind == RedirectKind::DupErrToOut || rs[k as int].kind == RedirectKind::DupOutToErr {
        let r1 = run_of(t);
        &&& keeps_run(t)
        &&& t.action is Continue
        &&& r1 == (SimpleRun { targets: r1.targets, stage: SimpleStage::Target((k + 1) as usize), ..r0 })
        &&& targets_view(r1.targets@) == targets_view(r0.targets@).push((rs[k as int].kind, Seq::empty()))
    } else {
        match expand_spec(sh0, word_view(rs[k as int].target@), texts(r0.captured@)) {
            Expansion::Text(x) => {
                let r1 = run_of(t);
                &&& keeps_run(t)
                &&& t.action is Continue
                &&& r1 == (SimpleRun {
                    targets: r1.targets,
                    captured: r1.captured,
                    stage: SimpleStage::Target((k + 1) as usize),
                    ..r0
                })
                &&& r1.captured@.len() == 0
                &&& targets_view(r1.targets@) == targets_view(r0.targets@).push((rs[k as int].kind, x))
            },
            Expansion::NeedsOutput(src) => captures(r0, t, src),
            e => fails_to(r0, t, 1, expansion_error(e)),
        }
    }
}

fn simple_target(r: SimpleRun, k: usize, sh: &Shell) -> (t: Trans)
    ensures
        target_rel(r, k, *sh, t),
{
    if k >= r.cmd.redirects.len() {
        return move_to(r, SimpleStage::Dispatch);
    }
    let kind = r.cmd.redirects[k].kind;
    if kind == RedirectKind::DupErrToOut || kind == RedirectKind::DupOutToErr {
        let mut r1 = r;
        let ghost before = r1.targets@;
        let empty = String::new();
        r1.targets.push((kind, empty));
        assert(targets_view(r1.targets@) =~= targets_view(before).push((kind, Seq::<char>::empty())));
        r1.stage = SimpleStage::Target(k + 1);
        return stay(Frame::Simple(r1));
    }
    let e = sh.expand_word(&r.cmd.redirects[k].target, r.captured.as_slice());
    assert(r.captured@.map_values(|c: String| c@) == texts(r.captured@));
    match &e {
        ExpandStep::Text(x) => {
            let mut r1 = r;
            let ghost before = r1.targets@;
            r1.targets.push((kind, x.clone()));
            assert(targets_view(r1.targets@) =~= targets_view(before).push((kind, x@)));
            r1.captured = Vec::new();
            r1.stage = SimpleStage::Target(k + 1);
            stay(Frame::Simple(r1))
        },
        ExpandStep::NeedsOutput(src) => capture(r, src),
        _ => {
            let m = expansion_message(&e);
            fail_to(r, 1, m)
        },
    }
}

/// The command runs the function `name` (whose body is in `sh0`) with
/// `args`: the call is entered, and a copy of the body runs on top of the
/// command, which waits in stage `Function`.
pub open spec fn calls_function(r1: SimpleRun, sh0: Shell, sh1: Shell, t: Trans, name: Seq<char>, args: Seq<Seq<char>>) -> bool {
    &&& entered(sh0, sh1, args)
    &&& pushes_block(t, sh0.functions@[name]@)
    &&& t.push@[0] == Frame::Simple(r1)
}

/// A step of choosing what to run.
pub open spec fn dispatch_rel(r0: SimpleRun, sh0: Shell, sh1: Shell, t: Trans) -> bool {
    let av = texts(r0.argv@);
    if av.len() == 0 {
        sh1 == sh0 && keeps_run(t) && t.action is Continue && run_of(t) == (SimpleRun {
            stage: SimpleStage::Finish,
            status: 0,
            ..r0
        })
    } else {
        let name = av[0];
        let args = tail_of(av);
        if sh0.functions@.contains_key(name) {
            if r0.targets@.len() > 0 {
                &&& sh1 == sh0
                &&& keeps_run(t)
                &&& run_of(t) == (SimpleRun { stage: SimpleStage::FunctionRedirects, ..r0 })
                &&& t.action matches Action::ApplyRedirects(v) && targets_view(v@) == targets_view(r0.targets@)
            } else {
                calls_function(SimpleRun { stage: SimpleStage::Function, ..r0 }, sh0, sh1, t, name, args)
            }
        } else if is_builtin_spec(name) {
            if r0.targets@.len() > 0 {
                &&& sh1 == sh0
                &&& keeps_run(t)
                &&& run_of(t) == (SimpleRun { stage: SimpleStage::BuiltinRedirects, ..r0 })
                &&& t.action matches Action::ApplyRedirects(v) && targets_view(v@) == targets_view(r0.targets@)
            } else {
                sh1 == sh0 && moves_to(r0, t, SimpleStage::Builtin)
            }
        } else {
            &&& sh1 == sh0
            &&& keeps_run(t)
            &&& run_of(t) == (SimpleRun { stage: SimpleStage::External, ..r0 })
            &&& if r0.child {
                t.action matches Action::Replace { argv, redirects, env } && texts(argv@) == av && targets_view(
                    redirects@,
                ) == targets_view(r0.targets@) && child_env(sh0, env@)
            } else {
                t.action matches Action::Spawn { argv, redirects, env } && texts(argv@) == av && targets_view(
                    redirects@,
                ) == targets_view(r0.targets@) && child_env(sh0, env@)
            }
        }
    }
}

/// Enters the function `name` with the arguments after the first; the
/// command waits in stage `Function` (and `redirected` as given).
fn start_function(r: SimpleRun, redirected: bool, sh: &mut Shell) -> (t: Trans)
    requires
        r.argv@.len() > 0,
        old(sh).functions@.contains_key(r.argv@[0]@),
    ensures
        calls_function(
            SimpleRun { stage: SimpleStage::Function, redirected, ..r },
            *old(sh),
            *final(sh),
            t,
            r.argv@[0]@,
            tail_of(texts(r.argv@)),
        ),
{
    let body = match sh.functions.get(r.argv[0].as_str()) {
        Some(b) => copy_nodes(b),
        None => Vec::new(),
    };
    let args = tail_strings(&r.argv);
    assert(args@.map_values(|a: String| a@) == texts(args@));
    sh.enter_function(args.as_slice());
    let mut r1 = r;
    r1.stage = SimpleStage::Function;
    r1.redirected = redirected;
    let mut v = Vec::new();
    v.push(Frame::Simple(r1));
    v.push(Frame::Block { nodes: body, next: 0 });
    Trans { push: v, ret: None, action: Action::Continue }
}

fn simple_dispatch(r: SimpleRun, sh: &mut Shell) -> (t: Trans)
    ensures
        dispatch_rel(r, *old(sh), *final(sh), t),
{
    if r.argv.len() == 0 {
        let mut r1 = r;
        r1.stage = SimpleStage::Finish;
        r1.status = 0;
        return stay(Frame::Simple(r1));
    }
    assert(texts(r.argv@)[0] == r.argv@[0]@);
    if sh.functions.contains_key(r.argv[0].as_str()) {
        if r.targets.len() > 0 {
            let ts = copy_targets(&r.targets);
            let mut r1 = r;
            r1.stage = SimpleStage::FunctionRedirects;
            one(Frame::Simple(r1), Action::ApplyRedirects(ts))
        } else {
            let red = r.redirected;
            start_function(r, red, sh)
        }
    } else if crate::builtins::is_builtin(r.argv[0].as_str()) {
        if r.targets.len() > 0 {
            let ts = copy_targets(&r.targets);
            let mut r1 = r;
            r1.stage = SimpleStage::BuiltinRedirects;
            one(Frame::Simple(r1), Action::ApplyRedirects(ts))
        } else {
            move_to(r, SimpleStage::Builtin)
        }
    } else {
        let env = sh.env_for_child();
        let argv = copy_strings(&r.argv);
        let ts = copy_targets(&r.targets);
        let child = r.child;
        let mut r1 = r;
        r1.stage = SimpleStage::External;
        if child {
            one(Frame::Simple(r1), Action::Replace { argv, redirects: ts, env })
        } else {
            one(Frame::Simple(r1), Action::Spawn { argv, redirects: ts, env })
        }
    }
}

/// A step after redirections were asked for.
pub open spec fn redirects_rel(r0: SimpleRun, function: bool, sh0: Shell, ev: Event, sh1: Shell, t: Trans) -> bool {
    match ev {
        Event::RedirectFailed(m) => sh1 == sh0 && fails_to(r0, t, 1, "xsh: "@ + m@ + "\n"@),
        _ => if function {
            if r0.argv@.len() > 0 && sh0.functions@.contains_key(r0.argv@[0]@) {
                calls_function(
                    SimpleRun { stage: SimpleStage::Function, redirected: !r0.child, ..r0 },
                    sh0,
                    sh1,
                    t,
                    r0.argv@[0]@,
                    tail_of(texts(r0.argv@)),
                )
            } else {
                sh1 == sh0 && keeps_run(t) && t.action is Continue && run_of(t) == (SimpleRun {
                    stage: SimpleStage::Finish,
                    status: 1,
                    ..r0
                })
            }
        } else {
            sh1 == sh0 && keeps_run(t) && t.action is Continue && run_of(t) == (SimpleRun {
                stage: SimpleStage::Builtin,
                redirected: !r0.child,
                ..r0
            })
        },
    }
}

fn simple_redirects(r: SimpleRun, function: bool, sh: &mut Shell, ev: Event) -> (t: Trans)
    ensures
        redirects_rel(r, function, *old(sh), ev, *final(sh), t),
{
    match ev {
        Event::RedirectFailed(m) => {
            let a = concat_str("xsh: ", m.as_str());
            let msg = concat_str(a.as_str(), "\n");
            fail_to(r, 1, msg)
        },
        _ => {
            let red = !r.child;
            if function {
                if r.argv.len() > 0 && sh.functions.contains_key(r.argv[0].as_str()) {
                    start_function(r, red, sh)
                } else {
                    let mut r1 = r;
                    r1.stage = SimpleStage::Finish;
                    r1.status = 1;
                    stay(Frame::Simple(r1))
                }
            } else {
                let mut r1 = r;
                r1.stage = SimpleStage::Builtin;
                r1.redirected = red;
                stay(Frame::Simple(r1))
            }
        },
    }
}

/// A step after a function body ended with `f`.
pub open spec fn function_rel(r0: SimpleRun, sh0: Shell, ret: Option<Flow>, sh1: Shell, t: Trans) -> bool {
    let f = match ret {
        Some(f) => f,
        None => Flow::Normal,
    };
    &&& keeps_run(t)
    &&& t.action is Continue
    &&& run_of(t) == (SimpleRun { stage: SimpleStage::AfterRun, status: run_of(t).status, ..r0 })
    &&& left(sh0, sh1, f, run_of(t).status)
}

fn simple_function(r: SimpleRun, sh: &mut Shell, ret: Option<Flow>) -> (t: Trans)
    ensures
        function_rel(r, *old(sh), ret, *final(sh), t),
{
    let f = match ret {
        Some(f) => f,
        None => Flow::Normal,
    };
    let st = sh.leave_function(f);
    let mut r1 = r;
    r1.stage = SimpleStage::AfterRun;
    r1.status = st;
    stay(Frame::Simple(r1))
}

/// A step of running a builtin.
pub open spec fn builtin_rel(r0: SimpleRun, sh0: Shell, sh1: Shell, t: Trans) -> bool {
    let av = texts(r0.argv@);
    let name = if av.len() > 0 { av[0] } else { Seq::empty() };
    let args = tail_of(av);
    let r1 = run_of(t);
    &&& keeps_run(t)
    &&& match t.action {
        Action::Write { out, err } => r1 == (SimpleRun { stage: SimpleStage::AfterRun, status: r1.status, ..r0 })
            && builtin_effect(sh0, name, args, sh1, BuiltinAction::Done { status: r1.status, out, err }),
        Action::ReadSource(p) => r1 == (SimpleRun { stage: SimpleStage::SourceRead, ..r0 }) && builtin_effect(
            sh0,
            name,
            args,
            sh1,
            BuiltinAction::Source(p),
        ),
        Action::System { action, args: v } => r1 == (SimpleRun { stage: SimpleStage::BuiltinSystem, ..r0 })
            && texts(v@) == args && builtin_effect(sh0, name, args, sh1, action) && !(action is Done)
            && !(action is Source),
        _ => false,
    }
}

fn simple_builtin(r: SimpleRun, sh: &mut Shell) -> (t: Trans)
    ensures
        builtin_rel(r, *old(sh), *final(sh), t),
{
    let name = if r.argv.len() > 0 {
        r.argv[0].clone()
    } else {
        String::new()
    };
    assert(r.argv@.len() > 0 ==> texts(r.argv@)[0] == r.argv@[0]@);
    let args = tail_strings(&r.argv);
    let a = crate::builtins::run_builtin(sh, name.as_str(), args.as_slice());
    assert(args@ == args@);
    match a {
        BuiltinAction::Done { status, out, err } => {
            let mut r1 = r;
            r1.stage = SimpleStage::AfterRun;
            r1.status = status;
            one(Frame::Simple(r1), Action::Write { out, err })
        },
        BuiltinAction::Source(p) => {
            let mut r1 = r;
            r1.stage = SimpleStage::SourceRead;
            one(Frame::Simple(r1), Action::ReadSource(p))
        },
        other => {
            let mut r1 = r;
            r1.stage = SimpleStage::BuiltinSystem;
            one(Frame::Simple(r1), Action::System { action: other, args })
        },
    }
}

/// A step after a sourced file was read (or could not be).
pub open spec fn source_read_rel(r0: SimpleRun, ev: Event, t: Trans) -> bool {
    match ev {
        Event::SourceText(text) => match parse_source_spec(text@) {
            Err(m) => keeps_run(t) && run_of(t) == (SimpleRun { stage: SimpleStage::AfterRun, status: 2, ..r0 })
                && writes_err(t.action, m),
            Ok(nodes) => {
                &&& t.push@.len() == 2
                &&& t.push@[0] == Frame::Simple(SimpleRun { stage: SimpleStage::Sourcing, ..r0 })
                &&& t.push@[1] matches Frame::Source { nodes: ns, next } && next == 0 && nodes_view(ns@) == nodes
                &&& t.ret is None
                &&& t.action is Continue
            },
        },
        _ => keeps_run(t) && t.action is Continue && run_of(t) == (SimpleRun {
            stage: SimpleStage::AfterRun,
            status: event_status(ev),
            ..r0
        }),
    }
}

fn simple_source_read(r: SimpleRun, ev: Event) -> (t: Trans)
    ensures
        source_read_rel(r, ev, t),
{
    match ev {
        Event::SourceText(text) => match parse_source(text.as_str()) {
            Err(m) => {
                let mut r1 = r;
                r1.stage = SimpleStage::AfterRun;
                r1.status = 2;
                one(Frame::Simple(r1), err_write(m))
            },
            Ok(nodes) => {
                let mut r1 = r;
                r1.stage = SimpleStage::Sourcing;
                let mut v = Vec::new();
                v.push(Frame::Simple(r1));
                v.push(Frame::Source { nodes, next: 0 });
                Trans { push: v, ret: None, action: Action::Continue }
            },
        },
        _ => {
            let st = event_status_of(&ev);
            let mut r1 = r;
            r1.stage = SimpleStage::AfterRun;
            r1.status = st;
            stay(Frame::Simple(r1))
        },
    }
}

/// A step that takes a status: from the system part of a builtin, a
/// sourced file, or an external command.
pub open spec fn status_rel(r0: SimpleRun, sh0: Shell, ev: Event, t: Trans) -> bool {
    keeps_run(t) && t.action is Continue && match r0.stage {
        SimpleStage::BuiltinSystem => run_of(t) == (SimpleRun {
            stage: SimpleStage::AfterRun,
            status: event_status(ev),
            ..r0
        }),
        SimpleStage::Sourcing => run_of(t) == (SimpleRun {
            stage: SimpleStage::AfterRun,
            status: sh0.last_status,
            ..r0
        }),
        _ => run_of(t) == (SimpleRun { stage: SimpleStage::Finish, status: event_status(ev), ..r0 }),
    }
}

fn simple_status(r: SimpleRun, sh: &Shell, ev: Event) -> (t: Trans)
    ensures
        status_rel(r, *sh, ev, t),
{
    let mut r1 = r;
    match r1.stage {
        SimpleStage::BuiltinSystem => {
            r1.stage = SimpleStage::AfterRun;
            r1.status = event_status_of(&ev);
        },
        SimpleStage::Sourcing => {
            r1.stage = SimpleStage::AfterRun;
            r1.status = sh.last_status;
        },
        _ => {
            r1.stage = SimpleStage::Finish;
            r1.status = event_status_of(&ev);
        },
    }
    stay(Frame::Simple(r1))
}

/// A step after the command ran: the standard descriptors are put back.
pub open spec fn after_run_rel(r0: SimpleRun, t: Trans) -> bool {
    if r0.redirected {
        keeps_run(t) && run_of(t) == (SimpleRun { stage: SimpleStage::Finish, redirected: false, ..r0 })
            && t.action is RestoreRedirects
    } else {
        moves_to(r0, t, SimpleStage::Finish)
    }
}

fn simple_after_run(r: SimpleRun) -> (t: Trans)
    ensures
        after_run_rel(r, t),
{
    if r.redirected {
        let mut r1 = r;
        r1.stage = SimpleStage::Finish;
        r1.redirected = false;
        one(Frame::Simple(r1), Action::RestoreRedirects)
    } else {
        move_to(r, SimpleStage::Finish)
    }
}

/// The last step of a simple command: the assignments made for it alone
/// are undone, and its status becomes the last status.
pub open spec fn finish_rel(r0: SimpleRun, sh0: Shell, sh1: Shell, t: Trans) -> bool {
    &&& finishes(t, Flow::Normal)
    &&& if !r0.child && r0.cmd.words@.len() > 0 {
        sh1 == (Shell { vars: sh1.vars, last_status: r0.status, ..sh0 }) && text_map(sh1.vars@) == restore_vars(
            text_map(sh0.vars@),
            saved_view(r0.saved@),
        )
    } else {
        sh1 == (Shell { last_status: r0.status, ..sh0 })
    }
}

fn simple_finish(r: SimpleRun, sh: &mut Shell) -> (t: Trans)
    ensures
        finish_rel(r, *old(sh), *final(sh), t),
{
    if !r.child && r.cmd.words.len() > 0 {
        let status = r.status;
        sh.restore(r.saved);
        sh.last_status = status;
    } else {
        sh.last_status = r.status;
    }
    done(Flow::Normal)
}

/// A step of a simple command.
pub open spec fn simple_rel(r0: SimpleRun, sh0: Shell, ret: Option<Flow>, ev: Event, sh1: Shell, t: Trans) -> bool {
    let expanding = match r0.stage {
        SimpleStage::Assign(_) | SimpleStage::Word(_) | SimpleStage::AliasWord(_) | SimpleStage::Target(_) => true,
        _ => false,
    };
    if expanding && ev is Output {
        sh1 == sh0 && absorbs(r0, t, ev->Output_0@)
    } else {
        match r0.stage {
            SimpleStage::Assign(i) => assign_rel(r0, i, sh0, sh1, t),
            SimpleStage::Word(i) => sh1 == sh0 && word_rel(r0, i, sh0, t),
            SimpleStage::Alias => sh1 == sh0 && alias_rel(r0, sh0, t),
            SimpleStage::AliasWord(j) => sh1 == sh0 && alias_word_rel(r0, j, sh0, t),
            SimpleStage::Resolved => sh1 == sh0 && resolved_rel(r0, sh0, t),
            SimpleStage::Target(k) => sh1 == sh0 && target_rel(r0, k, sh0, t),
            SimpleStage::Dispatch => dispatch_rel(r0, sh0, sh1, t),
            SimpleStage::FunctionRedirects => redirects_rel(r0, true, sh0, ev, sh1, t),
            SimpleStage::Function => function_rel(r0, sh0, ret, sh1, t),
            SimpleStage::BuiltinRedirects => redirects_rel(r0, false, sh0, ev, sh1, t),
            SimpleStage::Builtin => builtin_rel(r0, sh0, sh1, t),
            SimpleStage::SourceRead => sh1 == sh0 && source_read_rel(r0, ev, t),
            SimpleStage::BuiltinSystem | SimpleStage::Sourcing | SimpleStage::External => sh1 == sh0 && status_rel(
                r0,
                sh0,
                ev,
                t,
            ),
            SimpleStage::AfterRun => sh1 == sh0 && after_run_rel(r0, t),
            SimpleStage::Finish => finish_rel(r0, sh0, sh1, t),
        }
    }
}

fn step_simple(r: SimpleRun, sh: &mut Shell, ret: Option<Flow>, ev: Event) -> (t: Trans)
    ensures
        simple_rel(r, *old(sh), ret, ev, *final(sh), t),
{
    let expanding = match r.stage {
        SimpleStage::Assign(_) | SimpleStage::Word(_) | SimpleStage::AliasWord(_) | SimpleStage::Target(_) => true,
        _ => false,
    };
    if expanding {
        if let Event::Output(o) = ev {
            return absorb(r, o);
        }
    }
    match r.stage {
        SimpleStage::Assign(i) => simple_assign(r, i, sh),
        SimpleStage::Word(i) => simple_word(r, i, sh),
        SimpleStage::Alias => simple_alias(r, sh),
        SimpleStage::AliasWord(j) => simple_alias_word(r, j, sh),
        SimpleStage::Resolved => simple_resolved(r, sh),
        SimpleStage::Target(k) => simple_target(r, k, sh),
        SimpleStage::Dispatch => simple_dispatch(r, sh),
        SimpleStage::FunctionRedirects => simple_redirects(r, true, sh, ev),
        SimpleStage::Function => simple_function(r, sh, ret),
        SimpleStage::BuiltinRedirects => simple_redirects(r, false, sh, ev),
        SimpleStage::Builtin => simple_builtin(r, sh),
        SimpleStage::SourceRead => simple_source_read(r, ev),
        SimpleStage::BuiltinSystem | SimpleStage::Sourcing | SimpleStage::External => simple_status(r, sh, ev),
        SimpleStage::AfterRun => simple_after_run(r),
        SimpleStage::Finish => simple_finish(r, sh),
    }
}

// ----- the machine -----

/// The interpreter's state: the constructs being run, innermost last.
pub struct Machine {
    pub frames: Vec<Frame>,
    /// How the innermost construct that finished last ended, for the frame
    /// under it.
    pub ret: Option<Flow>,
    /// The status the machine ends with when it is not the last status.
    pub result: Option<i32>,
}

/// A step of one frame.
pub open spec fn frame_rel(f: Frame, sh0: Shell, ret: Option<Flow>, ev: Event, sh1: Shell, t: Trans) -> bool {
    match f {
        Frame::Source { nodes, next } => source_rel(nodes, next, sh0, ret, sh1, t),
        Frame::Block { nodes, next } => block_rel(nodes, next, sh0, ret, sh1, t),
        Frame::Pending(n) => pending_rel(n, sh0, sh1, t),
        Frame::AndOr { items, next, skip, prev } => and_or_rel(items, next, skip, prev, sh0, ret, sh1, t),
        Frame::If { branches, else_branch, next, in_body } => if_rel(
            branches,
            else_branch,
            next,
            in_body,
            sh0,
            ret,
            sh1,
            t,
        ),
        Frame::For { var, words, body, values, captured, next } => for_rel(
            var,
            words,
            body,
            values,
            captured,
            next,
            sh0,
            ret,
            ev,
            sh1,
            t,
        ),
        Frame::While { cond, body, until, in_body } => while_rel(cond, body, until, in_body, sh0, ret, sh1, t),
        Frame::Case { word, arms, subject, arm, pat, captured, in_body } => case_rel(
            word,
            arms,
            subject,
            arm,
            pat,
            captured,
            in_body,
            sh0,
            ret,
            ev,
            sh1,
            t,
        ),
        Frame::Return { word, captured } => return_rel(word, captured, sh0, ev, sh1, t),
        Frame::Simple(r) => simple_rel(r, sh0, ret, ev, sh1, t),
        _ => await_rel(f, sh0, ret, ev, sh1, t),
    }
}

/// One step of the machine `m0` with the shell `sh0`, after the event `ev`:
/// the machine `m1`, the shell `sh1` and the action `a`. With no frame left
/// the machine is finished; otherwise its innermost frame is replaced by
/// what that frame's step gives.
pub open spec fn step_rel(m0: Machine, sh0: Shell, ev: Event, m1: Machine, sh1: Shell, a: Action) -> bool {
    if m0.frames@.len() == 0 {
        &&& m1 == m0
        &&& sh1 == sh0
        &&& a == Action::Finished(
            match m0.result {
                Some(r) => r,
                None => sh0.last_status,
            },
        )
    } else {
        exists|t: Trans|
            #![trigger frame_rel(m0.frames@.last(), sh0, m0.ret, ev, sh1, t)]
            {
                &&& frame_rel(m0.frames@.last(), sh0, m0.ret, ev, sh1, t)
                &&& m1.frames@ == m0.frames@.drop_last() + t.push@
                &&& m1.ret == t.ret
                &&& m1.result == m0.result
                &&& a == t.action
            }
    }
}

fn step_frame(f: Frame, sh: &mut Shell, ret: Option<Flow>, ev: Event) -> (t: Trans)
    ensures
        frame_rel(f, *old(sh), ret, ev, *final(sh), t),
{
    match f {
        Frame::Source { nodes, next } => step_source(nodes, next, sh, ret),
        Frame::Block { nodes, next } => step_block(nodes, next, sh, ret),
        Frame::Pending(n) => step_pending(n, sh),
        Frame::Single { negate } => step_single(negate, sh),
        Frame::AwaitPipeline { negate } => step_await_pipeline(negate, sh, ev),
        Frame::AwaitSubshell => step_await_subshell(sh, ev),
        Frame::AwaitBackground => step_await_background(sh, ev),
        Frame::AndOr { items, next, skip, prev } => step_and_or(items, next, skip, prev, sh, ret),
        Frame::If { branches, else_branch, next, in_body } => step_if(branches, else_branch, next, in_body, sh, ret),
        Frame::For { var, words, body, values, captured, next } => step_for(
            var,
            words,
            body,
            values,
            captured,
            next,
            sh,
            ret,
            ev,
        ),
        Frame::While { cond, body, until, in_body } => step_while(cond, body, until, in_body, sh, ret),
        Frame::Case { word, arms, subject, arm, pat, captured, in_body } => step_case(
            word,
            arms,
            subject,
            arm,
            pat,
            captured,
            in_body,
            sh,
            ret,
            ev,
        ),
        Frame::Return { word, captured } => step_return(word, captured, sh, ev),
        Frame::Timed => step_timed(ret),
        Frame::Report(m) => step_report(m),
        Frame::Simple(r) => step_simple(r, sh, ret, ev),
    }
}

impl Machine {
    /// A machine that runs a source text (as `source` or a script does):
    /// its statements in turn; a text that does not parse is reported and
    /// ends with status 2.
    pub fn from_text(src: &str) -> (m: Machine)
        ensures
            m.ret is None,
            match parse_source_spec(src@) {
                Ok(nodes) => m.result is None && m.frames@.len() == 1 && (m.frames@[0] matches Frame::Source {
                    nodes: ns,
                    next,
                } && next == 0 && nodes_view(ns@) == nodes),
                Err(e) => m.result == Some(2i32) && m.frames@.len() == 1 && (m.frames@[0] matches Frame::Report(x)
                    && x@ == e),
            },
    {
        let mut frames = Vec::new();
        match parse_source(src) {
            Ok(nodes) => {
                frames.push(Frame::Source { nodes, next: 0 });
                Machine { frames, ret: None, result: None }
            },
            Err(e) => {
                frames.push(Frame::Report(e));
                Machine { frames, ret: None, result: Some(2) }
            },
        }
    }

    /// A machine that runs a list of statements (a subshell's body).
    pub fn from_nodes(body: Vec<Node>) -> (m: Machine)
        ensures
            m.ret is None,
            m.result is None,
            m.frames@ == seq![Frame::Block { nodes: body, next: 0 }],
    {
        let mut frames = Vec::new();
        frames.push(Frame::Block { nodes: body, next: 0 });
        assert(frames@ =~= seq![Frame::Block { nodes: body, next: 0 }]);
        Machine { frames, ret: None, result: None }
    }

    /// A machine that runs one statement (a background job).
    pub fn from_node(node: Node) -> (m: Machine)
        ensures
            m.ret is None,
            m.result is None,
            m.frames@ == seq![Frame::Pending(node)],
    {
        let mut frames = Vec::new();
        frames.push(Frame::Pending(node));
        assert(frames@ =~= seq![Frame::Pending(node)]);
        Machine { frames, ret: None, result: None }
    }

    /// A machine that runs one command of a pipeline in its own process: a
    /// simple command runs without the checks and restoring a shell does for
    /// itself, and an external command replaces the process.
    pub fn pipeline_member(node: Node) -> (m: Machine)
        ensures
            m.ret is None,
            m.result is None,
            m.frames@.len() == 1,
            match node {
                Node::Simple(sc) => m.frames@[0] matches Frame::Simple(r) && fresh_simple(r, sc, true),
                _ => m.frames@[0] == Frame::Pending(node),
            },
    {
        let mut frames = Vec::new();
        match node {
            Node::Simple(sc) => {
                frames.push(Frame::Simple(new_simple(sc, true)));
            },
            other => {
                frames.push(Frame::Pending(other));
            },
        }
        Machine { frames, ret: None, result: None }
    }

    /// One step: runs the innermost construct a little further, after the
    /// event that answers the last action, and says what to do next.
    pub fn step(&mut self, sh: &mut Shell, ev: Event) -> (a: Action)
        ensures
            step_rel(*old(self), *old(sh), ev, *final(self), *final(sh), a),
    {
        if self.frames.len() == 0 {
            return Action::Finished(
                match self.result {
                    Some(r) => r,
                    None => sh.last_status,
                },
            );
        }
        let ghost m0 = *self;
        let top = match self.frames.pop() {
            Some(f) => f,
            None => Frame::Timed,
        };
        let ghost top_g = top;
        let ghost sh0 = *sh;
        let ghost ev_g = ev;
        let ret = match &self.ret {
            Some(f) => Some(copy_flow(f)),
            None => None,
        };
        let t = step_frame(top, sh, ret, ev);
        let ghost tg = t;
        let Trans { push, ret: r2, action } = t;
        let mut p = push;
        self.frames.append(&mut p);
        self.ret = r2;
        proof {
            assert(top_g == m0.frames@.last());
            assert(frame_rel(m0.frames@.last(), sh0, m0.ret, ev_g, *sh, tg));
            assert(self.frames@ =~= m0.frames@.drop_last() + tg.push@);
        }
        action
    }
}

impl Shell {
    /// The exit trap, taken (it runs once): a machine that runs its command.
    pub fn run_exit_trap(&mut self) -> (m: Option<Machine>)
        ensures
            *final(self) == (Shell { trap_exit: None, ..*old(self) }),
            match old(self).trap_exit {
                None => m is None,
                Some(cmd) => m matches Some(mm) && mm.ret is None && match parse_source_spec(cmd@) {
                    Ok(nodes) => mm.result is None && mm.frames@.len() == 1 && (mm.frames@[0] matches Frame::Source {
                        nodes: ns,
                        next,
                    } && next == 0 && nodes_view(ns@) == nodes),
                    Err(e) => mm.result == Some(2i32) && mm.frames@.len() == 1 && (mm.frames@[0] matches Frame::Report(
                        x,
                    ) && x@ == e),
                },
            },
    {
        let t = self.trap_exit.take();
        match t {
            Some(cmd) => Some(Machine::from_text(cmd.as_str())),
            None => None,
        }
    }
}

// ----- laws of the control constructs -----

/// The transition of the top frame that a step of the machine took.
proof fn lemma_step_top(m0: Machine, sh0: Shell, ev: Event, m1: Machine, sh1: Shell, a: Action) -> (t: Trans)
    requires
        step_rel(m0, sh0, ev, m1, sh1, a),
        m0.frames@.len() > 0,
    ensures
        frame_rel(m0.frames@.last(), sh0, m0.ret, ev, sh1, t),
        m1.frames@ == m0.frames@.drop_last() + t.push@,
        m1.ret == t.ret,
        a == t.action,
{
    choose|t: Trans|
        {
            &&& #[trigger] frame_rel(m0.frames@.last(), sh0, m0.ret, ev, sh1, t)
            &&& m1.frames@ == m0.frames@.drop_last() + t.push@
            &&& m1.ret == t.ret
            &&& m1.result == m0.result
            &&& a == t.action
        }
}

/// In an and-or list, once an item has run normally, the next item is
/// skipped exactly when it follows `&&` and the status is not 0, or
/// follows `||` and the status is 0; after a plain separator it runs.
pub proof fn and_or_skips_by_status(m0: Machine, sh0: Shell, ev: Event, m1: Machine, sh1: Shell, a: Action)
    requires
        step_rel(m0, sh0, ev, m1, sh1, a),
        m0.frames@.len() > 0,
        m0.frames@.last() matches Frame::AndOr { items, next, .. } && next < items@.len(),
        m0.ret == Some(Flow::Normal),
    ensures
        sh1 == sh0,
        a is Continue,
        m0.frames@.last() matches Frame::AndOr { items, next, .. } ==> (m1.frames@.last() matches Frame::AndOr {
            items: items1,
            next: next1,
            skip,
            prev,
        } && {
            let st = sh0.last_status;
            &&& items1 == items && next1 == next + 1 && prev == st
            &&& items@[next as int].1 == Sep::And ==> skip == (st != 0)
            &&& items@[next as int].1 == Sep::Or ==> skip == (st == 0)
            &&& items@[next as int].1 == Sep::Sequential ==> !skip
        }),
{
    let t = lemma_step_top(m0, sh0, ev, m1, sh1, a);
    if let Frame::AndOr { items, next, skip, prev } = m0.frames@.last() {
        let f = Frame::AndOr {
            items,
            next: (next + 1) as usize,
            skip: skip_next_spec(items@[next as int].1, sh0.last_status),
            prev: sh0.last_status,
        };
        assert(items@.len() == items.len());
        assert(and_or_rel(items, next, skip, prev, sh0, m0.ret, sh1, t));
        assert(t.push@ == seq![f]);
        assert(m1.frames@.last() == f);
    }
}

/// In an `if`, once a condition has run normally, a status of 0 runs that
/// condition's body, and any other status goes on to the next condition.
pub proof fn if_takes_branch_by_status(m0: Machine, sh0: Shell, ev: Event, m1: Machine, sh1: Shell, a: Action)
    requires
        step_rel(m0, sh0, ev, m1, sh1, a),
        m0.frames@.len() > 0,
        m0.frames@.last() matches Frame::If { branches, next, in_body, .. } && !in_body && next < branches@.len(),
        m0.ret == Some(Flow::Normal),
    ensures
        sh1 == sh0,
        a is Continue,
        m0.frames@.last() matches Frame::If { branches, else_branch, next, .. } ==> {
            &&& sh0.last_status == 0 ==> m1.frames@.len() == m0.frames@.len() + 1 && (m1.frames@.last() matches Frame::Block {
                nodes,
                next: k,
            } && k == 0 && list_view(nodes@) == list_view(branches@[next as int].1@))
            &&& sh0.last_status != 0 ==> m1.frames@.len() == m0.frames@.len() && m1.frames@.last() == Frame::If {
                branches,
                else_branch,
                next: (next + 1) as usize,
                in_body: false,
            }
        },
{
    let t = lemma_step_top(m0, sh0, ev, m1, sh1, a);
    if sh0.last_status == 0 {
        assert(m1.frames@.last() == t.push@[1]);
    } else {
        assert(m1.frames@.last() == t.push@[0]);
    }
}

/// In a `while` loop a condition that ends with status 0 runs the body and
/// any other status ends the loop with status 0; `until` the other way
/// round.
pub proof fn loop_continues_by_status(m0: Machine, sh0: Shell, ev: Event, m1: Machine, sh1: Shell, a: Action)
    requires
        step_rel(m0, sh0, ev, m1, sh1, a),
        m0.frames@.len() > 0,
        m0.frames@.last() matches Frame::While { in_body, .. } && !in_body,
        m0.ret == Some(Flow::Normal),
    ensures
        a is Continue,
        m0.frames@.last() matches Frame::While { body, until, .. } ==> {
            let go_on = if until { sh0.last_status != 0 } else { sh0.last_status == 0 };
            &&& go_on ==> sh1 == sh0 && m1.frames@.len() == m0.frames@.len() + 1 && (m1.frames@.last() matches Frame::Block {
                nodes,
                next: k,
            } && k == 0 && list_view(nodes@) == list_view(body@))
            &&& !go_on ==> sh1 == (Shell { last_status: 0, ..sh0 }) && m1.frames@ == m0.frames@.drop_last() && m1.ret
                == Some(Flow::Normal)
        },
{
    let t = lemma_step_top(m0, sh0, ev, m1, sh1, a);
    if t.push@.len() == 2 {
        assert(m1.frames@.last() == t.push@[1]);
    } else {
        assert(m1.frames@ =~= m0.frames@.drop_last());
    }
}

/// Each round of a `for` loop whose words are expanded sets the loop
/// variable to the next value and runs the body; once the values are used
/// up the loop ends with status 0.
pub proof fn for_binds_each_value(m0: Machine, sh0: Shell, ev: Event, m1: Machine, sh1: Shell, a: Action)
    requires
        step_rel(m0, sh0, ev, m1, sh1, a),
        m0.frames@.len() > 0,
        m0.frames@.last() matches Frame::For { words, values, .. } && values@.len() >= words@.len(),
        m0.ret is None || m0.ret == Some(Flow::Normal),
    ensures
        a is Continue,
        m0.frames@.last() matches Frame::For { var, body, values, next, .. } ==> {
            &&& next < values@.len() ==> {
                &&& text_map(sh1.vars@) == text_map(sh0.vars@).insert(var@, values@[next as int]@)
                &&& m1.frames@.len() == m0.frames@.len() + 1
                &&& (m1.frames@.last() matches Frame::Block { nodes, next: k } && k == 0 && list_view(nodes@)
                    == list_view(body@))
                &&& (m1.frames@[m1.frames@.len() - 2] matches Frame::For { next: n2, .. } && n2 == next + 1)
            }
            &&& next >= values@.len() ==> sh1 == (Shell { last_status: 0, ..sh0 }) && m1.frames@
                == m0.frames@.drop_last() && m1.ret == Some(Flow::Normal)
        },
{
    let t = lemma_step_top(m0, sh0, ev, m1, sh1, a);
    if let Frame::For { var, words, body, values, captured, next } = m0.frames@.last() {
        assert(texts(values@).len() == values@.len());
        if next < values@.len() {
            assert(texts(values@)[next as int] == values@[next as int]@);
            assert(m1.frames@.last() == t.push@[1]);
            assert(m1.frames@[m1.frames@.len() - 2] == t.push@[0]);
        } else {
            assert(m1.frames@ =~= m0.frames@.drop_last());
        }
    }
}

} // verus!
