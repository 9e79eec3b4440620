//! The builtin commands: those that only change the shell's state are run
//! here; those that need the system are handed back as an action.

use vstd::prelude::*;
use crate::exec::{join_spaces, join_with_spaces, parse_i32, parse_i32_spec, strip_trailing_newlines, trim_trailing_newlines};
use crate::parser::first_index;
use crate::state::Shell;
use crate::strmap::{lemma_text_map_insert, lemma_text_map_remove, text_map, StrMap};
use crate::text::{chars_of, concat_str, opt_text, str_eq, string_from_chars};

verus! {

broadcast use vstd::string::group_string_axioms;

/// The names of the builtin commands.
pub open spec fn is_builtin_spec(name: Seq<char>) -> bool {
    name == "cd"@ || name == "pwd"@ || name == "exit"@ || name == "export"@ || name == "unset"@ || name
        == "alias"@ || name == "unalias"@ || name == "echo"@ || name == "source"@ || name == "."@ || name
        == "true"@ || name == "false"@ || name == "type"@ || name == "read"@ || name == ":"@ || name == "wait"@
}

/// Whether `name` is a builtin command.
pub fn is_builtin(name: &str) -> (r: bool)
    ensures
        r == is_builtin_spec(name@),
{
    str_eq(name, "cd") || str_eq(name, "pwd") || str_eq(name, "exit") || str_eq(name, "export") || str_eq(
        name,
        "unset",
    ) || str_eq(name, "alias") || str_eq(name, "unalias") || str_eq(name, "echo") || str_eq(name, "source")
        || str_eq(name, ".") || str_eq(name, "true") || str_eq(name, "false") || str_eq(name, "type")
        || str_eq(name, "read") || str_eq(name, ":") || str_eq(name, "wait")
}

/// `NAME=VALUE` split at its first `=`.
pub open spec fn split_eq(s: Seq<char>) -> Option<(Seq<char>, Seq<char>)> {
    match first_index(s, 0, '=') {
        Some(e) => Some((s.subrange(0, e), s.subrange(e + 1, s.len() as int))),
        None => None,
    }
}

/// `str::split_once('=')`.
pub fn split_once_eq(s: &str) -> (r: Option<(String, String)>)
    ensures
        match r {
            Some((a, b)) => split_eq(s@) == Some((a@, b@)),
            None => split_eq(s@) is None,
        },
{
    let cs = chars_of(s);
    let n = cs.len();
    let mut e: usize = 0;
    while e < n && cs[e] != '='
        invariant
            e <= n,
            n == cs@.len(),
            cs@ == s@,
            first_index(cs@, e as int, '=') == first_index(cs@, 0, '='),
        decreases n - e,
    {
        e = e + 1;
    }
    if e == n {
        return None;
    }
    let mut a: Vec<char> = Vec::new();
    let mut i: usize = 0;
    while i < e
        invariant
            i <= e < n,
            n == cs@.len(),
            a@ == cs@.subrange(0, i as int),
        decreases e - i,
    {
        a.push(cs[i]);
        i = i + 1;
        assert(a@ =~= cs@.subrange(0, i as int));
    }
    let mut b: Vec<char> = Vec::new();
    let mut j: usize = e + 1;
    while j < n
        invariant
            e + 1 <= j <= n,
            n == cs@.len(),
            b@ == cs@.subrange(e + 1, j as int),
        decreases n - j,
    {
        b.push(cs[j]);
        j = j + 1;
        assert(b@ =~= cs@.subrange(e + 1, j as int));
    }
    Some((string_from_chars(a.as_slice()), string_from_chars(b.as_slice())))
}

/// The variables and exported names after `export` of each argument in
/// turn: `NAME=VALUE` sets and exports, a bare name only exports.
pub open spec fn export_spec(
    vars: Map<Seq<char>, Seq<char>>,
    exported: Set<Seq<char>>,
    args: Seq<Seq<char>>,
) -> (Map<Seq<char>, Seq<char>>, Set<Seq<char>>)
    decreases args.len(),
{
    if args.len() == 0 {
        (vars, exported)
    } else {
        let (v, e) = export_spec(vars, exported, args.drop_last());
        match split_eq(args.last()) {
            Some((k, val)) => (v.insert(k, val), e.insert(k)),
            None => (v, e.insert(args.last())),
        }
    }
}

/// The aliases, and the text printed, after `alias ARGS...` (with at least
/// one argument): `NAME=VALUE` defines, a bare name prints its definition
/// when there is one.
pub open spec fn alias_spec(aliases: Map<Seq<char>, Seq<char>>, args: Seq<Seq<char>>) -> (Map<Seq<char>, Seq<char>>, Seq<char>)
    decreases args.len(),
{
    if args.len() == 0 {
        (aliases, Seq::empty())
    } else {
        let (m, out) = alias_spec(aliases, args.drop_last());
        let a = args.last();
        match split_eq(a) {
            Some((k, val)) => (m.insert(k, val), out),
            None => if m.contains_key(a) {
                (m, out + alias_line(a, m[a]))
            } else {
                (m, out)
            },
        }
    }
}

/// How an alias is printed.
pub open spec fn alias_line(name: Seq<char>, value: Seq<char>) -> Seq<char> {
    "alias "@ + name + "='"@ + value + "'\n"@
}

/// The lines of the aliases named in `names`, in order.
pub open spec fn alias_lines(names: Seq<Seq<char>>, aliases: Map<Seq<char>, Seq<char>>) -> Seq<char>
    decreases names.len(),
{
    if names.len() == 0 {
        Seq::empty()
    } else {
        alias_lines(names.drop_last(), aliases) + alias_line(names.last(), aliases[names.last()])
    }
}

/// The texts of a sequence of strings.
pub open spec fn texts(v: Seq<String>) -> Seq<Seq<char>> {
    v.map_values(|s: String| s@)
}

/// Lexicographic order on character sequences (that of `String`).
pub open spec fn seq_lt(a: Seq<char>, b: Seq<char>) -> bool
    decreases a.len(),
{
    if a.len() == 0 {
        b.len() > 0
    } else if b.len() == 0 {
        false
    } else if a[0] != b[0] {
        a[0] < b[0]
    } else {
        seq_lt(a.drop_first(), b.drop_first())
    }
}

/// The sequence is strictly increasing.
pub open spec fn sorted_strictly(s: Seq<Seq<char>>) -> bool {
    forall|i: int, j: int| 0 <= i < j < s.len() ==> seq_lt(#[trigger] s[i], #[trigger] s[j])
}

proof fn lemma_lt_total(a: Seq<char>, b: Seq<char>)
    ensures
        a == b || seq_lt(a, b) || seq_lt(b, a),
    decreases a.len(),
{
    if a.len() > 0 && b.len() > 0 && a[0] == b[0] {
        lemma_lt_total(a.drop_first(), b.drop_first());
        if a.drop_first() == b.drop_first() {
            assert(a =~= seq![a[0]] + a.drop_first());
            assert(b =~= seq![b[0]] + b.drop_first());
        }
    }
    if a.len() == 0 && b.len() == 0 {
        assert(a =~= b);
    }
}

proof fn lemma_lt_transitive(a: Seq<char>, b: Seq<char>, c: Seq<char>)
    requires
        seq_lt(a, b),
        seq_lt(b, c),
    ensures
        seq_lt(a, c),
    decreases a.len(),
{
    if a.len() > 0 && b.len() > 0 && c.len() > 0 && a[0] == b[0] && b[0] == c[0] {
        lemma_lt_transitive(a.drop_first(), b.drop_first(), c.drop_first());
    }
}

/// Whether `a` comes before `b` in lexicographic order.
fn str_lt(a: &str, b: &str) -> (r: bool)
    ensures
        r == seq_lt(a@, b@),
{
    let x = chars_of(a);
    let y = chars_of(b);
    let mut i: usize = 0;
    assert(x@.subrange(0, x@.len() as int) =~= x@);
    assert(y@.subrange(0, y@.len() as int) =~= y@);
    while i < x.len() && i < y.len() && x[i] == y[i]
        invariant
            i <= x@.len(),
            i <= y@.len(),
            x@ == a@,
            y@ == b@,
            seq_lt(x@.subrange(i as int, x@.len() as int), y@.subrange(i as int, y@.len() as int)) == seq_lt(a@, b@),
        decreases x.len() - i,
    {
        assert(x@.subrange(i + 1, x@.len() as int) =~= x@.subrange(i as int, x@.len() as int).drop_first());
        assert(y@.subrange(i + 1, y@.len() as int) =~= y@.subrange(i as int, y@.len() as int).drop_first());
        i = i + 1;
    }
    if i == x.len() {
        i < y.len()
    } else if i == y.len() {
        false
    } else {
        x[i] < y[i]
    }
}

/// The keys of a map in increasing order.
fn sorted_keys(m: &StrMap<String>) -> (r: Vec<String>)
    ensures
        sorted_strictly(texts(r@)),
        forall|k: Seq<char>| m@.contains_key(k) <==> texts(r@).contains(k),
{
    let keys = m.keys();
    let mut out: Vec<String> = Vec::new();
    let mut i: usize = 0;
    while i < keys.len()
        invariant
            i <= keys@.len(),
            forall|a: int, b: int| 0 <= a < b < keys@.len() ==> (#[trigger] keys@[a])@ != (#[trigger] keys@[b])@,
            forall|k: Seq<char>| m@.contains_key(k) <==> exists|a: int| 0 <= a < keys@.len() && (#[trigger] keys@[a])@ == k,
            sorted_strictly(texts(out@)),
            forall|k: Seq<char>|
                #[trigger] texts(out@).contains(k) <==> exists|a: int| 0 <= a < i && (#[trigger] keys@[a])@ == k,
        decreases keys.len() - i,
    {
        let x = keys[i].clone();
        let ghost os = texts(out@);
        // x is new: it differs from every key already placed
        assert forall|c: int| 0 <= c < os.len() implies os[c] != x@ by {
            assert(os.contains(os[c]));
            let a = choose|a: int| 0 <= a < i && (#[trigger] keys@[a])@ == os[c];
            assert(keys@[a]@ != keys@[i as int]@);
        }
        let mut p: usize = 0;
        while p < out.len() && str_lt(out[p].as_str(), x.as_str())
            invariant
                p <= out@.len(),
                os == texts(out@),
                x@ == keys@[i as int]@,
                forall|c: int| 0 <= c < p ==> seq_lt(#[trigger] os[c], x@),
            decreases out.len() - p,
        {
            p = p + 1;
        }
        proof {
            if p < os.len() {
                lemma_lt_total(os[p as int], x@);
                assert(os[p as int] != x@);
                assert(seq_lt(x@, os[p as int]));
                assert forall|c: int| p <= c < os.len() implies seq_lt(x@, #[trigger] os[c]) by {
                    if c > p {
                        lemma_lt_transitive(x@, os[p as int], os[c]);
                    }
                }
            }
        }
        out.insert(p, x);
        let ghost ns = texts(out@);
        assert(ns =~= os.insert(p as int, keys@[i as int]@));
        assert(sorted_strictly(ns)) by {
            assert forall|a: int, b: int| 0 <= a < b < ns.len() implies seq_lt(#[trigger] ns[a], #[trigger] ns[b]) by {
                if b < p {
                    assert(ns[a] == os[a] && ns[b] == os[b]);
                } else if b == p {
                    assert(ns[a] == os[a]);
                } else if a < p {
                    assert(ns[a] == os[a] && ns[b] == os[b - 1]);
                    lemma_lt_transitive(os[a], x@, os[b - 1]);
                } else if a == p {
                    assert(ns[b] == os[b - 1]);
                } else {
                    assert(ns[a] == os[a - 1] && ns[b] == os[b - 1]);
                }
            }
        }
        assert forall|k: Seq<char>| ns.contains(k) <==> exists|a: int| 0 <= a < i + 1 && (#[trigger] keys@[a])@ == k by {
            if ns.contains(k) {
                let c = choose|c: int| 0 <= c < ns.len() && ns[c] == k;
                if c == p {
                    assert(keys@[i as int]@ == k);
                } else {
                    let c2 = if c < p { c } else { c - 1 };
                    assert(ns[c] == os[c2]);
                    assert(os.contains(k));
                }
            }
            if exists|a: int| 0 <= a < i + 1 && (#[trigger] keys@[a])@ == k {
                let a = choose|a: int| 0 <= a < i + 1 && (#[trigger] keys@[a])@ == k;
                if a == i {
                    assert(ns[p as int] == k);
                } else {
                    assert(os.contains(k));
                    let c = choose|c: int| 0 <= c < os.len() && os[c] == k;
                    let c2 = if c < p { c } else { c + 1 };
                    assert(ns[c2] == k);
                }
            }
        }
        i = i + 1;
    }
    out
}

/// What a builtin asks of the program around the library.
pub enum BuiltinAction {
    /// The builtin is done: its status and what it writes to standard
    /// output and to standard error.
    Done { status: i32, out: String, err: String },
    /// `cd`: change to this directory, then call `finish_cd`.
    ChangeDir(String),
    /// `pwd`: print the working directory.
    PrintWorkingDir,
    /// `source FILE`: run the commands of this file.
    Source(String),
    /// `wait`: wait for these background processes.
    Wait(Vec<i32>),
    /// `read`: read a line of standard input, then call `finish_read`.
    ReadLine,
    /// `type`: look the names up with `needs_path_search` and `type_report`.
    Type,
}

/// A builtin's action, over plain values.
pub enum SpecAction {
    Done(int, Seq<char>, Seq<char>),
    ChangeDir(Seq<char>),
    PrintWorkingDir,
    Source(Seq<char>),
    Wait(Seq<i32>),
    ReadLine,
    Type,
}

pub open spec fn action_view(a: BuiltinAction) -> SpecAction {
    match a {
        BuiltinAction::Done { status, out, err } => SpecAction::Done(status as int, out@, err@),
        BuiltinAction::ChangeDir(d) => SpecAction::ChangeDir(d@),
        BuiltinAction::PrintWorkingDir => SpecAction::PrintWorkingDir,
        BuiltinAction::Source(f) => SpecAction::Source(f@),
        BuiltinAction::Wait(p) => SpecAction::Wait(p@),
        BuiltinAction::ReadLine => SpecAction::ReadLine,
        BuiltinAction::Type => SpecAction::Type,
    }
}

/// The map without the given keys.
pub open spec fn remove_all<V>(m: Map<Seq<char>, V>, names: Seq<Seq<char>>) -> Map<Seq<char>, V>
    decreases names.len(),
{
    if names.len() == 0 {
        m
    } else {
        remove_all(m, names.drop_last()).remove(names.last())
    }
}

/// What `echo` prints: the arguments joined with spaces, and a line feed
/// unless the first argument is `-n` (which is not printed).
pub open spec fn echo_text(argv: Seq<Seq<char>>) -> Seq<char> {
    if argv.len() > 0 && argv[0] == "-n"@ {
        join_spaces(argv.drop_first())
    } else {
        join_spaces(argv) + "\n"@
    }
}

/// The status `exit` ends the shell with: its first argument as a number,
/// else the last status.
pub open spec fn exit_code(sh: Shell, argv: Seq<Seq<char>>) -> int {
    if argv.len() > 0 && parse_i32_spec(argv[0]) is Some {
        parse_i32_spec(argv[0])->0
    } else {
        sh.last_status as int
    }
}

/// The variables after the builtin `name`.
pub open spec fn builtin_vars(sh: Shell, name: Seq<char>, argv: Seq<Seq<char>>) -> Map<Seq<char>, Seq<char>> {
    if name == "export"@ {
        export_spec(text_map(sh.vars@), sh.exported@.dom(), argv).0
    } else if name == "unset"@ {
        remove_all(text_map(sh.vars@), argv)
    } else {
        text_map(sh.vars@)
    }
}

/// The exported names after the builtin `name`.
pub open spec fn builtin_exported(sh: Shell, name: Seq<char>, argv: Seq<Seq<char>>) -> Set<Seq<char>> {
    if name == "export"@ {
        export_spec(text_map(sh.vars@), sh.exported@.dom(), argv).1
    } else if name == "unset"@ {
        remove_all(sh.exported@, argv).dom()
    } else {
        sh.exported@.dom()
    }
}

/// The aliases after the builtin `name`.
pub open spec fn builtin_aliases(sh: Shell, name: Seq<char>, argv: Seq<Seq<char>>) -> Map<Seq<char>, Seq<char>> {
    if name == "alias"@ && argv.len() > 0 {
        alias_spec(text_map(sh.aliases@), argv).0
    } else if name == "unalias"@ {
        remove_all(text_map(sh.aliases@), argv)
    } else {
        text_map(sh.aliases@)
    }
}

/// The action of the builtin `name` (for `alias` with no argument see
/// `run_builtin`).
pub open spec fn builtin_action(sh: Shell, name: Seq<char>, argv: Seq<Seq<char>>) -> SpecAction {
    if name == "cd"@ {
        if argv.len() > 0 {
            SpecAction::ChangeDir(argv[0])
        } else {
            match sh.var_spec("HOME"@) {
                Some(h) => SpecAction::ChangeDir(h),
                None => SpecAction::Done(1, Seq::empty(), "xsh: cd: HOME not set\n"@),
            }
        }
    } else if name == "pwd"@ {
        SpecAction::PrintWorkingDir
    } else if name == "exit"@ {
        SpecAction::Done(exit_code(sh, argv), Seq::empty(), Seq::empty())
    } else if name == "export"@ || name == "unset"@ || name == "unalias"@ || name == "true"@ || name == ":"@ {
        SpecAction::Done(0, Seq::empty(), Seq::empty())
    } else if name == "alias"@ {
        SpecAction::Done(0, alias_spec(text_map(sh.aliases@), argv).1, Seq::empty())
    } else if name == "echo"@ {
        SpecAction::Done(0, echo_text(argv), Seq::empty())
    } else if name == "source"@ || name == "."@ {
        if argv.len() > 0 {
            SpecAction::Source(argv[0])
        } else {
            SpecAction::Done(1, Seq::empty(), "xsh: source: filename argument required\n"@)
        }
    } else if name == "wait"@ {
        SpecAction::Wait(sh.bg_jobs@)
    } else if name == "false"@ {
        SpecAction::Done(1, Seq::empty(), Seq::empty())
    } else if name == "type"@ {
        SpecAction::Type
    } else if name == "read"@ {
        SpecAction::ReadLine
    } else {
        SpecAction::Done(1, Seq::empty(), "xsh: "@ + name + ": not a builtin\n"@)
    }
}

/// What a builtin leaves alone.
pub open spec fn others_same(a: Shell, b: Shell) -> bool {
    &&& a.last_status == b.last_status
    &&& a.shell_name@ == b.shell_name@
    &&& a.errexit == b.errexit
    &&& a.xtrace == b.xtrace
    &&& a.local_stack == b.local_stack
    &&& a.trap_exit == b.trap_exit
    &&& a.readonly@ == b.readonly@
    &&& a.pid == b.pid
}

/// What the builtin `name` with arguments `argv` does to the shell `sh0`
/// (giving `sh1`) and what it leaves to do (`r`).
pub open spec fn builtin_effect(sh0: Shell, name: Seq<char>, argv: Seq<Seq<char>>, sh1: Shell, r: BuiltinAction) -> bool {
    let sh = sh0;
    &&& text_map(sh1.vars@) == builtin_vars(sh, name, argv)
    &&& sh1.exported@.dom() == builtin_exported(sh, name, argv)
    &&& text_map(sh1.aliases@) == builtin_aliases(sh, name, argv)
    &&& sh1.functions@ == if name == "unset"@ {
        remove_all(sh.functions@, argv)
    } else {
        sh.functions@
    }
    &&& sh1.should_exit == if name == "exit"@ {
        Some(exit_code(sh, argv) as i32)
    } else {
        sh.should_exit
    }
    &&& sh1.bg_jobs@ == if name == "wait"@ {
        Seq::<i32>::empty()
    } else {
        sh.bg_jobs@
    }
    &&& others_same(sh1, sh)
    &&& if name == "alias"@ && argv.len() == 0 {
        exists|names: Seq<Seq<char>>|
            {
                &&& sorted_strictly(names)
                &&& forall|k: Seq<char>| #[trigger] names.contains(k) <==> sh.aliases@.contains_key(k)
                &&& action_view(r) == SpecAction::Done(0, alias_lines(names, text_map(sh.aliases@)), Seq::empty())
            }
    } else {
        action_view(r) == builtin_action(sh, name, argv)
    }
}

/// Runs the builtin `name` with `args` as far as the shell's state goes,
/// and says what is left for the program to do.
pub fn run_builtin(shell: &mut Shell, name: &str, args: &[String]) -> (r: BuiltinAction)
    ensures
        builtin_effect(*old(shell), name@, texts(args@), *final(shell), r),
{
    let ghost sh = *shell;
    let ghost argv = texts(args@);
    proof {
        reveal_strlit("cd");
        assert("cd"@[0] == 'c' && "cd"@[1] == 'd');
        reveal_strlit("pwd");
        assert("pwd"@[0] == 'p' && "pwd"@[1] == 'w' && "pwd"@[2] == 'd');
        reveal_strlit("exit");
        assert("exit"@[0] == 'e' && "exit"@[1] == 'x' && "exit"@[2] == 'i' && "exit"@[3] == 't');
        reveal_strlit("export");
        assert("export"@[0] == 'e' && "export"@[1] == 'x' && "export"@[2] == 'p' && "export"@[3] == 'o' && "export"@[4] == 'r' && "export"@[5] == 't');
        reveal_strlit("unset");
        assert("unset"@[0] == 'u' && "unset"@[1] == 'n' && "unset"@[2] == 's' && "unset"@[3] == 'e' && "unset"@[4] == 't');
        reveal_strlit("alias");
        assert("alias"@[0] == 'a' && "alias"@[1] == 'l' && "alias"@[2] == 'i' && "alias"@[3] == 'a' && "alias"@[4] == 's');
        reveal_strlit("unalias");
        assert("unalias"@[0] == 'u' && "unalias"@[1] == 'n' && "unalias"@[2] == 'a' && "unalias"@[3] == 'l' && "unalias"@[4] == 'i' && "unalias"@[5] == 'a' && "unalias"@[6] == 's');
        reveal_strlit("echo");
        assert("echo"@[0] == 'e' && "echo"@[1] == 'c' && "echo"@[2] == 'h' && "echo"@[3] == 'o');
        reveal_strlit("source");
        assert("source"@[0] == 's' && "source"@[1] == 'o' && "source"@[2] == 'u' && "source"@[3] == 'r' && "source"@[4] == 'c' && "source"@[5] == 'e');
        reveal_strlit(".");
        assert("."@[0] == '.');
        reveal_strlit("true");
        assert("true"@[0] == 't' && "true"@[1] == 'r' && "true"@[2] == 'u' && "true"@[3] == 'e');
        reveal_strlit("false");
        assert("false"@[0] == 'f' && "false"@[1] == 'a' && "false"@[2] == 'l' && "false"@[3] == 's' && "false"@[4] == 'e');
        reveal_strlit("type");
        assert("type"@[0] == 't' && "type"@[1] == 'y' && "type"@[2] == 'p' && "type"@[3] == 'e');
        reveal_strlit("read");
        assert("read"@[0] == 'r' && "read"@[1] == 'e' && "read"@[2] == 'a' && "read"@[3] == 'd');
        reveal_strlit(":");
        assert(":"@[0] == ':');
        reveal_strlit("wait");
        assert("wait"@[0] == 'w' && "wait"@[1] == 'a' && "wait"@[2] == 'i' && "wait"@[3] == 't');
    }
    if str_eq(name, "cd") {
        if args.len() > 0 {
            return BuiltinAction::ChangeDir(args[0].clone());
        }
        match shell.get_var("HOME") {
            Some(h) => BuiltinAction::ChangeDir(h),
            None => BuiltinAction::Done {
                status: 1,
                out: String::new(),
                err: "xsh: cd: HOME not set\n".to_string(),
            },
        }
    } else if str_eq(name, "pwd") {
        BuiltinAction::PrintWorkingDir
    } else if str_eq(name, "exit") {
        let mut code = shell.last_status;
        if args.len() > 0 {
            let cs = chars_of(args[0].as_str());
            match parse_i32(cs.as_slice()) {
                Some(v) => {
                    code = v;
                },
                None => {},
            }
        }
        shell.should_exit = Some(code);
        BuiltinAction::Done { status: code, out: String::new(), err: String::new() }
    } else if str_eq(name, "export") {
        export_args(shell, args);
        BuiltinAction::Done { status: 0, out: String::new(), err: String::new() }
    } else if str_eq(name, "unset") {
        unset_args(shell, args);
        BuiltinAction::Done { status: 0, out: String::new(), err: String::new() }
    } else if str_eq(name, "alias") {
        if args.len() == 0 {
            let out = list_aliases(&shell.aliases);
            BuiltinAction::Done { status: 0, out, err: String::new() }
        } else {
            let out = alias_args(&mut shell.aliases, args);
            BuiltinAction::Done { status: 0, out, err: String::new() }
        }
    } else if str_eq(name, "unalias") {
        let mut i: usize = 0;
        while i < args.len()
            invariant
                i <= args@.len(),
                argv == texts(args@),
                text_map(shell.aliases@) == remove_all(text_map(sh.aliases@), argv.subrange(0, i as int)),
                shell.vars == sh.vars,
                shell.exported == sh.exported,
                shell.functions == sh.functions,
                shell.should_exit == sh.should_exit,
                shell.bg_jobs == sh.bg_jobs,
                others_same(*shell, sh),
            decreases args.len() - i,
        {
            proof {
                lemma_text_map_remove(shell.aliases@, args@[i as int]@);
                assert(argv.subrange(0, i + 1).drop_last() =~= argv.subrange(0, i as int));
            }
            shell.aliases.remove(args[i].as_str());
            i = i + 1;
        }
        assert(argv.subrange(0, args@.len() as int) =~= argv);
        BuiltinAction::Done { status: 0, out: String::new(), err: String::new() }
    } else if str_eq(name, "echo") {
        let out = echo_output(args);
        BuiltinAction::Done { status: 0, out, err: String::new() }
    } else if str_eq(name, "source") || str_eq(name, ".") {
        if args.len() > 0 {
            BuiltinAction::Source(args[0].clone())
        } else {
            BuiltinAction::Done {
                status: 1,
                out: String::new(),
                err: "xsh: source: filename argument required\n".to_string(),
            }
        }
    } else if str_eq(name, "wait") {
        let mut jobs: Vec<i32> = Vec::new();
        std::mem::swap(&mut jobs, &mut shell.bg_jobs);
        BuiltinAction::Wait(jobs)
    } else if str_eq(name, "true") || str_eq(name, ":") {
        BuiltinAction::Done { status: 0, out: String::new(), err: String::new() }
    } else if str_eq(name, "false") {
        BuiltinAction::Done { status: 1, out: String::new(), err: String::new() }
    } else if str_eq(name, "type") {
        BuiltinAction::Type
    } else if str_eq(name, "read") {
        BuiltinAction::ReadLine
    } else {
        let a = concat_str("xsh: ", name);
        let err = concat_str(a.as_str(), ": not a builtin\n");
        BuiltinAction::Done { status: 1, out: String::new(), err }
    }
}

/// `export ARGS...`: `NAME=VALUE` sets and exports, a bare name exports.
fn export_args(shell: &mut Shell, args: &[String])
    ensures
        text_map(final(shell).vars@) == export_spec(text_map(old(shell).vars@), old(shell).exported@.dom(), texts(args@)).0,
        final(shell).exported@.dom() == export_spec(text_map(old(shell).vars@), old(shell).exported@.dom(), texts(args@)).1,
        final(shell).aliases == old(shell).aliases,
        final(shell).functions == old(shell).functions,
        final(shell).should_exit == old(shell).should_exit,
        final(shell).bg_jobs == old(shell).bg_jobs,
        others_same(*final(shell), *old(shell)),
{
    let ghost sh = *shell;
    let ghost argv = texts(args@);
    let mut i: usize = 0;
    while i < args.len()
        invariant
            i <= args@.len(),
            argv == texts(args@),
            text_map(shell.vars@) == export_spec(text_map(sh.vars@), sh.exported@.dom(), argv.subrange(0, i as int)).0,
            shell.exported@.dom() == export_spec(text_map(sh.vars@), sh.exported@.dom(), argv.subrange(0, i as int)).1,
            shell.aliases == sh.aliases,
            shell.functions == sh.functions,
            shell.should_exit == sh.should_exit,
            shell.bg_jobs == sh.bg_jobs,
            others_same(*shell, sh),
        decreases args.len() - i,
    {
        proof {
            assert(argv.subrange(0, i + 1).drop_last() =~= argv.subrange(0, i as int));
            assert(argv.subrange(0, i + 1).last() == args@[i as int]@);
        }
        match split_once_eq(args[i].as_str()) {
            Some((k, v)) => {
                let k2 = k.clone();
                proof {
                    lemma_text_map_insert(shell.vars@, k@, v);
                }
                shell.vars.insert(k, v);
                shell.exported.insert(k2, ());
            },
            None => {
                shell.exported.insert(args[i].clone(), ());
            },
        }
        i = i + 1;
    }
    assert(argv.subrange(0, args@.len() as int) =~= argv);
}

/// `unset ARGS...`: removes each name from the variables, the exported
/// names and the functions.
fn unset_args(shell: &mut Shell, args: &[String])
    ensures
        text_map(final(shell).vars@) == remove_all(text_map(old(shell).vars@), texts(args@)),
        final(shell).exported@ == remove_all(old(shell).exported@, texts(args@)),
        final(shell).functions@ == remove_all(old(shell).functions@, texts(args@)),
        final(shell).aliases == old(shell).aliases,
        final(shell).should_exit == old(shell).should_exit,
        final(shell).bg_jobs == old(shell).bg_jobs,
        others_same(*final(shell), *old(shell)),
{
    let ghost sh = *shell;
    let ghost argv = texts(args@);
    let mut i: usize = 0;
    while i < args.len()
        invariant
            i <= args@.len(),
            argv == texts(args@),
            text_map(shell.vars@) == remove_all(text_map(sh.vars@), argv.subrange(0, i as int)),
            shell.exported@ == remove_all(sh.exported@, argv.subrange(0, i as int)),
            shell.functions@ == remove_all(sh.functions@, argv.subrange(0, i as int)),
            shell.aliases == sh.aliases,
            shell.should_exit == sh.should_exit,
            shell.bg_jobs == sh.bg_jobs,
            others_same(*shell, sh),
        decreases args.len() - i,
    {
        proof {
            assert(argv.subrange(0, i + 1).drop_last() =~= argv.subrange(0, i as int));
            lemma_text_map_remove(shell.vars@, args@[i as int]@);
        }
        shell.vars.remove(args[i].as_str());
        shell.exported.remove(args[i].as_str());
        shell.functions.remove(args[i].as_str());
        i = i + 1;
    }
    assert(argv.subrange(0, args@.len() as int) =~= argv);
}

/// Appends the characters of `s` to `acc`.
fn push_text(acc: &mut Vec<char>, s: &str)
    ensures
        final(acc)@ == old(acc)@ + s@,
{
    let cs = chars_of(s);
    let ghost a0 = acc@;
    let mut i: usize = 0;
    while i < cs.len()
        invariant
            i <= cs@.len(),
            acc@ == a0 + cs@.subrange(0, i as int),
        decreases cs.len() - i,
    {
        acc.push(cs[i]);
        i = i + 1;
        assert(acc@ =~= a0 + cs@.subrange(0, i as int));
    }
    assert(cs@.subrange(0, cs@.len() as int) =~= cs@);
}

/// Appends the line `alias NAME='VALUE'`.
fn push_alias_line(acc: &mut Vec<char>, name: &str, value: &str)
    ensures
        final(acc)@ == old(acc)@ + alias_line(name@, value@),
{
    let ghost a0 = acc@;
    push_text(acc, "alias ");
    push_text(acc, name);
    push_text(acc, "='");
    push_text(acc, value);
    push_text(acc, "'\n");
    assert(acc@ =~= a0 + alias_line(name@, value@));
}

/// `alias ARGS...` with at least one argument: defines or prints each.
fn alias_args(aliases: &mut StrMap<String>, args: &[String]) -> (out: String)
    ensures
        text_map(final(aliases)@) == alias_spec(text_map(old(aliases)@), texts(args@)).0,
        out@ == alias_spec(text_map(old(aliases)@), texts(args@)).1,
{
    let ghost m0 = text_map(aliases@);
    let ghost argv = texts(args@);
    let mut acc: Vec<char> = Vec::new();
    let mut i: usize = 0;
    while i < args.len()
        invariant
            i <= args@.len(),
            argv == texts(args@),
            text_map(aliases@) == alias_spec(m0, argv.subrange(0, i as int)).0,
            acc@ == alias_spec(m0, argv.subrange(0, i as int)).1,
        decreases args.len() - i,
    {
        proof {
            assert(argv.subrange(0, i + 1).drop_last() =~= argv.subrange(0, i as int));
        }
        match split_once_eq(args[i].as_str()) {
            Some((k, v)) => {
                proof {
                    lemma_text_map_insert(aliases@, k@, v);
                }
                aliases.insert(k, v);
            },
            None => {
                match aliases.get(args[i].as_str()) {
                    Some(v) => {
                        push_alias_line(&mut acc, args[i].as_str(), v.as_str());
                    },
                    None => {},
                }
            },
        }
        i = i + 1;
    }
    assert(argv.subrange(0, args@.len() as int) =~= argv);
    string_from_chars(acc.as_slice())
}

/// The listing of all aliases, by name.
fn list_aliases(aliases: &StrMap<String>) -> (out: String)
    ensures
        exists|names: Seq<Seq<char>>|
            {
                &&& sorted_strictly(names)
                &&& forall|k: Seq<char>| #[trigger] names.contains(k) <==> aliases@.contains_key(k)
                &&& out@ == alias_lines(names, text_map(aliases@))
            },
{
    let names = sorted_keys(aliases);
    let ghost ns = texts(names@);
    let mut acc: Vec<char> = Vec::new();
    let mut i: usize = 0;
    while i < names.len()
        invariant
            i <= names@.len(),
            ns == texts(names@),
            forall|k: Seq<char>| aliases@.contains_key(k) <==> ns.contains(k),
            acc@ == alias_lines(ns.subrange(0, i as int), text_map(aliases@)),
        decreases names.len() - i,
    {
        assert(ns.contains(ns[i as int]));
        match aliases.get(names[i].as_str()) {
            Some(v) => {
                push_alias_line(&mut acc, names[i].as_str(), v.as_str());
            },
            None => {},
        }
        assert(ns.subrange(0, i + 1).drop_last() =~= ns.subrange(0, i as int));
        i = i + 1;
    }
    assert(ns.subrange(0, names@.len() as int) =~= ns);
    string_from_chars(acc.as_slice())
}

/// What `echo ARGS...` prints.
fn echo_output(args: &[String]) -> (out: String)
    ensures
        out@ == echo_text(texts(args@)),
{
    let ghost argv = texts(args@);
    if args.len() > 0 && str_eq(args[0].as_str(), "-n") {
        let mut rest: Vec<String> = Vec::new();
        let mut i: usize = 1;
        while i < args.len()
            invariant
                1 <= i <= args@.len(),
                argv == texts(args@),
                texts(rest@) == argv.subrange(1, i as int),
            decreases args.len() - i,
        {
            let ghost before = rest@;
            rest.push(args[i].clone());
            assert(rest@ =~= before.push(args@[i as int]));
            assert(texts(rest@) =~= texts(before).push(argv[i as int]));
            assert(argv.subrange(1, i + 1) =~= argv.subrange(1, i as int).push(argv[i as int]));
            i = i + 1;
        }
        assert(argv.subrange(1, args@.len() as int) =~= argv.drop_first());
        join_with_spaces(rest.as_slice())
    } else {
        let j = join_with_spaces(args);
        concat_str(j.as_str(), "\n")
    }
}

/// After `cd` has changed the directory: `PWD` is set to the new working
/// directory and exported.
pub fn finish_cd(shell: &mut Shell, cwd: String)
    ensures
        text_map(final(shell).vars@) == text_map(old(shell).vars@).insert("PWD"@, cwd@),
        final(shell).exported@.dom() == old(shell).exported@.dom().insert("PWD"@),
        final(shell).aliases == old(shell).aliases,
        final(shell).functions == old(shell).functions,
        final(shell).should_exit == old(shell).should_exit,
        final(shell).bg_jobs == old(shell).bg_jobs,
        others_same(*final(shell), *old(shell)),
{
    proof {
        lemma_text_map_insert(shell.vars@, "PWD"@, cwd);
    }
    shell.vars.insert("PWD".to_string(), cwd);
    shell.exported.insert("PWD".to_string(), ());
}

/// The variable `read` sets: its first argument, else `REPLY`.
pub open spec fn read_target(argv: Seq<Seq<char>>) -> Seq<char> {
    if argv.len() > 0 {
        argv[0]
    } else {
        "REPLY"@
    }
}

/// After `read` has read `line` (`None` at the end of the input): the
/// line without its trailing line feeds goes into the variable.
pub fn finish_read(shell: &mut Shell, args: &[String], line: Option<String>) -> (status: i32)
    ensures
        match line {
            None => status == 1 && final(shell).vars == old(shell).vars,
            Some(l) => status == 0 && text_map(final(shell).vars@) == text_map(old(shell).vars@).insert(
                read_target(texts(args@)),
                strip_trailing_newlines(l@),
            ),
        },
        final(shell).exported == old(shell).exported,
        final(shell).aliases == old(shell).aliases,
        final(shell).functions == old(shell).functions,
        final(shell).should_exit == old(shell).should_exit,
        final(shell).bg_jobs == old(shell).bg_jobs,
        others_same(*final(shell), *old(shell)),
{
    match line {
        None => 1,
        Some(l) => {
            let value = trim_trailing_newlines(l.as_str());
            let target = if args.len() > 0 {
                args[0].clone()
            } else {
                "REPLY".to_string()
            };
            proof {
                lemma_text_map_insert(shell.vars@, target@, value);
            }
            shell.vars.insert(target, value);
            0
        },
    }
}

/// `type NAME` has to search the directories of `PATH`: the name is no
/// alias, function or builtin.
pub open spec fn search_needed(sh: Shell, name: Seq<char>) -> bool {
    !sh.aliases@.contains_key(name) && !sh.functions@.contains_key(name) && !is_builtin_spec(name)
}

/// Whether `type NAME` has to search the directories of `PATH`.
pub fn needs_path_search(shell: &Shell, name: &str) -> (r: bool)
    ensures
        r == search_needed(*shell, name@),
{
    !shell.aliases.contains_key(name) && !shell.functions.contains_key(name) && !is_builtin(name)
}

/// The line `type` prints for `name`, given where the search of `PATH`
/// found it.
pub open spec fn type_line(sh: Shell, name: Seq<char>, found: Option<Seq<char>>) -> Seq<char> {
    if sh.aliases@.contains_key(name) {
        name + " is an alias for '"@ + text_map(sh.aliases@)[name] + "'\n"@
    } else if sh.functions@.contains_key(name) {
        name + " is a function\n"@
    } else if is_builtin_spec(name) {
        name + " is a shell builtin\n"@
    } else {
        match found {
            Some(p) => name + " is "@ + p + "\n"@,
            None => "xsh: type: "@ + name + ": not found\n"@,
        }
    }
}

/// The search result handed in for the `i`th name.
pub open spec fn found_at(found: Seq<Option<String>>, i: int) -> Option<Seq<char>> {
    if 0 <= i < found.len() {
        opt_text(found[i])
    } else {
        None
    }
}

/// What `type` prints for the first `n` names.
pub open spec fn type_output(sh: Shell, argv: Seq<Seq<char>>, found: Seq<Option<String>>, n: int) -> Seq<char>
    decreases n,
{
    if n <= 0 {
        Seq::empty()
    } else {
        type_output(sh, argv, found, n - 1) + type_line(sh, argv[n - 1], found_at(found, n - 1))
    }
}

/// `type` fails when some name is found nowhere.
pub open spec fn type_fails(sh: Shell, argv: Seq<Seq<char>>, found: Seq<Option<String>>) -> bool {
    exists|i: int| 0 <= i < argv.len() && search_needed(sh, #[trigger] argv[i]) && found_at(found, i) is None
}

/// `type NAMES...`: what it prints and its status, given for each name
/// where the search of `PATH` found it (`found[i]` for the `i`th name;
/// consulted only where `needs_path_search` holds).
pub fn type_report(shell: &Shell, args: &[String], found: &[Option<String>]) -> (r: (String, i32))
    ensures
        r.0@ == type_output(*shell, texts(args@), found@, args@.len() as int),
        r.1 == if type_fails(*shell, texts(args@), found@) { 1i32 } else { 0i32 },
{
    let ghost argv = texts(args@);
    let mut acc: Vec<char> = Vec::new();
    let mut status: i32 = 0;
    let mut i: usize = 0;
    while i < args.len()
        invariant
            i <= args@.len(),
            argv == texts(args@),
            acc@ == type_output(*shell, argv, found@, i as int),
            status == if exists|j: int| 0 <= j < i && search_needed(*shell, #[trigger] argv[j]) && found_at(found@, j) is None {
                1i32
            } else {
                0i32
            },
        decreases args.len() - i,
    {
        let a = args[i].as_str();
        let ghost before = acc@;
        if shell.aliases.contains_key(a) {
            match shell.aliases.get(a) {
                Some(v) => {
                    push_text(&mut acc, a);
                    push_text(&mut acc, " is an alias for '");
                    push_text(&mut acc, v.as_str());
                    push_text(&mut acc, "'\n");
                },
                None => {},
            }
        } else if shell.functions.contains_key(a) {
            push_text(&mut acc, a);
            push_text(&mut acc, " is a function\n");
        } else if is_builtin(a) {
            push_text(&mut acc, a);
            push_text(&mut acc, " is a shell builtin\n");
        } else {
            let f = if i < found.len() {
                match &found[i] {
                    Some(p) => Some(p.clone()),
                    None => None,
                }
            } else {
                None
            };
            match f {
                Some(p) => {
                    push_text(&mut acc, a);
                    push_text(&mut acc, " is ");
                    push_text(&mut acc, p.as_str());
                    push_text(&mut acc, "\n");
                },
                None => {
                    push_text(&mut acc, "xsh: type: ");
                    push_text(&mut acc, a);
                    push_text(&mut acc, ": not found\n");
                    status = 1;
                },
            }
        }
        assert(acc@ =~= before + type_line(*shell, argv[i as int], found_at(found@, i as int)));
        i = i + 1;
    }
    (string_from_chars(acc.as_slice()), status)
}

/// `Path::join` on Unix, for a directory and a file name: an absolute name
/// stands alone; otherwise a `/` comes between them unless the directory is
/// empty or ends with one.
pub open spec fn path_join(dir: Seq<char>, name: Seq<char>) -> Seq<char> {
    if name.len() > 0 && name[0] == '/' {
        name
    } else if dir.len() == 0 || dir.last() == '/' {
        dir + name
    } else {
        dir + seq!['/'] + name
    }
}

/// The pieces of `s` from index `start` on, split at each `:`
/// (`str::split(':')`: empty pieces included).
pub open spec fn split_colons_from(s: Seq<char>, start: int) -> Seq<Seq<char>>
    decreases s.len() - start,
{
    if start < 0 || start > s.len() {
        Seq::empty()
    } else {
        match first_index(s, start, ':') {
            Some(e) => if start <= e < s.len() {
                seq![s.subrange(start, e)] + split_colons_from(s, e + 1)
            } else {
                Seq::empty()
            },
            None => seq![s.subrange(start, s.len() as int)],
        }
    }
}

proof fn lemma_first_index_bounds(s: Seq<char>, i: int, c: char)
    ensures
        match first_index(s, i, c) {
            Some(e) => i <= e < s.len() && s[e] == c && 0 <= i,
            None => true,
        },
    decreases s.len() - i,
{
    if 0 <= i < s.len() && s[i] != c {
        lemma_first_index_bounds(s, i + 1, c);
    }
}

/// The files a search of `path` (a `PATH` value) looks at for `name`, in
/// order: `name` joined to each directory.
pub open spec fn path_candidates_spec(path: Seq<char>, name: Seq<char>) -> Seq<Seq<char>> {
    split_colons_from(path, 0).map_values(|d: Seq<char>| path_join(d, name))
}

/// The characters of `s` from `a` to `b`.
fn chars_between(s: &Vec<char>, a: usize, b: usize) -> (r: Vec<char>)
    requires
        a <= b <= s@.len(),
    ensures
        r@ == s@.subrange(a as int, b as int),
{
    let mut v: Vec<char> = Vec::new();
    let mut i: usize = a;
    while i < b
        invariant
            a <= i <= b <= s@.len(),
            v@ == s@.subrange(a as int, i as int),
        decreases b - i,
    {
        v.push(s[i]);
        i = i + 1;
        assert(v@ =~= s@.subrange(a as int, i as int));
    }
    v
}

/// `Path::new(dir).join(name)` as text.
fn join_path(dir: &Vec<char>, name: &Vec<char>) -> (r: String)
    ensures
        r@ == path_join(dir@, name@),
{
    let mut v: Vec<char> = Vec::new();
    if name.len() > 0 && name[0] == '/' {
        let mut i: usize = 0;
        while i < name.len()
            invariant
                i <= name@.len(),
                v@ == name@.subrange(0, i as int),
            decreases name.len() - i,
        {
            v.push(name[i]);
            i = i + 1;
            assert(v@ =~= name@.subrange(0, i as int));
        }
        assert(name@.subrange(0, name@.len() as int) =~= name@);
        return string_from_chars(v.as_slice());
    }
    let mut i: usize = 0;
    while i < dir.len()
        invariant
            i <= dir@.len(),
            v@ == dir@.subrange(0, i as int),
        decreases dir.len() - i,
    {
        v.push(dir[i]);
        i = i + 1;
        assert(v@ =~= dir@.subrange(0, i as int));
    }
    assert(dir@.subrange(0, dir@.len() as int) =~= dir@);
    if dir.len() > 0 && dir[dir.len() - 1] != '/' {
        v.push('/');
    }
    let ghost mid = v@;
    let mut j: usize = 0;
    while j < name.len()
        invariant
            j <= name@.len(),
            v@ == mid + name@.subrange(0, j as int),
        decreases name.len() - j,
    {
        v.push(name[j]);
        j = j + 1;
        assert(v@ =~= mid + name@.subrange(0, j as int));
    }
    assert(name@.subrange(0, name@.len() as int) =~= name@);
    string_from_chars(v.as_slice())
}

/// The files a search of `path` (a `PATH` value) looks at for `name`, in
/// order; the first that is a file is the command.
pub fn path_candidates(path: &str, name: &str) -> (r: Vec<String>)
    ensures
        texts(r@) == path_candidates_spec(path@, name@),
{
    let cs = chars_of(path);
    let nm = chars_of(name);
    let ghost s = cs@;
    let n = cs.len();
    let mut out: Vec<String> = Vec::new();
    let mut start: usize = 0;
    let mut i: usize = 0;
    proof {
        lemma_first_index_bounds(s, 0, ':');
    }
    while i < n
        invariant
            start <= i <= n,
            n == s.len(),
            s == cs@,
            s == path@,
            nm@ == name@,
            first_index(s, i as int, ':') == first_index(s, start as int, ':'),
            texts(out@) + split_colons_from(s, start as int).map_values(|d: Seq<char>| path_join(d, name@))
                == path_candidates_spec(path@, name@),
        decreases n - i,
    {
        if cs[i] == ':' {
            let piece = chars_between(&cs, start, i);
            let joined = join_path(&piece, &nm);
            let ghost rest = split_colons_from(s, i + 1).map_values(|d: Seq<char>| path_join(d, name@));
            let ghost before = out@;
            assert(split_colons_from(s, start as int) == seq![s.subrange(start as int, i as int)] + split_colons_from(s, i + 1));
            assert(split_colons_from(s, start as int).map_values(|d: Seq<char>| path_join(d, name@))
                =~= seq![path_join(s.subrange(start as int, i as int), name@)] + rest);
            out.push(joined);
            assert(texts(out@) =~= texts(before).push(path_join(s.subrange(start as int, i as int), name@)));
            start = i + 1;
            i = i + 1;
        } else {
            i = i + 1;
        }
    }
    let piece = chars_between(&cs, start, n);
    let joined = join_path(&piece, &nm);
    let ghost before = out@;
    assert(split_colons_from(s, start as int) == seq![s.subrange(start as int, n as int)]);
    out.push(joined);
    assert(texts(out@) =~= texts(before).push(path_join(s.subrange(start as int, n as int), name@)));
    assert(split_colons_from(s, start as int).map_values(|d: Seq<char>| path_join(d, name@))
        =~= seq![path_join(s.subrange(start as int, n as int), name@)]);
    out
}

proof fn lemma_first_eq_after(n: Seq<char>, rest: Seq<char>, i: int)
    requires
        0 <= i <= n.len(),
        !n.contains('='),
    ensures
        first_index(n + seq!['='] + rest, i, '=') == Some(n.len() as int),
    decreases n.len() - i,
{
    let s = n + seq!['='] + rest;
    if i < n.len() {
        assert(s[i] == n[i]);
        assert(n[i] != '=') by {
            if n[i] == '=' {
                assert(n.contains('='));
            }
        }
        lemma_first_eq_after(n, rest, i + 1);
    } else {
        assert(s[i] == '=');
    }
}

proof fn lemma_no_eq(n: Seq<char>, i: int)
    requires
        0 <= i <= n.len(),
        !n.contains('='),
    ensures
        first_index(n, i, '=') is None,
    decreases n.len() - i,
{
    if i < n.len() {
        assert(n[i] != '=') by {
            if n[i] == '=' {
                assert(n.contains('='));
            }
        }
        lemma_no_eq(n, i + 1);
    }
}

/// `NAME=VALUE`, for a name without `=`, splits into the name and the value.
pub proof fn split_of_assignment(name: Seq<char>, value: Seq<char>)
    requires
        !name.contains('='),
    ensures
        split_eq(name + seq!['='] + value) == Some((name, value)),
        split_eq(name) is None,
{
    let s = name + seq!['='] + value;
    lemma_first_eq_after(name, value, 0);
    lemma_no_eq(name, 0);
    assert(s.subrange(0, name.len() as int) =~= name);
    assert(s.subrange(name.len() as int + 1, s.len() as int) =~= value);
}

/// `export NAME=VALUE` sets the variable to the value and exports it.
pub proof fn export_sets_and_exports(
    vars: Map<Seq<char>, Seq<char>>,
    exported: Set<Seq<char>>,
    name: Seq<char>,
    value: Seq<char>,
)
    requires
        !name.contains('='),
    ensures
        export_spec(vars, exported, seq![name + seq!['='] + value]) == (vars.insert(name, value), exported.insert(name)),
{
    let args = seq![name + seq!['='] + value];
    split_of_assignment(name, value);
    assert(args.drop_last() =~= Seq::<Seq<char>>::empty());
    assert(args.last() == name + seq!['='] + value);
    reveal_with_fuel(export_spec, 2);
}

/// Defining an alias and then naming it prints the definition back.
pub proof fn alias_defined_then_printed(m: Map<Seq<char>, Seq<char>>, name: Seq<char>, value: Seq<char>)
    requires
        !name.contains('='),
    ensures
        alias_spec(m, seq![name + seq!['='] + value, name]) == (m.insert(name, value), alias_line(name, value)),
{
    let d = name + seq!['='] + value;
    let args = seq![d, name];
    split_of_assignment(name, value);
    assert(args.drop_last() =~= seq![d]);
    assert(args.drop_last().drop_last() =~= Seq::<Seq<char>>::empty());
    assert(args.last() == name);
    assert(args.drop_last().last() == d);
    reveal_with_fuel(alias_spec, 3);
    assert(Seq::<char>::empty() + alias_line(name, value) =~= alias_line(name, value));
}

/// `unset NAME` leaves no variable, exported name or function of that name.
pub proof fn unset_removes(sh: Shell, name: Seq<char>)
    ensures
        !builtin_vars(sh, "unset"@, seq![name]).contains_key(name),
        !builtin_exported(sh, "unset"@, seq![name]).contains(name),
{
    let args = seq![name];
    assert(args.drop_last() =~= Seq::<Seq<char>>::empty());
    reveal_strlit("unset");
    reveal_strlit("export");
    assert("unset"@[0] == 'u' && "export"@[0] == 'e');
    reveal_with_fuel(remove_all, 2);
}

/// The names of the builtins, told apart.
proof fn lemma_builtin_names()
    ensures
        "cd"@.len() == 2 && "pwd"@.len() == 3 && "exit"@.len() == 4 && "export"@.len() == 6,
        "unset"@.len() == 5 && "unalias"@.len() == 7 && "true"@.len() == 4 && ":"@.len() == 1,
        "alias"@.len() == 5 && "echo"@.len() == 4 && "source"@.len() == 6 && "."@.len() == 1,
        "wait"@.len() == 4 && "false"@.len() == 5,
        "echo"@ != "exit"@ && "echo"@ != "true"@,
        "true"@ != "exit"@,
        "false"@ != "unset"@ && "false"@ != "alias"@,
        "exit"@ != "-n"@,
{
    reveal_strlit("cd");
    reveal_strlit("pwd");
    reveal_strlit("exit");
    reveal_strlit("export");
    reveal_strlit("unset");
    reveal_strlit("unalias");
    reveal_strlit("true");
    reveal_strlit(":");
    reveal_strlit("alias");
    reveal_strlit("echo");
    reveal_strlit("source");
    reveal_strlit(".");
    reveal_strlit("wait");
    reveal_strlit("false");
    reveal_strlit("-n");
    assert("echo"@[1] != "exit"@[1] && "echo"@[0] != "true"@[0] && "true"@[0] != "exit"@[0]);
    assert("false"@[0] != "unset"@[0] && "false"@[0] != "alias"@[0]);
}

/// `true` and `:` succeed and `false` fails, printing nothing, whatever
/// their arguments.
pub proof fn status_builtins(sh: Shell, argv: Seq<Seq<char>>)
    ensures
        builtin_action(sh, "true"@, argv) == SpecAction::Done(0, Seq::empty(), Seq::empty()),
        builtin_action(sh, ":"@, argv) == SpecAction::Done(0, Seq::empty(), Seq::empty()),
        builtin_action(sh, "false"@, argv) == SpecAction::Done(1, Seq::empty(), Seq::empty()),
{
    lemma_builtin_names();
}

/// `echo A B` prints the two arguments with one space between them and a
/// line feed after; `echo -n A` prints `A` alone; `echo` prints a line
/// feed.
pub proof fn echo_prints_arguments(sh: Shell, a: Seq<char>, b: Seq<char>)
    requires
        a != "-n"@,
    ensures
        builtin_action(sh, "echo"@, seq![a, b]) == SpecAction::Done(0, a + seq![' '] + b + seq!['\n'], Seq::empty()),
        builtin_action(sh, "echo"@, seq!["-n"@, a]) == SpecAction::Done(0, a, Seq::empty()),
        builtin_action(sh, "echo"@, Seq::empty()) == SpecAction::Done(0, seq!['\n'], Seq::empty()),
{
    lemma_builtin_names();
    reveal_strlit("\n");
    let ab = seq![a, b];
    assert(ab.drop_last() =~= seq![a]);
    assert(join_spaces(seq![a]) == a);
    assert(join_spaces(ab) == a + seq![' '] + b);
    assert(seq!["-n"@, a].drop_first() =~= seq![a]);
    assert(Seq::<char>::empty() + "\n"@ =~= seq!['\n']);
    assert("\n"@ =~= seq!['\n']);
}

/// `exit N` ends the shell with status `N` when `N` is a number, and
/// `exit` alone with the last status.
pub proof fn exit_uses_its_argument(sh: Shell, t: Seq<char>)
    ensures
        parse_i32_spec(t) is Some ==> builtin_action(sh, "exit"@, seq![t]) == SpecAction::Done(
            parse_i32_spec(t)->0,
            Seq::empty(),
            Seq::empty(),
        ),
        builtin_action(sh, "exit"@, Seq::empty()) == SpecAction::Done(sh.last_status as int, Seq::empty(), Seq::empty()),
{
    lemma_builtin_names();
}

/// `cd DIR` changes to `DIR`; `cd` alone changes to the value of `HOME`,
/// and fails when `HOME` is not set.
pub proof fn cd_changes_to_argument_or_home(sh: Shell, d: Seq<char>)
    ensures
        builtin_action(sh, "cd"@, seq![d]) == SpecAction::ChangeDir(d),
        builtin_action(sh, "cd"@, Seq::empty()) == match sh.var_spec("HOME"@) {
            Some(h) => SpecAction::ChangeDir(h),
            None => SpecAction::Done(1, Seq::empty(), "xsh: cd: HOME not set\n"@),
        },
{
}

proof fn lemma_first_index_none(s: Seq<char>, i: int, c: char)
    requires
        0 <= i <= s.len(),
        forall|t: int| i <= t < s.len() ==> #[trigger] s[t] != c,
    ensures
        first_index(s, i, c) is None,
    decreases s.len() - i,
{
    if i < s.len() {
        lemma_first_index_none(s, i + 1, c);
    }
}

proof fn lemma_first_index_found(s: Seq<char>, i: int, e: int, c: char)
    requires
        0 <= i <= e < s.len(),
        forall|t: int| i <= t < e ==> #[trigger] s[t] != c,
        s[e] == c,
    ensures
        first_index(s, i, c) == Some(e),
    decreases e - i,
{
    if i < e {
        lemma_first_index_found(s, i + 1, e, c);
    }
}

/// A search of `PATH` looks in its directories in order: for `D1:D2` and
/// a relative name `N`, first `D1/N`, then `D2/N`.
pub proof fn path_search_order(d1: Seq<char>, d2: Seq<char>, n: Seq<char>)
    requires
        d1.len() > 0 && d1.last() != '/' && !d1.contains(':'),
        d2.len() > 0 && d2.last() != '/' && !d2.contains(':'),
        n.len() == 0 || n[0] != '/',
    ensures
        path_candidates_spec(d1 + seq![':'] + d2, n) == seq![d1 + seq!['/'] + n, d2 + seq!['/'] + n],
{
    let p = d1 + seq![':'] + d2;
    let k = d1.len() as int;
    assert forall|t: int| 0 <= t < k implies #[trigger] p[t] != ':' by {
        assert(p[t] == d1[t]);
        if p[t] == ':' {
            assert(d1.contains(':'));
        }
    }
    lemma_first_index_found(p, 0, k, ':');
    assert forall|t: int| k + 1 <= t < p.len() implies #[trigger] p[t] != ':' by {
        assert(p[t] == d2[t - k - 1]);
        if p[t] == ':' {
            assert(d2.contains(':'));
        }
    }
    lemma_first_index_none(p, k + 1, ':');
    assert(p.subrange(0, k) =~= d1);
    assert(p.subrange(k + 1, p.len() as int) =~= d2);
    assert(split_colons_from(p, k + 1) == seq![d2]);
    assert(split_colons_from(p, 0) =~= seq![d1, d2]);
    assert(path_candidates_spec(p, n) =~= seq![path_join(d1, n), path_join(d2, n)]);
}

} // verus!
