//! The shell's state: variables, exported names, aliases, functions, status.

use vstd::prelude::*;
use crate::ast::Node;
use crate::strmap::{text_map, StrMap};
use crate::text::{opt_text, i64_to_string, int_to_dec, nat_to_dec, str_eq, u64_to_dec, string_from_chars};

verus! {

broadcast use vstd::string::group_string_axioms;

/// The state of a running shell.
pub struct Shell {
    pub vars: StrMap<String>,
    /// The names of the variables that are passed to child processes.
    pub exported: StrMap<()>,
    pub aliases: StrMap<String>,
    pub functions: StrMap<Vec<Node>>,
    pub last_status: i32,
    pub shell_name: String,
    /// Set when the shell should exit, with the exit status.
    pub should_exit: Option<i32>,
    /// Process ids of the background jobs not waited for yet.
    pub bg_jobs: Vec<i32>,
    /// `set -e`: exit when a command fails.
    pub errexit: bool,
    /// `set -x`: print commands before running them.
    pub xtrace: bool,
    /// For each function call in progress, the variables it made local and
    /// their values before the call (`None` when unset).
    pub local_stack: Vec<Vec<(String, Option<String>)>>,
    /// The command to run when the shell exits.
    pub trap_exit: Option<String>,
    pub readonly: StrMap<()>,
    /// The shell's process id, the value of `$$`.
    pub pid: u32,
}

/// The variables a shell starts with: those of its environment (later
/// entries win), `PWD` from the working directory when the environment
/// has none, and a default prompt `PS1`.
pub open spec fn initial_vars(env: Seq<(String, String)>, cwd: Option<Seq<char>>) -> Map<Seq<char>, Seq<char>> {
    let m0 = env_map(env);
    let m1 = if !m0.contains_key("PWD"@) && cwd is Some { m0.insert("PWD"@, cwd->0) } else { m0 };
    if !m1.contains_key("PS1"@) { m1.insert("PS1"@, "xsh:$PWD$ "@) } else { m1 }
}

/// The exported names a shell starts with: those of its environment, and
/// `PWD` when it was taken from the working directory.
pub open spec fn initial_exported(env: Seq<(String, String)>, cwd: Option<Seq<char>>) -> Set<Seq<char>> {
    let m0 = env_map(env);
    if !m0.contains_key("PWD"@) && cwd is Some {
        m0.dom().insert("PWD"@)
    } else {
        m0.dom()
    }
}

/// The map of name/value pairs, later pairs winning.
pub open spec fn env_map(env: Seq<(String, String)>) -> Map<Seq<char>, Seq<char>>
    decreases env.len(),
{
    if env.len() == 0 {
        Map::empty()
    } else {
        env_map(env.drop_last()).insert(env.last().0@, env.last().1@)
    }
}

/// The environment of a child process: each exported variable that is set,
/// with its value, once.
pub open spec fn child_env(sh: Shell, r: Seq<(String, String)>) -> bool {
    &&& forall|i: int|
        0 <= i < r.len() ==> {
            let k = (#[trigger] r[i]).0@;
            &&& sh.exported@.contains_key(k)
            &&& sh.vars@.contains_key(k)
            &&& sh.vars@[k]@ == r[i].1@
        }
    &&& forall|k: Seq<char>|
        sh.exported@.contains_key(k) && sh.vars@.contains_key(k) ==> exists|i: int|
            0 <= i < r.len() && (#[trigger] r[i]).0@ == k
    &&& forall|i: int, j: int| 0 <= i < j < r.len() ==> (#[trigger] r[i]).0@ != (#[trigger] r[j]).0@
}

impl Shell {
    /// The value of a variable as the shell expands it: `$?` is the last
    /// status, `$$` the process id, `$0` the shell's name, and any other
    /// name is looked up among the variables.
    pub open spec fn var_spec(&self, name: Seq<char>) -> Option<Seq<char>> {
        if name == "?"@ {
            Some(int_to_dec(self.last_status as int))
        } else if name == "$"@ {
            Some(nat_to_dec(self.pid as nat))
        } else if name == "0"@ {
            Some(self.shell_name@)
        } else if text_map(self.vars@).contains_key(name) {
            Some(text_map(self.vars@)[name])
        } else {
            None
        }
    }

    /// A fresh shell, from its environment, working directory and process id.
    pub fn new(env: Vec<(String, String)>, cwd: Option<String>, pid: u32) -> (sh: Shell)
        ensures
            text_map(sh.vars@) == initial_vars(env@, opt_text(cwd)),
            sh.exported@.dom() == initial_exported(env@, opt_text(cwd)),
            sh.aliases@ == Map::<Seq<char>, String>::empty(),
            sh.functions@ == Map::<Seq<char>, Vec<Node>>::empty(),
            sh.last_status == 0,
            sh.shell_name@ == "xsh"@,
            sh.should_exit is None,
            sh.bg_jobs@.len() == 0,
            !sh.errexit,
            !sh.xtrace,
            sh.local_stack@.len() == 0,
            sh.trap_exit is None,
            sh.readonly@ == Map::<Seq<char>, ()>::empty(),
            sh.pid == pid,
    {
        let mut vars: StrMap<String> = StrMap::new();
        let mut exported: StrMap<()> = StrMap::new();
        let mut i: usize = 0;
        while i < env.len()
            invariant
                i <= env@.len(),
                text_map(vars@) == env_map(env@.subrange(0, i as int)),
                exported@.dom() == env_map(env@.subrange(0, i as int)).dom(),
            decreases env.len() - i,
        {
            let k = env[i].0.clone();
            let v = env[i].1.clone();
            let k2 = env[i].0.clone();
            exported.insert(k, ());
            vars.insert(k2, v);
            assert(env@.subrange(0, i + 1).drop_last() =~= env@.subrange(0, i as int));
            i = i + 1;
            assert(text_map(vars@) =~= env_map(env@.subrange(0, i as int)));
            assert(exported@.dom() =~= env_map(env@.subrange(0, i as int)).dom());
        }
        assert(env@.subrange(0, env@.len() as int) =~= env@);
        let ghost c = opt_text(cwd);
        if !vars.contains_key("PWD") {
            match cwd {
                Some(d) => {
                    vars.insert("PWD".to_string(), d);
                    exported.insert("PWD".to_string(), ());
                },
                None => {},
            }
        }
        if !vars.contains_key("PS1") {
            vars.insert("PS1".to_string(), "xsh:$PWD$ ".to_string());
        }
        assert(text_map(vars@) =~= initial_vars(env@, c));
        assert(exported@.dom() =~= initial_exported(env@, c));
        Shell {
            vars,
            exported,
            aliases: StrMap::new(),
            functions: StrMap::new(),
            last_status: 0,
            shell_name: "xsh".to_string(),
            should_exit: None,
            bg_jobs: Vec::new(),
            errexit: false,
            xtrace: false,
            local_stack: Vec::new(),
            trap_exit: None,
            readonly: StrMap::new(),
            pid,
        }
    }

    /// The exported variables that are set, with their values: each once.
    pub fn env_for_child(&self) -> (r: Vec<(String, String)>)
        ensures
            child_env(*self, r@),
    {
        let keys = self.exported.keys();
        let mut r: Vec<(String, String)> = Vec::new();
        let mut i: usize = 0;
        while i < keys.len()
            invariant
                i <= keys@.len(),
                forall|a: int, b: int| 0 <= a < b < keys@.len() ==> (#[trigger] keys@[a])@ != (#[trigger] keys@[b])@,
                forall|k: Seq<char>|
                    self.exported@.contains_key(k) <==> exists|a: int| 0 <= a < keys@.len() && (#[trigger] keys@[a])@ == k,
                forall|a: int|
                    0 <= a < r@.len() ==> {
                        let k = (#[trigger] r@[a]).0@;
                        &&& self.exported@.contains_key(k)
                        &&& self.vars@.contains_key(k)
                        &&& self.vars@[k]@ == r@[a].1@
                    },
                forall|a: int|
                    0 <= a < r@.len() ==> exists|b: int| 0 <= b < i && (#[trigger] keys@[b])@ == (#[trigger] r@[a]).0@,
                forall|b: int|
                    0 <= b < i && self.vars@.contains_key((#[trigger] keys@[b])@) ==> exists|a: int|
                        0 <= a < r@.len() && (#[trigger] r@[a]).0@ == keys@[b]@,
                forall|a: int, c: int| 0 <= a < c < r@.len() ==> (#[trigger] r@[a]).0@ != (#[trigger] r@[c]).0@,
            decreases keys.len() - i,
        {
            let k = &keys[i];
            assert(self.exported@.contains_key(k@));
            match self.vars.get(k.as_str()) {
                Some(v) => {
                    let ghost before = r@;
                    r.push((k.clone(), v.clone()));
                    assert forall|a: int| 0 <= a < r@.len() implies exists|b: int| 0 <= b < i + 1 && (#[trigger] keys@[b])@ == (#[trigger] r@[a]).0@ by {
                        if a < before.len() {
                            assert(r@[a] == before[a]);
                        } else {
                            assert(keys@[i as int]@ == r@[a].0@);
                        }
                    }
                    assert forall|a: int, c: int| 0 <= a < c < r@.len() implies (#[trigger] r@[a]).0@ != (#[trigger] r@[c]).0@ by {
                        if c == before.len() {
                            assert(r@[a] == before[a]);
                            let b = choose|b: int| 0 <= b < i && (#[trigger] keys@[b])@ == before[a].0@;
                            assert(keys@[b]@ != keys@[i as int]@);
                        } else {
                            assert(r@[a] == before[a] && r@[c] == before[c]);
                        }
                    }
                    assert forall|b: int| 0 <= b < i + 1 && self.vars@.contains_key((#[trigger] keys@[b])@) implies exists|a: int|
                        0 <= a < r@.len() && (#[trigger] r@[a]).0@ == keys@[b]@ by {
                        if b < i {
                            let a = choose|a: int| 0 <= a < before.len() && (#[trigger] before[a]).0@ == keys@[b]@;
                            assert(r@[a] == before[a]);
                        } else {
                            assert(r@[before.len() as int].0@ == keys@[b]@);
                        }
                    }
                },
                None => {},
            }
            i = i + 1;
        }
        assert forall|k: Seq<char>|
            self.exported@.contains_key(k) && self.vars@.contains_key(k) implies exists|i: int|
                0 <= i < r@.len() && (#[trigger] r@[i]).0@ == k by {
            let b = choose|b: int| 0 <= b < keys@.len() && (#[trigger] keys@[b])@ == k;
            assert(self.vars@.contains_key(keys@[b]@));
        }
        r
    }

    /// The value of a variable; see `var_spec`.
    pub fn get_var(&self, name: &str) -> (r: Option<String>)
        ensures
            match r {
                Some(v) => self.var_spec(name@) == Some(v@),
                None => self.var_spec(name@) is None,
            },
    {
        if str_eq(name, "?") {
            Some(i64_to_string(self.last_status as i64))
        } else if str_eq(name, "$") {
            let d = u64_to_dec(self.pid as u64);
            Some(string_from_chars(d.as_slice()))
        } else if str_eq(name, "0") {
            Some(self.shell_name.clone())
        } else {
            match self.vars.get(name) {
                Some(v) => Some(v.clone()),
                None => None,
            }
        }
    }
}

} // verus!
