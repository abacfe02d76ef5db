//! A hook: an external command a setting or profile runs after its files
//! are written.  The library only carries the command's description; running
//! it is the caller's business.

use vstd::prelude::*;

verus! {

/// Mathematical model of a hook command.
pub struct HookModel {
    pub cmd: Seq<char>,
    pub cwd: Option<Seq<char>>,
    pub args: Seq<Seq<char>>,
    pub env: Seq<(Seq<char>, Option<Seq<char>>)>,
}

/// An external command: the program, an optional working directory, its
/// arguments, and environment overrides (`None` unsets a variable).
#[derive(Debug)]
pub struct Hook {
    cmd: String,
    cwd: Option<String>,
    args: Vec<String>,
    env: Vec<(String, Option<String>)>,
}

impl View for Hook {
    type V = HookModel;

    closed spec fn view(&self) -> HookModel {
        HookModel {
            cmd: self.cmd@,
            cwd: self.cwd.deep_view(),
            args: self.args.deep_view(),
            env: self.env.deep_view(),
        }
    }
}

/// The models of a sequence of hooks.
pub open spec fn view_hooks(hooks: Seq<Hook>) -> Seq<HookModel> {
    Seq::new(hooks.len(), |i: int| hooks[i]@)
}

impl Hook {
    /// Builds a hook from its parts.
    pub fn new(
        cmd: String,
        cwd: Option<String>,
        args: Vec<String>,
        env: Vec<(String, Option<String>)>,
    ) -> (r: Hook)
        ensures
            r@ == (HookModel {
                cmd: cmd@,
                cwd: cwd.deep_view(),
                args: args.deep_view(),
                env: env.deep_view(),
            }),
    {
        Hook { cmd, cwd, args, env }
    }

    /// The program to run.
    pub fn cmd(&self) -> (r: &String)
        ensures
            r@ == self@.cmd,
    {
        &self.cmd
    }

    /// The working directory, if one is set.
    pub fn cwd(&self) -> (r: &Option<String>)
        ensures
            r.deep_view() == self@.cwd,
    {
        &self.cwd
    }

    /// The arguments.
    pub fn args(&self) -> (r: &Vec<String>)
        ensures
            r.deep_view() == self@.args,
    {
        &self.args
    }

    /// The environment overrides.
    pub fn env(&self) -> (r: &Vec<(String, Option<String>)>)
        ensures
            r.deep_view() == self@.env,
    {
        &self.env
    }

    /// An owned copy of this hook.
    pub fn dup(&self) -> (r: Hook)
        ensures
            r@ == self@,
    {
        let mut args: Vec<String> = Vec::new();
        let mut i: usize = 0;
        while i < self.args.len()
            invariant
                i <= self.args.len(),
                args@.len() == i,
                args.deep_view() == self.args.deep_view().take(i as int),
            decreases self.args.len() - i,
        {
            args.push(self.args[i].clone());
            proof {
                assert(args.deep_view() =~~= self.args.deep_view().take(i + 1 as int));
            }
            i = i + 1;
        }
        proof {
            assert(args.deep_view() =~~= self.args.deep_view());
        }
        let mut env: Vec<(String, Option<String>)> = Vec::new();
        let mut j: usize = 0;
        while j < self.env.len()
            invariant
                j <= self.env.len(),
                env@.len() == j,
                env.deep_view() == self.env.deep_view().take(j as int),
            decreases self.env.len() - j,
        {
            let value = match &self.env[j].1 {
                Some(s) => Some(s.clone()),
                None => None,
            };
            env.push((self.env[j].0.clone(), value));
            proof {
                assert(env.deep_view() =~~= self.env.deep_view().take(j + 1 as int));
            }
            j = j + 1;
        }
        proof {
            assert(env.deep_view() =~~= self.env.deep_view());
        }
        let cwd = match &self.cwd {
            Some(s) => Some(s.clone()),
            None => None,
        };
        let r = Hook { cmd: self.cmd.clone(), cwd, args, env };
        proof {
            assert(r@.cwd =~~= self@.cwd);
        }
        r
    }
}

/// Owned copies of a vector of hooks.
pub fn dup_hooks(hooks: &Vec<Hook>) -> (r: Vec<Hook>)
    ensures
        view_hooks(r@) == view_hooks(hooks@),
{
    let mut out: Vec<Hook> = Vec::new();
    let mut i: usize = 0;
    while i < hooks.len()
        invariant
            i <= hooks.len(),
            out@.len() == i,
            forall|j: int| 0 <= j < i ==> out@[j]@ == hooks@[j]@,
        decreases hooks.len() - i,
    {
        out.push(hooks[i].dup());
        i = i + 1;
    }
    proof {
        assert(view_hooks(out@) =~~= view_hooks(hooks@));
    }
    out
}

} // verus!
