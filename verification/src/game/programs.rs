//! The programs as they are run against the session, one function for
//! each, and the registry of their names.

use crate::game::{output_models, Game, Output};
use crate::subprocess::{info_of, registered, Builtin, SubprocessInfo};
use crate::text::views;
use vstd::prelude::*;

verus! {

impl Game {
    /// Starts the program that is registered under `name`, wherever the
    /// active computer keeps its programs. There is no result where no
    /// program has that name, and nothing changes then.
    pub fn start_process(&mut self, name: &str, args: Vec<String>) -> (r: Option<Vec<Output>>)
        requires
            old(self).wf(),
        ensures
            final(self).wf(),
            match registered(name@) {
                Some(exe) => r is Some && final(self)@ == old(self)@.run(exe, views(args@)).0
                    && output_models(r->0@) == old(self)@.run(exe, views(args@)).1,
                None => r is None && final(self)@ == old(self)@,
            },
    {
        match Builtin::from_name(name) {
            Some(exe) => Some(self.run(exe, args)),
            None => None,
        }
    }
}

/// What a program offers: what it says about itself, and a run against the
/// session.
pub trait SubprocessFn {
    /// What the program says about itself.
    fn info(&self) -> SubprocessInfo;

    /// Runs the program with these arguments and returns what it shows.
    fn run(&self, g: &mut Game, args: Vec<String>) -> (r: Vec<Output>)
        requires
            old(g).wf(),
        ensures
            final(g).wf(),
    ;
}

impl SubprocessFn for Builtin {
    fn info(&self) -> (r: SubprocessInfo)
        ensures
            r@ == info_of(*self),
    {
        Builtin::info(self)
    }

    fn run(&self, g: &mut Game, args: Vec<String>) -> (r: Vec<Output>)
        ensures
            final(g)@ == old(g)@.run(*self, views(args@)).0,
            output_models(r@) == old(g)@.run(*self, views(args@)).1,
    {
        g.run(*self, args)
    }
}

/// Runs `ls`: lists the working directory, or the directory that the one
/// argument names.
pub fn ls(g: &mut Game, args: Vec<String>) -> (r: Vec<Output>)
    requires
        old(g).wf(),
    ensures
        final(g).wf(),
        final(g)@ == old(g)@.run(Builtin::Ls, views(args@)).0,
        output_models(r@) == old(g)@.run(Builtin::Ls, views(args@)).1,
{
    g.run(Builtin::Ls, args)
}

/// Runs `cd`: makes the directory that the one argument names the working
/// directory.
pub fn cd(g: &mut Game, args: Vec<String>) -> (r: Vec<Output>)
    requires
        old(g).wf(),
    ensures
        final(g).wf(),
        final(g)@ == old(g)@.run(Builtin::Cd, views(args@)).0,
        output_models(r@) == old(g)@.run(Builtin::Cd, views(args@)).1,
{
    g.run(Builtin::Cd, args)
}

/// Runs `cat`: shows the files that the arguments name.
pub fn cat(g: &mut Game, args: Vec<String>) -> (r: Vec<Output>)
    requires
        old(g).wf(),
    ensures
        final(g).wf(),
        final(g)@ == old(g)@.run(Builtin::Cat, views(args@)).0,
        output_models(r@) == old(g)@.run(Builtin::Cat, views(args@)).1,
{
    g.run(Builtin::Cat, args)
}

/// Runs the shell: it becomes the innermost running program and waits for
/// command lines.
pub fn cmd(g: &mut Game, args: Vec<String>) -> (r: Vec<Output>)
    requires
        old(g).wf(),
    ensures
        final(g).wf(),
        final(g)@ == old(g)@.run(Builtin::Cmd, views(args@)).0,
        output_models(r@) == old(g)@.run(Builtin::Cmd, views(args@)).1,
{
    g.run(Builtin::Cmd, args)
}

/// Runs `logout`: marks the session of the active computer to end.
pub fn logout(g: &mut Game, args: Vec<String>) -> (r: Vec<Output>)
    requires
        old(g).wf(),
    ensures
        final(g).wf(),
        final(g)@ == old(g)@.run(Builtin::Logout, views(args@)).0,
        output_models(r@) == old(g)@.run(Builtin::Logout, views(args@)).1,
{
    g.run(Builtin::Logout, args)
}

/// Runs `ssh`: begins a login on the computer whose address is the one
/// argument.
pub fn ssh(g: &mut Game, args: Vec<String>) -> (r: Vec<Output>)
    requires
        old(g).wf(),
    ensures
        final(g).wf(),
        final(g)@ == old(g)@.run(Builtin::Ssh, views(args@)).0,
        output_models(r@) == old(g)@.run(Builtin::Ssh, views(args@)).1,
{
    g.run(Builtin::Ssh, args)
}

/// Runs `help`: describes the program that the one argument names, or
/// lists all programs.
pub fn help(g: &mut Game, args: Vec<String>) -> (r: Vec<Output>)
    requires
        old(g).wf(),
    ensures
        final(g).wf(),
        final(g)@ == old(g)@.run(Builtin::Help, views(args@)).0,
        output_models(r@) == old(g)@.run(Builtin::Help, views(args@)).1,
{
    g.run(Builtin::Help, args)
}

/// Runs `which`: tells where the program is found that the one argument
/// names.
pub fn which(g: &mut Game, args: Vec<String>) -> (r: Vec<Output>)
    requires
        old(g).wf(),
    ensures
        final(g).wf(),
        final(g)@ == old(g)@.run(Builtin::Which, views(args@)).0,
        output_models(r@) == old(g)@.run(Builtin::Which, views(args@)).1,
{
    g.run(Builtin::Which, args)
}

/// Runs `clear`: asks for the screen to be cleared and changes nothing.
pub fn clear(g: &mut Game, args: Vec<String>) -> (r: Vec<Output>)
    requires
        old(g).wf(),
    ensures
        final(g).wf(),
        final(g)@ == old(g)@,
        output_models(r@) == seq![crate::game::OutputModel::Clear],
{
    g.run(Builtin::Clear, args)
}

} // verus!
