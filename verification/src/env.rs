//! Environments: an arena of frames. Each frame binds names to values and
//! may have a parent frame; a closure keeps the index of the frame it was
//! created in, so frames are shared the way the closures that capture them are.
//! The environment also collects the text that `display` and `newline` write.

use vstd::prelude::*;
use crate::error::Error;
use crate::value::{SValue, Value};

verus! {

/// The model of a frame: its bindings, in the order they were made, and the
/// index of its parent frame.
pub struct SFrame {
    pub vars: Seq<(Seq<char>, SValue)>,
    pub parent: Option<nat>,
}

/// The model of an environment: the frames by index, and the output written so far.
pub struct SEnv {
    pub frames: Seq<SFrame>,
    pub output: Seq<char>,
}

struct Frame {
    vars: Vec<(String, Value)>,
    parent: Option<usize>,
}

/// The frames of an interpreter, and the text its programs have written.
pub struct Env {
    frames: Vec<Frame>,
    output: Vec<char>,
}

impl View for Frame {
    type V = SFrame;

    closed spec fn view(&self) -> SFrame {
        SFrame {
            vars: Seq::new(self.vars.len() as nat, |i: int| (self.vars[i].0@, self.vars[i].1@)),
            parent: match self.parent {
                Some(p) => Some(p as nat),
                None => None,
            },
        }
    }
}

impl View for Env {
    type V = SEnv;

    closed spec fn view(&self) -> SEnv {
        SEnv { frames: Seq::new(self.frames.len() as nat, |i: int| self.frames[i]@), output: self.output@ }
    }
}

// ---------------------------------------------------------------- model

/// The first index at or after `i` at which `vars` binds `name`.
pub open spec fn find_from(vars: Seq<(Seq<char>, SValue)>, name: Seq<char>, i: nat) -> Option<nat>
    decreases vars.len() - i,
{
    if i >= vars.len() {
        None
    } else if vars[i as int].0 == name {
        Some(i)
    } else {
        find_from(vars, name, i + 1)
    }
}

/// The index at which `vars` binds `name`, if it does.
pub open spec fn find(vars: Seq<(Seq<char>, SValue)>, name: Seq<char>) -> Option<nat> {
    find_from(vars, name, 0)
}

/// The value of `name` seen from frame `f`: its binding in `f`, else in `f`'s
/// parent, and so on up the chain (a parent always has a smaller index).
pub open spec fn lookup(env: SEnv, f: nat, name: Seq<char>) -> Option<SValue>
    decreases f,
{
    if f >= env.frames.len() {
        None
    } else {
        let fr = env.frames[f as int];
        match find(fr.vars, name) {
            Some(i) => Some(fr.vars[i as int].1),
            None => match fr.parent {
                Some(p) => if p < f { lookup(env, p, name) } else { None },
                None => None,
            },
        }
    }
}

/// `vars` with `name` bound to `val`: the existing binding replaced, or a new
/// one added at the end.
pub open spec fn bind(vars: Seq<(Seq<char>, SValue)>, name: Seq<char>, val: SValue) -> Seq<(Seq<char>, SValue)> {
    match find(vars, name) {
        Some(i) => vars.update(i as int, (name, val)),
        None => vars.push((name, val)),
    }
}

/// `env` after binding `name` to `val` in frame `f` (no change if there is no frame `f`).
pub open spec fn define(env: SEnv, f: nat, name: Seq<char>, val: SValue) -> SEnv {
    if f < env.frames.len() {
        let fr = env.frames[f as int];
        SEnv {
            frames: env.frames.update(f as int, SFrame { vars: bind(fr.vars, name, val), parent: fr.parent }),
            output: env.output,
        }
    } else {
        env
    }
}

/// `env` after assigning `val` to the nearest binding of `name` seen from
/// frame `f`; `None` when no frame of the chain binds it.
pub open spec fn set_var(env: SEnv, f: nat, name: Seq<char>, val: SValue) -> Option<SEnv>
    decreases f,
{
    if f >= env.frames.len() {
        None
    } else {
        let fr = env.frames[f as int];
        match find(fr.vars, name) {
            Some(i) => Some(define(env, f, name, val)),
            None => match fr.parent {
                Some(p) => if p < f { set_var(env, p, name, val) } else { None },
                None => None,
            },
        }
    }
}

/// `env` with a new, empty frame whose parent is `parent`; its index is the
/// old number of frames.
pub open spec fn new_frame(env: SEnv, parent: nat) -> SEnv {
    SEnv { frames: env.frames.push(SFrame { vars: seq![], parent: Some(parent) }), output: env.output }
}

/// `env` with `text` appended to its output.
pub open spec fn emit(env: SEnv, text: Seq<char>) -> SEnv {
    SEnv { frames: env.frames, output: env.output + text }
}

/// An environment with a single, empty frame (index 0) and no output.
pub open spec fn empty_env() -> SEnv {
    SEnv { frames: seq![SFrame { vars: seq![], parent: None }], output: seq![] }
}

// ---------------------------------------------------------------- exec

fn find_exec(vars: &Vec<(String, Value)>, name: &String) -> (r: Option<usize>)
    ensures
        r matches Some(i) ==> i < vars.len(),
        match r {
            Some(i) => find(Seq::new(vars.len() as nat, |k: int| (vars[k].0@, vars[k].1@)), name@) == Some(i as nat),
            None => find(Seq::new(vars.len() as nat, |k: int| (vars[k].0@, vars[k].1@)), name@) == None::<nat>,
        },
{
    let ghost sv = Seq::new(vars.len() as nat, |k: int| (vars[k].0@, vars[k].1@));
    let mut i: usize = 0;
    while i < vars.len()
        invariant
            i <= vars.len(),
            sv == Seq::new(vars.len() as nat, |k: int| (vars[k].0@, vars[k].1@)),
            find(sv, name@) == find_from(sv, name@, i as nat),
        decreases vars.len() - i,
    {
        if vars[i].0 == *name {
            return Some(i);
        }
        i = i + 1;
    }
    None
}

impl Env {
    /// An environment with one empty frame, index 0, and no output.
    pub fn new() -> (r: Env)
        ensures
            r@ == empty_env(),
    {
        let mut frames: Vec<Frame> = Vec::new();
        let fr = Frame { vars: Vec::new(), parent: None };
        assert(fr@.vars =~= seq![]);
        frames.push(fr);
        let r = Env { frames, output: Vec::new() };
        assert(r@.frames =~= empty_env().frames);
        assert(r@.output =~= seq![]);
        r
    }

    /// The number of frames.
    pub fn frame_count(&self) -> (r: usize)
        ensures
            r == self@.frames.len(),
    {
        self.frames.len()
    }

    /// Adds an empty frame whose parent is `parent` and returns its index.
    pub fn with_parent(&mut self, parent: usize) -> (r: usize)
        ensures
            r == old(self)@.frames.len(),
            final(self)@ == new_frame(old(self)@, parent as nat),
    {
        let r = self.frames.len();
        let fr = Frame { vars: Vec::new(), parent: Some(parent) };
        assert(fr@.vars =~= seq![]);
        self.frames.push(fr);
        assert(self@.frames =~= new_frame(old(self)@, parent as nat).frames);
        r
    }

    /// Binds `name` to `val` in frame `frame`, replacing an existing binding
    /// of that name in that frame (nothing happens if there is no such frame).
    pub fn define(&mut self, frame: usize, name: String, val: Value)
        ensures
            final(self)@ == define(old(self)@, frame as nat, name@, val@),
    {
        if frame >= self.frames.len() {
            return;
        }
        let ghost old_vars = self.frames[frame as int]@.vars;
        let found = find_exec(&self.frames[frame].vars, &name);
        let ghost nv = name@;
        let ghost vv = val@;
        match found {
            Some(i) => {
                self.frames[frame].vars[i] = (name, val);
            },
            None => {
                self.frames[frame].vars.push((name, val));
            },
        }
        proof {
            let nf = self.frames[frame as int]@;
            assert(nf.vars =~= bind(old_vars, nv, vv));
            assert(self@.frames =~= define(old(self)@, frame as nat, nv, vv).frames);
        }
    }

    /// The value of `name` seen from frame `frame`.
    pub fn lookup(&self, frame: usize, name: &String) -> (r: Result<Value, Error>)
        ensures
            match lookup(self@, frame as nat, name@) {
                Some(v) => r matches Ok(x) && x@ == v,
                None => r == Err::<Value, Error>(Error::UndefinedVariable(*name)),
            },
    {
        let mut cur = frame;
        loop
            invariant
                lookup(self@, frame as nat, name@) == lookup(self@, cur as nat, name@),
            decreases cur,
        {
            if cur >= self.frames.len() {
                return Err(Error::UndefinedVariable(name.clone()));
            }
            let fr = &self.frames[cur];
            match find_exec(&fr.vars, name) {
                Some(i) => {
                    return Ok(fr.vars[i].1.copy());
                },
                None => match fr.parent {
                    Some(p) => {
                        if p < cur {
                            cur = p;
                        } else {
                            return Err(Error::UndefinedVariable(name.clone()));
                        }
                    },
                    None => {
                        return Err(Error::UndefinedVariable(name.clone()));
                    },
                },
            }
        }
    }

    /// Assigns `val` to the nearest binding of `name` seen from frame `frame`.
    pub fn set_in_env(&mut self, frame: usize, name: &String, val: Value) -> (r: Result<(), Error>)
        ensures
            match set_var(old(self)@, frame as nat, name@, val@) {
                Some(e) => r is Ok && final(self)@ == e,
                None => r == Err::<(), Error>(Error::SetUndefined(*name)) && final(self)@ == old(self)@,
            },
    {
        let mut cur = frame;
        loop
            invariant
                self@ == old(self)@,
                set_var(self@, frame as nat, name@, val@) == set_var(self@, cur as nat, name@, val@),
            decreases cur,
        {
            if cur >= self.frames.len() {
                return Err(Error::SetUndefined(name.clone()));
            }
            match find_exec(&self.frames[cur].vars, name) {
                Some(_) => {
                    self.define(cur, name.clone(), val);
                    return Ok(());
                },
                None => match self.frames[cur].parent {
                    Some(p) => {
                        if p < cur {
                            cur = p;
                        } else {
                            return Err(Error::SetUndefined(name.clone()));
                        }
                    },
                    None => {
                        return Err(Error::SetUndefined(name.clone()));
                    },
                },
            }
        }
    }

    /// Appends `text` to the output.
    pub fn write_output(&mut self, text: &[char])
        ensures
            final(self)@ == emit(old(self)@, text@),
    {
        crate::text::push_chars(&mut self.output, text);
    }

    /// The output written so far; the output is emptied.
    pub fn take_output(&mut self) -> (r: String)
        ensures
            r@ == old(self)@.output,
            final(self)@ == (SEnv { frames: old(self)@.frames, output: seq![] }),
    {
        let r = crate::text::string_of(self.output.as_slice());
        self.output = Vec::new();
        assert(self@.output =~= seq![]);
        assert(self@.frames =~= old(self)@.frames);
        r
    }
}

} // verus!
