use vstd::prelude::*;
use crate::ir::{CaptureFrom, CaptureRef, LocalRef, ParamRef};
use crate::ir::lexical_scope::names::{first_index_of, lemma_first_index_of};

verus! {

/// A function/closure scope - it has locals and can reference variables from parent scopes by
/// capturing them.
pub struct StackFrame {
    /// The captured values from parent scopes
    pub captures: Vec<Capture>,
    /// Parameters
    pub params: Vec<Param>,
    /// The local stack frame slots
    pub locals: Vec<StackFrameLocal>,
}

#[derive(Debug)]
pub struct Capture {
    /// The name it's referenced by
    pub name: String,
    /// The local to capture from the parent stack frame
    pub from: CaptureFrom,
    pub comptime: bool,
}

#[derive(Debug)]
pub struct Param {
    /// The name it's referenced by
    pub name: String,
    /// Is this a comptime param?
    pub comptime: bool,
}

#[derive(Debug, Clone, Copy, PartialEq, Eq, Structural)]
pub struct StackFrameLocal {
    pub comptime: bool,
}

/// A name found among the parameters or the captures of a stack frame.
#[derive(Debug, Clone, Copy, PartialEq, Eq, Structural)]
pub enum ParamOrCapture {
    Param(ParamRef),
    Capture(CaptureRef),
}

/// The content of a [`Capture`].
pub struct CaptureV {
    pub name: Seq<char>,
    pub from: CaptureFrom,
    pub comptime: bool,
}

/// The content of a [`Param`].
pub struct ParamV {
    pub name: Seq<char>,
    pub comptime: bool,
}

/// The content of a [`StackFrame`].
pub struct StackFrameV {
    pub captures: Seq<CaptureV>,
    pub params: Seq<ParamV>,
    pub locals: Seq<StackFrameLocal>,
}

impl View for Capture {
    type V = CaptureV;

    open spec fn view(&self) -> CaptureV {
        CaptureV { name: self.name@, from: self.from, comptime: self.comptime }
    }
}

impl View for Param {
    type V = ParamV;

    open spec fn view(&self) -> ParamV {
        ParamV { name: self.name@, comptime: self.comptime }
    }
}

impl View for StackFrame {
    type V = StackFrameV;

    open spec fn view(&self) -> StackFrameV {
        StackFrameV {
            captures: self.captures@.map_values(|c: Capture| c@),
            params: self.params@.map_values(|p: Param| p@),
            locals: self.locals@,
        }
    }
}

impl StackFrameV {
    /// The names of the parameters, in order.
    pub open spec fn param_names(self) -> Seq<Seq<char>> {
        self.params.map_values(|p: ParamV| p.name)
    }

    /// The names of the captures, in order.
    pub open spec fn capture_names(self) -> Seq<Seq<char>> {
        self.captures.map_values(|c: CaptureV| c.name)
    }

    /// What a name means in this frame: the first parameter of that name,
    /// else the first capture of that name.
    pub open spec fn find(self, name: Seq<char>) -> Option<ParamOrCapture> {
        let p = first_index_of(self.param_names(), name);
        let c = first_index_of(self.capture_names(), name);
        if p != -1 {
            Some(ParamOrCapture::Param(ParamRef { i: p as usize, comptime: self.params[p].comptime }))
        } else if c != -1 {
            Some(ParamOrCapture::Capture(CaptureRef { i: c as usize, comptime: self.captures[c].comptime }))
        } else {
            None
        }
    }

    /// The frame with one more capture of `name` from `from`.
    pub open spec fn with_capture(self, from: CaptureFrom, name: Seq<char>) -> StackFrameV {
        StackFrameV {
            captures: self.captures.push(CaptureV { name, from, comptime: from.spec_comptime() }),
            ..self
        }
    }
}

impl StackFrame {
    /// A frame with the given parameters and no captures or locals.
    pub fn new(params: Vec<Param>) -> (r: Self)
        ensures
            r@.params == params@.map_values(|p: Param| p@),
            r@.captures.len() == 0,
            r@.locals.len() == 0,
    {
        Self { captures: Vec::new(), params, locals: Vec::new() }
    }

    /// Adds a local slot and returns its reference.
    pub fn define_stack_frame_local(&mut self, comptime: bool) -> (r: LocalRef)
        ensures
            final(self)@.locals == old(self)@.locals.push(StackFrameLocal { comptime }),
            final(self)@.params == old(self)@.params,
            final(self)@.captures == old(self)@.captures,
            r == (LocalRef { i: old(self)@.locals.len() as usize, comptime }),
    {
        let i = self.locals.len();
        self.locals.push(StackFrameLocal { comptime });
        LocalRef { i, comptime }
    }

    /// Adds a capture of `name` taken from `from`, with the comptime flag of
    /// `from`, and returns its reference.
    pub fn define_capture(&mut self, from: CaptureFrom, name: String) -> (r: CaptureRef)
        ensures
            final(self)@ == old(self)@.with_capture(from, name@),
            r == (CaptureRef { i: old(self)@.captures.len() as usize, comptime: from.spec_comptime() }),
    {
        let i = self.captures.len();
        let comptime = match from {
            CaptureFrom::Capture(capture) => capture.comptime,
            CaptureFrom::Param(param) => param.comptime,
            CaptureFrom::Local(local) => local.comptime,
        };
        self.captures.push(Capture { name, from, comptime });
        proof {
            assert(self@.captures =~= old(self)@.captures.push(CaptureV { name: name@, from, comptime }));
        }
        CaptureRef { i, comptime }
    }

    /// The first parameter named `name`, else the first capture named `name`.
    pub fn find_param_or_capture(&self, name: &str) -> (r: Option<ParamOrCapture>)
        ensures
            r == self@.find(name@),
    {
        let wanted = name.to_string();
        assert(wanted@ == name@);
        let mut i: usize = 0;
        while i < self.params.len()
            invariant
                wanted@ == name@,
                i <= self.params@.len(),
                forall|k: int| 0 <= k < i ==> self.params@[k].name@ != name@,
            decreases self.params@.len() - i,
        {
            if self.params[i].name == wanted {
                proof {
                    let names = self@.param_names();
                    lemma_first_index_of(names, name@);
                    assert(names[i as int] == name@);
                    assert(forall|k: int| 0 <= k < i ==> names[k] != name@);
                    let r = first_index_of(names, name@);
                    assert(r != -1);
                    if r < i { assert(names[r] == name@); }
                    if r > i { assert(names[i as int] != name@); }
                    assert(r == i);
                    assert(self@.params[r].comptime == self.params@[i as int].comptime);
                    assert(self@.find(name@) == Some(ParamOrCapture::Param(ParamRef { i, comptime: self.params@[i as int].comptime })));
                }
                return Some(ParamOrCapture::Param(ParamRef { i, comptime: self.params[i].comptime }));
            }
            i += 1;
        }
        let mut i: usize = 0;
        while i < self.captures.len()
            invariant
                wanted@ == name@,
                i <= self.captures@.len(),
                forall|k: int| 0 <= k < self.params@.len() ==> self.params@[k].name@ != name@,
                forall|k: int| 0 <= k < i ==> self.captures@[k].name@ != name@,
            decreases self.captures@.len() - i,
        {
            if self.captures[i].name == wanted {
                proof {
                    let names = self@.capture_names();
                    lemma_first_index_of(names, name@);
                    lemma_first_index_of(self@.param_names(), name@);
                    assert(names[i as int] == name@);
                    assert(forall|k: int| 0 <= k < i ==> names[k] != name@);
                    assert(forall|k: int| 0 <= k < self@.params.len() ==> self@.param_names()[k] != name@);
                    let r = first_index_of(names, name@);
                    assert(r != -1);
                    if r < i { assert(names[r] == name@); }
                    if r > i { assert(names[i as int] != name@); }
                    assert(r == i);
                    assert(self@.captures[r].comptime == self.captures@[i as int].comptime);
                    assert(first_index_of(self@.param_names(), name@) == -1);
                }
                return Some(ParamOrCapture::Capture(CaptureRef { i, comptime: self.captures[i].comptime }));
            }
            i += 1;
        }
        proof {
            lemma_first_index_of(self@.param_names(), name@);
            lemma_first_index_of(self@.capture_names(), name@);
        }
        None
    }
}

} // verus!
