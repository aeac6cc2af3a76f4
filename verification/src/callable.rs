//! Callable values.
use vstd::prelude::*;
use crate::expressions::Literal;
use crate::interpreter::{literal_views, Interpreter};
use crate::machine;

verus! {

/// What a call of a [`Callable`] runs.
#[derive(Clone, Copy, Debug, PartialEq, Eq, Structural)]
pub enum Code {
    /// The host function `clock`.
    Clock,
    /// A function of the program: its number in the interpreter's table of
    /// declarations, and the scope in force when it was declared.
    Function { declaration: usize, closure: usize },
}

/// A value that can be called: how many arguments it takes and what it runs.
#[derive(Clone, Copy, Debug, PartialEq, Eq, Structural)]
pub struct Callable {
    pub parameters: usize,
    pub code: Code,
}

impl Callable {
    pub fn new(parameters: usize, code: Code) -> (callable: Callable)
        ensures
            callable == (Callable { parameters, code }),
    {
        Callable { parameters, code }
    }

    /// Leaves the call of this callable with the arguments as all that the
    /// interpreter has to do; running the interpreter then makes the call
    /// and ends with what it gives.
    pub fn call<'a>(&self, interpreter: &mut Interpreter<'a>, arguments: Vec<Literal>)
        requires
            old(interpreter).wf(),
        ensures
            final(interpreter).wf(),
            final(interpreter)@ == machine::loaded_call(
                old(interpreter)@,
                *self,
                literal_views(arguments@),
            ),
    {
        interpreter.call(*self, arguments);
    }

    /// The number of arguments that a call must supply.
    pub fn arity(&self) -> (count: usize)
        ensures
            count == self.parameters,
    {
        self.parameters
    }
}

} // verus!
