//! The function model: arity descriptors and byte-compiled functions.

use vstd::prelude::*;
use vstd::std_specs::convert::FromSpecImpl;
use crate::error::{ArgError, Error};
use crate::gc::block::Block;
use crate::object::tagged::{GcObj, NIL_WORD, nil};

verus! {

/// The opcode that pushes the first constant of a function.
pub const OP_CONSTANT0: u8 = 192;

/// The opcode that returns the top of the stack.
pub const OP_RETURN: u8 = 135;

/// Argument requirments to a function.
#[derive(Copy, Clone, Debug, PartialEq, Eq)]
pub struct FnArgs {
    /// a &rest argument.
    pub rest: bool,
    /// minimum required arguments.
    pub required: u16,
    /// &optional arguments.
    pub optional: u16,
    /// If this function is advised.
    pub advice: bool,
}

impl Default for FnArgs {
    fn default() -> (args: FnArgs)
        ensures
            args == (FnArgs { rest: false, required: 0, optional: 0, advice: false }),
            args.wf(),
    {
        FnArgs { rest: false, required: 0, optional: 0, advice: false }
    }
}

impl FnArgs {
    /// The number of slots before the `&rest` list: required and optional.
    pub open spec fn total(self) -> int {
        self.required + self.optional
    }

    /// The slots of a function can be counted in 16 bits.
    pub open spec fn wf(self) -> bool {
        self.total() <= u16::MAX
    }

    /// Whether a call with `n` arguments is taken.
    pub open spec fn takes(self, n: u16) -> bool {
        self.required <= n && (self.rest || n <= self.total())
    }

    /// The number of arguments whose absence makes a call with `n` arguments
    /// fail: the required ones where there are too few, the whole count
    /// where there are too many.
    pub open spec fn wanted(self, n: u16) -> int {
        if n < self.required {
            self.required as int
        } else {
            self.total()
        }
    }

    /// The number of `nil`s that fill a call with `n` arguments up to the
    /// slots before the `&rest` list.
    pub open spec fn fill(self, n: u16) -> int {
        if n <= self.total() {
            self.total() - n
        } else {
            0
        }
    }

    /// Number of arguments needed to fill out the remaining slots on the stack.
    /// If a function has 3 required args and 2 optional, and it is called with
    /// 4 arguments, then 1 will be returned. Indicating that 1 additional `nil`
    /// argument should be added to the stack.
    pub fn num_of_fill_args(self, args: u16, name: &str) -> (out: Result<u16, ArgError>)
        requires
            self.wf(),
        ensures
            out is Ok <==> self.takes(args),
            out matches Ok(fill) ==> fill == self.fill(args),
            out matches Err(err) ==> err.expected == self.wanted(args) && err.actual == args
                && err.name@ == name@,
    {
        if args < self.required {
            return Err(ArgError::new(self.required, args, name));
        }
        let total = self.required + self.optional;
        if !self.rest && (args > total) {
            return Err(ArgError::new(total, args, name));
        }
        Ok(total.saturating_sub(args))
    }
}

/// A call with fewer arguments than are required fails.
pub proof fn law_too_few_fails(arity: FnArgs, n: u16)
    requires
        arity.wf(),
        n < arity.required,
    ensures
        !arity.takes(n),
{
}

/// A call with no fewer arguments than are required and no more than there
/// are slots is filled up to the number of slots.
pub proof fn law_in_range_fills(arity: FnArgs, n: u16)
    requires
        arity.wf(),
        arity.required <= n <= arity.required + arity.optional,
    ensures
        arity.takes(n),
        arity.fill(n) == arity.required + arity.optional - n,
{
}

/// A call with more arguments than there are slots fails where the function
/// takes no `&rest` list.
pub proof fn law_too_many_fails(arity: FnArgs, n: u16)
    requires
        arity.wf(),
        n > arity.required + arity.optional,
        !arity.rest,
    ensures
        !arity.takes(n),
{
}

/// A call with more arguments than there are slots is taken as it is where
/// the function takes a `&rest` list.
pub proof fn law_rest_takes_all(arity: FnArgs, n: u16)
    requires
        arity.wf(),
        n > arity.required + arity.optional,
        arity.rest,
    ensures
        arity.takes(n),
        arity.fill(n) == 0,
{
}

/// A sequence of opcodes.
#[derive(PartialEq, Eq, Clone, Default, Debug)]
pub struct CodeVec(pub Vec<u8>);

impl View for CodeVec {
    type V = Seq<u8>;

    open spec fn view(&self) -> Seq<u8> {
        self.0@
    }
}

impl From<Vec<u8>> for CodeVec {
    fn from(codes: Vec<u8>) -> (out: CodeVec) {
        CodeVec(codes)
    }
}

impl FromSpecImpl<Vec<u8>> for CodeVec {
    open spec fn obeys_from_spec() -> bool {
        true
    }

    open spec fn from_spec(codes: Vec<u8>) -> CodeVec {
        CodeVec(codes)
    }
}

/// Represents the body of a function that has been byte compiled. Note that
/// this can represent any top level expression, not just functions.
#[derive(Debug, PartialEq, Eq)]
pub struct Expression {
    pub op_codes: CodeVec,
    pub constants: Vec<GcObj>,
}

/// A function implemented in lisp. Note that all functions are byte compiled,
/// so this contains the byte-code representation of the function.
#[derive(Debug, PartialEq, Eq)]
pub struct LispFn {
    pub body: Expression,
    pub args: FnArgs,
    /// How deep the function's stack can grow: a hint for whoever runs it.
    pub depth: usize,
}

impl LispFn {
    pub fn new(
        op_codes: CodeVec,
        constants: Vec<GcObj>,
        required: u16,
        optional: u16,
        rest: bool,
    ) -> (func: LispFn)
        ensures
            func.body.op_codes == op_codes,
            func.body.constants == constants,
            func.args == (FnArgs { required, optional, rest, advice: false }),
            func.depth == 0,
    {
        LispFn {
            body: Expression { op_codes, constants },
            args: FnArgs { required, optional, rest, advice: false },
            depth: 0,
        }
    }
}

impl Default for LispFn {
    /// The function that takes nothing and returns `nil`.
    fn default() -> (func: LispFn)
        ensures
            func.body.op_codes@ == seq![OP_CONSTANT0, OP_RETURN],
            func.body.constants@.len() == 1,
            func.body.constants@[0].is_nil(),
            func.args == (FnArgs { required: 0, optional: 0, rest: false, advice: false }),
    {
        let mut codes: Vec<u8> = Vec::new();
        codes.push(OP_CONSTANT0);
        codes.push(OP_RETURN);
        let mut constants: Vec<GcObj> = Vec::new();
        constants.push(nil());
        LispFn::new(CodeVec::from(codes), constants, 0, 0, false)
    }
}

/// The code of a built-in function: what a call runs once its arguments are
/// in place.
pub trait BuiltIn {
    /// The environment that the function runs in.
    type Env;

    /// Runs the function on `args`. The arguments can be used with the arena,
    /// and so can the result. The arena stays well formed.
    fn invoke(&self, args: &Vec<GcObj>, env: &mut Self::Env, arena: &mut Block<false>) -> (out:
        Result<GcObj, Error>)
        requires
            old(arena)@.wf(),
            old(arena)@.contains_all(args@),
        ensures
            final(arena)@.wf(),
            out matches Ok(value) ==> final(arena)@.contains(value),
    ;
}

/// A built-in function: its code, what arguments it takes, and its name.
pub struct SubrFn<B: BuiltIn> {
    pub subr: B,
    pub args: FnArgs,
    pub name: &'static str,
}

/// `count` times `nil`.
pub open spec fn nils(count: int) -> Seq<GcObj> {
    Seq::new(count as nat, |i: int| GcObj::of(NIL_WORD))
}

impl<B: BuiltIn> SubrFn<B> {
    /// Checks the number of arguments against what the function takes, and
    /// fills the slots that the call left empty with `nil`.
    pub fn fill_args(&self, args: &mut Vec<GcObj>) -> (out: Result<(), ArgError>)
        requires
            self.args.wf(),
            old(args)@.len() <= u16::MAX,
        ensures
            out is Ok <==> self.args.takes(old(args)@.len() as u16),
            out is Ok ==> final(args)@ == old(args)@ + nils(
                self.args.fill(old(args)@.len() as u16),
            ),
            out matches Err(err) ==> final(args)@ == old(args)@ && err.expected
                == self.args.wanted(old(args)@.len() as u16) && err.actual == old(args)@.len()
                && err.name@ == self.name@,
    {
        let arg_cnt = args.len() as u16;
        let fill_args = match self.args.num_of_fill_args(arg_cnt, self.name) {
            Ok(fill) => fill,
            Err(err) => {
                return Err(err);
            },
        };
        let mut filled: u16 = 0;
        while filled < fill_args
            invariant
                filled <= fill_args,
                args@ == old(args)@ + nils(filled as int),
            decreases fill_args - filled,
        {
            args.push(nil());
            proof {
                let value = GcObj::of(NIL_WORD);
                value.lemma_word_eq(args@.last());
                GcObj::lemma_of(NIL_WORD);
                assert(args@ =~= old(args)@ + nils(filled + 1));
            }
            filled += 1;
        }
        Ok(())
    }

    /// Calls the function: checks the number of arguments, fills the empty
    /// slots with `nil`, and runs the code on the arguments.
    pub fn call(&self, args: &mut Vec<GcObj>, env: &mut B::Env, arena: &mut Block<false>) -> (out:
        Result<GcObj, Error>)
        requires
            self.args.wf(),
            old(args)@.len() <= u16::MAX,
            old(arena)@.wf(),
            old(arena)@.contains_all(old(args)@),
        ensures
            final(arena)@.wf(),
            out matches Ok(value) ==> final(arena)@.contains(value),
            self.args.takes(old(args)@.len() as u16) ==> final(args)@ == old(args)@ + nils(
                self.args.fill(old(args)@.len() as u16),
            ),
            !self.args.takes(old(args)@.len() as u16) ==> final(args)@ == old(args)@,
            !self.args.takes(old(args)@.len() as u16) ==> final(arena)@ == old(arena)@,
            !self.args.takes(old(args)@.len() as u16) ==> (out matches Err(Error::ArgCount(err))
                && err.expected == self.args.wanted(old(args)@.len() as u16)
                && err.actual == old(args)@.len() && err.name@ == self.name@),
    {
        match self.fill_args(args) {
            Ok(()) => {},
            Err(err) => {
                return Err(Error::ArgCount(err));
            },
        }
        proof {
            arena@.lemma_canonical();
            assert forall|i: int| 0 <= i < args@.len() implies arena@.contains(
                #[trigger] args@[i],
            ) by {
                if i >= old(args)@.len() {
                    GcObj::lemma_of(NIL_WORD);
                }
            }
        }
        self.subr.invoke(args, env, arena)
    }
}

/// The built-in function of that name and code, with the arity given.
pub fn new_subr<B: BuiltIn>(
    name: &'static str,
    subr: B,
    required: u16,
    optional: u16,
    rest: bool,
) -> (func: SubrFn<B>)
    ensures
        func.name == name,
        func.subr == subr,
        func.args == (FnArgs { required, optional, rest, advice: false }),
{
    SubrFn { name, subr, args: FnArgs { required, optional, rest, advice: false } }
}

} // verus!
