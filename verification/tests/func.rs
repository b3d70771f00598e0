use rune_core::error::{ArgError, Error, Type, TypeError};
use rune_core::gc::arena::Arena;
use rune_core::gc::block::Block;
use rune_core::gc::into::IntoObject;
use rune_core::gc::root::RootSet;
use rune_core::object::data::Cons;
use rune_core::object::func::{new_subr, BuiltIn, CodeVec, FnArgs, LispFn, OP_CONSTANT0, OP_RETURN};
use rune_core::object::tagged::{nil, GcObj, Object};

#[test]
fn function() {
    let roots = RootSet::default();
    let mut arena = Arena::new(64);
    assert_eq!(roots.len(), 0);
    let constant: GcObj = 1i64.into_obj(arena.block_mut()).as_obj();
    let lisp_fn = LispFn::new(CodeVec::from(vec![0, 1, 2]), vec![constant], 0, 0, false);
    let obj: GcObj = lisp_fn.into_obj(arena.block_mut()).as_obj();
    assert!(matches!(obj.untag(), Object::ByteFn(_)));
    assert_eq!(obj.print(arena.block(), 4).len(), 4);
    let func = match obj.untag() {
        Object::ByteFn(x) => arena.block().byte_fn(x),
        _ => unreachable!("expected lispfn"),
    };
    assert_eq!(func.body.op_codes, CodeVec::from(vec![0, 1, 2]));
    assert_eq!(func.body.constants, vec![GcObj::from(1i64)]);
    assert_eq!(func.body.constants.len(), 1);
    assert!(func.body.constants[0].eq_int(1));
    assert_eq!(func.args.required, 0);
    assert_eq!(func.args.optional, 0);
    assert!(!func.args.rest);
}

#[test]
fn default_function_returns_nil() {
    let func = LispFn::default();
    assert_eq!(func.body.op_codes, CodeVec::from(vec![OP_CONSTANT0, OP_RETURN]));
    assert_eq!(func.body.constants, vec![nil()]);
    assert_eq!(func.args, FnArgs::default());
}

fn arity(required: u16, optional: u16, rest: bool) -> FnArgs {
    FnArgs { required, optional, rest, advice: false }
}

#[test]
fn fill_args_documented_example() {
    // 3 required and 2 optional, called with 4: one nil is added
    assert_eq!(arity(3, 2, false).num_of_fill_args(4, "f"), Ok(1));
}

#[test]
fn fill_args_over_the_whole_range() {
    for required in 0u16..4 {
        for optional in 0u16..4 {
            for rest in [false, true] {
                let args = arity(required, optional, rest);
                let total = required + optional;
                for n in 0..=(total + 2) {
                    let out = args.num_of_fill_args(n, "probe");
                    if n < required {
                        assert_eq!(out, Err(ArgError::new(required, n, "probe")));
                    } else if n <= total {
                        assert_eq!(out, Ok(total - n));
                    } else if rest {
                        assert_eq!(out, Ok(0));
                    } else {
                        assert_eq!(out, Err(ArgError::new(total, n, "probe")));
                    }
                }
            }
        }
    }
}

#[test]
fn fill_args_at_the_limit_of_the_count() {
    let args = arity(u16::MAX, 0, false);
    assert_eq!(args.num_of_fill_args(u16::MAX, "wide"), Ok(0));
    assert_eq!(
        args.num_of_fill_args(u16::MAX - 1, "wide"),
        Err(ArgError { expected: u16::MAX, actual: u16::MAX - 1, name: "wide".to_string() })
    );
}

struct Car;

impl BuiltIn for Car {
    type Env = ();

    fn invoke(
        &self,
        args: &Vec<GcObj>,
        _env: &mut (),
        arena: &mut Block<false>,
    ) -> Result<GcObj, Error> {
        match args[0].untag() {
            Object::Cons(cons) => Ok(arena.cons(cons).car()),
            other => Err(Error::Type(TypeError::new(Type::List, other))),
        }
    }
}

#[test]
fn car_subr_checks_its_arity() {
    let mut arena: Block<false> = Block::new();
    let car = new_subr("car", Car, 1, 0, false);

    let mut none: Vec<GcObj> = vec![];
    match car.call(&mut none, &mut (), &mut arena) {
        Err(Error::ArgCount(err)) => {
            assert_eq!(err, ArgError { expected: 1, actual: 0, name: "car".to_string() });
        }
        other => panic!("expected an arity error, got {:?}", other),
    }
    assert!(none.is_empty());

    let mut two: Vec<GcObj> = vec![GcObj::from(1i64), GcObj::from(2i64)];
    match car.call(&mut two, &mut (), &mut arena) {
        Err(Error::ArgCount(err)) => {
            assert_eq!(err, ArgError { expected: 1, actual: 2, name: "car".to_string() });
        }
        other => panic!("expected an arity error, got {:?}", other),
    }
    assert_eq!(two.len(), 2);

    let pair = Cons::new(GcObj::from(1i64), GcObj::from(2i64)).into_obj(&mut arena).as_obj();
    let mut one = vec![pair];
    let out = car.call(&mut one, &mut (), &mut arena);
    assert_eq!(out.map(|v| v.untag()), Ok(Object::Int(1)));
}

struct Count;

impl BuiltIn for Count {
    type Env = usize;

    fn invoke(
        &self,
        args: &Vec<GcObj>,
        env: &mut usize,
        _arena: &mut Block<false>,
    ) -> Result<GcObj, Error> {
        *env += 1;
        Ok(GcObj::from(args.len() as i64))
    }
}

#[test]
fn call_fills_optional_slots_with_nil() {
    let mut arena: Block<false> = Block::new();
    let count = new_subr("count", Count, 1, 2, false);
    let mut args = vec![GcObj::from(7i64)];
    let mut calls = 0usize;
    let out = count.call(&mut args, &mut calls, &mut arena);
    assert_eq!(out.map(|v| v.untag()), Ok(Object::Int(3)));
    assert_eq!(args, vec![GcObj::from(7i64), nil(), nil()]);
    assert_eq!(calls, 1);

    let rest = new_subr("rest", Count, 0, 1, true);
    let mut many = vec![GcObj::from(1i64), GcObj::from(2i64), GcObj::from(3i64)];
    let out = rest.call(&mut many, &mut calls, &mut arena);
    assert_eq!(out.map(|v| v.untag()), Ok(Object::Int(3)));
    assert_eq!(many.len(), 3);
    assert_eq!(calls, 2);
}

#[test]
fn fill_args_alone_leaves_a_refused_call_untouched() {
    let count = new_subr("count", Count, 2, 0, false);
    let mut args = vec![GcObj::from(7i64)];
    assert_eq!(
        count.fill_args(&mut args),
        Err(ArgError { expected: 2, actual: 1, name: "count".to_string() })
    );
    assert_eq!(args, vec![GcObj::from(7i64)]);
}

struct Fail;

impl BuiltIn for Fail {
    type Env = ();

    fn invoke(
        &self,
        _args: &Vec<GcObj>,
        _env: &mut (),
        _arena: &mut Block<false>,
    ) -> Result<GcObj, Error> {
        Err(Error::User("no such thing".to_string()))
    }
}

#[test]
fn an_error_of_the_code_comes_back_from_the_call() {
    let mut arena: Block<false> = Block::new();
    let fail = new_subr("fail", Fail, 0, 1, false);
    let mut args: Vec<GcObj> = vec![];
    let out = fail.call(&mut args, &mut (), &mut arena);
    assert_eq!(out, Err(Error::User("no such thing".to_string())));
    // the slots were filled before the code ran
    assert_eq!(args, vec![nil()]);
}
