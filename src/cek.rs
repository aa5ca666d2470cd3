use vstd::prelude::*;
use std::rc::Rc;

use crate::ast::{Altn, Expr, External, Lambda, Module, external_arity};
use crate::val::{
    Fault, Prim, Streams, Value, builtin_fault, builtin_result, lemma_builtin_wf, lemma_wf_fields,
    lemma_wf_pack, lemma_wf_pap, lemma_wf_values_concat, prim_arity, wf_value, wf_values,
};

verus! {

/// What the machine is working on.
#[derive(Debug)]
pub enum Ctrl<'a> {
    /// Marks a step in progress; never seen between steps.
    Evaluating,
    Expr(&'a Expr),
    Value(Rc<Value<'a>>),
}

/// `v` is a partial application of `p` with nothing collected and `missing` awaited.
pub open spec fn is_fresh_pap(v: Value, p: Prim, missing: nat) -> bool {
    match v {
        Value::PAP(q, args, m) => q == p && args@.len() == 0 && m == missing,
        _ => false,
    }
}

impl<'a> Ctrl<'a> {
    pub fn from_prim(prim: Prim<'a>, arity: usize) -> (r: Self)
        ensures
            match r {
                Ctrl::Value(v) => is_fresh_pap(*v, prim, arity as nat),
                _ => false,
            },
    {
        Ctrl::Value(Rc::new(Value::PAP(prim, Vec::new(), arity)))
    }
}

/// The environment: a stack of values addressed from the top, index 1 being the most
/// recently pushed.
#[derive(Debug)]
pub struct Env<'a> {
    pub stack: Vec<Rc<Value<'a>>>,
}

impl<'a> Env<'a> {
    pub fn new() -> (r: Self)
        ensures
            r.stack@.len() == 0,
    {
        Env { stack: Vec::new() }
    }

    pub fn get(&self, idx: usize) -> (r: &Rc<Value<'a>>)
        requires
            1 <= idx <= self.stack@.len(),
        ensures
            *r == self.stack@[self.stack@.len() - idx],
    {
        &self.stack[self.stack.len() - idx]
    }

    pub fn push(&mut self, value: Rc<Value<'a>>)
        ensures
            final(self).stack@ == old(self).stack@.push(value),
    {
        self.stack.push(value);
    }

    /// Pushes `args` in order, so that the last of them ends on top.
    pub fn push_many(&mut self, args: &Vec<Rc<Value<'a>>>)
        ensures
            final(self).stack@ == old(self).stack@ + args@,
    {
        let ghost start = self.stack@;
        let mut i: usize = 0;
        while i < args.len()
            invariant
                i <= args@.len(),
                self.stack@ == start + args@.subrange(0, i as int),
            decreases args@.len() - i,
        {
            self.stack.push(Rc::clone(&args[i]));
            i = i + 1;
            assert(self.stack@ =~= start + args@.subrange(0, i as int));
        }
        assert(args@.subrange(0, i as int) =~= args@);
    }

    /// Removes the top `count` entries.
    pub fn pop(&mut self, count: usize)
        requires
            count <= old(self).stack@.len(),
        ensures
            final(self).stack@ == old(self).stack@.take(old(self).stack@.len() - count),
    {
        let new_len = self.stack.len() - count;
        self.stack.truncate(new_len);
    }
}

/// A continuation frame: what to do with the value being produced.
#[derive(Debug)]
pub enum Kont<'a> {
    /// Restore this environment.
    Dump(Env<'a>),
    /// Drop this many entries from the environment.
    Pop(usize),
    /// Apply the value to the arguments from this index on.
    Args(&'a Vec<Expr>, usize),
    /// Add the value as the next argument of this partial application.
    Fun(Prim<'a>, Vec<Rc<Value<'a>>>, usize),
    /// Select an alternative by the value's constructor tag.
    Match(&'a Vec<Altn>),
    /// Bind the value, then reduce the body.
    Let(&'a String, &'a Expr),
}

/// The machine state: control, environment, continuation stack, and the byte streams
/// of the built-ins.
#[derive(Debug)]
pub struct State<'a> {
    pub ctrl: Ctrl<'a>,
    pub env: Env<'a>,
    pub kont: Vec<Kont<'a>>,
    pub io: Streams,
}

/// Every `Pop(n)` frame finds at least `n` entries in the environment it will act on:
/// the current one above the first `Dump`, the dumped one below it.
pub open spec fn kont_fits(kont: Seq<Kont>, len: nat) -> bool
    decreases kont.len(),
{
    if kont.len() == 0 {
        true
    } else {
        match kont.last() {
            Kont::Pop(n) => n <= len && kont_fits(kont.drop_last(), (len - n) as nat),
            Kont::Dump(e) => kont_fits(kont.drop_last(), e.stack@.len()),
            _ => kont_fits(kont.drop_last(), len),
        }
    }
}

pub open spec fn wf_frame(k: Kont) -> bool {
    match k {
        Kont::Dump(e) => wf_values(e.stack@),
        Kont::Fun(p, args, missing) => {
            &&& wf_values(args@)
            &&& missing >= 1
            &&& args@.len() + missing == prim_arity(p)
        },
        Kont::Args(es, i) => i < es@.len(),
        _ => true,
    }
}

/// The machine's invariant between steps.
pub open spec fn wf_state(s: State) -> bool {
    &&& !(s.ctrl is Evaluating)
    &&& (s.ctrl matches Ctrl::Value(v) ==> wf_value(*v))
    &&& wf_values(s.env.stack@)
    &&& forall|i: int| 0 <= i < s.kont@.len() ==> #[trigger] wf_frame(s.kont@[i])
    &&& kont_fits(s.kont@, s.env.stack@.len())
    &&& s.io.wf()
}

/// A value is final when it is data: an integer or a constructor.
pub open spec fn is_data(v: Value) -> bool {
    v is Num || v is Pack
}

pub open spec fn is_final(s: State) -> bool {
    &&& s.ctrl matches Ctrl::Value(v)
    &&& is_data(*v)
    &&& s.kont@.len() == 0
}

/// The input built-in that fires at the next step from `s`, if any.
pub open spec fn awaited_input(s: State) -> Option<External> {
    match s.ctrl {
        Ctrl::Value(v) => match *v {
            Value::PAP(Prim::External(op), _, 0) => if op == External::geti || op == External::getc {
                Some(op)
            } else {
                None
            },
            _ => None,
        },
        _ => None,
    }
}

/// The state that starts reducing `e` with nothing bound and nothing pending.
pub open spec fn is_initial(s: State, e: Expr) -> bool {
    &&& s.ctrl == Ctrl::Expr(&e)
    &&& s.env.stack@.len() == 0
    &&& s.kont@.len() == 0
}

/// A step from `s` that keeps the environment and the streams and replaces the top
/// `popped` frames by `pushed`, leaving `ctrl` as control.
pub open spec fn moves<'a>(
    s: State<'a>,
    t: State<'a>,
    popped: nat,
    pushed: Seq<Kont<'a>>,
    ctrl: Ctrl<'a>,
) -> bool {
    &&& popped <= s.kont@.len()
    &&& t.kont@ =~= s.kont@.take(s.kont@.len() - popped) + pushed
    &&& t.ctrl == ctrl
    &&& t.env == s.env
    &&& t.io == s.io
}

/// One transition of the machine over `module`: from `s` to `t` with outcome `r`.
pub open spec fn step_spec<'a>(module: &'a Module, s: State<'a>, t: State<'a>, r: Result<(), Fault>) -> bool {
    match s.ctrl {
        Ctrl::Evaluating => r == Err::<(), Fault>(Fault::Unsettled),
        Ctrl::Expr(e) => expr_step(module, s, e, t, r),
        Ctrl::Value(v) => value_step(s, v, t, r),
    }
}

/// A transition on expression `e`; the other parts of the state come from `s`.
pub open spec fn expr_step<'a>(
    module: &'a Module,
    s: State<'a>,
    e: &'a Expr,
    t: State<'a>,
    r: Result<(), Fault>,
) -> bool {
    match *e {
        Expr::Local { idx, .. } => {
            let n = s.env.stack@.len();
            if 1 <= idx <= n {
                r is Ok && moves(s, t, 0, seq![], Ctrl::Value(s.env.stack@[n - idx]))
            } else {
                r == Err::<(), Fault>(Fault::BadIndex)
            }
        },
        Expr::Global { name } => match module.spec_get(name@) {
            Some(lam) => {
                &&& r is Ok
                &&& moves(s, t, 0, seq![], t.ctrl)
                &&& t.ctrl matches Ctrl::Value(v)
                &&& match *v {
                    Value::PAP(Prim::Global(n, l), args, m) => *n == name && *l == lam
                        && args@.len() == 0 && m == lam.binds@.len(),
                    _ => false,
                }
            },
            None => r == Err::<(), Fault>(Fault::UnknownGlobal),
        },
        Expr::External { name } => {
            &&& r is Ok
            &&& moves(s, t, 0, seq![], t.ctrl)
            &&& t.ctrl matches Ctrl::Value(v)
            &&& is_fresh_pap(*v, Prim::External(name), external_arity(name))
        },
        Expr::Pack { tag, arity } => {
            &&& r is Ok
            &&& moves(s, t, 0, seq![], t.ctrl)
            &&& t.ctrl matches Ctrl::Value(v)
            &&& is_fresh_pap(*v, Prim::Pack(tag, arity), arity as nat)
        },
        Expr::Num { value } => {
            &&& r is Ok
            &&& moves(s, t, 0, seq![], t.ctrl)
            &&& t.ctrl matches Ctrl::Value(v)
            &&& *v == Value::Num(value)
        },
        Expr::Ap { fun, args } => if args@.len() == 0 {
            r == Err::<(), Fault>(Fault::EmptyArgs)
        } else {
            r is Ok && moves(s, t, 0, seq![Kont::Args(&args, 0)], Ctrl::Expr(&*fun))
        },
        Expr::Let { defn, body } => r is Ok && moves(
            s,
            t,
            0,
            seq![Kont::Let(&defn.lhs, &*body)],
            Ctrl::Expr(&defn.rhs),
        ),
        Expr::Match { expr, altns } => r is Ok && moves(
            s,
            t,
            0,
            seq![Kont::Match(&altns)],
            Ctrl::Expr(&*expr),
        ),
    }
}

/// A transition on the value `v`: a saturated application fires, any other value goes
/// to the top frame.
pub open spec fn value_step<'a>(s: State<'a>, v: Rc<Value<'a>>, t: State<'a>, r: Result<(), Fault>) -> bool {
    match *v {
        Value::PAP(prim, args, 0) => match prim {
            Prim::Global(_, lam) => {
                &&& r is Ok
                &&& t.env.stack@ == args@
                &&& t.kont@ == s.kont@.push(Kont::Dump(s.env))
                &&& t.ctrl == Ctrl::Expr(&lam.body)
                &&& t.io == s.io
            },
            Prim::External(op) => match builtin_fault(op, args@, s.io.pending()) {
                Some(f) => r == Err::<(), Fault>(f),
                None => {
                    &&& r is Ok
                    &&& t.ctrl matches Ctrl::Value(w)
                    &&& builtin_result(
                        op,
                        args@,
                        s.io.pending(),
                        s.io.written(),
                        *w,
                        t.io.pending(),
                        t.io.written(),
                    )
                    &&& t.io.wf()
                    &&& t.env == s.env
                    &&& t.kont == s.kont
                },
            },
            Prim::Pack(tag, _) => {
                &&& r is Ok
                &&& moves(s, t, 0, seq![], t.ctrl)
                &&& t.ctrl matches Ctrl::Value(w)
                &&& match *w {
                    Value::Pack(wt, fields) => wt == tag && fields@ == args@,
                    _ => false,
                }
            },
        },
        _ => resume_step(s, v, t, r),
    }
}

/// The top frame receives `v`.
pub open spec fn resume_step<'a>(s: State<'a>, v: Rc<Value<'a>>, t: State<'a>, r: Result<(), Fault>) -> bool {
    if s.kont@.len() == 0 {
        r == Err::<(), Fault>(Fault::NoFrame)
    } else {
        match s.kont@.last() {
            Kont::Dump(env) => {
                &&& r is Ok
                &&& t.env == env
                &&& t.kont@ == s.kont@.drop_last()
                &&& t.ctrl == Ctrl::Value(v)
                &&& t.io == s.io
            },
            Kont::Pop(n) => {
                &&& r is Ok
                &&& n <= s.env.stack@.len()
                &&& t.env.stack@ == s.env.stack@.take(s.env.stack@.len() - n)
                &&& t.kont@ == s.kont@.drop_last()
                &&& t.ctrl == Ctrl::Value(v)
                &&& t.io == s.io
            },
            Kont::Args(es, i) => match *v {
                Value::PAP(p, collected, missing) => {
                    let rest = if i + 1 < es@.len() {
                        seq![Kont::Args(es, (i + 1) as usize)]
                    } else {
                        seq![]
                    };
                    &&& r is Ok
                    &&& t.kont@.len() == s.kont@.len() + rest.len()
                    &&& t.kont@.take(s.kont@.len() - 1) =~= s.kont@.drop_last()
                    &&& t.kont@.subrange(s.kont@.len() - 1, t.kont@.len() - 1) =~= rest
                    &&& match t.kont@.last() {
                        Kont::Fun(p2, c2, m2) => p2 == p && c2@ == collected@ && m2 == missing,
                        _ => false,
                    }
                    &&& t.ctrl == Ctrl::Expr(&es@[i as int])
                    &&& t.env == s.env
                    &&& t.io == s.io
                },
                _ => r == Err::<(), Fault>(Fault::NotAFunction),
            },
            Kont::Fun(p, collected, missing) => {
                &&& r is Ok
                &&& t.ctrl matches Ctrl::Value(w)
                &&& match *w {
                    Value::PAP(p2, c2, m2) => p2 == p && c2@ == collected@.push(v) && m2
                        == missing - 1,
                    _ => false,
                }
                &&& t.kont@ == s.kont@.drop_last()
                &&& t.env == s.env
                &&& t.io == s.io
            },
            Kont::Match(altns) => match *v {
                Value::Pack(tag, fields) => if tag < altns@.len() {
                    &&& r is Ok
                    &&& t.env.stack@ == s.env.stack@ + fields@
                    &&& t.kont@ == s.kont@.drop_last().push(Kont::Pop(fields.len()))
                    &&& t.ctrl == Ctrl::Expr(&altns@[tag as int].rhs)
                    &&& t.io == s.io
                } else {
                    r == Err::<(), Fault>(Fault::BadTag)
                },
                _ => r == Err::<(), Fault>(Fault::NotData),
            },
            Kont::Let(_, body) => {
                &&& r is Ok
                &&& t.env.stack@ == s.env.stack@.push(v)
                &&& t.kont@ == s.kont@.drop_last().push(Kont::Pop(1))
                &&& t.ctrl == Ctrl::Expr(body)
                &&& t.io == s.io
            },
        }
    }
}

/// `trace` is a sequence of successful steps over `module` from `first` to `last`,
/// none of them taken from a final state.
pub open spec fn is_run<'a>(module: &'a Module, trace: Seq<State<'a>>, first: State<'a>, last: State<'a>) -> bool {
    &&& trace.len() > 0
    &&& trace[0] == first
    &&& trace.last() == last
    &&& forall|i: int|
        0 <= i < trace.len() - 1 ==> !is_final(#[trigger] trace[i]) && step_spec(
            module,
            trace[i],
            trace[i + 1],
            Ok(()),
        )
}

/// Fresh handles on the same values.
fn share_all<'a>(vs: &Vec<Rc<Value<'a>>>) -> (r: Vec<Rc<Value<'a>>>)
    ensures
        r@ == vs@,
{
    let mut r: Vec<Rc<Value<'a>>> = Vec::new();
    let mut i: usize = 0;
    while i < vs.len()
        invariant
            i <= vs@.len(),
            r@ == vs@.subrange(0, i as int),
        decreases vs@.len() - i,
    {
        r.push(Rc::clone(&vs[i]));
        i = i + 1;
        assert(r@ =~= vs@.subrange(0, i as int));
    }
    assert(vs@.subrange(0, i as int) =~= vs@);
    r
}

proof fn lemma_fits_push(kont: Seq<Kont>, k: Kont, len: nat)
    requires
        !(k is Pop),
        !(k is Dump),
    ensures
        kont_fits(kont.push(k), len) == kont_fits(kont, len),
{
    assert(kont.push(k).drop_last() =~= kont);
}

impl<'a> State<'a> {
    pub fn from_expr(expr: &'a Expr, input: Vec<u8>) -> (r: Self)
        ensures
            is_initial(r, *expr),
            wf_state(r),
            r.io.pending() == input@,
            r.io.written().len() == 0,
    {
        State { ctrl: Ctrl::Expr(expr), env: Env::new(), kont: Vec::new(), io: Streams::new(input) }
    }

    pub fn is_final(&self) -> (r: bool)
        ensures
            r == is_final(*self),
    {
        match &self.ctrl {
            Ctrl::Value(v) => match &**v {
                Value::Num(_) | Value::Pack(_, _) => self.kont.len() == 0,
                _ => false,
            },
            _ => false,
        }
    }

    /// The input built-in that the next step fires, if any: `geti` reads a line,
    /// `getc` a byte.
    pub fn next_input(&self) -> (r: Option<External>)
        ensures
            r == awaited_input(*self),
    {
        match &self.ctrl {
            Ctrl::Value(v) => match &**v {
                Value::PAP(Prim::External(op), _, 0) => match op {
                    External::geti | External::getc => Some(*op),
                    _ => None,
                },
                _ => None,
            },
            _ => None,
        }
    }

    /// Performs one transition.
    pub fn step(&mut self, module: &'a Module) -> (r: Result<(), Fault>)
        requires
            wf_state(*old(self)),
        ensures
            step_spec(module, *old(self), *final(self), r),
            r is Ok ==> wf_state(*final(self)),
    {
        let mut ctrl = Ctrl::Evaluating;
        std::mem::swap(&mut self.ctrl, &mut ctrl);
        match ctrl {
            Ctrl::Evaluating => Err(Fault::Unsettled),
            Ctrl::Expr(e) => self.step_expr(module, e),
            Ctrl::Value(v) => self.step_value(v),
        }
    }

    fn step_expr(&mut self, module: &'a Module, e: &'a Expr) -> (r: Result<(), Fault>)
        requires
            wf_state(State { ctrl: Ctrl::Expr(e), ..*old(self) }),
        ensures
            expr_step(module, *old(self), e, *final(self), r),
            r is Ok ==> wf_state(*final(self)),
    {
        match e {
            Expr::Local { idx, .. } => {
                if *idx < 1 || *idx > self.env.stack.len() {
                    return Err(Fault::BadIndex);
                }
                let v = Rc::clone(self.env.get(*idx));
                self.ctrl = Ctrl::Value(v);
                Ok(())
            },
            Expr::Global { name } => match module.get(name) {
                Some(lam) => {
                    self.ctrl = Ctrl::from_prim(Prim::Global(name, lam), lam.binds.len());
                    Ok(())
                },
                None => Err(Fault::UnknownGlobal),
            },
            Expr::External { name } => {
                self.ctrl = Ctrl::from_prim(Prim::External(*name), name.arity());
                Ok(())
            },
            Expr::Pack { tag, arity } => {
                self.ctrl = Ctrl::from_prim(Prim::Pack(*tag, *arity), *arity);
                Ok(())
            },
            Expr::Num { value } => {
                self.ctrl = Ctrl::Value(Value::rc_from_i64(*value));
                Ok(())
            },
            Expr::Ap { fun, args } => {
                if args.len() == 0 {
                    return Err(Fault::EmptyArgs);
                }
                proof {
                    lemma_fits_push(self.kont@, Kont::Args(args, 0), self.env.stack@.len());
                }
                self.kont.push(Kont::Args(args, 0));
                self.ctrl = Ctrl::Expr(fun);
                Ok(())
            },
            Expr::Let { defn, body } => {
                proof {
                    lemma_fits_push(self.kont@, Kont::Let(&defn.lhs, body), self.env.stack@.len());
                }
                self.kont.push(Kont::Let(&defn.lhs, body));
                self.ctrl = Ctrl::Expr(&defn.rhs);
                Ok(())
            },
            Expr::Match { expr, altns } => {
                proof {
                    lemma_fits_push(self.kont@, Kont::Match(altns), self.env.stack@.len());
                }
                self.kont.push(Kont::Match(altns));
                self.ctrl = Ctrl::Expr(expr);
                Ok(())
            },
        }
    }

    fn step_value(&mut self, v: Rc<Value<'a>>) -> (r: Result<(), Fault>)
        requires
            wf_state(State { ctrl: Ctrl::Value(v), ..*old(self) }),
        ensures
            value_step(*old(self), v, *final(self), r),
            r is Ok ==> wf_state(*final(self)),
    {
        let ghost s0 = State { ctrl: Ctrl::Value(v), ..*old(self) };
        assert(s0.ctrl matches Ctrl::Value(x) && x == v);
        assert(wf_value(*v));
        proof {
            lemma_wf_fields(&*v);
        }
        match &*v {
            Value::PAP(Prim::Global(_, lam), args, 0) => {
                let lam: &'a Lambda = *lam;
                let mut env = Env::new();
                env.push_many(args);
                assert(env.stack@ =~= args@);
                std::mem::swap(&mut self.env, &mut env);
                proof {
                    assert(self.kont@.push(Kont::Dump(env)).drop_last() =~= self.kont@);
                }
                self.kont.push(Kont::Dump(env));
                self.ctrl = Ctrl::Expr(&lam.body);
                Ok(())
            },
            Value::PAP(Prim::External(op), args, 0) => {
                let ghost io0 = self.io;
                match Value::eval_external(*op, args, &mut self.io) {
                    Ok(w) => {
                        proof {
                            lemma_builtin_wf(
                                *op,
                                args@,
                                io0.pending(),
                                io0.written(),
                                &*w,
                                self.io.pending(),
                                self.io.written(),
                            );
                        }
                        self.ctrl = Ctrl::Value(w);
                        Ok(())
                    },
                    Err(f) => Err(f),
                }
            },
            Value::PAP(Prim::Pack(tag, _), args, 0) => {
                let fields = share_all(args);
                proof {
                    lemma_wf_pack(*tag, &fields);
                }
                self.ctrl = Ctrl::Value(Rc::new(Value::Pack(*tag, fields)));
                Ok(())
            },
            _ => self.resume(v),
        }
    }

    /// Hands `v`, which is not a saturated application, to the top frame.
    fn resume(&mut self, v: Rc<Value<'a>>) -> (r: Result<(), Fault>)
        requires
            wf_state(State { ctrl: Ctrl::Value(v), ..*old(self) }),
            !(*v matches Value::PAP(_, _, 0)),
        ensures
            resume_step(*old(self), v, *final(self), r),
            r is Ok ==> wf_state(*final(self)),
    {
        let ghost k0 = self.kont@;
        let ghost s0 = State { ctrl: Ctrl::Value(v), ..*old(self) };
        proof {
            assert(wf_state(s0));
            assert(s0.ctrl matches Ctrl::Value(x) && x == v);
            assert(wf_value(*v));
            lemma_wf_fields(&*v);
            if k0.len() > 0 {
                assert(k0.drop_last().push(k0.last()) =~= k0);
            }
        }
        let top = self.kont.pop();
        proof {
            if k0.len() > 0 {
                assert(top == Some(k0.last()));
                assert(wf_frame(k0.last()));
                assert(self.kont@ == k0.drop_last());
            }
        }
        match top {
            None => Err(Fault::NoFrame),
            Some(Kont::Dump(env)) => {
                self.env = env;
                self.ctrl = Ctrl::Value(v);
                Ok(())
            },
            Some(Kont::Pop(count)) => {
                let ghost e0 = self.env.stack@;
                self.env.pop(count);
                proof {
                    assert forall|j: int| 0 <= j < self.env.stack@.len() implies wf_value(
                        *#[trigger] self.env.stack@[j],
                    ) by {
                        assert(self.env.stack@[j] == e0[j]);
                    }
                }
                self.ctrl = Ctrl::Value(v);
                Ok(())
            },
            Some(Kont::Args(es, i)) => match &*v {
                Value::PAP(p, collected, missing) => {
                    assert(wf_frame(k0.last()) && k0.last() == Kont::Args(es, i));
                    assert(i < es.len());
                    if i + 1 < es.len() {
                        proof {
                            lemma_fits_push(self.kont@, Kont::Args(es, (i + 1) as usize), self.env.stack@.len());
                        }
                        self.kont.push(Kont::Args(es, i + 1));
                    }
                    let c = share_all(collected);
                    proof {
                        lemma_fits_push(self.kont@, Kont::Fun(*p, c, *missing), self.env.stack@.len());
                    }
                    self.kont.push(Kont::Fun(*p, c, *missing));
                    self.ctrl = Ctrl::Expr(&es[i]);
                    Ok(())
                },
                _ => Err(Fault::NotAFunction),
            },
            Some(Kont::Fun(p, collected, missing)) => {
                let mut collected = collected;
                let ghost before = collected@;
                collected.push(Rc::clone(&v));
                proof {
                    assert forall|j: int| 0 <= j < collected@.len() implies wf_value(
                        *#[trigger] collected@[j],
                    ) by {
                        if j < before.len() {
                            assert(collected@[j] == before[j]);
                        }
                    }
                    lemma_wf_pap(p, &collected, (missing - 1) as usize);
                }
                self.ctrl = Ctrl::Value(Rc::new(Value::PAP(p, collected, missing - 1)));
                Ok(())
            },
            Some(Kont::Match(altns)) => match &*v {
                Value::Pack(tag, fields) => {
                    assert(wf_values(fields@));
                    if *tag >= altns.len() {
                        return Err(Fault::BadTag);
                    }
                    self.kont.push(Kont::Pop(fields.len()));
                    proof {
                        lemma_wf_values_concat(self.env.stack@, fields@);
                    }
                    self.env.push_many(fields);
                    proof {
                        assert(self.kont@.drop_last() =~= k0.drop_last());
                    }
                    self.ctrl = Ctrl::Expr(&altns[*tag].rhs);
                    Ok(())
                },
                _ => Err(Fault::NotData),
            },
            Some(Kont::Let(_, body)) => {
                self.kont.push(Kont::Pop(1));
                proof {
                    assert(wf_values(seq![v]));
                    assert(self.env.stack@.push(v) =~= self.env.stack@ + seq![v]);
                    lemma_wf_values_concat(self.env.stack@, seq![v]);
                }
                self.env.push(Rc::clone(&v));
                proof {
                    assert(self.kont@.drop_last() =~= k0.drop_last());
                }
                self.ctrl = Ctrl::Expr(body);
                Ok(())
            },
        }
    }

    /// Steps until the state is final; returns the number of steps taken, which is
    /// the least number after which the state is final.
    pub fn run(&mut self, module: &'a Module) -> (r: Result<u64, Fault>)
        requires
            wf_state(*old(self)),
        ensures
            match r {
                Ok(n) => {
                    &&& is_final(*final(self))
                    &&& wf_state(*final(self))
                    &&& exists|trace: Seq<State<'a>>| #[trigger]
                        is_run(module, trace, *old(self), *final(self)) && trace.len() == n + 1
                },
                Err(f) => {
                    // the counter ran out: `u64::MAX` steps taken and the state still not final
                    ||| f == Fault::TooManySteps && !is_final(*final(self)) && exists|
                        trace: Seq<State<'a>>,
                    | #[trigger]
                        is_run(module, trace, *old(self), *final(self)) && trace.len()
                            == u64::MAX as nat + 1
                    // a step from a reachable state that is not final failed with `f`
                    ||| exists|trace: Seq<State<'a>>, last: State<'a>| #[trigger]
                        is_run(module, trace, *old(self), last) && !is_final(last) && step_spec(
                            module,
                            last,
                            *final(self),
                            Err(f),
                        )
                },
            },
    {
        let mut count: u64 = 0;
        let ghost start = *self;
        let ghost mut trace: Seq<State<'a>> = seq![*self];
        while !self.is_final()
            invariant
                start == *old(self),
                wf_state(*self),
                is_run(module, trace, start, *self),
                trace.len() == count + 1,
            decreases u64::MAX - count,
        {
            if count == u64::MAX {
                assert(is_run(module, trace, start, *self));
                return Err(Fault::TooManySteps);
            }
            let ghost before = *self;
            match self.step(module) {
                Ok(()) => {},
                Err(f) => {
                    assert(is_run(module, trace, start, before) && step_spec(
                        module,
                        before,
                        *self,
                        Err(f),
                    ));
                    return Err(f);
                },
            }
            proof {
                let next = trace.push(*self);
                assert forall|i: int| 0 <= i < next.len() - 1 implies !is_final(#[trigger] next[i])
                    && step_spec(module, next[i], next[i + 1], Ok(())) by {
                    if i < trace.len() - 1 {
                        assert(next[i] == trace[i] && next[i + 1] == trace[i + 1]);
                    }
                }
                trace = next;
            }
            count = count + 1;
        }
        assert(is_run(module, trace, start, *self));
        Ok(count)
    }
}

} // verus!
