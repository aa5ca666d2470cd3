use vstd::prelude::*;

use crate::ast::{Expr, Module};
use crate::cek::{Ctrl, Kont, State, is_final, is_initial, is_run, kont_fits, step_spec, wf_state};
use crate::val::{Fault, Prim, Value, lemma_wf_fields};

verus! {

/// Stepping a final state fails: there is no frame to hand its value to.
pub proof fn lemma_final_is_stuck<'a>(module: &'a Module, s: State<'a>, t: State<'a>, r: Result<(), Fault>)
    requires
        is_final(s),
        step_spec(module, s, t, r),
    ensures
        r == Err::<(), Fault>(Fault::NoFrame),
{
}

/// A saturated constructor builds data with exactly as many fields as the arity that
/// the constructor recorded.
pub proof fn lemma_pack_saturated<'a>(
    module: &'a Module,
    s: State<'a>,
    t: State<'a>,
    r: Result<(), Fault>,
    tag: usize,
    arity: usize,
)
    requires
        wf_state(s),
        s.ctrl matches Ctrl::Value(v) && (*v matches Value::PAP(Prim::Pack(tg, ar), _, 0) && tg == tag
            && ar == arity),
        step_spec(module, s, t, r),
    ensures
        r is Ok,
        t.ctrl matches Ctrl::Value(w) && (*w matches Value::Pack(tg, fields) && tg == tag
            && fields@.len() == arity),
{
    let v = s.ctrl->Value_0;
    lemma_wf_fields(&*v);
}

/// A `Pop(n)` frame removes exactly `n` entries from the environment.
pub proof fn lemma_pop_removes_exactly<'a>(
    module: &'a Module,
    s: State<'a>,
    t: State<'a>,
    r: Result<(), Fault>,
    n: usize,
)
    requires
        wf_state(s),
        s.ctrl matches Ctrl::Value(v) && !(*v matches Value::PAP(_, _, 0)),
        s.kont@.len() > 0,
        s.kont@.last() == Kont::Pop(n),
        step_spec(module, s, t, r),
    ensures
        r is Ok,
        t.env.stack@.len() == s.env.stack@.len() - n,
        t.env.stack@ == s.env.stack@.take(s.env.stack@.len() - n),
{
}

/// The entries that the `Pop` frames above the first `Dump` will remove.
pub open spec fn pending_pops(kont: Seq<Kont>) -> nat
    decreases kont.len(),
{
    if kont.len() == 0 {
        0
    } else {
        match kont.last() {
            Kont::Pop(n) => n as nat + pending_pops(kont.drop_last()),
            Kont::Dump(_) => 0,
            _ => pending_pops(kont.drop_last()),
        }
    }
}

/// How many `Dump` frames a stack holds.
pub open spec fn dumps(kont: Seq<Kont>) -> nat
    decreases kont.len(),
{
    if kont.len() == 0 {
        0
    } else {
        (if kont.last() is Dump {
            1nat
        } else {
            0nat
        }) + dumps(kont.drop_last())
    }
}

/// The length that the current environment will return to once all pending `Pop`
/// frames of the current call have fired.
pub open spec fn base_len(s: State) -> int {
    s.env.stack@.len() - pending_pops(s.kont@)
}

proof fn lemma_push_plain(kont: Seq<Kont>, k: Kont)
    requires
        !(k is Pop),
        !(k is Dump),
    ensures
        pending_pops(kont.push(k)) == pending_pops(kont),
        dumps(kont.push(k)) == dumps(kont),
{
    assert(kont.push(k).drop_last() =~= kont);
}

proof fn lemma_push_pop(kont: Seq<Kont>, n: usize)
    ensures
        pending_pops(kont.push(Kont::Pop(n))) == n + pending_pops(kont),
        dumps(kont.push(Kont::Pop(n))) == dumps(kont),
{
    assert(kont.push(Kont::Pop(n)).drop_last() =~= kont);
}

/// The pending `Pop` frames of a well-formed stack never ask for more entries than
/// the environment holds.
proof fn lemma_pending_fits(kont: Seq<Kont>, len: nat)
    requires
        kont_fits(kont, len),
    ensures
        pending_pops(kont) <= len,
    decreases kont.len(),
{
    if kont.len() > 0 {
        match kont.last() {
            Kont::Pop(n) => lemma_pending_fits(kont.drop_last(), (len - n) as nat),
            Kont::Dump(_) => {},
            _ => lemma_pending_fits(kont.drop_last(), len),
        }
    }
}

/// Bindings are balanced: a step that neither enters nor leaves a function keeps both
/// the length that the environment returns to when the current bindings are released
/// and the entries below that length. So after a `Let` body or a `Match` alternative
/// finishes, the environment is as it was before the binding.
pub proof fn lemma_binding_balance<'a>(
    module: &'a Module,
    s: State<'a>,
    t: State<'a>,
    r: Result<(), Fault>,
)
    requires
        wf_state(s),
        step_spec(module, s, t, r),
        r is Ok,
        dumps(t.kont@) == dumps(s.kont@),
    ensures
        base_len(t) == base_len(s),
        0 <= base_len(s) <= s.env.stack@.len(),
        t.env.stack@.take(base_len(t)) == s.env.stack@.take(base_len(s)),
{
    let k = s.kont@;
    lemma_pending_fits(k, s.env.stack@.len());
    if k.len() > 0 {
        assert(k.drop_last().push(k.last()) =~= k);
    }
    match s.ctrl {
        Ctrl::Evaluating => {},
        Ctrl::Expr(e) => match *e {
            Expr::Ap { args, .. } => {
                assert(t.kont@ =~= k.push(Kont::Args(&args, 0)));
                lemma_push_plain(k, Kont::Args(&args, 0));
            },
            Expr::Let { defn, body } => {
                assert(t.kont@ =~= k.push(Kont::Let(&defn.lhs, &*body)));
                lemma_push_plain(k, Kont::Let(&defn.lhs, &*body));
            },
            Expr::Match { altns, .. } => {
                assert(t.kont@ =~= k.push(Kont::Match(&altns)));
                lemma_push_plain(k, Kont::Match(&altns));
            },
            _ => {
                assert(t.kont@ =~= k);
            },
        },
        Ctrl::Value(v) => match *v {
            Value::PAP(Prim::Global(_, _), _, 0) => {
                assert(t.kont@.drop_last() =~= k);
            },
            Value::PAP(_, _, 0) => {
                assert(t.kont@ =~= k);
            },
            _ => {
                match k.last() {
                    Kont::Dump(_) => {
                        assert(t.kont@ =~= k.drop_last());
                    },
                    Kont::Pop(_) => {
                        assert(t.env.stack@.take(base_len(t)) =~= s.env.stack@.take(base_len(s)));
                    },
                    Kont::Args(es, i) => {
                        let rest = t.kont@.drop_last();
                        let base = k.drop_last();
                        let tk = t.kont@;
                        assert(rest =~= tk.take(base.len() as int) + tk.subrange(
                            base.len() as int,
                            tk.len() - 1,
                        ));
                        if i + 1 < es@.len() {
                            assert(rest =~= base.push(Kont::Args(es, (i + 1) as usize)));
                            lemma_push_plain(base, Kont::Args(es, (i + 1) as usize));
                        } else {
                            assert(rest =~= base);
                        }
                        assert(t.kont@ =~= rest.push(t.kont@.last()));
                        lemma_push_plain(rest, t.kont@.last());
                    },
                    Kont::Match(_) => match *v {
                        Value::Pack(_, fields) => {
                            lemma_push_pop(k.drop_last(), fields.len());
                            assert(t.env.stack@.take(base_len(t)) =~= s.env.stack@.take(
                                base_len(s),
                            ));
                        },
                        _ => {},
                    },
                    Kont::Let(_, _) => {
                        lemma_push_pop(k.drop_last(), 1);
                        assert(t.env.stack@.take(base_len(t)) =~= s.env.stack@.take(base_len(s)));
                    },
                    _ => {},
                }
            },
        },
    }
}

/// A program whose entry is an integer literal halts after one step with that integer
/// and no frames left.
pub proof fn lemma_literal_halts<'a>(
    module: &'a Module,
    entry: Expr,
    s: State<'a>,
    t: State<'a>,
    r: Result<(), Fault>,
    n: i64,
)
    requires
        entry == (Expr::Num { value: n }),
        is_initial(s, entry),
        step_spec(module, s, t, r),
    ensures
        r is Ok,
        is_final(t),
        t.ctrl matches Ctrl::Value(v) && *v == Value::Num(n),
        t.kont@.len() == 0,
{
}

/// A run of a program whose entry is an integer literal that ends in a final state
/// takes exactly one step and ends with that integer.
pub proof fn lemma_literal_run<'a>(
    module: &'a Module,
    entry: Expr,
    trace: Seq<State<'a>>,
    s: State<'a>,
    t: State<'a>,
    n: i64,
)
    requires
        entry == (Expr::Num { value: n }),
        is_initial(s, entry),
        is_run(module, trace, s, t),
        is_final(t),
    ensures
        trace.len() == 2,
        t.ctrl matches Ctrl::Value(v) && *v == Value::Num(n),
{
    assert(!is_final(trace[0]));
    assert(step_spec(module, trace[0], trace[1], Ok(())));
    if trace.len() > 2 {
        assert(!is_final(trace[1]));
    }
}

/// A program whose entry is a constructor with no fields halts after two steps with
/// that constructor and no frames left.
pub proof fn lemma_constructor_halts<'a>(
    module: &'a Module,
    entry: Expr,
    s: State<'a>,
    t: State<'a>,
    u: State<'a>,
    r1: Result<(), Fault>,
    r2: Result<(), Fault>,
    tag: usize,
)
    requires
        entry == (Expr::Pack { tag, arity: 0 }),
        is_initial(s, entry),
        step_spec(module, s, t, r1),
        step_spec(module, t, u, r2),
    ensures
        r1 is Ok,
        r2 is Ok,
        is_final(u),
        u.ctrl matches Ctrl::Value(v) && (*v matches Value::Pack(tg, fields) && tg == tag
            && fields@.len() == 0),
        u.kont@.len() == 0,
{
}

} // verus!
