use vstd::prelude::*;

verus! {

/// The built-in operations of the machine.
#[allow(non_camel_case_types)]
#[derive(Debug, Clone, Copy, PartialEq, Eq, Hash)]
pub enum External {
    add,
    sub,
    mul,
    neg,
    eq,
    le,
    lt,
    gt,
    ge,
    chr,
    ord,
    puti,
    putc,
    geti,
    getc,
    seq,
}

/// Number of arguments a built-in takes before it fires.
pub open spec fn external_arity(op: External) -> nat {
    match op {
        External::neg | External::chr | External::ord | External::puti | External::putc
        | External::geti | External::getc => 1,
        _ => 2,
    }
}

impl External {
    pub fn arity(self) -> (r: usize)
        ensures
            r == external_arity(self),
    {
        match self {
            External::add => 2,
            External::sub => 2,
            External::mul => 2,
            External::neg => 1,
            External::eq => 2,
            External::le => 2,
            External::lt => 2,
            External::gt => 2,
            External::ge => 2,
            External::chr => 1,
            External::ord => 1,
            External::puti => 1,
            External::putc => 1,
            External::geti => 1,
            External::getc => 1,
            External::seq => 2,
        }
    }
}

/// Elaborated expressions; locals are positional indices counted from the top of the
/// environment, starting at 1.
#[allow(inconsistent_fields)]
#[derive(Debug)]
pub enum Expr {
    Local { name: String, idx: usize },
    Global { name: String },
    External { name: External },
    Pack { tag: usize, arity: usize },
    Num { value: i64 },
    Ap { fun: Box<Expr>, args: Vec<Expr> },
    Let { defn: Box<Defn>, body: Box<Expr> },
    Match { expr: Box<Expr>, altns: Vec<Altn> },
}

#[derive(Debug)]
pub struct Defn {
    pub lhs: String,
    pub rhs: Expr,
}

/// One branch of a match; `binds` has one entry per field of the constructor.
#[derive(Debug)]
pub struct Altn {
    pub binds: Vec<Option<String>>,
    pub rhs: Expr,
}

/// A top-level declaration of a module file.
#[derive(Debug)]
pub enum TopLevel {
    Def { name: String, binds: Vec<Option<String>>, body: Expr },
    Asm { name: String },
}

/// A global function; its arity is the number of binders.
#[derive(Debug)]
pub struct Lambda {
    pub binds: Vec<Option<String>>,
    pub body: Expr,
}

/// `Ap(Global("main"), [Pack(0, 0)])`.
pub open spec fn is_entry_point(e: Expr) -> bool {
    match e {
        Expr::Ap { fun, args } => {
            &&& args@.len() == 1
            &&& args@[0] == (Expr::Pack { tag: 0, arity: 0 })
            &&& match *fun {
                Expr::Global { name } => name@ == "main"@,
                _ => false,
            }
        },
        _ => false,
    }
}

impl Expr {
    /// `main` applied to the unit constructor.
    pub fn entry_point() -> (r: Expr)
        ensures
            is_entry_point(r),
    {
        proof {
            reveal_strlit("main");
        }
        let mut args: Vec<Expr> = Vec::new();
        args.push(Expr::Pack { tag: 0, arity: 0 });
        Expr::Ap { fun: Box::new(Expr::Global { name: String::from_str("main") }), args }
    }
}

impl TopLevel {
    /// The named lambda of a definition; `None` for an assembly placeholder.
    pub fn lambda(self) -> (r: Option<(String, Lambda)>)
        ensures
            match self {
                TopLevel::Def { name, binds, body } => r == Some((name, Lambda { binds, body })),
                TopLevel::Asm { .. } => r.is_none(),
            },
    {
        match self {
            TopLevel::Def { name, binds, body } => Some((name, Lambda { binds, body })),
            TopLevel::Asm { .. } => None,
        }
    }
}

/// The definition that a name resolves to: the last one recorded under it.
pub open spec fn lookup(defs: Seq<(String, Lambda)>, name: Seq<char>) -> Option<Lambda>
    decreases defs.len(),
{
    if defs.len() == 0 {
        None
    } else if defs.last().0@ == name {
        Some(defs.last().1)
    } else {
        lookup(defs.drop_last(), name)
    }
}

/// The global definitions of a program, in the order they were added.
pub struct Module {
    defs: Vec<(String, Lambda)>,
}

impl Module {
    pub closed spec fn defs(&self) -> Seq<(String, Lambda)> {
        self.defs@
    }

    pub open spec fn spec_get(&self, name: Seq<char>) -> Option<Lambda> {
        lookup(self.defs(), name)
    }

    pub fn new() -> (r: Module)
        ensures
            r.defs().len() == 0,
    {
        Module { defs: Vec::new() }
    }

    /// Adds a definition; a later definition of a name shadows earlier ones.
    pub fn insert(&mut self, name: String, lam: Lambda)
        ensures
            final(self).defs() == old(self).defs().push((name, lam)),
    {
        self.defs.push((name, lam));
    }

    /// Builds a module from declarations, dropping assembly placeholders.
    pub fn from_top_levels(decls: Vec<TopLevel>) -> (r: Module)
        ensures
            r.defs() == defs_of(decls@),
    {
        let mut m = Module::new();
        let mut decls = decls;
        let ghost all = decls@;
        let n = decls.len();
        let mut i: usize = 0;
        while i < n
            invariant
                n == all.len(),
                0 <= i <= n,
                decls@ == all.subrange(i as int, n as int),
                m.defs() == defs_of(all.subrange(0, i as int)),
            decreases n - i,
        {
            let d = decls.remove(0);
            proof {
                assert(all.subrange(0, i + 1).drop_last() =~= all.subrange(0, i as int));
                assert(decls@ =~= all.subrange(i + 1, n as int));
            }
            match d.lambda() {
                Some((name, lam)) => m.insert(name, lam),
                None => {},
            }
            i = i + 1;
        }
        proof {
            assert(all.subrange(0, n as int) =~= all);
        }
        m
    }

    /// The lambda that `name` resolves to.
    pub fn get(&self, name: &String) -> (r: Option<&Lambda>)
        ensures
            match self.spec_get(name@) {
                Some(l) => r == Some(&l),
                None => r.is_none(),
            },
    {
        let mut i: usize = self.defs.len();
        assert(self.defs@.subrange(0, i as int) =~= self.defs@);
        while i > 0
            invariant
                i <= self.defs@.len(),
                lookup(self.defs@, name@) == lookup(self.defs@.subrange(0, i as int), name@),
            decreases i,
        {
            let ghost pre = self.defs@.subrange(0, i as int);
            assert(pre.drop_last() =~= self.defs@.subrange(0, i - 1));
            if self.defs[i - 1].0 == *name {
                return Some(&self.defs[i - 1].1);
            }
            i = i - 1;
        }
        None
    }
}

/// The lambdas that a list of declarations defines, in order.
pub open spec fn defs_of(decls: Seq<TopLevel>) -> Seq<(String, Lambda)>
    decreases decls.len(),
{
    if decls.len() == 0 {
        Seq::empty()
    } else {
        match decls.last() {
            TopLevel::Def { name, binds, body } => defs_of(decls.drop_last()).push(
                (name, Lambda { binds, body }),
            ),
            TopLevel::Asm { .. } => defs_of(decls.drop_last()),
        }
    }
}

} // verus!
