use cek::ast::{Altn, Defn, External, Expr, Lambda, Module};
use cek::cek::State;
use proptest::test_runner::{Config, TestRunner};

fn local(idx: usize) -> Expr {
    Expr::Local { name: String::from("x"), idx }
}

fn global(name: &str) -> Expr {
    Expr::Global { name: String::from(name) }
}

fn ext(name: External) -> Expr {
    Expr::External { name }
}

fn pack(tag: usize, arity: usize) -> Expr {
    Expr::Pack { tag, arity }
}

fn num(value: i64) -> Expr {
    Expr::Num { value }
}

fn ap(fun: Expr, args: Vec<Expr>) -> Expr {
    Expr::Ap { fun: Box::new(fun), args }
}

fn call(name: &str, args: Vec<Expr>) -> Expr {
    ap(global(name), args)
}

fn op(name: External, args: Vec<Expr>) -> Expr {
    ap(ext(name), args)
}

fn let_in(rhs: Expr, body: Expr) -> Expr {
    Expr::Let { defn: Box::new(Defn { lhs: String::from("x"), rhs }), body: Box::new(body) }
}

fn altn(binds: usize, rhs: Expr) -> Altn {
    Altn { binds: (0..binds).map(|_| None).collect(), rhs }
}

fn match_on(expr: Expr, altns: Vec<Altn>) -> Expr {
    Expr::Match { expr: Box::new(expr), altns }
}

/// `if c then yes else no`, with `False` the constructor 0 and `True` the constructor 1.
fn if_then(c: Expr, yes: Expr, no: Expr) -> Expr {
    match_on(c, vec![altn(0, no), altn(0, yes)])
}

fn unit() -> Expr {
    pack(0, 0)
}

fn cons(head: Expr, tail: Expr) -> Expr {
    ap(pack(1, 2), vec![head, tail])
}

fn define(module: &mut Module, name: &str, arity: usize, body: Expr) {
    module.insert(String::from(name), Lambda { binds: (0..arity).map(|_| None).collect(), body });
}

/// `print_list(xs)` writes each element of a list as a character.
fn define_print_list(module: &mut Module) {
    let body = match_on(
        local(1),
        vec![
            altn(0, unit()),
            altn(2, op(External::seq, vec![op(External::putc, vec![local(2)]), call("print_list", vec![local(1)])])),
        ],
    );
    define(module, "print_list", 1, body);
}

fn hello_module() -> Module {
    let mut module = Module::new();
    define_print_list(&mut module);
    let mut text = unit();
    for b in "Hello World!\n".bytes().rev() {
        text = cons(num(b as i64), text);
    }
    define(&mut module, "main", 1, call("print_list", vec![text]));
    module
}

fn rev_module() -> Module {
    let mut module = Module::new();
    define_print_list(&mut module);
    // read_rev(acc): read characters up to the end of input, consing each onto acc
    let body = let_in(
        op(External::getc, vec![unit()]),
        if_then(
            op(External::lt, vec![local(1), num(0)]),
            local(2),
            call("read_rev", vec![cons(local(1), local(2))]),
        ),
    );
    define(&mut module, "read_rev", 1, body);
    define(&mut module, "main", 1, call("print_list", vec![call("read_rev", vec![unit()])]));
    module
}

fn monad_io_module() -> Module {
    let mut module = Module::new();
    // count_down(k): print k, k-1, ..., 0
    let body = op(
        External::seq,
        vec![
            op(External::puti, vec![local(1)]),
            if_then(
                op(External::le, vec![local(1), num(0)]),
                unit(),
                call("count_down", vec![op(External::sub, vec![local(1), num(1)])]),
            ),
        ],
    );
    define(&mut module, "count_down", 1, body);
    // repeat(n, k): count down from k, n times
    let body = if_then(
        op(External::le, vec![local(2), num(0)]),
        unit(),
        op(
            External::seq,
            vec![
                call("count_down", vec![local(1)]),
                call("repeat", vec![op(External::sub, vec![local(2), num(1)]), local(1)]),
            ],
        ),
    );
    define(&mut module, "repeat", 2, body);
    let body = let_in(
        op(External::geti, vec![local(1)]),
        let_in(op(External::geti, vec![local(2)]), call("repeat", vec![local(2), local(1)])),
    );
    define(&mut module, "main", 1, body);
    module
}

fn wildcard_module() -> Module {
    let mut module = Module::new();
    let first = Altn { binds: vec![Some(String::from("a")), None], rhs: op(External::puti, vec![local(2)]) };
    let second = Altn { binds: vec![None, Some(String::from("b"))], rhs: op(External::puti, vec![local(1)]) };
    let body = let_in(
        op(External::geti, vec![local(1)]),
        let_in(
            op(External::geti, vec![local(2)]),
            let_in(
                ap(pack(0, 2), vec![local(2), local(1)]),
                op(External::seq, vec![match_on(local(1), vec![first]), match_on(local(1), vec![second])]),
            ),
        ),
    );
    define(&mut module, "main", 1, body);
    module
}

fn queens_module() -> Module {
    let mut module = Module::new();
    let no = || pack(0, 0);
    // safe(qs, c, d): no queen of qs attacks column c, d rows further down
    let attacked = if_then(
        op(External::eq, vec![local(2), local(4)]),
        no(),
        if_then(
            op(External::eq, vec![local(2), op(External::add, vec![local(4), local(3)])]),
            no(),
            if_then(
                op(External::eq, vec![local(2), op(External::sub, vec![local(4), local(3)])]),
                no(),
                call("safe", vec![local(1), local(4), op(External::add, vec![local(3), num(1)])]),
            ),
        ),
    );
    let body = match_on(local(3), vec![altn(0, pack(1, 0)), altn(2, attacked)]);
    define(&mut module, "safe", 3, body);
    // place(n, row, qs): the number of ways to fill rows row..n
    let body = if_then(
        op(External::eq, vec![local(2), local(3)]),
        num(1),
        call("try", vec![local(3), local(2), local(1), num(0)]),
    );
    define(&mut module, "place", 3, body);
    // try(n, row, qs, c): the number of ways with this row's queen in columns c..n
    let here = if_then(
        call("safe", vec![local(2), local(1), num(1)]),
        call("place", vec![local(4), op(External::add, vec![local(3), num(1)]), cons(local(1), local(2))]),
        num(0),
    );
    let body = if_then(
        op(External::eq, vec![local(1), local(4)]),
        num(0),
        op(
            External::add,
            vec![here, call("try", vec![local(4), local(3), local(2), op(External::add, vec![local(1), num(1)])])],
        ),
    );
    define(&mut module, "try", 4, body);
    let body = op(
        External::puti,
        vec![call("place", vec![op(External::geti, vec![local(1)]), num(0), unit()])],
    );
    define(&mut module, "main", 1, body);
    module
}

/// `read_nums(n)` reads `n` integers into a list; `print_nums(xs)` prints one per line.
fn define_num_io(module: &mut Module) {
    let body = if_then(
        op(External::le, vec![local(1), num(0)]),
        unit(),
        let_in(
            op(External::geti, vec![unit()]),
            cons(local(1), call("read_nums", vec![op(External::sub, vec![local(2), num(1)])])),
        ),
    );
    define(module, "read_nums", 1, body);
    let body = match_on(
        local(1),
        vec![
            altn(0, unit()),
            altn(2, op(External::seq, vec![op(External::puti, vec![local(2)]), call("print_nums", vec![local(1)])])),
        ],
    );
    define(module, "print_nums", 1, body);
    let body = call("print_nums", vec![call("sort", vec![call("read_nums", vec![op(External::geti, vec![local(1)])])])]);
    define(module, "main", 1, body);
}

fn isort_module() -> Module {
    let mut module = Module::new();
    define_num_io(&mut module);
    // insert(x, xs): put x before the first element of xs that is not smaller
    let body = match_on(
        local(1),
        vec![
            altn(0, cons(local(2), unit())),
            altn(
                2,
                if_then(
                    op(External::le, vec![local(4), local(2)]),
                    cons(local(4), local(3)),
                    cons(local(2), call("insert", vec![local(4), local(1)])),
                ),
            ),
        ],
    );
    define(&mut module, "insert", 2, body);
    let body = match_on(
        local(1),
        vec![altn(0, unit()), altn(2, call("insert", vec![local(2), call("sort", vec![local(1)])]))],
    );
    define(&mut module, "sort", 1, body);
    module
}

/// `name(p, xs)`: the elements `h` of xs for which `test(h, p)` holds.
fn define_filter(module: &mut Module, name: &str, test: External) {
    let body = match_on(
        local(1),
        vec![
            altn(0, unit()),
            altn(
                2,
                if_then(
                    op(test, vec![local(2), local(4)]),
                    cons(local(2), call(name, vec![local(4), local(1)])),
                    call(name, vec![local(4), local(1)]),
                ),
            ),
        ],
    );
    define(module, name, 2, body);
}

fn qsort_module() -> Module {
    let mut module = Module::new();
    define_num_io(&mut module);
    define_filter(&mut module, "lows", External::lt);
    define_filter(&mut module, "highs", External::ge);
    // append(xs, ys)
    let body = match_on(
        local(2),
        vec![altn(0, local(1)), altn(2, cons(local(2), call("append", vec![local(1), local(3)])))],
    );
    define(&mut module, "append", 2, body);
    let body = match_on(
        local(1),
        vec![
            altn(0, unit()),
            altn(
                2,
                call(
                    "append",
                    vec![
                        call("sort", vec![call("lows", vec![local(2), local(1)])]),
                        cons(local(2), call("sort", vec![call("highs", vec![local(2), local(1)])])),
                    ],
                ),
            ),
        ],
    );
    define(&mut module, "sort", 1, body);
    module
}

fn module_named(name: &str) -> Module {
    match name {
        "hello" => hello_module(),
        "rev" => rev_module(),
        "monad_io" => monad_io_module(),
        "wildcard" => wildcard_module(),
        "queens" => queens_module(),
        "isort" => isort_module(),
        "qsort" => qsort_module(),
        _ => panic!("no program named {}", name),
    }
}

fn test_text(name: &str, input: &str, expected_output: &str) {
    let module = module_named(name);
    let entry_point = Expr::entry_point();
    let mut state = State::from_expr(&entry_point, input.as_bytes().to_vec());
    let _count = state.run(&module).unwrap();
    let actual_output = std::str::from_utf8(state.io.output()).unwrap();
    assert!(
        actual_output == expected_output,
        "\n  expected output: {:?}\n    actual output: {:?}\n",
        expected_output,
        actual_output
    );
}

fn test_numeric(name: &str, input: &[i64], expected_output: &[i64]) {
    let input: String = input.iter().map(|x| x.to_string() + "\n").collect();
    let expected_output: String = expected_output.iter().map(|x| x.to_string() + "\n").collect();
    test_text(name, &input, &expected_output);
}

fn test_sort(name: &str) {
    let config = Config { cases: 20, ..Config::default() };
    let mut runner = TestRunner::new(config);
    let strategy = proptest::collection::vec(-100..100_i64, 0..100);
    let result = runner.run(&strategy, |v| {
        let mut input = vec![v.len() as i64];
        input.extend(v.iter());
        let mut expected_output = v.clone();
        expected_output.sort();
        test_numeric(name, &input, &expected_output);
        Ok(())
    });
    result.expect("test_sort failed");
}

#[test]
fn hello() {
    test_text("hello", "", "Hello World!\n");
}

#[test]
fn rev() {
    test_text("rev", "abc", "cba");
}

#[test]
fn monad_io() {
    test_numeric("monad_io", &[3, 2], &[2, 1, 0, 2, 1, 0, 2, 1, 0]);
}

#[test]
fn wildcard() {
    test_numeric("wildcard", &[7, 13], &[7, 13]);
}

#[test]
fn queens() {
    test_numeric("queens", &[8], &[92]);
}

#[test]
fn qsort() {
    test_sort("qsort");
}

#[test]
fn isort() {
    test_sort("isort");
}
