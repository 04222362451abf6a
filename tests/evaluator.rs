use stack_lang::machine::{execute_command, Action, Arith, Executor, Math, Mode, Reply, Request};
use stack_lang::value::Type;

/// Parses a number text the way the host does: a text that does not parse is 0.
fn num(t: &str) -> f64 {
    t.parse::<f64>().unwrap_or(0.0)
}

/// A host that computes in IEEE-754 doubles and answers nothing else.
fn answer(req: Request) -> Reply {
    match req {
        Request::Parse(t) => Reply::Number(num(&t).to_string()),
        Request::Arith(op, a, b) => {
            let (a, b) = (num(&a), num(&b));
            let r = match op {
                Arith::Add => a + b,
                Arith::Sub => a - b,
                Arith::Mul => a * b,
                Arith::Div => a / b,
                Arith::Rem => a % b,
                Arith::Pow => a.powf(b),
            };
            Reply::Number(r.to_string())
        }
        Request::Math(op, a) => {
            let a = num(&a);
            let r = match op {
                Math::Round => a.round(),
                Math::Sin => a.sin(),
                Math::Cos => a.cos(),
                Math::Tan => a.tan(),
            };
            Reply::Number(r.to_string())
        }
        Request::Less(a, b) => Reply::Flag(num(&a) < num(&b)),
        _ => Reply::Done,
    }
}

fn drive(executor: &mut Executor, first: Action) {
    let mut action = first;
    loop {
        action = match action {
            Action::Continue => executor.step(),
            Action::Finished => break,
            Action::Ask(req) => {
                let reply = answer(req);
                executor.resume(reply)
            }
        }
    }
}

fn evaluate(executor: &mut Executor, code: &str) {
    executor.evaluate_program(code.to_string());
    let first = executor.step();
    drive(executor, first);
}

fn top(executor: &mut Executor) -> String {
    executor.pop_stack().display()
}

fn run(code: &str) -> Executor {
    let mut executor = Executor::new(Mode::Script);
    evaluate(&mut executor, code);
    executor
}

#[test]
fn calculate() {
    let mut executor = Executor::new(Mode::Script);
    evaluate(&mut executor, "5 8 add");
    assert_eq!(num(&executor.pop_stack().get_number()), 13f64);
    evaluate(&mut executor, "8 3 sub");
    assert_eq!(num(&executor.pop_stack().get_number()), 5f64);
    evaluate(&mut executor, "5 8 mul");
    assert_eq!(num(&executor.pop_stack().get_number()), 40f64);
    evaluate(&mut executor, "10 5 div");
    assert_eq!(num(&executor.pop_stack().get_number()), 2f64);
    evaluate(&mut executor, "3 2 pow");
    assert_eq!(num(&executor.pop_stack().get_number()), 9f64);
}

#[test]
fn variables() {
    let mut executor = Executor::new(Mode::Script);
    evaluate(&mut executor, "5987 (x) var x");
    assert_eq!(num(&executor.pop_stack().get_number()), 5987f64);
    evaluate(&mut executor, "5987 (x) var x 1 add (x) var x");
    assert_eq!(num(&executor.pop_stack().get_number()), 5988f64);
}

#[test]
fn control_if() {
    let mut executor = Executor::new(Mode::Script);
    evaluate(&mut executor, "(true) (false) 10 2 div 5 equal if");
    assert_eq!(executor.pop_stack().get_bool(), true);
    evaluate(&mut executor, "(true) (false) 10 2 div 4 equal if");
    assert_eq!(executor.pop_stack().get_bool(), false);
}

#[test]
fn control_while() {
    let mut executor = Executor::new(Mode::Script);
    evaluate(&mut executor, "5 (i) var (i 1 add (i) var) (i 10 less) while i");
    assert_eq!(num(&executor.pop_stack().get_number()), 10f64);
}

#[test]
fn map_squares() {
    let mut e = run("[1 2 3] (x) (x x mul) map");
    assert_eq!(top(&mut e), "[1 4 9]");
}

#[test]
fn index_found_and_missing() {
    let mut e = run("[(apple) (banana) (cherry)] (banana) index");
    assert_eq!(top(&mut e), "1");
    let mut e = run("[(apple) (banana) (cherry)] (date) index");
    assert_eq!(top(&mut e), "error:item-not-found");
}

#[test]
fn copy_then_equal() {
    for code in ["5 copy equal", "(text) copy equal", "[1 (a) [true]] copy equal", "error:x copy equal"] {
        let mut e = run(code);
        assert_eq!(top(&mut e), "true");
    }
}

#[test]
fn swap_twice() {
    let mut e = run("1 (two) [3] swap swap");
    assert_eq!(e.stack.len(), 3);
    assert_eq!(top(&mut e), "[3]");
    assert_eq!(top(&mut e), "(two)");
    assert_eq!(top(&mut e), "1");
}

#[test]
fn cast_round_trip() {
    let mut e = run("2.5 (string) cast (number) cast");
    assert_eq!(top(&mut e), "2.5");
    let mut e = run("true (string) cast (bool) cast");
    assert_eq!(top(&mut e), "true");
    let mut e = run("(abc) (string) cast");
    assert_eq!(top(&mut e), "(abc)");
    let mut e = run("[1 2] (list) cast len");
    assert_eq!(top(&mut e), "2");
}

#[test]
fn reverse_twice() {
    let mut e = run("[1 (b) false] reverse");
    assert_eq!(top(&mut e), "[false (b) 1]");
    let mut e = run("[1 (b) false] reverse reverse");
    assert_eq!(top(&mut e), "[1 (b) false]");
}

#[test]
fn sort_orders_and_is_idempotent() {
    let mut e = run("[(pear) 10 (apple) 9] sort");
    assert_eq!(top(&mut e), "[(10) (9) (apple) (pear)]");
    let mut e = run("[(pear) 10 (apple) 9] sort sort");
    assert_eq!(top(&mut e), "[(10) (9) (apple) (pear)]");
}

#[test]
fn split_then_join() {
    let mut e = run("(a,b,,c) (,) split");
    assert_eq!(top(&mut e), "[(a) (b) () (c)]");
    let mut e = run("(a,b,,c) (,) split (,) join");
    assert_eq!(top(&mut e), "(a,b,,c)");
    let mut e = run("(abc) () split");
    assert_eq!(top(&mut e), "[() (a) (b) (c) ()]");
    let mut e = run("(abc) () split () join");
    assert_eq!(top(&mut e), "(abc)");
}

#[test]
fn len_counts_items() {
    let mut e = run("[1 (two) [3 4] false] len");
    assert_eq!(top(&mut e), "4");
    let mut e = run("[] len");
    assert_eq!(top(&mut e), "0");
    let mut e = run("[1 2 add] len");
    assert_eq!(top(&mut e), "1");
}

#[test]
fn range_steps() {
    let mut e = run("2 11 3 range");
    assert_eq!(top(&mut e), "[2 5 8]");
    let mut e = run("0 3 1 range");
    assert_eq!(top(&mut e), "[0 1 2]");
    let mut e = run("5 5 1 range");
    assert_eq!(top(&mut e), "[]");
    let mut e = run("1 5 0 range");
    assert_eq!(top(&mut e), "[]");
    let mut e = run("(1) (4) (2) range");
    assert_eq!(top(&mut e), "[1 3]");
}

#[test]
fn extra_whitespace_keeps_tokens() {
    let e = Executor::new(Mode::Script);
    let a = e.analyze_syntax("1 (a b) [x  y]  add".to_string());
    let b = e.analyze_syntax("1   (a b)\t[x  y]\n\u{3000}add ".to_string());
    assert_eq!(a, vec!["1", "(a b)", "[x  y]", "add"]);
    assert_eq!(a, b);
}

#[test]
fn lexer_escapes_and_comments() {
    let e = Executor::new(Mode::Script);
    let t = e.analyze_syntax("# a comment # x\\ y (p \\) q)".to_string());
    assert_eq!(t, vec!["# a comment #", "x y", "(p \\) q)"]);
    let mut e = run("(a\\nb)");
    assert_eq!(top(&mut e), "(a\\nb)");
    let mut e = run("# note # 7");
    assert_eq!(top(&mut e), "7");
}

#[test]
fn pop_on_empty_gives_empty_string() {
    let mut e = Executor::new(Mode::Script);
    assert_eq!(top(&mut e), "()");
    let mut e = run("pop size-stack");
    assert_eq!(top(&mut e), "0");
}

#[test]
fn stack_heights() {
    let e = run("1 2 3 swap");
    assert_eq!(e.stack.len(), 3);
    let e = run("1 copy");
    assert_eq!(e.stack.len(), 2);
    let e = run("1 2 3 (a) (b) (c) replace");
    assert_eq!(e.stack.len(), 4);
    let e = run("[1] 5 get");
    assert_eq!(e.stack.len(), 1);
}

#[test]
fn list_commands() {
    let mut e = run("[1 2 3] 1 get");
    assert_eq!(top(&mut e), "2");
    let mut e = run("[1 2 3] 3 get");
    assert_eq!(top(&mut e), "error:index-out-range");
    let mut e = run("[1 2 3] 1 (x) set");
    assert_eq!(top(&mut e), "[1 (x) 3]");
    let mut e = run("[1 2 3] 0 del");
    assert_eq!(top(&mut e), "[2 3]");
    let mut e = run("[1 2 3] 7 del");
    assert_eq!(top(&mut e), "error:index-out-range");
    let mut e = run("[1 2] 3 append");
    assert_eq!(top(&mut e), "[1 2 3]");
    let mut e = run("[1 3] 1 2 insert");
    assert_eq!(top(&mut e), "[1 2 3]");
    let mut e = run("[1 3] 5 2 insert");
    assert_eq!(top(&mut e), "error:index-out-range");
    let mut e = run("[1 2 3] (1) get");
    assert_eq!(top(&mut e), "2");
}

#[test]
fn string_commands() {
    let mut e = run("(ab) 3 repeat");
    assert_eq!(top(&mut e), "(ababab)");
    let mut e = run("(foo) (bar) concat");
    assert_eq!(top(&mut e), "(foobar)");
    let mut e = run("(a-b-c) (-) (+) replace");
    assert_eq!(top(&mut e), "(a+b+c)");
    let mut e = run("(haystack) (st) find");
    assert_eq!(top(&mut e), "true");
    let mut e = run("(haystack) (xy) find");
    assert_eq!(top(&mut e), "false");
    let mut e = run("[1 (a) true] (-) join");
    assert_eq!(top(&mut e), "(1-a-true)");
    let mut e = run("65 decode");
    assert_eq!(top(&mut e), "(A)");
    let mut e = run("55296 decode");
    assert_eq!(top(&mut e), "error:number-decoding");
    let mut e = run("(A) encode");
    assert_eq!(top(&mut e), "65");
    let mut e = run("() encode");
    assert_eq!(top(&mut e), "error:string-encoding");
}

#[test]
fn case_folding() {
    let mut e = run("(HeLLo) (lower) case");
    assert_eq!(top(&mut e), "(hello)");
    let mut e = run("(HeLLo) (upper) case");
    assert_eq!(top(&mut e), "(HELLO)");
    let mut e = run("(HeLLo) (title) case");
    assert_eq!(top(&mut e), "(HeLLo)");
}

#[test]
fn regex_search() {
    let mut e = run("(a1b22c333) ([0-9]+) regex");
    assert_eq!(top(&mut e), "[(1) (22) (333)]");
    let mut e = run("(abc) ([) regex");
    assert_eq!(top(&mut e), "error:regex");
}

#[test]
fn random_commands() {
    let mut e = run("[7] rand");
    assert_eq!(top(&mut e), "7");
    let mut e = run("[] rand");
    assert_eq!(top(&mut e), "[]");
    let mut e = run("[3 1 2] shuffle sort");
    assert_eq!(top(&mut e), "[(1) (2) (3)]");
}

#[test]
fn arithmetic_and_logic() {
    let mut e = run("7 2 mod");
    assert_eq!(top(&mut e), "1");
    let mut e = run("2.5 round");
    assert_eq!(top(&mut e), "3");
    let mut e = run("0 sin");
    assert_eq!(top(&mut e), "0");
    let mut e = run("true false or true and not");
    assert_eq!(top(&mut e), "false");
    let mut e = run("(4) true add");
    assert_eq!(top(&mut e), "5");
    let mut e = run("1 2 less");
    assert_eq!(top(&mut e), "true");
}

#[test]
fn functional_commands() {
    let mut e = run("[1 2 3 4] (x) (x 2 mod 0 equal) filter");
    assert_eq!(top(&mut e), "[2 4]");
    let mut e = run("[1 2 3 4] (acc) 0 (n) (acc n add) reduce");
    assert_eq!(top(&mut e), "10");
    let mut e = run("[1 2 3 4] (acc) 0 (n) (acc n add) reduce pop acc");
    assert_eq!(top(&mut e), "()");
    let mut e = run("0 (s) var [1 2 3] (x) (s x add (s) var) for s");
    assert_eq!(top(&mut e), "6");
    let mut e = run("(1 2 add) eval");
    assert_eq!(top(&mut e), "3");
}

#[test]
fn memory_commands() {
    let mut e = run("1 (a) var 2 (b) var mem");
    assert_eq!(top(&mut e), "[(a) (b)]");
    let mut e = run("1 (a) var (a) free a");
    assert_eq!(top(&mut e), "(a)");
    let mut e = run("1 2 get-stack");
    assert_eq!(top(&mut e), "[1 2]");
    let mut e = run("1 2 size-stack");
    assert_eq!(top(&mut e), "2");
    let mut e = run("(x) type");
    assert_eq!(top(&mut e), "(string)");
    let mut e = run("error:oops");
    assert_eq!(top(&mut e), "error:oops");
    let mut e = run("unknownword");
    assert_eq!(top(&mut e), "(unknownword)");
}

#[test]
fn objects() {
    let class = "[(Point) [(x)] [(y) 0] [(show) (self (x) property)]]";
    let mut e = run(&format!("{class} [5] instance"));
    assert_eq!(top(&mut e), "Object<Point>");
    let mut e = run(&format!("{class} [5] instance (x) property"));
    assert_eq!(top(&mut e), "5");
    let mut e = run(&format!("{class} [5] instance (y) property"));
    assert_eq!(top(&mut e), "0");
    let mut e = run(&format!("{class} [5] instance (z) property"));
    assert_eq!(top(&mut e), "error:property");
    let mut e = run(&format!("{class} [5] instance (y) 9 modify (y) property"));
    assert_eq!(top(&mut e), "9");
    let mut e = run(&format!("{class} [5] instance all"));
    assert_eq!(top(&mut e), "[(x) (y) (show)]");
    let mut e = run(&format!("{class} [5] instance (show) method"));
    assert_eq!(top(&mut e), "5");
    let mut e = run(&format!("{class} [5] instance type"));
    assert_eq!(top(&mut e), "(Point)");
    let mut e = run(&format!("{class} [] instance"));
    assert_eq!(top(&mut e), "error:instance-shortage");
    let mut e = run("[] [] instance");
    assert_eq!(top(&mut e), "error:instance-name");
    let mut e = run("[(P) []] [] instance");
    assert_eq!(top(&mut e), "error:instance-default");
    let mut e = run("5 (x) property");
    assert_eq!(top(&mut e), "error:not-object");
    let mut e = run("5 all");
    assert_eq!(top(&mut e), "error:not-object");
}

#[test]
fn output_and_host_requests() {
    let mut e = run("(a\\tb) println (c) print");
    assert_eq!(e.take_output(), vec!["a\tb\n".to_string(), "c".to_string()]);
    let mut e = Executor::new(Mode::Script);
    e.evaluate_program("(in.txt) read-file".to_string());
    let a = e.step();
    let a = match a {
        Action::Continue => e.step(),
        other => other,
    };
    match a {
        Action::Ask(Request::ReadFile(path)) => assert_eq!(path, "in.txt"),
        _ => panic!("expected a file read"),
    }
    e.resume(Reply::Failed);
    assert_eq!(top(&mut e), "error:read-file");
}

#[test]
fn unknown_command_is_a_word() {
    let mut e = Executor::new(Mode::Script);
    execute_command(&mut e, "hello".to_string());
    assert_eq!(top(&mut e), "(hello)");
    e.stack.push(Type::Number("1".to_string()));
    e.stack.push(Type::Number("2".to_string()));
    execute_command(&mut e, "swap".to_string());
    assert_eq!(top(&mut e), "1");
}

#[test]
fn object_truth_is_emptiness() {
    let mut e = run("[(P) [(x)]] [1] instance (bool) cast");
    assert_eq!(top(&mut e), "false");
    let mut e = run("[(P)] [] instance (bool) cast");
    assert_eq!(top(&mut e), "true");
}

#[test]
fn coercions() {
    let mut e = run("(abc) (list) cast");
    assert_eq!(top(&mut e), "[(a) (b) (c)]");
    let mut e = run("5 (list) cast");
    assert_eq!(top(&mut e), "[5]");
    let mut e = run("() (bool) cast");
    assert_eq!(top(&mut e), "false");
    let mut e = run("0 (bool) cast");
    assert_eq!(top(&mut e), "false");
    let mut e = run("error:true (bool) cast");
    assert_eq!(top(&mut e), "true");
    let mut e = run("[1 2 3] (number) cast");
    assert_eq!(top(&mut e), "3");
    let mut e = run("(12.50) (number) cast");
    assert_eq!(top(&mut e), "12.5");
    let mut e = run("(x) (error) cast");
    assert_eq!(top(&mut e), "error:x");
    let mut e = run("false (string) cast (bool) cast");
    assert_eq!(top(&mut e), "true");
}

#[test]
fn debug_mode_marks_output() {
    let mut e = Executor::new(Mode::Debug);
    evaluate(&mut e, "(hi) print");
    let out = e.take_output();
    assert!(out.contains(&"[Output]: hi\n".to_string()));
    assert!(out.iter().any(|line| line.starts_with("Stack〔")));
}

#[test]
fn nested_list_literals() {
    let mut e = run("[1 [2 3] (four)]");
    assert_eq!(top(&mut e), "[1 [2 3] (four)]");
    let mut e = run("1 [pop]");
    assert_eq!(top(&mut e), "[]");
    assert_eq!(e.stack.len(), 0);
}

#[test]
fn counts_saturate() {
    let mut e = run("[1 2 3] 1e30 get");
    assert_eq!(top(&mut e), "error:index-out-range");
    let mut e = run("[1 2 3] -1 get");
    assert_eq!(top(&mut e), "error:index-out-range");
    let mut e = run("[1 2 3] -0.5 del");
    assert_eq!(top(&mut e), "error:index-out-range");
    let mut e = run("[1 2 3] -1 (x) set");
    assert_eq!(top(&mut e), "error:index-out-range");
    let mut e = run("[1 2 3] -2 (x) insert");
    assert_eq!(top(&mut e), "error:index-out-range");
    let mut e = run("[1 2 3] -0 get");
    assert_eq!(top(&mut e), "1");
    let mut e = run("[1 2 3] 1.9 get");
    assert_eq!(top(&mut e), "2");
    let mut e = run("(ab) -2 repeat");
    assert_eq!(top(&mut e), "()");
    let mut e = run("(abc) () (-) replace");
    assert_eq!(top(&mut e), "(-a-b-c-)");
}

#[test]
fn join_then_split() {
    let mut e = run("[(a) (bc) ()] (;) join (;) split");
    assert_eq!(top(&mut e), "[(a) (bc) ()]");
}

#[test]
fn host_protocol_steps() {
    let mut e = Executor::new(Mode::Script);
    e.evaluate_program("5 8 add".to_string());
    let mut asks = Vec::new();
    let mut action = e.step();
    loop {
        action = match action {
            Action::Continue => e.step(),
            Action::Finished => break,
            Action::Ask(req) => {
                let shown = format!("{:?}", req);
                asks.push(shown);
                let reply = answer(req);
                e.resume(reply)
            }
        };
    }
    assert_eq!(asks.len(), 3);
    assert!(asks[2].contains("Add"));
    assert_eq!(e.stack.len(), 1);
    assert_eq!(top(&mut e), "13");
    assert_eq!(e.frames.len(), 0);
}
