//! The evaluator's state and the integer-valued rules of evaluation.
//!
//! An [`Evaluator`] holds the user-defined functions and a step budget that
//! bounds how much work one input may do. The builtin table, `factorial` and
//! the index, slice and arity checks are the parts of evaluation that do not
//! depend on floating-point arithmetic.

use vstd::prelude::*;
use crate::ast::{Expr, ExprView, names_view};
use crate::text::{decimal, push_decimal, chars_of, spells};

verus! {

/// A user-defined function: `fn name(params) = body`.
pub struct UserFunction {
    pub name: String,
    pub params: Vec<String>,
    pub body: Expr,
}

/// What the evaluator knows of a function: its parameter names and body.
pub type FunctionView = (Seq<Seq<char>>, ExprView);

/// The model of a stored function.
pub open spec fn function_view(f: UserFunction) -> FunctionView {
    (names_view(f.params@), f.body@)
}

/// The evaluator state: user-defined functions and the step budget.
pub struct Evaluator {
    functions: Vec<UserFunction>,
    steps: u64,
    max_steps: i64,
}

/// The message reported when a step limit of `max` is exceeded.
pub open spec fn step_limit_message(max: int) -> Seq<char> {
    "Step limit exceeded (max: "@ + decimal(max as nat) + ")"@
}

/// The step count after one more step (it stays at the largest `u64`).
pub open spec fn next_count(count: nat) -> nat {
    if count < u64::MAX {
        count + 1
    } else {
        count
    }
}

/// A limit that is positive bounds the count; zero or less means unlimited.
pub open spec fn over_limit(count: nat, max: int) -> bool {
    max > 0 && count > max
}

/// What a definition writes, a lookup reads back: once `name` is defined
/// (as `define_function` does), it is found with the new parameters and body,
/// and every other name keeps the function it had, or stays undefined.
pub proof fn law_define_then_lookup(
    before: Evaluator,
    after: Evaluator,
    name: Seq<char>,
    f: FunctionView,
    other: Seq<char>,
)
    requires
        after.functions() == before.functions().insert(name, f),
        other != name,
    ensures
        after.functions().contains_key(name),
        after.functions()[name] == f,
        after.functions().contains_key(other) == before.functions().contains_key(other),
        before.functions().contains_key(other) ==> after.functions()[other]
            == before.functions()[other],
{
}

/// A positive limit `n` allows exactly `n` steps: counting from zero, the
/// `k`-th step fails if and only if `k > n`.
pub proof fn law_step_limit(n: int, k: nat)
    requires
        0 < n <= i64::MAX,
        1 <= k < u64::MAX,
    ensures
        over_limit(next_count((k - 1) as nat), n) <==> k > n,
{
}

/// A limit of zero or less never stops evaluation.
pub proof fn law_unlimited(max: int, count: nat)
    requires
        max <= 0,
    ensures
        !over_limit(count, max),
{
}

impl Evaluator {
    /// The defined functions, by name.
    pub closed spec fn functions(&self) -> Map<Seq<char>, FunctionView> {
        Map::new(
            |k: Seq<char>|
                exists|i: int| 0 <= i < self.functions@.len() && #[trigger] self.functions@[i].name@ == k,
            |k: Seq<char>|
                function_view(
                    self.functions@[choose|i: int|
                        0 <= i < self.functions@.len() && #[trigger] self.functions@[i].name@ == k],
                ),
        )
    }

    /// The number of steps taken since the count was last reset.
    pub closed spec fn steps_taken(&self) -> nat {
        self.steps as nat
    }

    /// The step limit; zero or less means unlimited.
    pub closed spec fn limit(&self) -> int {
        self.max_steps as int
    }

    /// No function name is stored twice.
    #[verifier::type_invariant]
    closed spec fn wf(&self) -> bool {
        forall|i: int, j: int|
            0 <= i < j < self.functions@.len() ==> #[trigger] self.functions@[i].name@
                != #[trigger] self.functions@[j].name@
    }

    /// A new evaluator with no functions and no step limit.
    pub fn new() -> (r: Self)
        ensures
            r.functions() == Map::<Seq<char>, FunctionView>::empty(),
            r.steps_taken() == 0,
            r.limit() == -1,
    {
        let r = Evaluator { functions: Vec::new(), steps: 0, max_steps: -1 };
        assert(r.functions() =~= Map::<Seq<char>, FunctionView>::empty());
        r
    }

    /// A new evaluator with no functions and the step limit `max_steps`
    /// (zero or less means unlimited).
    pub fn with_max_steps(max_steps: i64) -> (r: Self)
        ensures
            r.functions() == Map::<Seq<char>, FunctionView>::empty(),
            r.steps_taken() == 0,
            r.limit() == max_steps,
    {
        let r = Evaluator { functions: Vec::new(), steps: 0, max_steps };
        assert(r.functions() =~= Map::<Seq<char>, FunctionView>::empty());
        r
    }

    /// Changes the step limit; the count and the functions stay.
    pub fn set_max_steps(&mut self, max_steps: i64)
        ensures
            final(self).functions() == old(self).functions(),
            final(self).steps_taken() == old(self).steps_taken(),
            final(self).limit() == max_steps,
    {
        proof {
            use_type_invariant(&*self);
        }
        self.max_steps = max_steps;
    }

    /// Sets the step count back to zero; the limit and the functions stay.
    pub fn reset_steps(&mut self)
        ensures
            final(self).functions() == old(self).functions(),
            final(self).steps_taken() == 0,
            final(self).limit() == old(self).limit(),
    {
        proof {
            use_type_invariant(&*self);
        }
        self.steps = 0;
    }

    /// The number of steps taken since the count was last reset.
    pub fn step_count(&self) -> (r: u64)
        ensures
            r == self.steps_taken(),
    {
        self.steps
    }

    /// The step limit; zero or less means unlimited.
    pub fn max_steps(&self) -> (r: i64)
        ensures
            r == self.limit(),
    {
        self.max_steps
    }

    /// Counts one evaluation step, and fails once the count passes a positive
    /// limit.
    pub fn tick(&mut self) -> (r: Result<(), String>)
        ensures
            final(self).functions() == old(self).functions(),
            final(self).limit() == old(self).limit(),
            final(self).steps_taken() == next_count(old(self).steps_taken()),
            r is Err <==> over_limit(final(self).steps_taken(), old(self).limit()),
            r matches Err(m) ==> m@ == step_limit_message(old(self).limit()),
    {
        proof {
            use_type_invariant(&*self);
        }
        if self.steps < u64::MAX {
            self.steps = self.steps + 1;
        }
        if self.max_steps > 0 && self.steps > self.max_steps as u64 {
            let mut m = String::from_str("Step limit exceeded (max: ");
            push_decimal(&mut m, self.max_steps as u64);
            m.append(")");
            Err(m)
        } else {
            Ok(())
        }
    }

    /// The function called `name`, if one is defined.
    pub fn function(&self, name: &String) -> (r: Option<&UserFunction>)
        ensures
            r is Some <==> self.functions().contains_key(name@),
            r matches Some(f) ==> f.name@ == name@ && function_view(*f) == self.functions()[name@],
    {
        proof {
            use_type_invariant(self);
        }
        let n = self.functions.len();
        for i in 0..n
            invariant
                self.wf(),
                n == self.functions@.len(),
                forall|j: int| 0 <= j < i ==> #[trigger] self.functions@[j].name@ != name@,
        {
            if self.functions[i].name == *name {
                let ghost k = name@;
                assert(self.functions@[i as int].name@ == k);
                assert(self.functions().contains_key(k));
                let ghost c = choose|j: int|
                    0 <= j < self.functions@.len() && #[trigger] self.functions@[j].name@ == k;
                assert(c == i) by {
                    if c < i {
                    } else if c > i {
                        assert(self.functions@[i as int].name@ != self.functions@[c].name@);
                    }
                }
                return Some(&self.functions[i]);
            }
        }
        assert(!self.functions().contains_key(name@));
        None
    }

    /// Defines (or redefines) the function `name`.
    pub fn define_function(&mut self, name: String, params: Vec<String>, body: Expr)
        ensures
            final(self).functions() == old(self).functions().insert(
                name@,
                (names_view(params@), body@),
            ),
            final(self).steps_taken() == old(self).steps_taken(),
            final(self).limit() == old(self).limit(),
    {
        proof {
            use_type_invariant(&*self);
        }
        let ghost k = name@;
        let ghost v: FunctionView = (names_view(params@), body@);
        let ghost before = self.functions();
        let mut fns: Vec<UserFunction> = Vec::new();
        std::mem::swap(&mut fns, &mut self.functions);
        let ghost old_fns = fns@;
        assert(forall|a: int, b: int|
            0 <= a < b < old_fns.len() ==> #[trigger] old_fns[a].name@ != #[trigger] old_fns[b].name@);
        let n = fns.len();
        let mut i: usize = 0;
        while i < n
            invariant
                n == fns@.len(),
                i <= n,
                k == name@,
                fns@ == old_fns,
                forall|j: int| 0 <= j < i ==> #[trigger] fns@[j].name@ != k,
            ensures
                i <= n,
                fns@ == old_fns,
                forall|j: int| 0 <= j < i ==> #[trigger] fns@[j].name@ != k,
                i < n ==> old_fns[i as int].name@ == k,
            decreases n - i,
        {
            if fns[i].name == name {
                break;
            }
            i = i + 1;
        }
        let entry = UserFunction { name, params, body };
        if i < n {
            fns.set(i, entry);
            assert(fns@ == old_fns.update(i as int, entry));
        } else {
            fns.push(entry);
            assert(fns@ == old_fns.push(entry));
        }
        assert forall|a: int, b: int| 0 <= a < b < fns@.len() implies #[trigger] fns@[a].name@
            != #[trigger] fns@[b].name@ by {
            if a != i && b != i {
                assert(old_fns[a].name@ != old_fns[b].name@);
            } else if i < n {
                assert(old_fns[a].name@ != old_fns[b].name@);
            }
        }
        self.functions = fns;
        assert(self.functions() =~= before.insert(k, v)) by {
            assert forall|key: Seq<char>| #[trigger] self.functions().contains_key(key)
                <==> before.insert(k, v).contains_key(key) by {
                if key == k {
                    assert(self.functions@[i as int].name@ == k);
                } else if self.functions().contains_key(key) {
                    let j = choose|j: int|
                        0 <= j < self.functions@.len() && #[trigger] self.functions@[j].name@
                            == key;
                    assert(old_fns[j].name@ == key);
                } else if before.contains_key(key) {
                    let j = choose|j: int|
                        0 <= j < old_fns.len() && #[trigger] old_fns[j].name@ == key;
                    assert(self.functions@[j].name@ == key);
                }
            }
            assert forall|key: Seq<char>| #[trigger] self.functions().contains_key(key)
                implies self.functions()[key] == before.insert(k, v)[key] by {
                let c = choose|j: int|
                    0 <= j < self.functions@.len() && #[trigger] self.functions@[j].name@ == key;
                if key == k {
                    assert(self.functions@[i as int].name@ == k);
                    if c != i {
                        if c < i {
                        } else {
                            assert(self.functions@[i as int].name@ != self.functions@[c].name@);
                        }
                    }
                } else {
                    assert(c != i);
                    assert(old_fns[c].name@ == key);
                    let d = choose|j: int|
                        0 <= j < old_fns.len() && #[trigger] old_fns[j].name@ == key;
                    if c != d {
                        if c < d {
                            assert(old_fns[c].name@ != old_fns[d].name@);
                        } else {
                            assert(old_fns[d].name@ != old_fns[c].name@);
                        }
                    }
                }
            }
        }
    }
}

/// The built-in functions.
#[derive(Debug, Clone, Copy, PartialEq, Eq, Structural)]
pub enum BuiltinFunc {
    // Trigonometric
    Sin,
    Cos,
    Tan,
    Asin,
    Acos,
    Atan,
    Atan2,
    // Power and log
    Sqrt,
    Exp,
    Ln,
    Log10,
    Log2,
    Log,
    Hypot,
    Pow,
    // Numeric
    Abs,
    Max,
    Min,
    Floor,
    Ceil,
    Round,
    // Utility
    Len,
    Concat,
    Factorial,
    Sign,
    IsEven,
    IsOdd,
    Deg,
    Rad,
}

/// The built-in function called `w`, if there is one.
pub open spec fn builtin_named(w: Seq<char>) -> Option<BuiltinFunc> {
    if w == seq!['s', 'i', 'n'] {
        Some(BuiltinFunc::Sin)
    } else if w == seq!['c', 'o', 's'] {
        Some(BuiltinFunc::Cos)
    } else if w == seq!['t', 'a', 'n'] {
        Some(BuiltinFunc::Tan)
    } else if w == seq!['a', 's', 'i', 'n'] {
        Some(BuiltinFunc::Asin)
    } else if w == seq!['a', 'c', 'o', 's'] {
        Some(BuiltinFunc::Acos)
    } else if w == seq!['a', 't', 'a', 'n'] {
        Some(BuiltinFunc::Atan)
    } else if w == seq!['a', 't', 'a', 'n', '2'] {
        Some(BuiltinFunc::Atan2)
    } else if w == seq!['s', 'q', 'r', 't'] {
        Some(BuiltinFunc::Sqrt)
    } else if w == seq!['e', 'x', 'p'] {
        Some(BuiltinFunc::Exp)
    } else if w == seq!['l', 'n'] {
        Some(BuiltinFunc::Ln)
    } else if w == seq!['l', 'o', 'g', '1', '0'] {
        Some(BuiltinFunc::Log10)
    } else if w == seq!['l', 'o', 'g', '2'] {
        Some(BuiltinFunc::Log2)
    } else if w == seq!['l', 'o', 'g'] {
        Some(BuiltinFunc::Log)
    } else if w == seq!['h', 'y', 'p', 'o', 't'] {
        Some(BuiltinFunc::Hypot)
    } else if w == seq!['p', 'o', 'w'] {
        Some(BuiltinFunc::Pow)
    } else if w == seq!['a', 'b', 's'] {
        Some(BuiltinFunc::Abs)
    } else if w == seq!['m', 'a', 'x'] {
        Some(BuiltinFunc::Max)
    } else if w == seq!['m', 'i', 'n'] {
        Some(BuiltinFunc::Min)
    } else if w == seq!['f', 'l', 'o', 'o', 'r'] {
        Some(BuiltinFunc::Floor)
    } else if w == seq!['c', 'e', 'i', 'l'] {
        Some(BuiltinFunc::Ceil)
    } else if w == seq!['r', 'o', 'u', 'n', 'd'] {
        Some(BuiltinFunc::Round)
    } else if w == seq!['l', 'e', 'n'] {
        Some(BuiltinFunc::Len)
    } else if w == seq!['c', 'o', 'n', 'c', 'a', 't'] {
        Some(BuiltinFunc::Concat)
    } else if w == seq!['f', 'a', 'c', 't', 'o', 'r', 'i', 'a', 'l'] {
        Some(BuiltinFunc::Factorial)
    } else if w == seq!['s', 'i', 'g', 'n'] {
        Some(BuiltinFunc::Sign)
    } else if w == seq!['i', 's', '_', 'e', 'v', 'e', 'n'] {
        Some(BuiltinFunc::IsEven)
    } else if w == seq!['i', 's', '_', 'o', 'd', 'd'] {
        Some(BuiltinFunc::IsOdd)
    } else if w == seq!['d', 'e', 'g'] {
        Some(BuiltinFunc::Deg)
    } else if w == seq!['r', 'a', 'd'] {
        Some(BuiltinFunc::Rad)
    } else {
        None
    }
}

/// The name each built-in function is documented under.
pub open spec fn documented_name(b: BuiltinFunc) -> Seq<char> {
    match b {
        BuiltinFunc::Sin => seq!['s', 'i', 'n'],
        BuiltinFunc::Cos => seq!['c', 'o', 's'],
        BuiltinFunc::Tan => seq!['t', 'a', 'n'],
        BuiltinFunc::Asin => seq!['a', 's', 'i', 'n'],
        BuiltinFunc::Acos => seq!['a', 'c', 'o', 's'],
        BuiltinFunc::Atan => seq!['a', 't', 'a', 'n'],
        BuiltinFunc::Atan2 => seq!['a', 't', 'a', 'n', '2'],
        BuiltinFunc::Sqrt => seq!['s', 'q', 'r', 't'],
        BuiltinFunc::Exp => seq!['e', 'x', 'p'],
        BuiltinFunc::Ln => seq!['l', 'n'],
        BuiltinFunc::Log10 => seq!['l', 'o', 'g', '1', '0'],
        BuiltinFunc::Log2 => seq!['l', 'o', 'g', '2'],
        BuiltinFunc::Log => seq!['l', 'o', 'g'],
        BuiltinFunc::Hypot => seq!['h', 'y', 'p', 'o', 't'],
        BuiltinFunc::Pow => seq!['p', 'o', 'w'],
        BuiltinFunc::Abs => seq!['a', 'b', 's'],
        BuiltinFunc::Max => seq!['m', 'a', 'x'],
        BuiltinFunc::Min => seq!['m', 'i', 'n'],
        BuiltinFunc::Floor => seq!['f', 'l', 'o', 'o', 'r'],
        BuiltinFunc::Ceil => seq!['c', 'e', 'i', 'l'],
        BuiltinFunc::Round => seq!['r', 'o', 'u', 'n', 'd'],
        BuiltinFunc::Len => seq!['l', 'e', 'n'],
        BuiltinFunc::Concat => seq!['c', 'o', 'n', 'c', 'a', 't'],
        BuiltinFunc::Factorial => seq!['f', 'a', 'c', 't', 'o', 'r', 'i', 'a', 'l'],
        BuiltinFunc::Sign => seq!['s', 'i', 'g', 'n'],
        BuiltinFunc::IsEven => seq!['i', 's', '_', 'e', 'v', 'e', 'n'],
        BuiltinFunc::IsOdd => seq!['i', 's', '_', 'o', 'd', 'd'],
        BuiltinFunc::Deg => seq!['d', 'e', 'g'],
        BuiltinFunc::Rad => seq!['r', 'a', 'd'],
    }
}

/// Every built-in is found under its documented name, and a name finds a
/// built-in only if it is that built-in's documented name.
#[verifier::spinoff_prover]
proof fn lemma_documented_name_found(b: BuiltinFunc)
    ensures
        builtin_named(documented_name(b)) == Some(b),
{
    match b {
        BuiltinFunc::Sin => {}
        BuiltinFunc::Cos => {}
        BuiltinFunc::Tan => {}
        BuiltinFunc::Asin => {}
        BuiltinFunc::Acos => {}
        BuiltinFunc::Atan => {}
        BuiltinFunc::Atan2 => {
            assert(documented_name(b).len() != seq!['a', 't', 'a', 'n'].len());
        },
        BuiltinFunc::Sqrt => {}
        BuiltinFunc::Exp => {}
        BuiltinFunc::Ln => {}
        BuiltinFunc::Log10 => {}
        BuiltinFunc::Log2 => {}
        BuiltinFunc::Log => {
            assert(documented_name(b).len() != seq!['l', 'o', 'g', '1', '0'].len());
            assert(documented_name(b).len() != seq!['l', 'o', 'g', '2'].len());
        },
        BuiltinFunc::Hypot => {}
        BuiltinFunc::Pow => {}
        BuiltinFunc::Abs => {}
        BuiltinFunc::Max => {}
        BuiltinFunc::Min => {}
        BuiltinFunc::Floor => {}
        BuiltinFunc::Ceil => {}
        BuiltinFunc::Round => {}
        BuiltinFunc::Len => {}
        BuiltinFunc::Concat => {}
        BuiltinFunc::Factorial => {}
        BuiltinFunc::Sign => {}
        BuiltinFunc::IsEven => {}
        BuiltinFunc::IsOdd => {}
        BuiltinFunc::Deg => {}
        BuiltinFunc::Rad => {}
    }
}

proof fn lemma_found_only_by_name(w: Seq<char>, b: BuiltinFunc)
    requires
        builtin_named(w) == Some(b),
    ensures
        w == documented_name(b),
{
    match b {
        BuiltinFunc::Sin => {}
        BuiltinFunc::Cos => {}
        BuiltinFunc::Tan => {}
        BuiltinFunc::Asin => {}
        BuiltinFunc::Acos => {}
        BuiltinFunc::Atan => {}
        BuiltinFunc::Atan2 => {}
        BuiltinFunc::Sqrt => {}
        BuiltinFunc::Exp => {}
        BuiltinFunc::Ln => {}
        BuiltinFunc::Log10 => {}
        BuiltinFunc::Log2 => {}
        BuiltinFunc::Log => {}
        BuiltinFunc::Hypot => {}
        BuiltinFunc::Pow => {}
        BuiltinFunc::Abs => {}
        BuiltinFunc::Max => {}
        BuiltinFunc::Min => {}
        BuiltinFunc::Floor => {}
        BuiltinFunc::Ceil => {}
        BuiltinFunc::Round => {}
        BuiltinFunc::Len => {}
        BuiltinFunc::Concat => {}
        BuiltinFunc::Factorial => {}
        BuiltinFunc::Sign => {}
        BuiltinFunc::IsEven => {}
        BuiltinFunc::IsOdd => {}
        BuiltinFunc::Deg => {}
        BuiltinFunc::Rad => {}
    }
}

/// Every built-in is found under its documented name, and a name finds a
/// built-in only if it is that built-in's documented name.
pub proof fn law_builtin_names(w: Seq<char>, b: BuiltinFunc)
    ensures
        builtin_named(documented_name(b)) == Some(b),
        builtin_named(w) == Some(b) <==> w == documented_name(b),
{
    lemma_documented_name_found(b);
    if builtin_named(w) == Some(b) {
        lemma_found_only_by_name(w, b);
    }
}

/// The built-in function called `name`, if there is one.
pub fn get_builtin(name: &str) -> (r: Option<BuiltinFunc>)
    ensures
        r == builtin_named(name@),
{
    let w = chars_of(name);
    if spells(&w, &['s', 'i', 'n']) {
        Some(BuiltinFunc::Sin)
    } else if spells(&w, &['c', 'o', 's']) {
        Some(BuiltinFunc::Cos)
    } else if spells(&w, &['t', 'a', 'n']) {
        Some(BuiltinFunc::Tan)
    } else if spells(&w, &['a', 's', 'i', 'n']) {
        Some(BuiltinFunc::Asin)
    } else if spells(&w, &['a', 'c', 'o', 's']) {
        Some(BuiltinFunc::Acos)
    } else if spells(&w, &['a', 't', 'a', 'n']) {
        Some(BuiltinFunc::Atan)
    } else if spells(&w, &['a', 't', 'a', 'n', '2']) {
        Some(BuiltinFunc::Atan2)
    } else if spells(&w, &['s', 'q', 'r', 't']) {
        Some(BuiltinFunc::Sqrt)
    } else if spells(&w, &['e', 'x', 'p']) {
        Some(BuiltinFunc::Exp)
    } else if spells(&w, &['l', 'n']) {
        Some(BuiltinFunc::Ln)
    } else if spells(&w, &['l', 'o', 'g', '1', '0']) {
        Some(BuiltinFunc::Log10)
    } else if spells(&w, &['l', 'o', 'g', '2']) {
        Some(BuiltinFunc::Log2)
    } else if spells(&w, &['l', 'o', 'g']) {
        Some(BuiltinFunc::Log)
    } else if spells(&w, &['h', 'y', 'p', 'o', 't']) {
        Some(BuiltinFunc::Hypot)
    } else if spells(&w, &['p', 'o', 'w']) {
        Some(BuiltinFunc::Pow)
    } else if spells(&w, &['a', 'b', 's']) {
        Some(BuiltinFunc::Abs)
    } else if spells(&w, &['m', 'a', 'x']) {
        Some(BuiltinFunc::Max)
    } else if spells(&w, &['m', 'i', 'n']) {
        Some(BuiltinFunc::Min)
    } else if spells(&w, &['f', 'l', 'o', 'o', 'r']) {
        Some(BuiltinFunc::Floor)
    } else if spells(&w, &['c', 'e', 'i', 'l']) {
        Some(BuiltinFunc::Ceil)
    } else if spells(&w, &['r', 'o', 'u', 'n', 'd']) {
        Some(BuiltinFunc::Round)
    } else if spells(&w, &['l', 'e', 'n']) {
        Some(BuiltinFunc::Len)
    } else if spells(&w, &['c', 'o', 'n', 'c', 'a', 't']) {
        Some(BuiltinFunc::Concat)
    } else if spells(&w, &['f', 'a', 'c', 't', 'o', 'r', 'i', 'a', 'l']) {
        Some(BuiltinFunc::Factorial)
    } else if spells(&w, &['s', 'i', 'g', 'n']) {
        Some(BuiltinFunc::Sign)
    } else if spells(&w, &['i', 's', '_', 'e', 'v', 'e', 'n']) {
        Some(BuiltinFunc::IsEven)
    } else if spells(&w, &['i', 's', '_', 'o', 'd', 'd']) {
        Some(BuiltinFunc::IsOdd)
    } else if spells(&w, &['d', 'e', 'g']) {
        Some(BuiltinFunc::Deg)
    } else if spells(&w, &['r', 'a', 'd']) {
        Some(BuiltinFunc::Rad)
    } else {
        None
    }
}

/// `n!`.
pub open spec fn fact(n: nat) -> nat
    decreases n,
{
    if n == 0 {
        1
    } else {
        n * fact((n - 1) as nat)
    }
}

proof fn lemma_fact_monotone(i: nat, j: nat)
    requires
        i <= j,
    ensures
        1 <= fact(i) <= fact(j),
    decreases j,
{
    if j > 0 {
        if i < j {
            lemma_fact_monotone(i, (j - 1) as nat);
        } else {
            lemma_fact_monotone((j - 1) as nat, (j - 1) as nat);
        }
        let f = fact((j - 1) as nat);
        assert(j * f >= f) by (nonlinear_arith)
            requires
                j >= 1,
                f >= 1,
        ;
    }
}

/// The largest argument whose factorial is computed.
pub const FACTORIAL_MAX: u64 = 20;

/// `n!`, for `n` up to 20; beyond that the result is refused.
pub fn factorial(n: u64) -> (r: Result<u64, String>)
    ensures
        n <= FACTORIAL_MAX ==> r == Ok::<u64, String>(fact(n as nat) as u64),
        n <= FACTORIAL_MAX ==> fact(n as nat) <= u64::MAX,
        n > FACTORIAL_MAX ==> (r matches Err(m) && m@ == "factorial too large (max 20)"@),
{
    if n > FACTORIAL_MAX {
        return Err(String::from_str("factorial too large (max 20)"));
    }
    proof {
        assert(fact(20) == 2432902008176640000) by {
            reveal_with_fuel(fact, 21);
        }
        lemma_fact_monotone(n as nat, 20);
    }
    let mut result: u64 = 1;
    let mut i: u64 = 0;
    while i < n
        invariant
            i <= n <= 20,
            result == fact(i as nat),
            fact(20) == 2432902008176640000,
        decreases n - i,
    {
        i = i + 1;
        proof {
            lemma_fact_monotone(i as nat, 20);
        }
        assert(fact(i as nat) == i * result);
        result = result * i;
    }
    Ok(result)
}

/// The message for an index `i` past the end of an array.
pub open spec fn index_error(i: nat) -> Seq<char> {
    "Index out of bounds: "@ + decimal(i)
}

/// Checks that `i` indexes an array of length `len`.
pub fn check_index(len: usize, i: usize) -> (r: Result<(), String>)
    ensures
        r is Ok <==> i < len,
        r matches Err(m) ==> m@ == index_error(i as nat),
{
    if i < len {
        Ok(())
    } else {
        let mut m = String::from_str("Index out of bounds: ");
        push_decimal(&mut m, i as u64);
        Err(m)
    }
}

/// Checks that `start..end` is a slice of an array of length `len`.
pub fn check_slice(len: usize, start: usize, end: usize) -> (r: Result<(), String>)
    ensures
        r is Ok <==> start <= end <= len,
        r matches Err(m) ==> m@ == "Invalid slice bounds"@,
{
    if start > len || end > len || start > end {
        Err(String::from_str("Invalid slice bounds"))
    } else {
        Ok(())
    }
}

/// The message for calling `name`, which takes `expected` arguments, with `got`.
pub open spec fn arity_error(name: Seq<char>, expected: nat, got: nat) -> Seq<char> {
    "Function "@ + name + " expects "@ + decimal(expected) + " arguments, got "@ + decimal(got)
}

/// Checks that a user function `name` with `expected` parameters is called
/// with as many arguments.
pub fn check_arity(name: &String, expected: usize, got: usize) -> (r: Result<(), String>)
    ensures
        r is Ok <==> expected == got,
        r matches Err(m) ==> m@ == arity_error(name@, expected as nat, got as nat),
{
    if expected == got {
        Ok(())
    } else {
        let mut m = String::from_str("Function ");
        m.append(name.as_str());
        m.append(" expects ");
        push_decimal(&mut m, expected as u64);
        m.append(" arguments, got ");
        push_decimal(&mut m, got as u64);
        Err(m)
    }
}

} // verus!
