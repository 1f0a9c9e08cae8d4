//! The evaluator capability.
//!
//! The engine never parses formula text itself; it depends on an abstract
//! evaluator: a compiled numeric function of a fixed arity.  Verified code
//! reasons about an evaluator only through its two spec-level views, the
//! declared arity and the value function.  [`BasicEvaluator`] is a small
//! verified implementation sufficient for closed-form formulas and sampled
//! data; callers may supply their own implementations (for instance around
//! an expression parser).

use vstd::prelude::*;

verus! {

/// The argument list handed to an evaluator did not match its arity.
#[derive(Debug, Clone, Copy, PartialEq, Eq, Structural)]
pub struct ArityError;

/// A compiled numeric function of a fixed number of arguments.
///
/// The two spec-level views default to arbitrary values so that an
/// implementation outside verified code (say, around a formula parser)
/// need only supply the executable methods; a verified implementation
/// overrides them.
pub trait Evaluator: Sized {
    /// How many arguments the function expects.
    open spec fn spec_arity(&self) -> nat {
        arbitrary()
    }

    /// The value of the function on an argument list.
    open spec fn spec_eval(&self, args: Seq<i64>) -> i64 {
        arbitrary()
    }

    /// Report the arity.
    fn arity(&self) -> (r: usize)
        ensures
            r as nat == self.spec_arity(),
    ;

    /// Evaluate on the given arguments; the one failure is an argument
    /// list of the wrong length.
    fn evaluate(&self, args: &Vec<i64>) -> (r: Result<i64, ArityError>)
        ensures
            r is Ok <==> args@.len() == self.spec_arity(),
            r is Ok ==> r->Ok_0 == self.spec_eval(args@),
    ;
}

/// The value of the first sample whose key equals `key`, or `default` if
/// no sample matches.
pub open spec fn table_lookup(samples: Seq<(i64, i64)>, key: i64, default: i64) -> i64
    decreases samples.len(),
{
    if samples.len() == 0 {
        default
    } else if samples[0].0 == key {
        samples[0].1
    } else {
        table_lookup(samples.drop_first(), key, default)
    }
}

/// A closed-form formula over the argument list.
pub enum BasicFormula {
    /// Always the same value.
    Const(i64),
    /// The argument at the index (out-of-range indices read as zero).
    Arg(usize),
    /// A table of `(key, value)` samples consulted with the argument at
    /// the index: the value of the first matching key, else the default.
    Table { arg: usize, samples: Vec<(i64, i64)>, default: i64 },
}

/// A verified evaluator for formulas that need no external parser.
pub struct BasicEvaluator {
    pub n_args: usize,
    pub formula: BasicFormula,
}

impl BasicEvaluator {
    /// A constant function of `n_args` arguments.
    pub fn constant(n_args: usize, value: i64) -> (r: BasicEvaluator)
        ensures
            r.spec_arity() == n_args as nat,
            forall|args: Seq<i64>| r.spec_eval(args) == value,
    {
        BasicEvaluator { n_args, formula: BasicFormula::Const(value) }
    }

    /// The projection on the argument at `arg`.
    pub fn argument(n_args: usize, arg: usize) -> (r: BasicEvaluator)
        requires
            arg < n_args,
        ensures
            r.spec_arity() == n_args as nat,
            forall|args: Seq<i64>|
                args.len() == n_args ==> r.spec_eval(args) == args[arg as int],
    {
        BasicEvaluator { n_args, formula: BasicFormula::Arg(arg) }
    }

    /// A sampled function of one argument.
    pub fn table(samples: Vec<(i64, i64)>, default: i64) -> (r: BasicEvaluator)
        ensures
            r.spec_arity() == 1,
            forall|args: Seq<i64>|
                args.len() == 1 ==> r.spec_eval(args) == table_lookup(
                    samples@,
                    args[0],
                    default,
                ),
    {
        BasicEvaluator { n_args: 1, formula: BasicFormula::Table { arg: 0, samples, default } }
    }
}

impl Evaluator for BasicEvaluator {
    open spec fn spec_arity(&self) -> nat {
        self.n_args as nat
    }

    open spec fn spec_eval(&self, args: Seq<i64>) -> i64 {
        match self.formula {
            BasicFormula::Const(c) => c,
            BasicFormula::Arg(i) => if i < args.len() {
                args[i as int]
            } else {
                0
            },
            BasicFormula::Table { arg, samples, default } => {
                let key = if arg < args.len() {
                    args[arg as int]
                } else {
                    0
                };
                table_lookup(samples@, key, default)
            },
        }
    }

    fn arity(&self) -> (r: usize)
        ensures
            r as nat == self.spec_arity(),
    {
        self.n_args
    }

    fn evaluate(&self, args: &Vec<i64>) -> (r: Result<i64, ArityError>)
        ensures
            r is Ok <==> args@.len() == self.spec_arity(),
            r is Ok ==> r->Ok_0 == self.spec_eval(args@),
    {
        if args.len() != self.n_args {
            return Err(ArityError);
        }
        match &self.formula {
            BasicFormula::Const(c) => Ok(*c),
            BasicFormula::Arg(i) => {
                if *i < args.len() {
                    Ok(args[*i])
                } else {
                    Ok(0)
                }
            },
            BasicFormula::Table { arg, samples, default } => {
                let key = if *arg < args.len() {
                    args[*arg]
                } else {
                    0
                };
                proof {
                    assert(samples@.skip(0) =~= samples@);
                }
                let mut j: usize = 0;
                while j < samples.len()
                    invariant
                        j <= samples@.len(),
                        args@.len() == self.spec_arity(),
                        self.formula is Table,
                        self.formula->Table_samples@ == samples@,
                        self.formula->Table_arg == *arg,
                        self.formula->Table_default == *default,
                        key == if (*arg as int) < args@.len() {
                            args@[*arg as int]
                        } else {
                            0
                        },
                        table_lookup(samples@, key, *default) == table_lookup(
                            samples@.skip(j as int),
                            key,
                            *default,
                        ),
                    decreases samples@.len() - j,
                {
                    if samples[j].0 == key {
                        proof {
                            assert(samples@.skip(j as int)[0] == samples@[j as int]);
                            assert(table_lookup(samples@.skip(j as int), key, *default)
                                == samples@[j as int].1);
                        }
                        return Ok(samples[j].1);
                    }
                    proof {
                        assert(samples@.skip(j as int).drop_first() =~= samples@.skip(
                            j as int + 1,
                        ));
                    }
                    j = j + 1;
                }
                proof {
                    assert(samples@.skip(samples@.len() as int).len() == 0);
                }
                Ok(*default)
            },
        }
    }
}

} // verus!
