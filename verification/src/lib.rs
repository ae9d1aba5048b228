//! A single-pass evaluator for infix arithmetic expressions.
//!
//! Expressions are evaluated left to right without building a syntax tree:
//! pending operations are kept in an ownership chain of "bricks" and folded
//! into a running value as soon as operator precedence permits. Numbers are
//! signed 64-bit integers with wrapping arithmetic; a *smaller* priority
//! value binds *tighter*.

pub mod math;
pub mod bricks;
pub mod builder;

use vstd::prelude::*;
use vstd::string::StrSliceExecFns;
use crate::math::{UnaryOp, BinaryOp};

verus! {

/// Type of all numbers inside an equation.
pub type Num = i64;

/// Type for all values labelling operator priorities. Smaller binds tighter.
pub type Prior = u32;

/// A registered prefix-unary operator.
pub struct UnaryEntry {
    pub symbol: Vec<char>,
    pub operation: UnaryOp,
    pub priority: Prior,
}

/// A registered binary operator.
pub struct BinaryEntry {
    pub symbol: Vec<char>,
    pub operation: BinaryOp,
    pub priority: Prior,
}

/// A registered appended (postfix) unary operator; appended operators carry
/// no priority, they apply immediately when recognized.
pub struct AppendedEntry {
    pub symbol: Vec<char>,
    pub operation: UnaryOp,
}

/// The operator registry: three lookup tables. Within each table the most
/// recent registration of a symbol decides its lookup, so re-registering a
/// symbol replaces it.
pub struct Environment {
    pub un_operations: Vec<UnaryEntry>,
    pub bin_operations: Vec<BinaryEntry>,
    pub app_operations: Vec<AppendedEntry>,
}

/// The most recently registered prefix-unary entry whose symbol matches, if
/// any: a later registration of a symbol replaces an earlier one.
pub open spec fn spec_lookup_unary(entries: Seq<UnaryEntry>, symbol: Seq<char>) -> Option<(UnaryOp, Prior)>
    decreases entries.len(),
{
    if entries.len() == 0 {
        None
    } else if entries.last().symbol@ == symbol {
        Some((entries.last().operation, entries.last().priority))
    } else {
        spec_lookup_unary(entries.drop_last(), symbol)
    }
}

/// The most recently registered binary entry whose symbol matches, if
/// any: a later registration of a symbol replaces an earlier one.
pub open spec fn spec_lookup_binary(entries: Seq<BinaryEntry>, symbol: Seq<char>) -> Option<(BinaryOp, Prior)>
    decreases entries.len(),
{
    if entries.len() == 0 {
        None
    } else if entries.last().symbol@ == symbol {
        Some((entries.last().operation, entries.last().priority))
    } else {
        spec_lookup_binary(entries.drop_last(), symbol)
    }
}

/// The most recently registered appended entry whose symbol matches, if
/// any: a later registration of a symbol replaces an earlier one.
pub open spec fn spec_lookup_appended(entries: Seq<AppendedEntry>, symbol: Seq<char>) -> Option<UnaryOp>
    decreases entries.len(),
{
    if entries.len() == 0 {
        None
    } else if entries.last().symbol@ == symbol {
        Some(entries.last().operation)
    } else {
        spec_lookup_appended(entries.drop_last(), symbol)
    }
}

/// Whether a binary entry registers `symbol` as `op` at priority `p`.
pub open spec fn bin_entry_is(e: BinaryEntry, symbol: Seq<char>, op: BinaryOp, p: Prior) -> bool {
    e.symbol@ == symbol && e.operation == op && e.priority == p
}

/// Whether a prefix-unary entry registers `symbol` as `op` at priority `p`.
pub open spec fn un_entry_is(e: UnaryEntry, symbol: Seq<char>, op: UnaryOp, p: Prior) -> bool {
    e.symbol@ == symbol && e.operation == op && e.priority == p
}

/// Whether an appended entry registers `symbol` as `op`.
pub open spec fn app_entry_is(e: AppendedEntry, symbol: Seq<char>, op: UnaryOp) -> bool {
    e.symbol@ == symbol && e.operation == op
}

/// A binary lookup skips a last entry whose symbol differs.
pub proof fn lemma_lookup_binary_skip_last(entries: Seq<BinaryEntry>, symbol: Seq<char>)
    requires
        entries.len() > 0,
        entries.last().symbol@ != symbol,
    ensures
        spec_lookup_binary(entries, symbol) == spec_lookup_binary(entries.drop_last(), symbol),
{
}

/// Under the default registry's binary table, `+` and `-` look up to
/// addition and subtraction at the shared loosest priority, so the
/// left-associativity law applies to the default registry.
pub proof fn lemma_default_plus_minus_lookup(env: Environment)
    requires
        env.bin_operations@.len() == 5,
        bin_entry_is(env.bin_operations@[0], "+"@, BinaryOp::Add, 8),
        bin_entry_is(env.bin_operations@[1], "-"@, BinaryOp::Sub, 8),
        bin_entry_is(env.bin_operations@[2], "*"@, BinaryOp::Mul, 6),
        bin_entry_is(env.bin_operations@[3], "/"@, BinaryOp::Div, 6),
        bin_entry_is(env.bin_operations@[4], "^"@, BinaryOp::Pow, 4),
    ensures
        spec_lookup_binary(env.bin_operations@, seq!['+']) == Some((BinaryOp::Add, 8u32)),
        spec_lookup_binary(env.bin_operations@, seq!['-']) == Some((BinaryOp::Sub, 8u32)),
{
    reveal_strlit("+");
    reveal_strlit("-");
    reveal_strlit("*");
    reveal_strlit("/");
    reveal_strlit("^");
    assert("+"@ =~= seq!['+']);
    assert("-"@ =~= seq!['-']);
    assert("*"@ =~= seq!['*']);
    assert("/"@ =~= seq!['/']);
    assert("^"@ =~= seq!['^']);
    assert(seq!['+'][0] == '+');
    assert(seq!['-'][0] == '-');
    assert(seq!['*'][0] == '*');
    assert(seq!['/'][0] == '/');
    assert(seq!['^'][0] == '^');
    let es = env.bin_operations@;
    let e4 = es.drop_last();
    let e3 = e4.drop_last();
    let e2 = e3.drop_last();
    let e1 = e2.drop_last();
    assert(es.last() == es[4]);
    assert(e4.last() == es[3]);
    assert(e3.last() == es[2]);
    assert(e2.last() == es[1]);
    assert(e1.last() == es[0]);
    lemma_lookup_binary_skip_last(es, seq!['+']);
    lemma_lookup_binary_skip_last(e4, seq!['+']);
    lemma_lookup_binary_skip_last(e3, seq!['+']);
    lemma_lookup_binary_skip_last(e2, seq!['+']);
    assert(spec_lookup_binary(e1, seq!['+']) == Some((BinaryOp::Add, 8u32)));
    lemma_lookup_binary_skip_last(es, seq!['-']);
    lemma_lookup_binary_skip_last(e4, seq!['-']);
    lemma_lookup_binary_skip_last(e3, seq!['-']);
    assert(spec_lookup_binary(e2, seq!['-']) == Some((BinaryOp::Sub, 8u32)));
}

/// The characters of a string slice as a vector.
pub fn str_to_chars(s: &str) -> (r: Vec<char>)
    ensures
        r@ == s@,
{
    let n = s.unicode_len();
    let mut out: Vec<char> = Vec::new();
    let mut i: usize = 0;
    while i < n
        invariant
            i <= n,
            n == s@.len(),
            out@ == s@.subrange(0, i as int),
        decreases n - i,
    {
        let c = s.get_char(i);
        out.push(c);
        proof {
            assert(out@ =~= s@.subrange(0, i as int + 1));
        }
        i = i + 1;
    }
    proof {
        assert(out@ =~= s@);
    }
    out
}

/// Whether two character vectors hold the same characters.
pub fn eq_chars(a: &Vec<char>, b: &Vec<char>) -> (r: bool)
    ensures
        r == (a@ == b@),
{
    if a.len() != b.len() {
        return false;
    }
    let mut i: usize = 0;
    while i < a.len()
        invariant
            i <= a@.len(),
            a@.len() == b@.len(),
            forall|j: int| 0 <= j < i ==> a@[j] == b@[j],
        decreases a@.len() - i,
    {
        if a[i] != b[i] {
            return false;
        }
        i = i + 1;
    }
    proof {
        assert(a@ =~= b@);
    }
    true
}

impl Environment {
    /// The prefix-unary operator most recently registered under `symbol`.
    pub fn lookup_unary(&self, symbol: &Vec<char>) -> (r: Option<(UnaryOp, Prior)>)
        ensures
            r == spec_lookup_unary(self.un_operations@, symbol@),
    {
        let n = self.un_operations.len();
        let mut i: usize = n;
        proof {
            assert(self.un_operations@.take(n as int) =~= self.un_operations@);
        }
        while i > 0
            invariant
                i <= n,
                n == self.un_operations@.len(),
                spec_lookup_unary(self.un_operations@, symbol@) == spec_lookup_unary(
                    self.un_operations@.take(i as int),
                    symbol@,
                ),
            decreases i,
        {
            proof {
                assert(self.un_operations@.take(i as int).last() == self.un_operations@[i as int - 1]);
                assert(self.un_operations@.take(i as int).drop_last() =~= self.un_operations@.take(
                    i as int - 1,
                ));
            }
            let e = &self.un_operations[i - 1];
            if eq_chars(&e.symbol, symbol) {
                return Some((e.operation, e.priority));
            }
            i = i - 1;
        }
        proof {
            assert(self.un_operations@.take(0) =~= Seq::<UnaryEntry>::empty());
        }
        None
    }

    /// The binary operator most recently registered under `symbol`.
    pub fn lookup_binary(&self, symbol: &Vec<char>) -> (r: Option<(BinaryOp, Prior)>)
        ensures
            r == spec_lookup_binary(self.bin_operations@, symbol@),
    {
        let n = self.bin_operations.len();
        let mut i: usize = n;
        proof {
            assert(self.bin_operations@.take(n as int) =~= self.bin_operations@);
        }
        while i > 0
            invariant
                i <= n,
                n == self.bin_operations@.len(),
                spec_lookup_binary(self.bin_operations@, symbol@) == spec_lookup_binary(
                    self.bin_operations@.take(i as int),
                    symbol@,
                ),
            decreases i,
        {
            proof {
                assert(self.bin_operations@.take(i as int).last() == self.bin_operations@[i as int - 1]);
                assert(self.bin_operations@.take(i as int).drop_last() =~= self.bin_operations@.take(
                    i as int - 1,
                ));
            }
            let e = &self.bin_operations[i - 1];
            if eq_chars(&e.symbol, symbol) {
                return Some((e.operation, e.priority));
            }
            i = i - 1;
        }
        proof {
            assert(self.bin_operations@.take(0) =~= Seq::<BinaryEntry>::empty());
        }
        None
    }

    /// The appended operator most recently registered under `symbol`.
    pub fn lookup_appended(&self, symbol: &Vec<char>) -> (r: Option<UnaryOp>)
        ensures
            r == spec_lookup_appended(self.app_operations@, symbol@),
    {
        let n = self.app_operations.len();
        let mut i: usize = n;
        proof {
            assert(self.app_operations@.take(n as int) =~= self.app_operations@);
        }
        while i > 0
            invariant
                i <= n,
                n == self.app_operations@.len(),
                spec_lookup_appended(self.app_operations@, symbol@) == spec_lookup_appended(
                    self.app_operations@.take(i as int),
                    symbol@,
                ),
            decreases i,
        {
            proof {
                assert(self.app_operations@.take(i as int).last() == self.app_operations@[i as int - 1]);
                assert(self.app_operations@.take(i as int).drop_last() =~= self.app_operations@.take(
                    i as int - 1,
                ));
            }
            let e = &self.app_operations[i - 1];
            if eq_chars(&e.symbol, symbol) {
                return Some(e.operation);
            }
            i = i - 1;
        }
        proof {
            assert(self.app_operations@.take(0) =~= Seq::<AppendedEntry>::empty());
        }
        None
    }

    /// An empty registry.
    pub fn raw() -> (r: Environment)
        ensures
            r.un_operations@ == Seq::<UnaryEntry>::empty(),
            r.bin_operations@ == Seq::<BinaryEntry>::empty(),
            r.app_operations@ == Seq::<AppendedEntry>::empty(),
    {
        Environment {
            un_operations: Vec::new(),
            bin_operations: Vec::new(),
            app_operations: Vec::new(),
        }
    }

    /// Register a prefix-unary operator; in lookups it replaces any earlier
    /// registration of the same symbol and leaves every other symbol as it
    /// was.
    pub fn add_unary(&mut self, qualifier: &str, priority: Prior, operation: UnaryOp)
        ensures
            final(self).un_operations@.len() == old(self).un_operations@.len() + 1,
            final(self).un_operations@ == old(self).un_operations@.push(
                final(self).un_operations@.last(),
            ),
            un_entry_is(final(self).un_operations@.last(), qualifier@, operation, priority),
            spec_lookup_unary(final(self).un_operations@, qualifier@) == Some(
                (operation, priority),
            ),
            forall|s: Seq<char>| s != qualifier@ ==> spec_lookup_unary(
                final(self).un_operations@,
                s,
            ) == spec_lookup_unary(old(self).un_operations@, s),
            final(self).bin_operations == old(self).bin_operations,
            final(self).app_operations == old(self).app_operations,
    {
        let symbol = str_to_chars(qualifier);
        self.un_operations.push(UnaryEntry { symbol, operation, priority });
        proof {
            assert(self.un_operations@.drop_last() =~= old(self).un_operations@);
        }
    }

    /// Register a binary operator; in lookups it replaces any earlier
    /// registration of the same symbol and leaves every other symbol as it
    /// was.
    pub fn add_binary(&mut self, qualifier: &str, priority: Prior, operation: BinaryOp)
        ensures
            final(self).bin_operations@.len() == old(self).bin_operations@.len() + 1,
            final(self).bin_operations@ == old(self).bin_operations@.push(
                final(self).bin_operations@.last(),
            ),
            bin_entry_is(final(self).bin_operations@.last(), qualifier@, operation, priority),
            spec_lookup_binary(final(self).bin_operations@, qualifier@) == Some(
                (operation, priority),
            ),
            forall|s: Seq<char>| s != qualifier@ ==> spec_lookup_binary(
                final(self).bin_operations@,
                s,
            ) == spec_lookup_binary(old(self).bin_operations@, s),
            final(self).un_operations == old(self).un_operations,
            final(self).app_operations == old(self).app_operations,
    {
        let symbol = str_to_chars(qualifier);
        self.bin_operations.push(BinaryEntry { symbol, operation, priority });
        proof {
            assert(self.bin_operations@.drop_last() =~= old(self).bin_operations@);
        }
    }

    /// Register an appended (postfix) operator; in lookups it replaces any
    /// earlier registration of the same symbol and leaves every other symbol
    /// as it was.
    pub fn add_appended(&mut self, qualifier: &str, operation: UnaryOp)
        ensures
            final(self).app_operations@.len() == old(self).app_operations@.len() + 1,
            final(self).app_operations@ == old(self).app_operations@.push(
                final(self).app_operations@.last(),
            ),
            app_entry_is(final(self).app_operations@.last(), qualifier@, operation),
            spec_lookup_appended(final(self).app_operations@, qualifier@) == Some(operation),
            forall|s: Seq<char>| s != qualifier@ ==> spec_lookup_appended(
                final(self).app_operations@,
                s,
            ) == spec_lookup_appended(old(self).app_operations@, s),
            final(self).un_operations == old(self).un_operations,
            final(self).bin_operations == old(self).bin_operations,
    {
        let symbol = str_to_chars(qualifier);
        self.app_operations.push(AppendedEntry { symbol, operation });
        proof {
            assert(self.app_operations@.drop_last() =~= old(self).app_operations@);
        }
    }

    /// The default registry: `+` and `-` at the loosest priority, `*` and
    /// `/` tighter, `^` tighter still, prefix `sqrt` at the priority of `^`,
    /// prefix `-` (negation) and `abs` tightest, and appended `!`.
    pub fn new() -> (r: Environment)
        ensures
            r.bin_operations@.len() == 5,
            bin_entry_is(r.bin_operations@[0], "+"@, BinaryOp::Add, 8),
            bin_entry_is(r.bin_operations@[1], "-"@, BinaryOp::Sub, 8),
            bin_entry_is(r.bin_operations@[2], "*"@, BinaryOp::Mul, 6),
            bin_entry_is(r.bin_operations@[3], "/"@, BinaryOp::Div, 6),
            bin_entry_is(r.bin_operations@[4], "^"@, BinaryOp::Pow, 4),
            r.un_operations@.len() == 3,
            un_entry_is(r.un_operations@[0], "sqrt"@, UnaryOp::Sqrt, 4),
            un_entry_is(r.un_operations@[1], "-"@, UnaryOp::Neg, 1),
            un_entry_is(r.un_operations@[2], "abs"@, UnaryOp::Abs, 1),
            r.app_operations@.len() == 1,
            app_entry_is(r.app_operations@[0], "!"@, UnaryOp::Fac),
    {
        let mut env = Environment::raw();
        env.add_binary("+", 8, BinaryOp::Add);
        env.add_binary("-", 8, BinaryOp::Sub);
        env.add_binary("*", 6, BinaryOp::Mul);
        env.add_binary("/", 6, BinaryOp::Div);
        env.add_binary("^", 4, BinaryOp::Pow);
        env.add_unary("sqrt", 4, UnaryOp::Sqrt);
        env.add_unary("-", 1, UnaryOp::Neg);
        env.add_appended("!", UnaryOp::Fac);
        env.add_unary("abs", 1, UnaryOp::Abs);
        env
    }
}

} // verus!
