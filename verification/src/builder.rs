//! The scanner/builder: a single forward pass over the input characters that
//! recognizes tokens (digit runs, operator-symbol runs, parentheses,
//! spaces), drives the deferred-operation chain, and yields the final value.
//!
//! The whole pass is specified by [`spec_solve`]: a character-by-character
//! state machine over a [`ScanState`], of which [`solve`] is proved to be an
//! exact implementation.

use vstd::prelude::*;
use crate::{Environment, Num, Prior, spec_lookup_unary, spec_lookup_binary, spec_lookup_appended};
use crate::bricks::{Brick, UnaryBrick, BinaryBrick, Bracket, Chain, spec_push_binary,
    spec_close_bracket, spec_fold_all, spec_fold_to_bracket, close_bracket, fold_all};
use crate::math::{spec_apply_unary, spec_apply_binary, apply_unary, BinaryOp};
use crate::str_to_chars;

verus! {

/// The faults an evaluation can end in.
#[derive(Clone, Copy, Debug, PartialEq, Eq, Structural)]
pub enum Error {
    /// A closing parenthesis with no value before it, or with no matching
    /// opening parenthesis.
    SyntaxError,
    /// An accumulated operator symbol matches neither the binary nor the
    /// appended table at the point a resolution is attempted.
    OperationNotFoundError,
    /// A numeric segment cannot be parsed into a number: empty input, a
    /// trailing operator symbol, or a literal larger than `Num::MAX`.
    MalformedNumberError,
}

/// The message describing a fault.
pub open spec fn spec_description(e: Error) -> Seq<char> {
    match e {
        Error::SyntaxError => "There were some invalid token combinations"@,
        Error::OperationNotFoundError => "The provided operation was not contained by the environment"@,
        Error::MalformedNumberError => "There was a numeric segment that is no valid number"@,
    }
}

impl Error {
    /// A short message describing the fault.
    pub fn description(&self) -> (s: &'static str)
        ensures
            s@ == spec_description(*self),
    {
        match *self {
            Error::SyntaxError => "There were some invalid token combinations",
            Error::OperationNotFoundError => "The provided operation was not contained by the environment",
            Error::MalformedNumberError => "There was a numeric segment that is no valid number",
        }
    }
}

/// Whether `c` is an ASCII decimal digit.
pub open spec fn is_digit(c: char) -> bool {
    48 <= c as u32 && c as u32 <= 57
}

/// The numeric value of an ASCII decimal digit.
pub open spec fn digit_val(c: char) -> int {
    c as u32 - 48
}

/// Whether every character of `s` is an ASCII decimal digit.
pub open spec fn all_digits(s: Seq<char>) -> bool {
    forall|i: int| 0 <= i < s.len() ==> is_digit(s[i])
}

/// One step of decimal accumulation: `None` once a non-digit appears or the
/// accumulated value exceeds `Num::MAX`.
pub open spec fn spec_parse_step(acc: Option<Num>, c: char) -> Option<Num> {
    match acc {
        None => None,
        Some(a) => if !is_digit(c) {
            None
        } else if 10 * a + digit_val(c) > Num::MAX {
            None
        } else {
            Some((10 * a + digit_val(c)) as Num)
        },
    }
}

/// Decimal accumulation over a character sequence, starting from `acc`.
pub open spec fn spec_parse_from(s: Seq<char>, acc: Option<Num>) -> Option<Num>
    decreases s.len(),
{
    if s.len() == 0 {
        acc
    } else {
        spec_parse_from(s.drop_first(), spec_parse_step(acc, s[0]))
    }
}

/// The number a segment denotes: the decimal value of its digits, or `None`
/// when the segment is empty, holds a non-digit, or exceeds `Num::MAX`.
pub open spec fn spec_parse(s: Seq<char>) -> Option<Num> {
    if s.len() == 0 {
        None
    } else {
        spec_parse_from(s, Some(0))
    }
}

/// The scanner's state between two characters: the accumulating token
/// segment, whether that segment is a prefix-unary symbol in progress, the
/// most recently completed value, and the chain of pending operations.
pub ghost struct ScanState {
    pub seg: Seq<char>,
    pub parsing_unary: bool,
    pub value: Option<Num>,
    pub chain: Chain,
}

/// The state the scan starts in: everything empty.
pub open spec fn init_state() -> ScanState {
    ScanState { seg: Seq::empty(), parsing_unary: false, value: None, chain: None }
}

/// What an opening parenthesis does: a pending binary or appended operator
/// symbol, or a completed prefix-unary symbol, is first pushed or applied so
/// that it stays *outside* the new bracket scope; then a bracket brick is
/// pushed.
pub open spec fn spec_step_open(env: Environment, st: ScanState) -> Result<ScanState, Error> {
    match st.value {
        Some(v) => if st.seg.len() > 0 {
            match spec_lookup_binary(env.bin_operations@, st.seg) {
                Some(e) => Ok(ScanState {
                    seg: Seq::empty(),
                    parsing_unary: st.parsing_unary,
                    value: None,
                    chain: Some(Box::new(Brick::Bracket(Bracket {
                        prev: Some(Box::new(Brick::Binary(spec_push_binary(st.chain, v, e.0, e.1)))),
                    }))),
                }),
                None => match spec_lookup_appended(env.app_operations@, st.seg) {
                    Some(op) => Ok(ScanState {
                        seg: Seq::empty(),
                        parsing_unary: st.parsing_unary,
                        value: Some(spec_apply_unary(op, v)),
                        chain: Some(Box::new(Brick::Bracket(Bracket { prev: st.chain }))),
                    }),
                    None => Err(Error::OperationNotFoundError),
                },
            }
        } else {
            Ok(ScanState {
                seg: st.seg,
                parsing_unary: st.parsing_unary,
                value: st.value,
                chain: Some(Box::new(Brick::Bracket(Bracket { prev: st.chain }))),
            })
        },
        None => if st.parsing_unary {
            match spec_lookup_unary(env.un_operations@, st.seg) {
                Some(e) => Ok(ScanState {
                    seg: Seq::empty(),
                    parsing_unary: false,
                    value: None,
                    chain: Some(Box::new(Brick::Bracket(Bracket {
                        prev: Some(Box::new(Brick::Unary(UnaryBrick {
                            priority: e.1,
                            operation: e.0,
                            prev: st.chain,
                        }))),
                    }))),
                }),
                None => Ok(ScanState {
                    seg: st.seg,
                    parsing_unary: st.parsing_unary,
                    value: st.value,
                    chain: Some(Box::new(Brick::Bracket(Bracket { prev: st.chain }))),
                }),
            }
        } else {
            Ok(ScanState {
                seg: st.seg,
                parsing_unary: st.parsing_unary,
                value: st.value,
                chain: Some(Box::new(Brick::Bracket(Bracket { prev: st.chain }))),
            })
        },
    }
}

/// Resolve the chain with `v` down to the nearest bracket, which is popped;
/// with no bracket on the chain the parenthesis is unmatched.
pub open spec fn spec_close_resolved(st: ScanState, v: Num, seg: Seq<char>) -> Result<ScanState, Error> {
    match spec_close_bracket(st.chain, v) {
        Some(r) => Ok(ScanState {
            seg,
            parsing_unary: st.parsing_unary,
            value: Some(r.0),
            chain: r.1,
        }),
        None => Err(Error::SyntaxError),
    }
}

/// What a closing parenthesis does: a still-accumulating numeric segment is
/// first parsed (a pending appended operator is first applied), then the
/// chain is resolved down to the matching bracket.
pub open spec fn spec_step_close(env: Environment, st: ScanState) -> Result<ScanState, Error> {
    match st.value {
        None => if st.seg.len() > 0 && all_digits(st.seg) {
            match spec_parse(st.seg) {
                Some(n) => spec_close_resolved(st, n, Seq::empty()),
                None => Err(Error::MalformedNumberError),
            }
        } else {
            Err(Error::SyntaxError)
        },
        Some(v) => if st.seg.len() > 0 {
            match spec_lookup_appended(env.app_operations@, st.seg) {
                Some(op) => spec_close_resolved(st, spec_apply_unary(op, v), Seq::empty()),
                None => spec_close_resolved(st, v, st.seg),
            }
        } else {
            spec_close_resolved(st, v, st.seg)
        },
    }
}

/// What an ordinary character does once a value exists: a digit completes
/// the accumulated operator symbol (binary pushes a brick, appended applies
/// immediately, neither is a fault); a non-digit first applies a completed
/// appended symbol and otherwise keeps accumulating.
pub open spec fn spec_step_after_value(env: Environment, st: ScanState, c: char) -> Result<ScanState, Error> {
    match st.value {
        Some(v) => if is_digit(c) {
            match spec_lookup_binary(env.bin_operations@, st.seg) {
                Some(e) => Ok(ScanState {
                    seg: seq![c],
                    parsing_unary: st.parsing_unary,
                    value: None,
                    chain: Some(Box::new(Brick::Binary(spec_push_binary(st.chain, v, e.0, e.1)))),
                }),
                None => match spec_lookup_appended(env.app_operations@, st.seg) {
                    Some(op) => Ok(ScanState {
                        seg: seq![c],
                        parsing_unary: st.parsing_unary,
                        value: Some(spec_apply_unary(op, v)),
                        chain: st.chain,
                    }),
                    None => Err(Error::OperationNotFoundError),
                },
            }
        } else {
            if st.seg.len() > 0 && spec_lookup_appended(env.app_operations@, st.seg) is Some {
                match spec_lookup_appended(env.app_operations@, st.seg) {
                    Some(op) => Ok(ScanState {
                        seg: seq![c],
                        parsing_unary: st.parsing_unary,
                        value: Some(spec_apply_unary(op, v)),
                        chain: st.chain,
                    }),
                    None => Err(Error::OperationNotFoundError),
                }
            } else {
                Ok(ScanState {
                    seg: st.seg.push(c),
                    parsing_unary: st.parsing_unary,
                    value: st.value,
                    chain: st.chain,
                })
            }
        },
        None => Err(Error::SyntaxError),
    }
}

/// What a character does while a prefix-unary symbol accumulates: once the
/// segment resolves, the unary brick is pushed (a digit then starts the next
/// numeric segment; any other character is consumed by the completed
/// symbol); while it does not resolve, a digit is a fault and any other
/// character keeps accumulating.
pub open spec fn spec_step_unary(env: Environment, st: ScanState, c: char) -> Result<ScanState, Error> {
    match spec_lookup_unary(env.un_operations@, st.seg) {
        Some(e) => Ok(ScanState {
            seg: if is_digit(c) {
                seq![c]
            } else {
                Seq::empty()
            },
            parsing_unary: false,
            value: None,
            chain: Some(Box::new(Brick::Unary(UnaryBrick {
                priority: e.1,
                operation: e.0,
                prev: st.chain,
            }))),
        }),
        None => if is_digit(c) {
            Err(Error::OperationNotFoundError)
        } else {
            Ok(ScanState {
                seg: st.seg.push(c),
                parsing_unary: true,
                value: st.value,
                chain: st.chain,
            })
        },
    }
}

/// What a character does with no value and no prefix symbol pending: digits
/// accumulate; a first non-digit begins a prefix-unary symbol; a non-digit
/// after digits completes the number, which becomes the current value while
/// the character starts the following operator segment.
pub open spec fn spec_step_plain(st: ScanState, c: char) -> Result<ScanState, Error> {
    if is_digit(c) {
        Ok(ScanState {
            seg: st.seg.push(c),
            parsing_unary: st.parsing_unary,
            value: st.value,
            chain: st.chain,
        })
    } else if st.seg.len() == 0 {
        Ok(ScanState { seg: seq![c], parsing_unary: true, value: st.value, chain: st.chain })
    } else {
        match spec_parse(st.seg) {
            Some(n) => Ok(ScanState {
                seg: seq![c],
                parsing_unary: st.parsing_unary,
                value: Some(n),
                chain: st.chain,
            }),
            None => Err(Error::MalformedNumberError),
        }
    }
}

/// One step of the scan: the dispatch on a single character. Spaces are
/// skipped wherever they appear.
pub open spec fn spec_step(env: Environment, st: ScanState, c: char) -> Result<ScanState, Error> {
    if c == ' ' {
        Ok(st)
    } else if c == '(' {
        spec_step_open(env, st)
    } else if c == ')' {
        spec_step_close(env, st)
    } else if st.value is Some {
        spec_step_after_value(env, st, c)
    } else if st.parsing_unary {
        spec_step_unary(env, st, c)
    } else {
        spec_step_plain(st, c)
    }
}

/// The scan state after consuming `s` from state `st`; the first fault ends
/// the scan.
pub open spec fn spec_scan_from(env: Environment, st: ScanState, s: Seq<char>) -> Result<ScanState, Error>
    decreases s.len(),
{
    if s.len() == 0 {
        Ok(st)
    } else {
        match spec_step(env, st, s[0]) {
            Ok(st2) => spec_scan_from(env, st2, s.drop_first()),
            Err(e) => Err(e),
        }
    }
}

/// What the end of the input does: a remaining numeric segment is parsed
/// into the final right-hand value (a remaining appended symbol is applied
/// to the current value; any other remaining segment is malformed), then the
/// whole chain is folded.
pub open spec fn spec_finish(env: Environment, st: ScanState) -> Result<Num, Error> {
    if st.seg.len() > 0 {
        match st.value {
            None => match spec_parse(st.seg) {
                Some(n) => Ok(spec_fold_all(st.chain, n)),
                None => Err(Error::MalformedNumberError),
            },
            Some(v) => match spec_lookup_appended(env.app_operations@, st.seg) {
                Some(op) => Ok(spec_fold_all(st.chain, spec_apply_unary(op, v))),
                None => Err(Error::MalformedNumberError),
            },
        }
    } else {
        match st.value {
            Some(v) => Ok(spec_fold_all(st.chain, v)),
            None => Err(Error::MalformedNumberError),
        }
    }
}

/// The value of an equation: the scan of all characters from the initial
/// state, followed by the final fold.
pub open spec fn spec_solve(env: Environment, input: Seq<char>) -> Result<Num, Error> {
    match spec_scan_from(env, init_state(), input) {
        Ok(st) => spec_finish(env, st),
        Err(e) => Err(e),
    }
}

/// Scanning a concatenation scans the two parts in order.
pub proof fn lemma_scan_concat(env: Environment, st: ScanState, a: Seq<char>, b: Seq<char>)
    ensures
        spec_scan_from(env, st, a + b) == (match spec_scan_from(env, st, a) {
            Ok(m) => spec_scan_from(env, m, b),
            Err(e) => Err(e),
        }),
    decreases a.len(),
{
    if a.len() == 0 {
        assert(a + b =~= b);
    } else {
        assert((a + b)[0] == a[0]);
        assert((a + b).drop_first() =~= a.drop_first() + b);
        match spec_step(env, st, a[0]) {
            Ok(m) => lemma_scan_concat(env, m, a.drop_first(), b),
            Err(_) => {},
        }
    }
}

/// Scanning one further character performs one further step.
pub proof fn lemma_scan_snoc(env: Environment, st: ScanState, s: Seq<char>, c: char)
    ensures
        spec_scan_from(env, st, s.push(c)) == (match spec_scan_from(env, st, s) {
            Ok(m) => spec_step(env, m, c),
            Err(e) => Err(e),
        }),
{
    lemma_scan_concat(env, st, s, seq![c]);
    assert(s.push(c) =~= s + seq![c]);
    match spec_scan_from(env, st, s) {
        Ok(m) => {
            assert(seq![c].len() == 1);
            assert(seq![c][0] == c);
            assert(seq![c].drop_first() =~= Seq::<char>::empty());
            match spec_step(env, m, c) {
                Ok(m2) => {
                    assert(spec_scan_from(env, m2, seq![c].drop_first()) == Ok::<ScanState, Error>(
                        m2,
                    ));
                    assert(spec_scan_from(env, m, seq![c]) == Ok::<ScanState, Error>(m2));
                },
                Err(e) => {
                    assert(spec_scan_from(env, m, seq![c]) == Err::<ScanState, Error>(e));
                },
            }
        },
        Err(_) => {},
    }
}

/// A fault while scanning a prefix is the fault of the whole scan.
pub proof fn lemma_scan_extends_err(env: Environment, s: Seq<char>, k: int, e: Error)
    requires
        0 <= k <= s.len(),
        spec_scan_from(env, init_state(), s.take(k)) == Err::<ScanState, Error>(e),
    ensures
        spec_scan_from(env, init_state(), s) == Err::<ScanState, Error>(e),
{
    lemma_scan_concat(env, init_state(), s.take(k), s.skip(k));
    assert(s.take(k) + s.skip(k) =~= s);
}

/// Whether `c` is an ASCII decimal digit.
pub fn is_digit_char(c: char) -> (r: bool)
    ensures
        r == is_digit(c),
{
    let u = c as u32;
    (48u32 <= u) && (u <= 57u32)
}

/// Whether every character of the segment is an ASCII decimal digit.
pub fn check_all_digits(seg: &Vec<char>) -> (r: bool)
    ensures
        r == all_digits(seg@),
{
    let mut i: usize = 0;
    while i < seg.len()
        invariant
            i <= seg@.len(),
            forall|j: int| 0 <= j < i ==> is_digit(seg@[j]),
        decreases seg@.len() - i,
    {
        if !is_digit_char(seg[i]) {
            return false;
        }
        i = i + 1;
    }
    true
}

/// Parse a numeric segment, as `spec_parse` describes it.
pub fn parse_segment(seg: &Vec<char>) -> (r: Option<Num>)
    ensures
        r == spec_parse(seg@),
{
    if seg.len() == 0 {
        return None;
    }
    let mut acc: Option<Num> = Some(0);
    let mut i: usize = 0;
    proof {
        assert(seg@.skip(0) =~= seg@);
    }
    while i < seg.len()
        invariant
            i <= seg@.len(),
            seg@.len() > 0,
            spec_parse_from(seg@, Some(0)) == spec_parse_from(seg@.skip(i as int), acc),
        decreases seg@.len() - i,
    {
        proof {
            assert(seg@.skip(i as int)[0] == seg@[i as int]);
            assert(seg@.skip(i as int).drop_first() =~= seg@.skip(i as int + 1));
        }
        let c = seg[i];
        match acc {
            None => {},
            Some(a) => {
                let u = c as u32;
                if !((48u32 <= u) && (u <= 57u32)) {
                    acc = None;
                } else {
                    let wide: i128 = (a as i128) * 10 + ((u - 48) as i128);
                    if wide > 9223372036854775807i128 {
                        acc = None;
                    } else {
                        acc = Some(wide as i64);
                    }
                }
            },
        }
        i = i + 1;
    }
    proof {
        assert(seg@.skip(seg@.len() as int) =~= Seq::<char>::empty());
    }
    acc
}

/// The number a segment denotes, with `0` for a segment that denotes none.
pub open spec fn parse_value(s: Seq<char>) -> Num {
    match spec_parse(s) {
        Some(n) => n,
        None => 0,
    }
}

/// The values the segments denote, in order.
pub open spec fn seg_values(segs: Seq<Seq<char>>) -> Seq<Num> {
    segs.map_values(|s: Seq<char>| parse_value(s))
}

/// Whether `c` is an ordinary operator character to the scanner: not a
/// digit, a space or a parenthesis.
pub open spec fn is_operator_char(c: char) -> bool {
    !is_digit(c) && c != ' ' && c != '(' && c != ')'
}

/// The literals joined by the operator symbols into one expression text:
/// `segs[0] syms[0] segs[1] syms[1] ...`.
pub open spec fn render_infix(segs: Seq<Seq<char>>, syms: Seq<char>) -> Seq<char>
    decreases segs.len(),
{
    if segs.len() == 0 {
        Seq::empty()
    } else if segs.len() == 1 {
        segs[0]
    } else {
        render_infix(segs.drop_last(), syms.drop_last()) + seq![syms.last()] + segs.last()
    }
}

/// The left-associated fold `vals[0] ops[0] vals[1] ops[1] ...`, grouped to
/// the left (meaningful when `vals` holds one value more than `ops`).
pub open spec fn left_fold_ops(vals: Seq<Num>, ops: Seq<BinaryOp>) -> Num
    decreases ops.len(),
{
    if ops.len() == 0 {
        if vals.len() == 0 {
            0
        } else {
            vals[0]
        }
    } else {
        spec_apply_binary(
            ops.last(),
            left_fold_ops(vals.drop_last(), ops.drop_last()),
            vals.last(),
        )
    }
}

/// The chain pending while scanning literals joined by equal-priority binary
/// operators: because the eager fold fires at equal priority, at most one
/// binary brick is ever pending, and it carries the left-associated fold of
/// everything scanned so far.
pub open spec fn pending_chain(vals: Seq<Num>, ops: Seq<BinaryOp>, p: Prior) -> Chain {
    if ops.len() == 0 {
        None
    } else {
        Some(Box::new(Brick::Binary(BinaryBrick {
            priority: p,
            operation: ops.last(),
            value: left_fold_ops(vals, ops.drop_last()),
            prev: None,
        })))
    }
}

/// Scanning a run of digits with no value pending only extends the segment.
pub proof fn lemma_scan_digits(env: Environment, st: ScanState, d: Seq<char>)
    requires
        st.value is None,
        !st.parsing_unary,
        all_digits(d),
    ensures
        spec_scan_from(env, st, d) == Ok::<ScanState, Error>(ScanState {
            seg: st.seg + d,
            parsing_unary: false,
            value: None,
            chain: st.chain,
        }),
    decreases d.len(),
{
    if d.len() == 0 {
        assert(st.seg + d =~= st.seg);
    } else {
        let c = d[0];
        assert(is_digit(c));
        assert(' ' as u32 == 32);
        assert('(' as u32 == 40);
        assert(')' as u32 == 41);
        let st2 = ScanState {
            seg: st.seg.push(c),
            parsing_unary: false,
            value: None,
            chain: st.chain,
        };
        assert(spec_step(env, st, c) == Ok::<ScanState, Error>(st2));
        assert(all_digits(d.drop_first())) by {
            assert(forall|i: int|
                0 <= i < d.drop_first().len() ==> d.drop_first()[i] == d[i + 1]);
        }
        lemma_scan_digits(env, st2, d.drop_first());
        assert(st2.seg + d.drop_first() =~= st.seg + d);
    }
}

/// The scan state after literals joined by equal-priority binary symbols:
/// the last literal is still accumulating, and the one pending brick carries
/// the left-associated fold of everything before it.
pub proof fn lemma_scan_infix_chain(
    env: Environment,
    segs: Seq<Seq<char>>,
    syms: Seq<char>,
    ops: Seq<BinaryOp>,
    p: Prior,
)
    requires
        segs.len() >= 1,
        syms.len() == segs.len() - 1,
        ops.len() == syms.len(),
        forall|i: int| #![trigger segs[i]]
            0 <= i < segs.len() ==> segs[i].len() > 0 && all_digits(segs[i]) && spec_parse(
                segs[i],
            ) is Some,
        forall|i: int| #![trigger syms[i]]
            0 <= i < syms.len() ==> is_operator_char(syms[i]) && spec_lookup_binary(
                env.bin_operations@,
                seq![syms[i]],
            ) == Some((ops[i], p)),
    ensures
        spec_scan_from(env, init_state(), render_infix(segs, syms)) == Ok::<ScanState, Error>(
            ScanState {
                seg: segs.last(),
                parsing_unary: false,
                value: None,
                chain: pending_chain(seg_values(segs.drop_last()), ops, p),
            },
        ),
    decreases segs.len(),
{
    if segs.len() == 1 {
        assert(segs[0].len() > 0 && all_digits(segs[0]));
        lemma_scan_digits(env, init_state(), segs[0]);
        assert(Seq::<char>::empty() + segs[0] =~= segs[0]);
    } else {
        let pre = segs.drop_last();
        let pre_syms = syms.drop_last();
        let pre_ops = ops.drop_last();
        let d = segs.last();
        let s_ch = syms.last();
        let op = ops.last();
        assert(d == segs[segs.len() - 1]);
        assert(d.len() > 0 && all_digits(d));
        assert(s_ch == syms[syms.len() - 1]);
        assert(op == ops[ops.len() - 1]);
        assert(is_operator_char(s_ch));
        assert(spec_lookup_binary(env.bin_operations@, seq![s_ch]) == Some((op, p)));
        assert forall|i: int| 0 <= i < pre.len() implies (#[trigger] pre[i]).len() > 0
            && all_digits(pre[i]) && spec_parse(pre[i]) is Some by {
            assert(pre[i] == segs[i]);
        }
        assert forall|i: int| 0 <= i < pre_syms.len() implies is_operator_char(
            #[trigger] pre_syms[i],
        ) && spec_lookup_binary(env.bin_operations@, seq![pre_syms[i]]) == Some(
            (pre_ops[i], p),
        ) by {
            assert(pre_syms[i] == syms[i]);
            assert(pre_ops[i] == ops[i]);
        }
        lemma_scan_infix_chain(env, pre, pre_syms, pre_ops, p);
        let acc_vals = seg_values(pre.drop_last());
        let s1 = ScanState {
            seg: pre.last(),
            parsing_unary: false,
            value: None,
            chain: pending_chain(acc_vals, pre_ops, p),
        };
        // split the text into the earlier expression, the symbol, the last run
        assert(render_infix(segs, syms) == render_infix(pre, pre_syms) + seq![s_ch] + d);
        assert((render_infix(pre, pre_syms) + seq![s_ch]) + d =~= render_infix(pre, pre_syms) + (
        seq![s_ch] + d));
        lemma_scan_concat(env, init_state(), render_infix(pre, pre_syms), seq![s_ch] + d);
        // the symbol closes the pending literal into the current value
        let v_k = parse_value(pre.last());
        assert(pre.last() == segs[segs.len() - 2]);
        assert(spec_parse(pre.last()) == Some(v_k));
        let s2 = ScanState {
            seg: seq![s_ch],
            parsing_unary: false,
            value: Some(v_k),
            chain: s1.chain,
        };
        assert(spec_step(env, s1, s_ch) == Ok::<ScanState, Error>(s2));
        lemma_scan_concat(env, s1, seq![s_ch], d);
        assert(seq![s_ch].drop_first() =~= Seq::<char>::empty());
        assert(seq![s_ch][0] == s_ch);
        assert(spec_scan_from(env, s2, Seq::<char>::empty()) == Ok::<ScanState, Error>(s2));
        assert(spec_scan_from(env, s1, seq![s_ch]) == Ok::<ScanState, Error>(s2));
        // the first digit of the last run pushes the binary brick, eagerly
        // folding the pending brick of equal priority into the new operand
        let c0 = d[0];
        assert(is_digit(c0));
        let vals_pre = seg_values(pre);
        assert(vals_pre.last() == v_k);
        assert(vals_pre.drop_last() =~= acc_vals);
        let brick = spec_push_binary(s2.chain, v_k, op, p);
        if pre_ops.len() == 0 {
            assert(vals_pre.len() == 1);
            assert(left_fold_ops(vals_pre, pre_ops) == vals_pre[0]);
            assert(vals_pre[0] == v_k);
        } else {
            let acc = left_fold_ops(acc_vals, pre_ops.drop_last());
            assert(s2.chain == Some(Box::new(Brick::Binary(BinaryBrick {
                priority: p,
                operation: pre_ops.last(),
                value: acc,
                prev: None,
            }))));
            let applied = spec_apply_binary(pre_ops.last(), acc, v_k);
            assert(spec_fold_to_bracket(None, applied) == (applied, None::<Box<Brick>>));
            assert(spec_fold_to_bracket(s2.chain, v_k) == (applied, None::<Box<Brick>>));
            assert(left_fold_ops(vals_pre, pre_ops) == spec_apply_binary(
                pre_ops.last(),
                left_fold_ops(vals_pre.drop_last(), pre_ops.drop_last()),
                vals_pre.last(),
            ));
        }
        assert(brick == (BinaryBrick {
            priority: p,
            operation: op,
            value: left_fold_ops(vals_pre, pre_ops),
            prev: None,
        }));
        assert(Some(Box::new(Brick::Binary(brick))) == pending_chain(vals_pre, ops, p));
        let s3 = ScanState {
            seg: seq![c0],
            parsing_unary: false,
            value: None,
            chain: pending_chain(vals_pre, ops, p),
        };
        assert(spec_step(env, s2, c0) == Ok::<ScanState, Error>(s3));
        // the remaining digits only extend the segment
        assert(all_digits(d.drop_first())) by {
            assert(forall|i: int|
                0 <= i < d.drop_first().len() ==> d.drop_first()[i] == d[i + 1]);
        }
        lemma_scan_digits(env, s3, d.drop_first());
        assert(seq![c0] + d.drop_first() =~= d);
        assert(spec_scan_from(env, s2, d) == Ok::<ScanState, Error>(ScanState {
            seg: d,
            parsing_unary: false,
            value: None,
            chain: pending_chain(vals_pre, ops, p),
        }));
        assert(seg_values(segs.drop_last()) == vals_pre);
    }
}

/// Left-associativity: an expression of numeric literals joined by binary
/// operators of one shared priority — such as the default registry's `+` and
/// `-` — evaluates to the left-to-right fold of the operations over the
/// literals' values: `"3 - 2 - 1"` means `(3 - 2) - 1`.
pub proof fn lemma_equal_priority_left_associative(
    env: Environment,
    segs: Seq<Seq<char>>,
    syms: Seq<char>,
    ops: Seq<BinaryOp>,
    p: Prior,
)
    requires
        segs.len() >= 1,
        syms.len() == segs.len() - 1,
        ops.len() == syms.len(),
        forall|i: int| #![trigger segs[i]]
            0 <= i < segs.len() ==> segs[i].len() > 0 && all_digits(segs[i]) && spec_parse(
                segs[i],
            ) is Some,
        forall|i: int| #![trigger syms[i]]
            0 <= i < syms.len() ==> is_operator_char(syms[i]) && spec_lookup_binary(
                env.bin_operations@,
                seq![syms[i]],
            ) == Some((ops[i], p)),
    ensures
        spec_solve(env, render_infix(segs, syms)) == Ok::<Num, Error>(
            left_fold_ops(seg_values(segs), ops),
        ),
{
    lemma_scan_infix_chain(env, segs, syms, ops, p);
    let vals = seg_values(segs);
    let front = seg_values(segs.drop_last());
    let last_seg = segs.last();
    assert(last_seg == segs[segs.len() - 1]);
    let v_last = parse_value(last_seg);
    assert(spec_parse(last_seg) == Some(v_last));
    let stf = ScanState {
        seg: last_seg,
        parsing_unary: false,
        value: None,
        chain: pending_chain(front, ops, p),
    };
    assert(spec_finish(env, stf) == Ok::<Num, Error>(spec_fold_all(stf.chain, v_last)));
    assert(vals.drop_last() =~= front);
    assert(vals.last() == v_last);
    if ops.len() == 0 {
        assert(vals.len() == 1 && vals[0] == v_last);
        assert(left_fold_ops(vals, ops) == vals[0]);
    } else {
        let acc = left_fold_ops(front, ops.drop_last());
        let res = spec_apply_binary(ops.last(), acc, v_last);
        assert(spec_fold_all(None, res) == res);
        assert(spec_fold_all(stf.chain, v_last) == res);
        assert(left_fold_ops(vals, ops) == spec_apply_binary(
            ops.last(),
            left_fold_ops(vals.drop_last(), ops.drop_last()),
            vals.last(),
        ));
    }
}

/// Calculate the value of the given equation, as `spec_solve` describes it;
/// an `Err` names the first fault the scan runs into.
#[verifier::rlimit(100)]
pub fn solve(env: &Environment, calc: String) -> (r: Result<Num, Error>)
    ensures
        r == spec_solve(*env, calc@),
{
    let input = str_to_chars(calc.as_str());
    let n = input.len();
    let mut seg: Vec<char> = Vec::new();
    let mut parsing_unary: bool = false;
    let mut value: Option<Num> = None;
    let mut chain: Chain = None;
    let mut i: usize = 0;
    proof {
        assert(calc@.take(0) =~= Seq::<char>::empty());
    }
    while i < n
        invariant
            i <= n,
            n == input@.len(),
            input@ == calc@,
            spec_scan_from(*env, init_state(), calc@.take(i as int)) == Ok::<ScanState, Error>(
                ScanState { seg: seg@, parsing_unary, value, chain },
            ),
        decreases n - i,
    {
        let c = input[i];
        let ghost pre = ScanState { seg: seg@, parsing_unary, value, chain };
        proof {
            lemma_scan_snoc(*env, init_state(), calc@.take(i as int), c);
            assert(calc@.take(i as int).push(c) =~= calc@.take(i as int + 1));
        }
        if c == ' ' {
            proof {
                assert(spec_step(*env, pre, c) == Ok::<ScanState, Error>(pre));
            }
        } else if c == '(' {
            if value.is_some() && seg.len() > 0 {
                let v = value.unwrap();
                match env.lookup_binary(&seg) {
                    Some((op, p)) => {
                        let brick = BinaryBrick::new(chain, v, op, p);
                        chain = Some(Box::new(Brick::Bracket(Bracket::new(Some(Box::new(
                            Brick::Binary(brick),
                        ))))));
                        value = None;
                        seg = Vec::new();
                        proof {
                            assert(spec_step(*env, pre, c) == Ok::<ScanState, Error>(ScanState {
                                seg: seg@,
                                parsing_unary,
                                value,
                                chain,
                            }));
                        }
                    },
                    None => match env.lookup_appended(&seg) {
                        Some(op) => {
                            value = Some(apply_unary(op, v));
                            chain = Some(Box::new(Brick::Bracket(Bracket::new(chain))));
                            seg = Vec::new();
                            proof {
                                assert(spec_step(*env, pre, c) == Ok::<ScanState, Error>(ScanState {
                                    seg: seg@,
                                    parsing_unary,
                                    value,
                                    chain,
                                }));
                            }
                        },
                        None => {
                            proof {
                                lemma_scan_extends_err(
                                    *env,
                                    calc@,
                                    i as int + 1,
                                    Error::OperationNotFoundError,
                                );
                            }
                            return Err(Error::OperationNotFoundError);
                        },
                    },
                }
            } else if value.is_none() && parsing_unary {
                match env.lookup_unary(&seg) {
                    Some((op, p)) => {
                        let brick = UnaryBrick::new(chain, op, p);
                        chain = Some(Box::new(Brick::Bracket(Bracket::new(Some(Box::new(
                            Brick::Unary(brick),
                        ))))));
                        seg = Vec::new();
                        parsing_unary = false;
                        proof {
                            assert(spec_step(*env, pre, c) == Ok::<ScanState, Error>(ScanState {
                                seg: seg@,
                                parsing_unary,
                                value,
                                chain,
                            }));
                        }
                    },
                    None => {
                        chain = Some(Box::new(Brick::Bracket(Bracket::new(chain))));
                        proof {
                            assert(spec_step(*env, pre, c) == Ok::<ScanState, Error>(ScanState {
                                seg: seg@,
                                parsing_unary,
                                value,
                                chain,
                            }));
                        }
                    },
                }
            } else {
                chain = Some(Box::new(Brick::Bracket(Bracket::new(chain))));
                proof {
                    assert(spec_step(*env, pre, c) == Ok::<ScanState, Error>(ScanState {
                        seg: seg@,
                        parsing_unary,
                        value,
                        chain,
                    }));
                }
            }
        } else if c == ')' {
            if value.is_none() {
                if seg.len() > 0 && check_all_digits(&seg) {
                    match parse_segment(&seg) {
                        Some(nv) => match close_bracket(chain, nv) {
                            Some((nv2, rest)) => {
                                value = Some(nv2);
                                chain = rest;
                                seg = Vec::new();
                                proof {
                                    assert(spec_step(*env, pre, c) == Ok::<ScanState, Error>(ScanState {
                                        seg: seg@,
                                        parsing_unary,
                                        value,
                                        chain,
                                    }));
                                }
                            },
                            None => {
                                proof {
                                    lemma_scan_extends_err(
                                        *env,
                                        calc@,
                                        i as int + 1,
                                        Error::SyntaxError,
                                    );
                                }
                                return Err(Error::SyntaxError);
                            },
                        },
                        None => {
                            proof {
                                lemma_scan_extends_err(
                                    *env,
                                    calc@,
                                    i as int + 1,
                                    Error::MalformedNumberError,
                                );
                            }
                            return Err(Error::MalformedNumberError);
                        },
                    }
                } else {
                    proof {
                        lemma_scan_extends_err(*env, calc@, i as int + 1, Error::SyntaxError);
                    }
                    return Err(Error::SyntaxError);
                }
            } else {
                let v = value.unwrap();
                let mut v2 = v;
                if seg.len() > 0 {
                    match env.lookup_appended(&seg) {
                        Some(op) => {
                            v2 = apply_unary(op, v);
                            seg = Vec::new();
                        },
                        None => {},
                    }
                }
                match close_bracket(chain, v2) {
                    Some((nv2, rest)) => {
                        value = Some(nv2);
                        chain = rest;
                        proof {
                            assert(spec_step(*env, pre, c) == Ok::<ScanState, Error>(ScanState {
                                seg: seg@,
                                parsing_unary,
                                value,
                                chain,
                            }));
                        }
                    },
                    None => {
                        proof {
                            lemma_scan_extends_err(*env, calc@, i as int + 1, Error::SyntaxError);
                        }
                        return Err(Error::SyntaxError);
                    },
                }
            }
        } else if value.is_some() {
            let v = value.unwrap();
            if is_digit_char(c) {
                match env.lookup_binary(&seg) {
                    Some((op, p)) => {
                        let brick = BinaryBrick::new(chain, v, op, p);
                        chain = Some(Box::new(Brick::Binary(brick)));
                        value = None;
                        seg = Vec::new();
                        seg.push(c);
                        proof {
                            assert(seg@ =~= seq![c]);
                            assert(spec_step(*env, pre, c) == Ok::<ScanState, Error>(ScanState {
                                seg: seg@,
                                parsing_unary,
                                value,
                                chain,
                            }));
                        }
                    },
                    None => match env.lookup_appended(&seg) {
                        Some(op) => {
                            value = Some(apply_unary(op, v));
                            seg = Vec::new();
                            seg.push(c);
                            proof {
                                assert(seg@ =~= seq![c]);
                                assert(spec_step(*env, pre, c) == Ok::<ScanState, Error>(ScanState {
                                    seg: seg@,
                                    parsing_unary,
                                    value,
                                    chain,
                                }));
                            }
                        },
                        None => {
                            proof {
                                lemma_scan_extends_err(
                                    *env,
                                    calc@,
                                    i as int + 1,
                                    Error::OperationNotFoundError,
                                );
                            }
                            return Err(Error::OperationNotFoundError);
                        },
                    },
                }
            } else {
                let mut applied = false;
                if seg.len() > 0 {
                    match env.lookup_appended(&seg) {
                        Some(op) => {
                            value = Some(apply_unary(op, v));
                            seg = Vec::new();
                            seg.push(c);
                            applied = true;
                            proof {
                                assert(seg@ =~= seq![c]);
                                assert(spec_step(*env, pre, c) == Ok::<ScanState, Error>(ScanState {
                                    seg: seg@,
                                    parsing_unary,
                                    value,
                                    chain,
                                }));
                            }

                        },
                        None => {},
                    }
                }
                if !applied {
                    seg.push(c);
                    proof {
                        assert(spec_step(*env, pre, c) == Ok::<ScanState, Error>(ScanState {
                            seg: seg@,
                            parsing_unary,
                            value,
                            chain,
                        }));
                    }
                }
            }
        } else if parsing_unary {
            match env.lookup_unary(&seg) {
                Some((op, p)) => {
                    let brick = UnaryBrick::new(chain, op, p);
                    chain = Some(Box::new(Brick::Unary(brick)));
                    parsing_unary = false;
                    seg = Vec::new();
                    if is_digit_char(c) {
                        seg.push(c);
                    }
                    proof {
                        assert(is_digit(c) ==> seg@ =~= seq![c]);
                        assert(spec_step(*env, pre, c) == Ok::<ScanState, Error>(ScanState {
                            seg: seg@,
                            parsing_unary,
                            value,
                            chain,
                        }));
                    }
                },
                None => {
                    if is_digit_char(c) {
                        proof {
                            lemma_scan_extends_err(
                                *env,
                                calc@,
                                i as int + 1,
                                Error::OperationNotFoundError,
                            );
                        }
                        return Err(Error::OperationNotFoundError);
                    }
                    seg.push(c);
                    proof {
                        assert(spec_step(*env, pre, c) == Ok::<ScanState, Error>(ScanState {
                            seg: seg@,
                            parsing_unary,
                            value,
                            chain,
                        }));
                    }
                },
            }
        } else {
            if is_digit_char(c) {
                seg.push(c);
                proof {
                    assert(spec_step(*env, pre, c) == Ok::<ScanState, Error>(ScanState {
                        seg: seg@,
                        parsing_unary,
                        value,
                        chain,
                    }));
                }
            } else if seg.len() == 0 {
                seg.push(c);
                parsing_unary = true;
                proof {
                    assert(seg@ =~= seq![c]);
                    assert(spec_step(*env, pre, c) == Ok::<ScanState, Error>(ScanState {
                        seg: seg@,
                        parsing_unary,
                        value,
                        chain,
                    }));
                }

            } else {
                match parse_segment(&seg) {
                    Some(nv) => {
                        value = Some(nv);
                        seg = Vec::new();
                        seg.push(c);
                        proof {
                            assert(seg@ =~= seq![c]);
                            assert(spec_step(*env, pre, c) == Ok::<ScanState, Error>(ScanState {
                                seg: seg@,
                                parsing_unary,
                                value,
                                chain,
                            }));
                        }
                    },
                    None => {
                        proof {
                            lemma_scan_extends_err(
                                *env,
                                calc@,
                                i as int + 1,
                                Error::MalformedNumberError,
                            );
                        }
                        return Err(Error::MalformedNumberError);
                    },
                }
            }
        }
        i = i + 1;
    }
    proof {
        assert(calc@.take(n as int) =~= calc@);
    }
    if seg.len() > 0 {
        match value {
            None => match parse_segment(&seg) {
                Some(nv) => Ok(fold_all(chain, nv)),
                None => Err(Error::MalformedNumberError),
            },
            Some(v) => match env.lookup_appended(&seg) {
                Some(op) => Ok(fold_all(chain, apply_unary(op, v))),
                None => Err(Error::MalformedNumberError),
            },
        }
    } else {
        match value {
            Some(v) => Ok(fold_all(chain, v)),
            None => Err(Error::MalformedNumberError),
        }
    }
}

} // verus!

