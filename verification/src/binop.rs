//! Binary operators: spellings, precedence levels, and their semantics on
//! single-precision bit patterns.

use vstd::prelude::*;

use crate::fbits;
use crate::fbits::FloatBits;

verus! {

/// Operators that treat both operands as booleans (`x != 0.0`).
#[derive(Clone, Copy, PartialEq, Eq, Structural, Debug)]
pub enum LogicalBinOp {
    And,
    Or,
    Xor,
}

/// Comparison operators; each yields `1.0` or `0.0`.
#[derive(Clone, Copy, PartialEq, Eq, Structural, Debug)]
pub enum CmpBinOp {
    Eq,
    Ne,
    Gt,
    Ge,
    Lt,
    Le,
}

/// Arithmetic operators over single-precision values.
#[derive(Clone, Copy, PartialEq, Eq, Structural, Debug)]
pub enum ArithmeticBinOp {
    Pow,
    Mul,
    Div,
    Mod,
    Add,
    Sub,
}

/// Any binary operator of the expression grammar.
#[derive(Clone, Copy, PartialEq, Eq, Structural, Debug)]
pub enum BinOp {
    Logical(LogicalBinOp),
    Cmp(CmpBinOp),
    Arithmetic(ArithmeticBinOp),
}

impl BinOp {
    pub fn logical(val: LogicalBinOp) -> (r: Self)
        ensures
            r == BinOp::Logical(val),
    {
        Self::Logical(val)
    }

    pub fn cmp(val: CmpBinOp) -> (r: Self)
        ensures
            r == BinOp::Cmp(val),
    {
        Self::Cmp(val)
    }

    pub fn arithmetic(val: ArithmeticBinOp) -> (r: Self)
        ensures
            r == BinOp::Arithmetic(val),
    {
        Self::Arithmetic(val)
    }
}

/// The byte spelling of an operator, upper case for the alphabetic ones.
pub open spec fn spelling(op: BinOp) -> Seq<u8> {
    match op {
        BinOp::Logical(LogicalBinOp::And) => seq![65u8, 78u8, 68u8],  // AND
        BinOp::Logical(LogicalBinOp::Or) => seq![79u8, 82u8],  // OR
        BinOp::Logical(LogicalBinOp::Xor) => seq![88u8, 79u8, 82u8],  // XOR
        BinOp::Cmp(CmpBinOp::Eq) => seq![69u8, 81u8],  // EQ
        BinOp::Cmp(CmpBinOp::Ne) => seq![78u8, 69u8],  // NE
        BinOp::Cmp(CmpBinOp::Gt) => seq![71u8, 84u8],  // GT
        BinOp::Cmp(CmpBinOp::Ge) => seq![71u8, 69u8],  // GE
        BinOp::Cmp(CmpBinOp::Lt) => seq![76u8, 84u8],  // LT
        BinOp::Cmp(CmpBinOp::Le) => seq![76u8, 69u8],  // LE
        BinOp::Arithmetic(ArithmeticBinOp::Pow) => seq![42u8, 42u8],  // **
        BinOp::Arithmetic(ArithmeticBinOp::Mul) => seq![42u8],  // *
        BinOp::Arithmetic(ArithmeticBinOp::Div) => seq![47u8],  // /
        BinOp::Arithmetic(ArithmeticBinOp::Mod) => seq![77u8, 79u8, 68u8],  // MOD
        BinOp::Arithmetic(ArithmeticBinOp::Add) => seq![43u8],  // +
        BinOp::Arithmetic(ArithmeticBinOp::Sub) => seq![45u8],  // -
    }
}

impl BinOp {
    /// The spelling of this operator as owned bytes.
    pub fn to_value(self) -> (r: Vec<u8>)
        ensures
            r@ == spelling(self),
    {
        let mut v: Vec<u8> = Vec::new();
        match self {
            BinOp::Logical(LogicalBinOp::And) => {
                v.push(65);
                v.push(78);
                v.push(68);
            },
            BinOp::Logical(LogicalBinOp::Or) => {
                v.push(79);
                v.push(82);
            },
            BinOp::Logical(LogicalBinOp::Xor) => {
                v.push(88);
                v.push(79);
                v.push(82);
            },
            BinOp::Cmp(CmpBinOp::Eq) => {
                v.push(69);
                v.push(81);
            },
            BinOp::Cmp(CmpBinOp::Ne) => {
                v.push(78);
                v.push(69);
            },
            BinOp::Cmp(CmpBinOp::Gt) => {
                v.push(71);
                v.push(84);
            },
            BinOp::Cmp(CmpBinOp::Ge) => {
                v.push(71);
                v.push(69);
            },
            BinOp::Cmp(CmpBinOp::Lt) => {
                v.push(76);
                v.push(84);
            },
            BinOp::Cmp(CmpBinOp::Le) => {
                v.push(76);
                v.push(69);
            },
            BinOp::Arithmetic(ArithmeticBinOp::Pow) => {
                v.push(42);
                v.push(42);
            },
            BinOp::Arithmetic(ArithmeticBinOp::Mul) => {
                v.push(42);
            },
            BinOp::Arithmetic(ArithmeticBinOp::Div) => {
                v.push(47);
            },
            BinOp::Arithmetic(ArithmeticBinOp::Mod) => {
                v.push(77);
                v.push(79);
                v.push(68);
            },
            BinOp::Arithmetic(ArithmeticBinOp::Add) => {
                v.push(43);
            },
            BinOp::Arithmetic(ArithmeticBinOp::Sub) => {
                v.push(45);
            },
        }
        proof {
            assert(v@ =~= spelling(self));
        }
        v
    }

    /// The operator spelled by `value`, if any (spellings are matched
    /// byte-for-byte, upper case).
    pub fn from_value(value: &[u8]) -> (r: Option<Self>)
        ensures
            match r {
                Some(op) => spelling(op) == value@,
                None => forall|op: BinOp| spelling(op) != value@,
            },
    {
        let all = all_ops();
        let mut i: usize = 0;
        while i < all.len()
            invariant
                all@ == all_ops_spec(),
                i <= all@.len(),
                forall|j: int| 0 <= j < i ==> spelling(all@[j]) != value@,
            decreases all@.len() - i,
        {
            let sp = all[i].to_value();
            if bytes_eq(sp.as_slice(), value) {
                return Some(all[i]);
            }
            i += 1;
        }
        proof {
            assert forall|op: BinOp| spelling(op) != value@ by {
                assert(all_ops_spec().contains(op)) by {
                    lemma_all_ops_complete(op);
                }
            }
        }
        None
    }
}

/// Byte-for-byte equality of two slices.
pub fn bytes_eq(a: &[u8], b: &[u8]) -> (r: bool)
    ensures
        r == (a@ == b@),
{
    if a.len() != b.len() {
        proof {
            assert(a@.len() != b@.len());
        }
        return false;
    }
    let mut i: usize = 0;
    while i < a.len()
        invariant
            i <= a@.len(),
            a@.len() == b@.len(),
            forall|j: int| 0 <= j < i ==> a@[j] == b@[j],
        decreases a@.len() - i,
    {
        if a[i] != b[i] {
            return false;
        }
        i += 1;
    }
    proof {
        assert(a@ =~= b@);
    }
    true
}

/// All operators, grouped as the precedence ladder lists them.
pub open spec fn all_ops_spec() -> Seq<BinOp> {
    seq![
        BinOp::Arithmetic(ArithmeticBinOp::Pow),
        BinOp::Arithmetic(ArithmeticBinOp::Mul),
        BinOp::Arithmetic(ArithmeticBinOp::Div),
        BinOp::Arithmetic(ArithmeticBinOp::Mod),
        BinOp::Arithmetic(ArithmeticBinOp::Add),
        BinOp::Arithmetic(ArithmeticBinOp::Sub),
        BinOp::Cmp(CmpBinOp::Eq),
        BinOp::Cmp(CmpBinOp::Ne),
        BinOp::Cmp(CmpBinOp::Gt),
        BinOp::Cmp(CmpBinOp::Ge),
        BinOp::Cmp(CmpBinOp::Lt),
        BinOp::Cmp(CmpBinOp::Le),
        BinOp::Logical(LogicalBinOp::And),
        BinOp::Logical(LogicalBinOp::Or),
        BinOp::Logical(LogicalBinOp::Xor),
    ]
}

proof fn lemma_all_ops_complete(op: BinOp)
    ensures
        all_ops_spec().contains(op),
{
    let s = all_ops_spec();
    match op {
        BinOp::Logical(LogicalBinOp::And) => assert(s[12] == op),
        BinOp::Logical(LogicalBinOp::Or) => assert(s[13] == op),
        BinOp::Logical(LogicalBinOp::Xor) => assert(s[14] == op),
        BinOp::Cmp(CmpBinOp::Eq) => assert(s[6] == op),
        BinOp::Cmp(CmpBinOp::Ne) => assert(s[7] == op),
        BinOp::Cmp(CmpBinOp::Gt) => assert(s[8] == op),
        BinOp::Cmp(CmpBinOp::Ge) => assert(s[9] == op),
        BinOp::Cmp(CmpBinOp::Lt) => assert(s[10] == op),
        BinOp::Cmp(CmpBinOp::Le) => assert(s[11] == op),
        BinOp::Arithmetic(ArithmeticBinOp::Pow) => assert(s[0] == op),
        BinOp::Arithmetic(ArithmeticBinOp::Mul) => assert(s[1] == op),
        BinOp::Arithmetic(ArithmeticBinOp::Div) => assert(s[2] == op),
        BinOp::Arithmetic(ArithmeticBinOp::Mod) => assert(s[3] == op),
        BinOp::Arithmetic(ArithmeticBinOp::Add) => assert(s[4] == op),
        BinOp::Arithmetic(ArithmeticBinOp::Sub) => assert(s[5] == op),
    }
}

/// All operators, as a vector.
pub fn all_ops() -> (r: Vec<BinOp>)
    ensures
        r@ == all_ops_spec(),
{
    let mut v: Vec<BinOp> = Vec::new();
    v.push(BinOp::Arithmetic(ArithmeticBinOp::Pow));
    v.push(BinOp::Arithmetic(ArithmeticBinOp::Mul));
    v.push(BinOp::Arithmetic(ArithmeticBinOp::Div));
    v.push(BinOp::Arithmetic(ArithmeticBinOp::Mod));
    v.push(BinOp::Arithmetic(ArithmeticBinOp::Add));
    v.push(BinOp::Arithmetic(ArithmeticBinOp::Sub));
    v.push(BinOp::Cmp(CmpBinOp::Eq));
    v.push(BinOp::Cmp(CmpBinOp::Ne));
    v.push(BinOp::Cmp(CmpBinOp::Gt));
    v.push(BinOp::Cmp(CmpBinOp::Ge));
    v.push(BinOp::Cmp(CmpBinOp::Lt));
    v.push(BinOp::Cmp(CmpBinOp::Le));
    v.push(BinOp::Logical(LogicalBinOp::And));
    v.push(BinOp::Logical(LogicalBinOp::Or));
    v.push(BinOp::Logical(LogicalBinOp::Xor));
    proof {
        assert(v@ =~= all_ops_spec());
    }
    v
}

/// The precedence level of an operator: 1 binds tightest, 5 weakest.
pub open spec fn level_of(op: BinOp) -> int {
    match op {
        BinOp::Arithmetic(ArithmeticBinOp::Pow) => 1,
        BinOp::Arithmetic(ArithmeticBinOp::Mul) => 2,
        BinOp::Arithmetic(ArithmeticBinOp::Div) => 2,
        BinOp::Arithmetic(ArithmeticBinOp::Mod) => 2,
        BinOp::Arithmetic(ArithmeticBinOp::Add) => 3,
        BinOp::Arithmetic(ArithmeticBinOp::Sub) => 3,
        BinOp::Cmp(_) => 4,
        BinOp::Logical(_) => 5,
    }
}

/// The operators of one precedence level, longest spelling first.
pub open spec fn level_ops(k: int) -> Seq<BinOp> {
    if k == 1 {
        seq![BinOp::Arithmetic(ArithmeticBinOp::Pow)]
    } else if k == 2 {
        seq![
            BinOp::Arithmetic(ArithmeticBinOp::Mod),
            BinOp::Arithmetic(ArithmeticBinOp::Mul),
            BinOp::Arithmetic(ArithmeticBinOp::Div),
        ]
    } else if k == 3 {
        seq![BinOp::Arithmetic(ArithmeticBinOp::Add), BinOp::Arithmetic(ArithmeticBinOp::Sub)]
    } else if k == 4 {
        seq![
            BinOp::Cmp(CmpBinOp::Eq),
            BinOp::Cmp(CmpBinOp::Ne),
            BinOp::Cmp(CmpBinOp::Gt),
            BinOp::Cmp(CmpBinOp::Ge),
            BinOp::Cmp(CmpBinOp::Lt),
            BinOp::Cmp(CmpBinOp::Le),
        ]
    } else if k == 5 {
        seq![
            BinOp::Logical(LogicalBinOp::And),
            BinOp::Logical(LogicalBinOp::Xor),
            BinOp::Logical(LogicalBinOp::Or),
        ]
    } else {
        Seq::empty()
    }
}

/// The operators of one precedence level, as a sorted vector.
pub fn level_ops_exec(k: usize) -> (r: Vec<BinOp>)
    requires
        1 <= k <= 5,
    ensures
        r@ == level_ops(k as int),
{
    let mut v: Vec<BinOp> = Vec::new();
    if k == 1 {
        v.push(BinOp::Arithmetic(ArithmeticBinOp::Pow));
    } else if k == 2 {
        v.push(BinOp::Arithmetic(ArithmeticBinOp::Mod));
        v.push(BinOp::Arithmetic(ArithmeticBinOp::Mul));
        v.push(BinOp::Arithmetic(ArithmeticBinOp::Div));
    } else if k == 3 {
        v.push(BinOp::Arithmetic(ArithmeticBinOp::Add));
        v.push(BinOp::Arithmetic(ArithmeticBinOp::Sub));
    } else if k == 4 {
        v.push(BinOp::Cmp(CmpBinOp::Eq));
        v.push(BinOp::Cmp(CmpBinOp::Ne));
        v.push(BinOp::Cmp(CmpBinOp::Gt));
        v.push(BinOp::Cmp(CmpBinOp::Ge));
        v.push(BinOp::Cmp(CmpBinOp::Lt));
        v.push(BinOp::Cmp(CmpBinOp::Le));
    } else {
        v.push(BinOp::Logical(LogicalBinOp::And));
        v.push(BinOp::Logical(LogicalBinOp::Xor));
        v.push(BinOp::Logical(LogicalBinOp::Or));
    }
    proof {
        assert(v@ =~= level_ops(k as int));
    }
    v
}

/// What one operator makes of its two evaluated operands, on bit patterns.
/// Logical operators read truthiness and yield a boolean; comparisons go
/// through the single-precision ordering; arithmetic goes through the named
/// single-precision operations.  `**` is defined through micromath's power
/// approximation only on the block where that approximation can be
/// evaluated (see `pow_call_ok`); outside it the result is NaN.
pub open spec fn sp_apply_binop(op: BinOp, a: u32, b: u32) -> u32 {
    match op {
        BinOp::Logical(LogicalBinOp::And) => fbits::bool_bits(fbits::truthy(a) && fbits::truthy(b)),
        BinOp::Logical(LogicalBinOp::Or) => fbits::bool_bits(fbits::truthy(a) || fbits::truthy(b)),
        BinOp::Logical(LogicalBinOp::Xor) => fbits::bool_bits(fbits::truthy(a) != fbits::truthy(b)),
        BinOp::Cmp(CmpBinOp::Eq) => fbits::bool_bits(fbits::cmp_code_bits(a, b) == 2),
        BinOp::Cmp(CmpBinOp::Ne) => fbits::bool_bits(fbits::cmp_code_bits(a, b) != 2),
        BinOp::Cmp(CmpBinOp::Gt) => fbits::bool_bits(fbits::cmp_code_bits(a, b) == 3),
        BinOp::Cmp(CmpBinOp::Ge) => fbits::bool_bits(
            fbits::cmp_code_bits(a, b) == 3 || fbits::cmp_code_bits(a, b) == 2,
        ),
        BinOp::Cmp(CmpBinOp::Lt) => fbits::bool_bits(fbits::cmp_code_bits(a, b) == 1),
        BinOp::Cmp(CmpBinOp::Le) => fbits::bool_bits(
            fbits::cmp_code_bits(a, b) == 1 || fbits::cmp_code_bits(a, b) == 2,
        ),
        BinOp::Arithmetic(ArithmeticBinOp::Pow) => if fbits::pow_call_ok(a, b) {
            fbits::pow_bits(a, b)
        } else {
            fbits::QNAN_BITS
        },
        BinOp::Arithmetic(ArithmeticBinOp::Mul) => fbits::mul_bits(a, b),
        BinOp::Arithmetic(ArithmeticBinOp::Div) => fbits::div_bits(a, b),
        BinOp::Arithmetic(ArithmeticBinOp::Mod) => fbits::rem_bits(a, b),
        BinOp::Arithmetic(ArithmeticBinOp::Add) => fbits::add_bits(a, b),
        BinOp::Arithmetic(ArithmeticBinOp::Sub) => fbits::sub_bits(a, b),
    }
}

/// Apply one operator to its two evaluated operands.
pub fn apply_binop(op: BinOp, a: FloatBits, b: FloatBits) -> (r: FloatBits)
    ensures
        r.0 == sp_apply_binop(op, a.0, b.0),
{
    match op {
        BinOp::Logical(LogicalBinOp::And) => fbits::bool_to_float(
            fbits::truthy_exec(a) && fbits::truthy_exec(b),
        ),
        BinOp::Logical(LogicalBinOp::Or) => fbits::bool_to_float(
            fbits::truthy_exec(a) || fbits::truthy_exec(b),
        ),
        BinOp::Logical(LogicalBinOp::Xor) => fbits::bool_to_float(
            fbits::truthy_exec(a) != fbits::truthy_exec(b),
        ),
        BinOp::Cmp(c) => {
            let code = fbits::cmp_code(a, b);
            fbits::bool_to_float(
                match c {
                    CmpBinOp::Eq => code == 2,
                    CmpBinOp::Ne => code != 2,
                    CmpBinOp::Gt => code == 3,
                    CmpBinOp::Ge => code == 3 || code == 2,
                    CmpBinOp::Lt => code == 1,
                    CmpBinOp::Le => code == 1 || code == 2,
                },
            )
        },
        BinOp::Arithmetic(ArithmeticBinOp::Pow) => {
            if fbits::pow_call_ok_exec(a, b) {
                fbits::pow(a, b)
            } else {
                FloatBits(fbits::QNAN_BITS)
            }
        },
        BinOp::Arithmetic(ArithmeticBinOp::Mul) => fbits::mul(a, b),
        BinOp::Arithmetic(ArithmeticBinOp::Div) => fbits::div(a, b),
        BinOp::Arithmetic(ArithmeticBinOp::Mod) => fbits::rem(a, b),
        BinOp::Arithmetic(ArithmeticBinOp::Add) => fbits::add(a, b),
        BinOp::Arithmetic(ArithmeticBinOp::Sub) => fbits::sub(a, b),
    }
}

} // verus!
