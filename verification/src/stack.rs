//! Runtime values and the operand stack of the execution engine.

use vstd::prelude::*;

verus! {

/// A runtime datum on the operand stack: a signed 32-bit integer or a text.
#[derive(Debug, PartialEq, Eq)]
pub enum FValue {
    Int(i32),
    Str(String),
}

impl Clone for FValue {
    fn clone(&self) -> (res: Self)
        ensures
            res@ == self@,
    {
        match self {
            FValue::Int(i) => FValue::Int(*i),
            FValue::Str(s) => FValue::Str(s.clone()),
        }
    }
}

/// The mathematical model of a runtime value.
pub enum ValueModel {
    Int(i32),
    Str(Seq<char>),
}

impl View for FValue {
    type V = ValueModel;

    open spec fn view(&self) -> ValueModel {
        match self {
            FValue::Int(i) => ValueModel::Int(*i),
            FValue::Str(s) => ValueModel::Str(s@),
        }
    }
}

/// The integer payload of a value; meaningful only under an `is Int` guard.
pub open spec fn int_of(v: ValueModel) -> i32 {
    match v {
        ValueModel::Int(i) => i,
        ValueModel::Str(_) => 0,
    }
}

/// The character for a single decimal digit value.
pub open spec fn digit_char(d: int) -> char {
    if d == 0 {
        '0'
    } else if d == 1 {
        '1'
    } else if d == 2 {
        '2'
    } else if d == 3 {
        '3'
    } else if d == 4 {
        '4'
    } else if d == 5 {
        '5'
    } else if d == 6 {
        '6'
    } else if d == 7 {
        '7'
    } else if d == 8 {
        '8'
    } else {
        '9'
    }
}

/// Decimal digits of a non-negative integer, most significant first.
pub open spec fn dec_digits(n: nat) -> Seq<char>
    decreases n,
{
    if n < 10 {
        seq![digit_char(n as int)]
    } else {
        dec_digits(n / 10).push(digit_char((n % 10) as int))
    }
}

/// The decimal rendering of an integer, a `-` sign ahead of a negative one.
pub open spec fn render_int(i: int) -> Seq<char> {
    if i < 0 {
        seq!['-'] + dec_digits((-i) as nat)
    } else {
        dec_digits(i as nat)
    }
}

/// What `Print` writes for a value: an integer as decimal, a text verbatim.
pub open spec fn render_value(v: ValueModel) -> Seq<char> {
    match v {
        ValueModel::Int(i) => render_int(i as int),
        ValueModel::Str(s) => s,
    }
}

/// Relies on String::push: appends exactly one character at the end.
#[verifier::external_body]
fn push_char(s: &mut String, c: char)
    ensures
        final(s)@ == old(s)@ + seq![c],
{
    s.push(c);
}

fn digit_char_of(d: u32) -> (c: char)
    requires
        d < 10,
    ensures
        c == digit_char(d as int),
{
    if d == 0 {
        '0'
    } else if d == 1 {
        '1'
    } else if d == 2 {
        '2'
    } else if d == 3 {
        '3'
    } else if d == 4 {
        '4'
    } else if d == 5 {
        '5'
    } else if d == 6 {
        '6'
    } else if d == 7 {
        '7'
    } else if d == 8 {
        '8'
    } else {
        '9'
    }
}

/// Appends the decimal digits of `m` to `out`.
fn push_dec(out: &mut String, m: u32)
    ensures
        final(out)@ == old(out)@ + dec_digits(m as nat),
    decreases m,
{
    if m < 10 {
        push_char(out, digit_char_of(m));
    } else {
        push_dec(out, m / 10);
        push_char(out, digit_char_of(m % 10));
        proof {
            assert(old(out)@ + dec_digits((m / 10) as nat) + seq![
                digit_char((m % 10) as int),
            ] =~= old(out)@ + dec_digits(m as nat));
        }
    }
}

impl FValue {
    /// The textual representation of a value, as `Print` emits it.
    pub fn to_string(&self) -> (r: String)
        ensures
            r@ == render_value(self@),
    {
        match self {
            FValue::Int(i) => {
                let mut out = String::new();
                if *i < 0 {
                    push_char(&mut out, '-');
                    let m: u32 = (-(*i as i64)) as u32;
                    push_dec(&mut out, m);
                    proof {
                        assert(Seq::<char>::empty() + seq!['-'] + dec_digits(m as nat)
                            =~= render_int(*i as int));
                    }
                } else {
                    push_dec(&mut out, *i as u32);
                    proof {
                        assert(Seq::<char>::empty() + dec_digits((*i as u32) as nat)
                            =~= render_int(*i as int));
                    }
                }
                out
            },
            FValue::Str(s) => s.clone(),
        }
    }
}

/// The operand stack: a growable sequence of values, top at the end.
#[derive(Debug)]
pub struct Stack(pub Vec<FValue>);

impl View for Stack {
    type V = Seq<ValueModel>;

    open spec fn view(&self) -> Seq<ValueModel> {
        Seq::new(self.0@.len(), |k: int| self.0@[k]@)
    }
}

impl Stack {
    /// A fresh, empty operand stack.
    pub fn new() -> (s: Stack)
        ensures
            s@ == Seq::<ValueModel>::empty(),
    {
        let s = Stack(Vec::new());
        proof {
            assert(s@ =~= Seq::<ValueModel>::empty());
        }
        s
    }

    /// Number of values on the stack.
    pub fn len(&self) -> (n: usize)
        ensures
            n == self@.len(),
    {
        self.0.len()
    }

    /// Push a value on top of the stack.
    pub fn push(&mut self, v: FValue)
        ensures
            final(self)@ =~= old(self)@.push(v@),
    {
        self.0.push(v);
    }

    /// Push an integer value.
    pub fn push_int(&mut self, i: i32)
        ensures
            final(self)@ =~= old(self)@.push(ValueModel::Int(i)),
    {
        self.push(FValue::Int(i));
    }

    /// Push a text value.
    pub fn push_str(&mut self, s: String)
        ensures
            final(self)@ =~= old(self)@.push(ValueModel::Str(s@)),
    {
        self.push(FValue::Str(s));
    }

    /// A borrow of the value `depth` places below the top of the stack.
    pub fn peek(&self, depth: usize) -> (v: &FValue)
        requires
            depth < self@.len(),
        ensures
            v@ == self@[self@.len() - 1 - depth],
    {
        &self.0[self.0.len() - 1 - depth]
    }

    /// Pop the top value; the stack must be non-empty.
    pub fn pop(&mut self) -> (v: FValue)
        requires
            old(self)@.len() > 0,
        ensures
            v@ == old(self)@.last(),
            final(self)@ =~= old(self)@.drop_last(),
    {
        let v = self.0.pop().unwrap();
        v
    }

    /// Pop two integer operands — the right one sits on top — and push the
    /// one integer that `op` makes of them. The two values on top must be
    /// integers: this raw combinator leaves the fatal conditions to its
    /// caller.
    pub fn op2_to_1<F: Fn(i32, i32) -> i32>(&mut self, op: F)
        requires
            old(self)@.len() >= 2,
            old(self)@.last() is Int,
            old(self)@[old(self)@.len() - 2] is Int,
            forall|a: i32, b: i32| call_requires(op, (a, b)),
        ensures
            exists|r: i32|
                call_ensures(
                    op,
                    (int_of(old(self)@[old(self)@.len() - 2]), int_of(old(self)@.last())),
                    r,
                ) && final(self)@ == old(self)@.drop_last().drop_last().push(ValueModel::Int(r)),
    {
        let v2 = self.pop_int().unwrap();
        let v1 = self.pop_int().unwrap();
        let r = op(v1, v2);
        self.push_int(r);
        proof {
            assert(self@ =~= old(self)@.drop_last().drop_last().push(ValueModel::Int(r)));
        }
    }

    /// Pop the top value and return its integer payload, or `None` if the
    /// stack is empty or the top value is not an integer. In either `None`
    /// case nothing but the (possibly absent) top value is lost: an empty
    /// stack stays empty, and a non-integer top value is still popped.
    pub fn pop_int(&mut self) -> (r: Option<i32>)
        ensures
            old(self)@.len() == 0 ==> r is None && final(self)@ == old(self)@,
            old(self)@.len() > 0 ==> final(self)@ =~= old(self)@.drop_last() && (match old(
                self,
            )@.last() {
                ValueModel::Int(i) => r == Some(i),
                ValueModel::Str(_) => r is None,
            }),
    {
        match self.0.pop() {
            None => None,
            Some(FValue::Int(i)) => Some(i),
            Some(FValue::Str(_)) => None,
        }
    }
}

} // verus!
