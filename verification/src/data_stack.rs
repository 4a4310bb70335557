//! Data Stack for Byte Code Interpreter

use vstd::prelude::*;
use crate::strings::{
    i32_to_string, int_text, lemma_parse_format_roundtrip, parse_i32, spec_parse_i32, string_eq_str,
};

verus! {

broadcast use vstd::string::to_string_from_display_ensures_for_str;

/// A value on the data stack.
pub enum Value {
    Bool(bool),
    Int(i32),
    String(String),
}

/// Mathematical form of a stack value.
pub enum ValueView {
    Bool(bool),
    Int(i32),
    Str(Seq<char>),
}

impl View for Value {
    type V = ValueView;

    open spec fn view(&self) -> ValueView {
        match self {
            Value::Bool(b) => ValueView::Bool(*b),
            Value::Int(i) => ValueView::Int(*i),
            Value::String(s) => ValueView::Str(s@),
        }
    }
}

/// How a value is read as a boolean: integers are true unless zero, strings are true if they
/// read "yes" or "true".
pub open spec fn bool_of(v: ValueView) -> bool {
    match v {
        ValueView::Bool(b) => b,
        ValueView::Int(i) => i != 0,
        ValueView::Str(s) => s == "yes"@ || s == "true"@,
    }
}

/// How a value is read as an integer: booleans are 1 or 0, strings are parsed as decimal
/// numbers and fall back to the default `d` if they do not denote an `i32`.
pub open spec fn int_of(v: ValueView, d: i32) -> i32 {
    match v {
        ValueView::Bool(b) => if b {
            1
        } else {
            0
        },
        ValueView::Int(i) => i,
        ValueView::Str(s) => match spec_parse_i32(s) {
            Some(i) => i,
            None => d,
        },
    }
}

/// How a value is read as a string: booleans as "true"/"false", integers in decimal.
pub open spec fn str_of(v: ValueView) -> Seq<char> {
    match v {
        ValueView::Bool(b) => if b {
            "true"@
        } else {
            "false"@
        },
        ValueView::Int(i) => int_text(i as int),
        ValueView::Str(s) => s,
    }
}

/// The value popped next is the one pushed last, and popping it leaves the stack as it was
/// before the push.
pub proof fn law_pop_returns_pushed(s: Seq<ValueView>, v: ValueView)
    ensures
        s.push(v).len() > 0,
        s.push(v).last() == v,
        s.push(v).drop_last() == s,
{
    assert(s.push(v).drop_last() =~= s);
}

/// A value read as the type it was pushed as is the value itself.
pub proof fn law_read_as_own_type(b: bool, i: i32, t: Seq<char>, d: i32)
    ensures
        bool_of(ValueView::Bool(b)) == b,
        int_of(ValueView::Int(i), d) == i,
        str_of(ValueView::Str(t)) == t,
{
}

/// An integer read back as a string and that string read back as an integer is the same
/// integer; a boolean read back as a string and that string read back as a boolean is the same
/// boolean.
pub proof fn law_string_round_trip(i: i32, b: bool, d: i32)
    ensures
        int_of(ValueView::Str(str_of(ValueView::Int(i))), d) == i,
        bool_of(ValueView::Str(str_of(ValueView::Bool(b)))) == b,
{
    lemma_parse_format_roundtrip(i);
    reveal_strlit("true");
    reveal_strlit("false");
    reveal_strlit("yes");
    if !b {
        assert("false"@ != "true"@) by {
            assert("false"@[0] != "true"@[0]);
        }
        assert("false"@.len() != "yes"@.len());
    }
}

/// The data stack, top of stack last.
pub struct Stack(Vec<Value>);

impl View for Stack {
    type V = Seq<ValueView>;

    closed spec fn view(&self) -> Seq<ValueView> {
        self.0@.map_values(|v: Value| v@)
    }
}

impl Stack {
    pub fn new() -> (s: Self)
        ensures
            s@ == Seq::<ValueView>::empty(),
    {
        let s = Self(Vec::new());
        proof {
            assert(s@ =~= Seq::<ValueView>::empty());
        }
        s
    }

    pub fn push_bool(&mut self, b: bool)
        ensures
            final(self)@ == old(self)@.push(ValueView::Bool(b)),
    {
        self.0.push(Value::Bool(b));
        proof {
            assert(self@ =~= old(self)@.push(ValueView::Bool(b)));
        }
    }

    pub fn push_int(&mut self, i: i32)
        ensures
            final(self)@ == old(self)@.push(ValueView::Int(i)),
    {
        self.0.push(Value::Int(i));
        proof {
            assert(self@ =~= old(self)@.push(ValueView::Int(i)));
        }
    }

    pub fn push_str(&mut self, s: String)
        ensures
            final(self)@ == old(self)@.push(ValueView::Str(s@)),
    {
        let ghost sv = s@;
        self.0.push(Value::String(s));
        proof {
            assert(self@ =~= old(self)@.push(ValueView::Str(sv)));
        }
    }

    /// Remove the top of stack, or produce a value with `f` if the stack is empty.
    fn pop<F>(&mut self, f: F) -> (v: Value) where F: Fn() -> Value
        requires
            f.requires(()),
        ensures
            old(self)@.len() == 0 ==> f.ensures((), v) && final(self)@ == old(self)@,
            old(self)@.len() > 0 ==> v@ == old(self)@.last() && final(self)@ == old(
                self,
            )@.drop_last(),
    {
        if let Some(v) = self.0.pop() {
            proof {
                assert(self@ =~= old(self)@.drop_last());
            }
            v
        } else {
            proof {
                assert(self@ =~= old(self)@);
            }
            f()
        }
    }

    /// Pop the top of stack as a boolean, or return `d` if the stack is empty.
    pub fn pop_bool(&mut self, d: bool) -> (b: bool)
        ensures
            b == if old(self)@.len() == 0 {
                d
            } else {
                bool_of(old(self)@.last())
            },
            final(self)@ == if old(self)@.len() == 0 {
                old(self)@
            } else {
                old(self)@.drop_last()
            },
    {
        let v = self.pop(|| -> (v: Value) ensures v == Value::Bool(d) { Value::Bool(d) });
        match v {
            Value::Bool(b) => b,
            Value::Int(i) => i != 0,
            Value::String(s) => {
                if string_eq_str(&s, "yes") || string_eq_str(&s, "true") {
                    true
                } else {
                    false
                }
            },
        }
    }

    /// Pop the top of stack as an integer, or return `d` if the stack is empty or the top of
    /// stack is a string that does not denote an `i32`.
    pub fn pop_int(&mut self, d: i32) -> (i: i32)
        ensures
            i == if old(self)@.len() == 0 {
                d
            } else {
                int_of(old(self)@.last(), d)
            },
            final(self)@ == if old(self)@.len() == 0 {
                old(self)@
            } else {
                old(self)@.drop_last()
            },
    {
        let v = self.pop(|| -> (v: Value) ensures v == Value::Int(d) { Value::Int(d) });
        match v {
            Value::Bool(b) => {
                if b {
                    1
                } else {
                    0
                }
            },
            Value::Int(i) => i,
            Value::String(s) => {
                match parse_i32(s.as_str()) {
                    Some(i) => i,
                    _ => d,
                }
            },
        }
    }

    /// Pop the top of stack as a string, or return `d` if the stack is empty.
    pub fn pop_str(&mut self, d: &str) -> (s: String)
        ensures
            s@ == if old(self)@.len() == 0 {
                d@
            } else {
                str_of(old(self)@.last())
            },
            final(self)@ == if old(self)@.len() == 0 {
                old(self)@
            } else {
                old(self)@.drop_last()
            },
    {
        let v = self.pop(|| -> (v: Value) ensures v@ == ValueView::Str(d@) { Value::String(d.to_string()) });
        match v {
            Value::Bool(b) => {
                if b {
                    "true".to_string()
                } else {
                    "false".to_string()
                }
            },
            Value::Int(i) => i32_to_string(i),
            Value::String(s) => s,
        }
    }
}

} // verus!
