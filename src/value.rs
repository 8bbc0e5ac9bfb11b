use vstd::prelude::*;

verus! {

/// A decimal number as it is written in the text: a sign and the unsigned
/// digits, with or without a fractional part (`3.14`).
#[derive(Debug, PartialEq)]
pub struct Decimal {
    pub negative: bool,
    pub digits: String,
}

/// The generic value tree.
#[derive(Debug, PartialEq)]
pub enum Value {
    Null,
    Bool(bool),
    Float(Decimal),
    Integer(i128),
    String(String),
    Char(char),
    Enum(String),
    Array(Vec<Value>),
    Object(Vec<(String, Value)>),
}

/// The mathematical model of a `Value`: text as `Seq<char>`, children as sequences.
pub enum ValueView {
    Null,
    Bool(bool),
    Float(bool, Seq<char>),
    Integer(int),
    String(Seq<char>),
    Char(char),
    Enum(Seq<char>),
    Array(Seq<ValueView>),
    Object(Seq<(Seq<char>, ValueView)>),
}

/// The names of the kinds of values, as they appear in conversion errors.
pub open spec fn kind_name(v: ValueView) -> Seq<char> {
    match v {
        ValueView::Null => "Null"@,
        ValueView::Bool(_) => "Bool"@,
        ValueView::Float(_, _) => "Float"@,
        ValueView::Integer(_) => "Integer"@,
        ValueView::String(_) => "String"@,
        ValueView::Char(_) => "Char"@,
        ValueView::Enum(_) => "Enum"@,
        ValueView::Array(_) => "Array"@,
        ValueView::Object(_) => "Object"@,
    }
}

/// Negation as a transform on any value: booleans flip, numbers change sign,
/// everything else is left as it is.
pub open spec fn negated(v: ValueView) -> ValueView {
    match v {
        ValueView::Bool(b) => ValueView::Bool(!b),
        ValueView::Float(n, d) => ValueView::Float(!n, d),
        ValueView::Integer(i) => ValueView::Integer(
            if i == i128::MIN { i } else { -i },
        ),
        _ => v,
    }
}

/// The model of a char value, stated for callers whose char comes from exec code.
pub proof fn lemma_char_view(c: char)
    ensures
        Value::Char(c).view() == ValueView::Char(c),
{
}

impl Clone for Decimal {
    fn clone(&self) -> (r: Decimal)
        ensures
            r.negative == self.negative,
            r.digits@ == self.digits@,
    {
        Decimal { negative: self.negative, digits: self.digits.clone() }
    }
}

impl Clone for Value {
    /// A deep copy: the copy has the same model.
    fn clone(&self) -> (r: Value)
        ensures
            r.view() == self.view(),
        decreases self,
    {
        match self {
            Value::Null => Value::Null,
            Value::Bool(b) => Value::Bool(*b),
            Value::Float(d) => Value::Float(d.clone()),
            Value::Integer(i) => Value::Integer(*i),
            Value::String(s) => Value::String(s.clone()),
            Value::Char(c) => Value::Char(*c),
            Value::Enum(s) => Value::Enum(s.clone()),
            Value::Array(a) => {
                let mut out: Vec<Value> = Vec::new();
                let mut i: usize = 0;
                while i < a.len()
                    invariant
                        *self == Value::Array(*a),
                        i <= a.len(),
                        out.len() == i,
                        forall|j: int| 0 <= j < i ==> (#[trigger] out[j]).view() == a[j].view(),
                    decreases a.len() - i,
                {
                    proof {
                        vstd::std_specs::vec::axiom_vec_index_decreases(*a, i as int);
                        assert(decreases_to!(*self => (*self)->Array_0));
                        assert(decreases_to!(*self => a[i as int]));
                    }
                    out.push(a[i].clone());
                    i += 1;
                }
                let r = Value::Array(out);
                assert(r.view()->Array_0 =~= self.view()->Array_0);
                r
            },
            Value::Object(o) => {
                let mut out: Vec<(String, Value)> = Vec::new();
                let mut i: usize = 0;
                while i < o.len()
                    invariant
                        *self == Value::Object(*o),
                        i <= o.len(),
                        out.len() == i,
                        forall|j: int|
                            0 <= j < i ==> (#[trigger] out[j]).0@ == o[j].0@ && out[j].1.view()
                                == o[j].1.view(),
                    decreases o.len() - i,
                {
                    proof {
                        vstd::std_specs::vec::axiom_vec_index_decreases(*o, i as int);
                        assert(decreases_to!(*self => (*self)->Object_0));
                        assert(decreases_to!(o[i as int] => o[i as int].1));
                        assert(decreases_to!(*self => o[i as int].1));
                    }
                    let entry = (o[i].0.clone(), o[i].1.clone());
                    out.push(entry);
                    i += 1;
                }
                let r = Value::Object(out);
                assert(r.view()->Object_0 =~= self.view()->Object_0);
                r
            },
        }
    }
}

impl Value {
    pub open spec fn view(self) -> ValueView
        decreases self,
    {
        match self {
            Value::Null => ValueView::Null,
            Value::Bool(b) => ValueView::Bool(b),
            Value::Float(d) => ValueView::Float(d.negative, d.digits@),
            Value::Integer(i) => ValueView::Integer(i as int),
            Value::String(s) => ValueView::String(s@),
            Value::Char(c) => ValueView::Char(c),
            Value::Enum(s) => ValueView::Enum(s@),
            Value::Array(a) => ValueView::Array(
                Seq::new(
                    a.len() as nat,
                    |i: int|
                        if 0 <= i < a.len() {
                            a[i].view()
                        } else {
                            ValueView::Null
                        },
                ),
            ),
            Value::Object(o) => ValueView::Object(
                Seq::new(
                    o.len() as nat,
                    |i: int|
                        if 0 <= i < o.len() {
                            (o[i].0@, o[i].1.view())
                        } else {
                            (Seq::empty(), ValueView::Null)
                        },
                ),
            ),
        }
    }

    /// The name of this value's kind (`"Integer"`, `"Object"`, ...).
    pub fn get_type(&self) -> (r: String)
        ensures
            r@ == kind_name(self.view()),
    {
        let name = match self {
            Value::Null => "Null",
            Value::Bool(_) => "Bool",
            Value::Float(_) => "Float",
            Value::Integer(_) => "Integer",
            Value::String(_) => "String",
            Value::Char(_) => "Char",
            Value::Enum(_) => "Enum",
            Value::Array(_) => "Array",
            Value::Object(_) => "Object",
        };
        name.to_owned()
    }

    /// Negates a value: see `negated`.
    pub fn negate(self) -> (r: Value)
        ensures
            r.view() == negated(self.view()),
    {
        match self {
            Value::Bool(b) => Value::Bool(!b),
            Value::Float(d) => Value::Float(Decimal { negative: !d.negative, digits: d.digits }),
            Value::Integer(i) => Value::Integer(if i == i128::MIN { i } else { -i }),
            other => other,
        }
    }
}

} // verus!
