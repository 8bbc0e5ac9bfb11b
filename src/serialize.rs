use crate::parser::{field_index, fields_view, insert_field, set_field};
use crate::text::same_text;
use crate::value::{Decimal, Value, ValueView};
use vstd::prelude::*;

verus! {

/// The conversion of a typed value to the value tree.
pub trait ToSon {
    /// Whether `son` is the model of the tree that this value converts to; a
    /// type that states nothing about its conversion keeps this default.
    open spec fn to_son_spec(&self, son: ValueView) -> bool {
        true
    }

    fn to_son(&self) -> (r: Value)
        ensures
            self.to_son_spec(r.view()),
    ;
}

/// The types that can be written to the value tree.
pub trait Serialize: ToSon {}

impl ToSon for Value {
    open spec fn to_son_spec(&self, son: ValueView) -> bool {
        son == self.view()
    }

    fn to_son(&self) -> (r: Value) {
        self.clone()
    }
}

impl Serialize for Value {}

impl ToSon for String {
    open spec fn to_son_spec(&self, son: ValueView) -> bool {
        son == ValueView::String(self@)
    }

    fn to_son(&self) -> (r: Value) {
        Value::String(self.clone())
    }
}

impl Serialize for String {}

impl<'a> ToSon for &'a str {
    open spec fn to_son_spec(&self, son: ValueView) -> bool {
        son == ValueView::String((*self)@)
    }

    fn to_son(&self) -> (r: Value) {
        Value::String((*self).to_owned())
    }
}

impl<'a> Serialize for &'a str {}

impl ToSon for char {
    open spec fn to_son_spec(&self, son: ValueView) -> bool {
        son == ValueView::Char(*self)
    }

    fn to_son(&self) -> (r: Value) {
        proof {
            crate::value::lemma_char_view(*self);
        }
        Value::Char(*self)
    }
}

impl Serialize for char {}

impl ToSon for bool {
    open spec fn to_son_spec(&self, son: ValueView) -> bool {
        son == ValueView::Bool(*self)
    }

    fn to_son(&self) -> (r: Value) {
        Value::Bool(*self)
    }
}

impl Serialize for bool {}

impl ToSon for i8 {
    open spec fn to_son_spec(&self, son: ValueView) -> bool {
        son == ValueView::Integer(*self as int)
    }

    fn to_son(&self) -> (r: Value) {
        Value::Integer(*self as i128)
    }
}

impl Serialize for i8 {}

impl ToSon for i16 {
    open spec fn to_son_spec(&self, son: ValueView) -> bool {
        son == ValueView::Integer(*self as int)
    }

    fn to_son(&self) -> (r: Value) {
        Value::Integer(*self as i128)
    }
}

impl Serialize for i16 {}

impl ToSon for i32 {
    open spec fn to_son_spec(&self, son: ValueView) -> bool {
        son == ValueView::Integer(*self as int)
    }

    fn to_son(&self) -> (r: Value) {
        Value::Integer(*self as i128)
    }
}

impl Serialize for i32 {}

impl ToSon for i64 {
    open spec fn to_son_spec(&self, son: ValueView) -> bool {
        son == ValueView::Integer(*self as int)
    }

    fn to_son(&self) -> (r: Value) {
        Value::Integer(*self as i128)
    }
}

impl Serialize for i64 {}

impl ToSon for i128 {
    open spec fn to_son_spec(&self, son: ValueView) -> bool {
        son == ValueView::Integer(*self as int)
    }

    fn to_son(&self) -> (r: Value) {
        Value::Integer(*self as i128)
    }
}

impl Serialize for i128 {}

impl ToSon for isize {
    open spec fn to_son_spec(&self, son: ValueView) -> bool {
        son == ValueView::Integer(*self as int)
    }

    fn to_son(&self) -> (r: Value) {
        Value::Integer(*self as i128)
    }
}

impl Serialize for isize {}

impl ToSon for u8 {
    open spec fn to_son_spec(&self, son: ValueView) -> bool {
        son == ValueView::Integer(*self as int)
    }

    fn to_son(&self) -> (r: Value) {
        Value::Integer(*self as i128)
    }
}

impl Serialize for u8 {}

impl ToSon for u16 {
    open spec fn to_son_spec(&self, son: ValueView) -> bool {
        son == ValueView::Integer(*self as int)
    }

    fn to_son(&self) -> (r: Value) {
        Value::Integer(*self as i128)
    }
}

impl Serialize for u16 {}

impl ToSon for u32 {
    open spec fn to_son_spec(&self, son: ValueView) -> bool {
        son == ValueView::Integer(*self as int)
    }

    fn to_son(&self) -> (r: Value) {
        Value::Integer(*self as i128)
    }
}

impl Serialize for u32 {}

impl ToSon for u64 {
    open spec fn to_son_spec(&self, son: ValueView) -> bool {
        son == ValueView::Integer(*self as int)
    }

    fn to_son(&self) -> (r: Value) {
        Value::Integer(*self as i128)
    }
}

impl Serialize for u64 {}

impl ToSon for usize {
    open spec fn to_son_spec(&self, son: ValueView) -> bool {
        son == ValueView::Integer(*self as int)
    }

    fn to_son(&self) -> (r: Value) {
        Value::Integer(*self as i128)
    }
}

impl Serialize for usize {}

impl ToSon for u128 {
    /// Integers past `i128::MAX` wrap around, as the value tree holds `i128`s.
    open spec fn to_son_spec(&self, son: ValueView) -> bool {
        son == ValueView::Integer((*self as i128) as int)
    }

    fn to_son(&self) -> (r: Value) {
        Value::Integer(#[verifier::truncate] (*self as i128))
    }
}

impl Serialize for u128 {}

impl ToSon for Decimal {
    open spec fn to_son_spec(&self, son: ValueView) -> bool {
        son == ValueView::Float(self.negative, self.digits@)
    }

    fn to_son(&self) -> (r: Value) {
        Value::Float(self.clone())
    }
}

impl Serialize for Decimal {}

impl<T: ToSon> ToSon for Option<T> {
    /// `None` is `Null`; `Some(x)` is the tree of `x`.
    open spec fn to_son_spec(&self, son: ValueView) -> bool {
        match self {
            Some(x) => x.to_son_spec(son),
            None => son == ValueView::Null,
        }
    }

    fn to_son(&self) -> (r: Value) {
        match self {
            Some(x) => x.to_son(),
            None => Value::Null,
        }
    }
}

impl<T: Serialize> Serialize for Option<T> {}

impl<T: ToSon> ToSon for Vec<T> {
    /// An array of the elements' trees, in order.
    open spec fn to_son_spec(&self, son: ValueView) -> bool {
        match son {
            ValueView::Array(items) => items.len() == self@.len() && forall|i: int|
                0 <= i < items.len() ==> self@[i].to_son_spec(#[trigger] items[i]),
            _ => false,
        }
    }

    fn to_son(&self) -> (r: Value) {
        let mut out: Vec<Value> = Vec::new();
        let mut i: usize = 0;
        while i < self.len()
            invariant
                i <= self.len(),
                out.len() == i,
                forall|k: int| 0 <= k < i ==> self@[k].to_son_spec((#[trigger] out@[k]).view()),
            decreases self.len() - i,
        {
            out.push(self[i].to_son());
            i += 1;
        }
        let r = Value::Array(out);
        assert(forall|k: int| 0 <= k < out.len() ==> (#[trigger] r.view()->Array_0[k]) == out@[k].view());
        r
    }
}

impl<T: Serialize> Serialize for Vec<T> {}

/// The fields that setting each `(name, value)` in turn gives: a later
/// value of a name takes the place of an earlier one.
pub open spec fn fold_fields(kvs: Seq<(Seq<char>, ValueView)>) -> Seq<(Seq<char>, ValueView)>
    decreases kvs.len(),
{
    if kvs.len() == 0 {
        Seq::empty()
    } else {
        set_field(fold_fields(kvs.drop_last()), kvs.last().0, kvs.last().1)
    }
}

/// The object of named values, as an associative map converts: each name
/// with the tree of its value, a later duplicate name overwriting.
pub fn object_of<V: ToSon>(entries: &Vec<(String, V)>) -> (r: Value)
    ensures
        exists|kvs: Seq<(Seq<char>, ValueView)>|
            #![trigger fold_fields(kvs)]
            {
                &&& kvs.len() == entries@.len()
                &&& forall|i: int|
                    0 <= i < kvs.len() ==> (#[trigger] kvs[i]).0 == entries@[i].0@
                        && entries@[i].1.to_son_spec(kvs[i].1)
                &&& r.view() == ValueView::Object(fold_fields(kvs))
            },
{
    let mut fields: Vec<(String, Value)> = Vec::new();
    let ghost mut kvs: Seq<(Seq<char>, ValueView)> = Seq::empty();
    let mut i: usize = 0;
    assert(fields_view(fields@) =~= fold_fields(kvs));
    while i < entries.len()
        invariant
            i <= entries.len(),
            kvs.len() == i,
            forall|k: int|
                0 <= k < i ==> (#[trigger] kvs[k]).0 == entries@[k].0@
                    && entries@[k].1.to_son_spec(kvs[k].1),
            fields_view(fields@) == fold_fields(kvs),
        decreases entries.len() - i,
    {
        let value = entries[i].1.to_son();
        let name = entries[i].0.clone();
        proof {
            let kv = (name@, value.view());
            assert((kvs.push(kv)).drop_last() =~= kvs);
            let before = kvs;
            kvs = kvs.push(kv);
            assert(forall|k: int| 0 <= k < i ==> kvs[k] == before[k]);
            assert(kvs[i as int].0 == entries@[i as int].0@);
            assert(entries@[i as int].1.to_son_spec(kvs[i as int].1));
        }
        insert_field(&mut fields, name, value);
        i += 1;
    }
    let r = Value::Object(fields);
    assert(r.view()->Object_0 =~= fields_view(fields@));
    assert(kvs.len() == entries@.len());
    assert(r.view() == ValueView::Object(fold_fields(kvs)));
    r
}

impl Value {
    /// The value of the field `key`, if this is an object that has one.
    pub fn get(&self, key: &str) -> (r: Option<&Value>)
        ensures
            match self.view() {
                ValueView::Object(f) => match field_index(f, key@) {
                    Some(i) => r matches Some(v) && v.view() == f[i as int].1,
                    None => r is None,
                },
                _ => r is None,
            },
    {
        match self {
            Value::Object(o) => {
                let ghost f = self.view()->Object_0;
                let mut i: usize = o.len();
                assert(f.take(i as int) =~= f);
                while i > 0
                    invariant
                        *self == Value::Object(*o),
                        f == self.view()->Object_0,
                        i <= o.len(),
                        field_index(f, key@) == field_index(f.take(i as int), key@),
                    decreases i,
                {
                    assert(f.take(i as int).drop_last() =~= f.take(i - 1));
                    if same_text(o[i - 1].0.as_str(), key) {
                        return Some(&o[i - 1].1);
                    }
                    i -= 1;
                }
                assert(f.take(0) =~= Seq::<(Seq<char>, ValueView)>::empty());
                None
            },
            _ => None,
        }
    }
}

} // verus!
