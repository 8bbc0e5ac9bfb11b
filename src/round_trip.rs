use crate::deserialize::{fails_at, FromSon};
use crate::error::DeserializationError;
use crate::serialize::ToSon;
use crate::value::{Decimal, Value, ValueView};
use vstd::prelude::*;

verus! {

/// Types whose values come back from the value tree as they went in.
pub trait RoundTrip: ToSon + FromSon {
    /// Converting a value to the tree and back succeeds and gives a value
    /// with the same tree.
    proof fn lemma_round_trip(x: Self, t: ValueView, r: Result<Self, DeserializationError>)
        requires
            x.to_son_spec(t),
            Self::from_son_spec(t, r),
        ensures
            r matches Ok(y) && y.to_son_spec(t),
    ;
}

impl RoundTrip for Value {
    proof fn lemma_round_trip(x: Value, t: ValueView, r: Result<Value, DeserializationError>) {
    }
}

impl RoundTrip for String {
    proof fn lemma_round_trip(x: String, t: ValueView, r: Result<String, DeserializationError>) {
    }
}

impl RoundTrip for char {
    proof fn lemma_round_trip(x: char, t: ValueView, r: Result<char, DeserializationError>) {
    }
}

impl RoundTrip for bool {
    proof fn lemma_round_trip(x: bool, t: ValueView, r: Result<bool, DeserializationError>) {
    }
}

impl RoundTrip for Decimal {
    proof fn lemma_round_trip(x: Decimal, t: ValueView, r: Result<Decimal, DeserializationError>) {
    }
}

impl RoundTrip for i8 {
    proof fn lemma_round_trip(x: i8, t: ValueView, r: Result<i8, DeserializationError>) {
        assert((x as int) as i8 == x);
    }
}

impl RoundTrip for i16 {
    proof fn lemma_round_trip(x: i16, t: ValueView, r: Result<i16, DeserializationError>) {
        assert((x as int) as i16 == x);
    }
}

impl RoundTrip for i32 {
    proof fn lemma_round_trip(x: i32, t: ValueView, r: Result<i32, DeserializationError>) {
        assert((x as int) as i32 == x);
    }
}

impl RoundTrip for i64 {
    proof fn lemma_round_trip(x: i64, t: ValueView, r: Result<i64, DeserializationError>) {
        assert((x as int) as i64 == x);
    }
}

impl RoundTrip for i128 {
    proof fn lemma_round_trip(x: i128, t: ValueView, r: Result<i128, DeserializationError>) {
        assert((x as int) as i128 == x);
    }
}

impl RoundTrip for isize {
    proof fn lemma_round_trip(x: isize, t: ValueView, r: Result<isize, DeserializationError>) {
        assert((x as int) as isize == x);
    }
}

impl RoundTrip for u8 {
    proof fn lemma_round_trip(x: u8, t: ValueView, r: Result<u8, DeserializationError>) {
        assert((x as int) as u8 == x);
    }
}

impl RoundTrip for u16 {
    proof fn lemma_round_trip(x: u16, t: ValueView, r: Result<u16, DeserializationError>) {
        assert((x as int) as u16 == x);
    }
}

impl RoundTrip for u32 {
    proof fn lemma_round_trip(x: u32, t: ValueView, r: Result<u32, DeserializationError>) {
        assert((x as int) as u32 == x);
    }
}

impl RoundTrip for u64 {
    proof fn lemma_round_trip(x: u64, t: ValueView, r: Result<u64, DeserializationError>) {
        assert((x as int) as u64 == x);
    }
}

impl RoundTrip for usize {
    proof fn lemma_round_trip(x: usize, t: ValueView, r: Result<usize, DeserializationError>) {
        assert((x as int) as usize == x);
    }
}

impl<T: RoundTrip> RoundTrip for Vec<T> {
    proof fn lemma_round_trip(x: Vec<T>, t: ValueView, r: Result<Vec<T>, DeserializationError>) {
        let items = t->Array_0;
        match r {
            Ok(v) => {
                assert forall|i: int| 0 <= i < items.len() implies v@[i].to_son_spec(
                    #[trigger] items[i],
                ) by {
                    T::lemma_round_trip(x@[i], items[i], Ok(v@[i]));
                }
            },
            Err(e) => {
                let j = choose|j: int| #[trigger] fails_at::<T>(items, j, e);
                T::lemma_round_trip(x@[j], items[j], Err(e));
            },
        }
    }
}

/// Round trip of a `u128`: it comes back as it went in when it fits in an
/// `i128`, the integer type of the value tree.
pub proof fn lemma_round_trip_u128(x: u128, t: ValueView, r: Result<u128, DeserializationError>)
    requires
        x <= i128::MAX,
        x.to_son_spec(t),
        u128::from_son_spec(t, r),
    ensures
        r == Ok::<u128, DeserializationError>(x),
{
    assert((x as i128) as int == x as int);
    assert((x as int) as u128 == x);
}

} // verus!
