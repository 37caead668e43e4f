use vstd::prelude::*;

verus! {

/// A YAML number. Floating-point values are held by their IEEE-754 bit pattern.
pub enum Number {
    /// A non-negative integer.
    PosInt(u64),
    /// A negative integer.
    NegInt(i64),
    /// A floating-point number, as the bits of an `f64`.
    Float(u64),
}

/// A document tree: the shape of an observed resource state and of a state filter.
pub enum Value {
    Null,
    Bool(bool),
    Number(Number),
    String(String),
    Sequence(Vec<Value>),
    Mapping(Vec<(Value, Value)>),
    Tagged(String, Box<Value>),
}

/// The exponent field of an `f64`.
pub const EXPONENT_MASK: u64 = 0x7ff0_0000_0000_0000;

/// The fraction field of an `f64`.
pub const FRACTION_MASK: u64 = 0x000f_ffff_ffff_ffff;

/// Every bit of an `f64` but its sign.
pub const MAGNITUDE_MASK: u64 = 0x7fff_ffff_ffff_ffff;

/// The bit pattern encodes a NaN.
pub open spec fn is_nan_bits(x: u64) -> bool {
    x & EXPONENT_MASK == EXPONENT_MASK && x & FRACTION_MASK != 0
}

/// The bit pattern encodes positive or negative zero.
pub open spec fn is_zero_bits(x: u64) -> bool {
    x & MAGNITUDE_MASK == 0
}

/// Float equality as YAML sees it: IEEE equality, except that all NaNs are one value.
pub open spec fn float_bits_eq(a: u64, b: u64) -> bool {
    if is_nan_bits(a) || is_nan_bits(b) {
        is_nan_bits(a) && is_nan_bits(b)
    } else {
        a == b || (is_zero_bits(a) && is_zero_bits(b))
    }
}

/// Numbers of different sorts are never equal; integers compare by value.
pub open spec fn number_eq(a: Number, b: Number) -> bool {
    match (a, b) {
        (Number::PosInt(x), Number::PosInt(y)) => x == y,
        (Number::NegInt(x), Number::NegInt(y)) => x == y,
        (Number::Float(x), Number::Float(y)) => float_bits_eq(x, y),
        _ => false,
    }
}

/// A tag compared without its leading `!`; a lone `!` stays as it is.
pub open spec fn unbanged(t: Seq<char>) -> Seq<char> {
    if t.len() > 1 && t[0] == '!' {
        t.drop_first()
    } else {
        t
    }
}

/// Equality of two document trees. Mappings are equal when they have the same
/// number of entries and every entry of `a` finds, at the first key of `b` equal
/// to its own, a value equal to its own; the order of entries does not count.
pub open spec fn same(a: Value, b: Value) -> bool
    decreases a,
{
    match (a, b) {
        (Value::Null, Value::Null) => true,
        (Value::Bool(x), Value::Bool(y)) => x == y,
        (Value::Number(x), Value::Number(y)) => number_eq(x, y),
        (Value::String(x), Value::String(y)) => x@ == y@,
        (Value::Sequence(xs), Value::Sequence(ys)) => {
            &&& xs@.len() == ys@.len()
            &&& forall|i: int| 0 <= i < xs@.len() ==> same(#[trigger] xs@[i], ys@[i])
        },
        (Value::Mapping(xs), Value::Mapping(ys)) => {
            &&& xs@.len() == ys@.len()
            &&& forall|i: int| 0 <= i < xs@.len() ==> entry_found(#[trigger] xs@[i], ys@)
        },
        (Value::Tagged(s, x), Value::Tagged(t, y)) => unbanged(s@) == unbanged(t@) && same(*x, *y),
        _ => false,
    }
}

/// The entry `e` finds, at the first key of `entries` equal to its own key, a
/// value equal to its own.
pub open spec fn entry_found(e: (Value, Value), entries: Seq<(Value, Value)>) -> bool
    decreases e,
{
    exists|j: int|
        #![trigger entries[j]]
        {
            &&& 0 <= j < entries.len()
            &&& same(e.0, entries[j].0)
            &&& forall|k: int| #![trigger entries[k]] 0 <= k < j ==> !same(e.0, entries[k].0)
            &&& same(e.1, entries[j].1)
        }
}

/// `j` is the first entry of `entries` whose key equals `key`.
pub open spec fn first_key_at(entries: Seq<(Value, Value)>, key: Value, j: int) -> bool {
    &&& 0 <= j < entries.len()
    &&& same(key, entries[j].0)
    &&& forall|k: int| #![trigger entries[k]] 0 <= k < j ==> !same(key, entries[k].0)
}

fn float_bits_equal(a: u64, b: u64) -> (r: bool)
    ensures
        r == float_bits_eq(a, b),
{
    let a_nan = a & EXPONENT_MASK == EXPONENT_MASK && a & FRACTION_MASK != 0;
    let b_nan = b & EXPONENT_MASK == EXPONENT_MASK && b & FRACTION_MASK != 0;
    if a_nan || b_nan {
        a_nan && b_nan
    } else {
        a == b || (a & MAGNITUDE_MASK == 0 && b & MAGNITUDE_MASK == 0)
    }
}

/// Compares two numbers as YAML does.
pub fn numbers_equal(a: &Number, b: &Number) -> (r: bool)
    ensures
        r == number_eq(*a, *b),
{
    match (a, b) {
        (Number::PosInt(x), Number::PosInt(y)) => *x == *y,
        (Number::NegInt(x), Number::NegInt(y)) => *x == *y,
        (Number::Float(x), Number::Float(y)) => float_bits_equal(*x, *y),
        _ => false,
    }
}

fn without_bang(s: &str) -> (r: String)
    ensures
        r@ == unbanged(s@),
{
    let n = s.unicode_len();
    if n > 1 && s.get_char(0) == '!' {
        s.substring_char(1, n).to_owned()
    } else {
        s.to_owned()
    }
}

/// Compares two tags, ignoring one leading `!` on each.
pub fn tags_equal(s: &String, t: &String) -> (r: bool)
    ensures
        r == (unbanged(s@) == unbanged(t@)),
{
    let a = without_bang(s.as_str());
    let b = without_bang(t.as_str());
    a == b
}

/// Structural equality of two trees, as YAML defines it (see `same`).
pub fn values_equal(a: &Value, b: &Value) -> (r: bool)
    ensures
        r == same(*a, *b),
    decreases a, 0int,
{
    match (a, b) {
        (Value::Null, Value::Null) => true,
        (Value::Bool(x), Value::Bool(y)) => *x == *y,
        (Value::Number(x), Value::Number(y)) => numbers_equal(x, y),
        (Value::String(x), Value::String(y)) => x.eq(y),
        (Value::Sequence(xs), Value::Sequence(ys)) => {
            if xs.len() != ys.len() {
                return false;
            }
            let mut i: usize = 0;
            while i < xs.len()
                invariant
                    *a == Value::Sequence(*xs),
                    decreases_to!(*a => *xs),
                    *b == Value::Sequence(*ys),
                    xs@.len() == ys@.len(),
                    0 <= i <= xs@.len(),
                    forall|k: int| 0 <= k < i ==> same(xs@[k], ys@[k]),
                decreases xs@.len() - i,
            {
                proof {
                    assert(decreases_to!(*a => xs@[i as int]));
                }
                if !values_equal(&xs[i], &ys[i]) {
                    return false;
                }
                i += 1;
            }
            true
        },
        (Value::Mapping(xs), Value::Mapping(ys)) => {
            if xs.len() != ys.len() {
                return false;
            }
            let mut i: usize = 0;
            while i < xs.len()
                invariant
                    *a == Value::Mapping(*xs),
                    decreases_to!(*a => *xs),
                    *b == Value::Mapping(*ys),
                    xs@.len() == ys@.len(),
                    0 <= i <= xs@.len(),
                    forall|k: int| 0 <= k < i ==> entry_found(#[trigger] xs@[k], ys@),
                decreases xs@.len() - i,
            {
                proof {
                    assert(decreases_to!(*a => xs@[i as int]));
                }
                match find_key(ys, &xs[i].0) {
                    Some(j) => {
                        if !values_equal(&xs[i].1, &ys[j].1) {
                            assert(!entry_found(xs@[i as int], ys@)) by {
                                if entry_found(xs@[i as int], ys@) {
                                    let j2 = choose|j2: int|
                                        {
                                            &&& 0 <= j2 < ys@.len()
                                            &&& same(xs@[i as int].0, #[trigger] ys@[j2].0)
                                            &&& forall|k: int|
                                                #![trigger ys@[k]]
                                                0 <= k < j2 ==> !same(xs@[i as int].0, ys@[k].0)
                                            &&& same(xs@[i as int].1, ys@[j2].1)
                                        };
                                    assert(ys@[j as int] == ys@[j as int]);
                                    assert(ys@[j2] == ys@[j2]);
                                }
                            }
                            return false;
                        }
                        assert(ys@[j as int] == ys@[j as int]);
                        assert(entry_found(xs@[i as int], ys@));
                    },
                    None => {
                        assert(!entry_found(xs@[i as int], ys@)) by {
                            if entry_found(xs@[i as int], ys@) {
                                let j2 = choose|j2: int|
                                    {
                                        &&& 0 <= j2 < ys@.len()
                                        &&& same(xs@[i as int].0, #[trigger] ys@[j2].0)
                                        &&& forall|k: int|
                                            #![trigger ys@[k]]
                                            0 <= k < j2 ==> !same(xs@[i as int].0, ys@[k].0)
                                        &&& same(xs@[i as int].1, ys@[j2].1)
                                    };
                                assert(ys@[j2] == ys@[j2]);
                            }
                        }
                        return false;
                    },
                }
                i += 1;
            }
            true
        },
        (Value::Tagged(s, x), Value::Tagged(t, y)) => tags_equal(s, t) && values_equal(x, y),
        _ => false,
    }
}

/// Finds the first entry whose key equals `key`.
pub fn find_key(entries: &Vec<(Value, Value)>, key: &Value) -> (r: Option<usize>)
    ensures
        match r {
            Some(j) => first_key_at(entries@, *key, j as int),
            None => forall|k: int| 0 <= k < entries@.len() ==> !same(*key, #[trigger] entries@[k].0),
        },
    decreases key, 1int,
{
    let mut j: usize = 0;
    while j < entries.len()
        invariant
            0 <= j <= entries@.len(),
            forall|k: int| 0 <= k < j ==> !same(*key, #[trigger] entries@[k].0),
        decreases entries@.len() - j,
    {
        if values_equal(key, &entries[j].0) {
            return Some(j);
        }
        j += 1;
    }
    None
}

} // verus!
