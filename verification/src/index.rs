//! Polymorphic lookup into a `Value`: a positional index addresses an array,
//! a string-like key addresses an object. Reads degrade to `None` (or the
//! null sentinel through `Value::index`); the write path demands a matching
//! variant up front, since the original treats a mismatch as a programming
//! error that aborts.
use crate::object::Object;
use crate::object::lemma_map_found;
use crate::object::map_at;
use crate::object::lemma_map_get_update_other;
use crate::object::map_get;
use crate::value::Value;
use vstd::prelude::*;
use vstd::pervasive::unreached;

verus! {

/// Limits `Index` to the key kinds shipped here.
pub trait Sealed {

}

impl Sealed for usize {

}

impl Sealed for str {

}

impl Sealed for String {

}

impl<'a, T: ?Sized + Sealed> Sealed for &'a T {

}

/// A key kind that can address into a `Value`: a position for arrays, a
/// string-like key for objects.
pub trait Index: Sealed {
    /// What a read through this key must be allowed to assume of `v`.
    spec fn spec_req(&self, v: Value) -> bool;

    /// The value this key selects inside `v`, if any.
    spec fn spec_index_into(&self, v: Value) -> Option<Value>;

    /// Whether the write path may be used on `v`.
    spec fn spec_can_write(&self, v: Value) -> bool;

    /// The value a write-path lookup starts from (for an object key that is
    /// absent, the freshly inserted null).
    spec fn spec_initial(&self, v: Value) -> Value;

    /// How the value looks after a write-path lookup left `x` in the selected
    /// slot: only that slot differs between `v0` and `v1`.
    spec fn spec_wrote(&self, v0: Value, v1: Value, x: Value) -> bool;

    /// Read lookup: the selected value, or `None` on absence or a variant
    /// mismatch.
    fn index_into<'v>(&self, v: &'v Value) -> (r: Option<&'v Value>)
        requires
            self.spec_req(*v),
        ensures
            match r {
                Some(x) => self.spec_index_into(*v) == Some(*x),
                None => self.spec_index_into(*v) is None,
            },
    ;

    /// Mutable read lookup: as `index_into`, and writing through the result
    /// changes only the selected slot.
    fn index_into_mut<'v>(&self, v: &'v mut Value) -> (r: Option<&'v mut Value>)
        requires
            self.spec_req(*old(v)),
        ensures
            match r {
                Some(x) => self.spec_index_into(*old(v)) == Some(*x) && self.spec_wrote(
                    *old(v),
                    *final(v),
                    *final(x),
                ),
                None => self.spec_index_into(*old(v)) is None && *final(v) == *old(v),
            },
    ;

    /// Write lookup: the selected slot, inserting a null placeholder for an
    /// absent object key. The caller must have checked the variant (and, for
    /// a position, the bounds).
    fn index_or_insert<'v>(&self, v: &'v mut Value) -> (r: &'v mut Value)
        requires
            self.spec_can_write(*old(v)),
        ensures
            *r == self.spec_initial(*old(v)),
            self.spec_wrote(*old(v), *final(v), *final(r)),
    ;
}

impl Index for usize {
    open spec fn spec_req(&self, v: Value) -> bool {
        true
    }

    open spec fn spec_index_into(&self, v: Value) -> Option<Value> {
        if v is Array && (*self as int) < v->Array_0@.len() {
            Some(v->Array_0@[*self as int])
        } else {
            None
        }
    }

    open spec fn spec_can_write(&self, v: Value) -> bool {
        v is Array && (*self as int) < v->Array_0@.len()
    }

    open spec fn spec_initial(&self, v: Value) -> Value {
        v->Array_0@[*self as int]
    }

    open spec fn spec_wrote(&self, v0: Value, v1: Value, x: Value) -> bool {
        v0 is Array && v1 is Array && v1->Array_0@ == v0->Array_0@.update(*self as int, x)
    }

    fn index_into<'v>(&self, v: &'v Value) -> (r: Option<&'v Value>)
        ensures
            match r {
                Some(x) => self.spec_index_into(*v) == Some(*x),
                None => self.spec_index_into(*v) is None,
            },
    {
        match v {
            Value::Array(arr) => {
                if *self < arr.len() {
                    Some(&arr[*self])
                } else {
                    None
                }
            },
            _ => None,
        }
    }

    fn index_into_mut<'v>(&self, v: &'v mut Value) -> (r: Option<&'v mut Value>)
        ensures
            match r {
                Some(x) => self.spec_index_into(*old(v)) == Some(*x) && self.spec_wrote(
                    *old(v),
                    *final(v),
                    *final(x),
                ),
                None => self.spec_index_into(*old(v)) is None && *final(v) == *old(v),
            },
    {
        match v {
            Value::Array(arr) => {
                if *self < arr.len() {
                    Some(vstd::std_specs::vec::vec_index_mut(arr, *self))
                } else {
                    None
                }
            },
            _ => None,
        }
    }

    fn index_or_insert<'v>(&self, v: &'v mut Value) -> (r: &'v mut Value)
        ensures
            *r == self.spec_initial(*old(v)),
            self.spec_wrote(*old(v), *final(v), *final(r)),
    {
        match v {
            Value::Array(arr) => vstd::std_specs::vec::vec_index_mut(arr, *self),
            _ => unreached(),
        }
    }
}

impl Index for str {
    open spec fn spec_req(&self, v: Value) -> bool {
        v is Object ==> v->Object_0.wf()
    }

    open spec fn spec_index_into(&self, v: Value) -> Option<Value> {
        if v is Object {
            v->Object_0.spec_get(self@)
        } else {
            None
        }
    }

    open spec fn spec_can_write(&self, v: Value) -> bool {
        v is Object && v->Object_0.wf()
    }

    open spec fn spec_initial(&self, v: Value) -> Value {
        match v->Object_0.spec_get(self@) {
            Some(x) => x,
            None => Value::Null,
        }
    }

    open spec fn spec_wrote(&self, v0: Value, v1: Value, x: Value) -> bool {
        &&& v0 is Object
        &&& v1 is Object
        &&& v1->Object_0.wf()
        &&& v1->Object_0.spec_get(self@) == Some(x)
        &&& forall|k2: Seq<char>|
            k2 != self@ ==> v1->Object_0.spec_get(k2) == v0->Object_0.spec_get(k2)
        &&& v1->Object_0.spec_len() == v0->Object_0.spec_len() + (
        if v0->Object_0.spec_contains_key(self@) {
            0int
        } else {
            1int
        })
    }

    fn index_into<'v>(&self, v: &'v Value) -> (r: Option<&'v Value>)
        ensures
            match r {
                Some(x) => self.spec_index_into(*v) == Some(*x),
                None => self.spec_index_into(*v) is None,
            },
    {
        match v {
            Value::Object(obj) => obj.get(self),
            _ => None,
        }
    }

    fn index_into_mut<'v>(&self, v: &'v mut Value) -> (r: Option<&'v mut Value>)
        ensures
            match r {
                Some(x) => self.spec_index_into(*old(v)) == Some(*x) && self.spec_wrote(
                    *old(v),
                    *final(v),
                    *final(x),
                ),
                None => self.spec_index_into(*old(v)) is None && *final(v) == *old(v),
            },
    {
        match v {
            Value::Object(obj) => {
                let ghost kv = obj.keys_view();
                let ghost vv = obj.vals_view();
                let r = obj.get_mut(self);
                match r {
                    Some(x) => {
                        proof {
                            let i = map_at(kv, self@);
                            lemma_map_found(kv, vv.update(i, *final(x)), self@, i);
                            assert forall|k2: Seq<char>| k2 != self@ implies map_get(
                                kv,
                                vv.update(i, *final(x)),
                                k2,
                            ) == map_get(kv, vv, k2) by {
                                lemma_map_get_update_other(kv, vv, i, *final(x), k2);
                            }
                        }
                        Some(x)
                    },
                    None => None,
                }
            },
            _ => None,
        }
    }

    fn index_or_insert<'v>(&self, v: &'v mut Value) -> (r: &'v mut Value)
        ensures
            *r == self.spec_initial(*old(v)),
            self.spec_wrote(*old(v), *final(v), *final(r)),
    {
        match v {
            Value::Object(obj) => {
                let key = String::from_str(self);
                obj.entry(key).or_insert(Value::Null)
            },
            _ => unreached(),
        }
    }
}

impl Index for String {
    open spec fn spec_req(&self, v: Value) -> bool {
        v is Object ==> v->Object_0.wf()
    }

    open spec fn spec_index_into(&self, v: Value) -> Option<Value> {
        if v is Object {
            v->Object_0.spec_get(self@)
        } else {
            None
        }
    }

    open spec fn spec_can_write(&self, v: Value) -> bool {
        v is Object && v->Object_0.wf()
    }

    open spec fn spec_initial(&self, v: Value) -> Value {
        match v->Object_0.spec_get(self@) {
            Some(x) => x,
            None => Value::Null,
        }
    }

    open spec fn spec_wrote(&self, v0: Value, v1: Value, x: Value) -> bool {
        &&& v0 is Object
        &&& v1 is Object
        &&& v1->Object_0.wf()
        &&& v1->Object_0.spec_get(self@) == Some(x)
        &&& forall|k2: Seq<char>|
            k2 != self@ ==> v1->Object_0.spec_get(k2) == v0->Object_0.spec_get(k2)
        &&& v1->Object_0.spec_len() == v0->Object_0.spec_len() + (
        if v0->Object_0.spec_contains_key(self@) {
            0int
        } else {
            1int
        })
    }

    fn index_into<'v>(&self, v: &'v Value) -> (r: Option<&'v Value>)
        ensures
            match r {
                Some(x) => self.spec_index_into(*v) == Some(*x),
                None => self.spec_index_into(*v) is None,
            },
    {
        self.as_str().index_into(v)
    }

    fn index_into_mut<'v>(&self, v: &'v mut Value) -> (r: Option<&'v mut Value>)
        ensures
            match r {
                Some(x) => self.spec_index_into(*old(v)) == Some(*x) && self.spec_wrote(
                    *old(v),
                    *final(v),
                    *final(x),
                ),
                None => self.spec_index_into(*old(v)) is None && *final(v) == *old(v),
            },
    {
        self.as_str().index_into_mut(v)
    }

    fn index_or_insert<'v>(&self, v: &'v mut Value) -> (r: &'v mut Value)
        ensures
            *r == self.spec_initial(*old(v)),
            self.spec_wrote(*old(v), *final(v), *final(r)),
    {
        self.as_str().index_or_insert(v)
    }
}

impl<'a, T: ?Sized + Index> Index for &'a T {
    open spec fn spec_req(&self, v: Value) -> bool {
        (**self).spec_req(v)
    }

    open spec fn spec_index_into(&self, v: Value) -> Option<Value> {
        (**self).spec_index_into(v)
    }

    open spec fn spec_can_write(&self, v: Value) -> bool {
        (**self).spec_can_write(v)
    }

    open spec fn spec_initial(&self, v: Value) -> Value {
        (**self).spec_initial(v)
    }

    open spec fn spec_wrote(&self, v0: Value, v1: Value, x: Value) -> bool {
        (**self).spec_wrote(v0, v1, x)
    }

    fn index_into<'v>(&self, v: &'v Value) -> (r: Option<&'v Value>)
        ensures
            match r {
                Some(x) => self.spec_index_into(*v) == Some(*x),
                None => self.spec_index_into(*v) is None,
            },
    {
        (**self).index_into(v)
    }

    fn index_into_mut<'v>(&self, v: &'v mut Value) -> (r: Option<&'v mut Value>)
        ensures
            match r {
                Some(x) => self.spec_index_into(*old(v)) == Some(*x) && self.spec_wrote(
                    *old(v),
                    *final(v),
                    *final(x),
                ),
                None => self.spec_index_into(*old(v)) is None && *final(v) == *old(v),
            },
    {
        (**self).index_into_mut(v)
    }

    fn index_or_insert<'v>(&self, v: &'v mut Value) -> (r: &'v mut Value)
        ensures
            *r == self.spec_initial(*old(v)),
            self.spec_wrote(*old(v), *final(v), *final(r)),
    {
        (**self).index_or_insert(v)
    }
}

impl Value {
    /// Read indexing sugar: the selected value, or the null sentinel when the
    /// lookup misses — a chained read never signals failure.
    pub fn index<'a, I: Index>(&'a self, idx: I) -> (r: &'a Value)
        requires
            idx.spec_req(*self),
        ensures
            match idx.spec_index_into(*self) {
                Some(x) => *r == x,
                None => *r is Null,
            },
    {
        match idx.index_into(self) {
            Some(x) => x,
            None => &Value::Null,
        }
    }

    /// Write indexing sugar: the selected slot, inserting a null placeholder
    /// for an absent object key; the variant (and, for a position, the
    /// bounds) must match.
    pub fn index_mut<'a, I: Index>(&'a mut self, idx: I) -> (r: &'a mut Value)
        requires
            idx.spec_can_write(*old(self)),
        ensures
            *r == idx.spec_initial(*old(self)),
            idx.spec_wrote(*old(self), *final(self), *final(r)),
    {
        idx.index_or_insert(self)
    }
}

} // verus!
