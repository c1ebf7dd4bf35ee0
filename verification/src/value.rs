//! The externally visible root type: a closed tagged union over null,
//! number, string, boolean, array and ordered-map object.
use crate::number::Number;
use crate::object::Object;
use vstd::prelude::*;

verus! {

#[derive(Debug, PartialEq, PartialOrd)]
pub enum Value {
    Null,
    Number(Number),
    String(String),
    Bool(bool),
    Array(Vec<Value>),
    Object(Object),
}

impl Value {
    pub fn is_null(&self) -> (r: bool)
        ensures
            r == (self is Null),
    {
        match self {
            Value::Null => true,
            _ => false,
        }
    }

    pub fn as_null(&self) -> (r: Option<()>)
        ensures
            r == if self is Null {
                Some(())
            } else {
                None::<()>
            },
    {
        match self {
            Value::Null => Some(()),
            _ => None,
        }
    }

    pub fn is_number(&self) -> (r: bool)
        ensures
            r == (self is Number),
    {
        match self {
            Value::Number(_) => true,
            _ => false,
        }
    }

    pub fn is_string(&self) -> (r: bool)
        ensures
            r == (self is String),
    {
        match self {
            Value::String(_) => true,
            _ => false,
        }
    }

    pub fn as_str(&self) -> (r: Option<&str>)
        ensures
            match r {
                Some(s) => *self is String && s@ == self->String_0@,
                None => !(*self is String),
            },
    {
        match self {
            Value::String(s) => Some(s.as_str()),
            _ => None,
        }
    }

    pub fn is_boolean(&self) -> (r: bool)
        ensures
            r == (self is Bool),
    {
        match self {
            Value::Bool(_) => true,
            _ => false,
        }
    }

    pub fn as_bool(&self) -> (r: Option<bool>)
        ensures
            r == if self is Bool {
                Some(self->Bool_0)
            } else {
                None::<bool>
            },
    {
        match self {
            Value::Bool(b) => Some(*b),
            _ => None,
        }
    }

    pub fn is_array(&self) -> (r: bool)
        ensures
            r == (self is Array),
    {
        match self {
            Value::Array(_) => true,
            _ => false,
        }
    }

    pub fn as_array(&self) -> (r: Option<&Vec<Value>>)
        ensures
            match r {
                Some(a) => *self is Array && *a == self->Array_0,
                None => !(*self is Array),
            },
    {
        match self {
            Value::Array(a) => Some(a),
            _ => None,
        }
    }

    pub fn as_array_mut(&mut self) -> (r: Option<&mut Vec<Value>>)
        ensures
            match r {
                Some(a) => {
                    &&& *old(self) is Array
                    &&& *a == old(self)->Array_0
                    &&& *final(self) == Value::Array(*final(a))
                },
                None => !(*old(self) is Array) && *final(self) == *old(self),
            },
    {
        match self {
            Value::Array(a) => Some(a),
            _ => None,
        }
    }

    pub fn is_object(&self) -> (r: bool)
        ensures
            r == (self is Object),
    {
        match self {
            Value::Object(_) => true,
            _ => false,
        }
    }

    pub fn as_object(&self) -> (r: Option<&Object>)
        ensures
            match r {
                Some(o) => *self is Object && *o == self->Object_0,
                None => !(*self is Object),
            },
    {
        match self {
            Value::Object(o) => Some(o),
            _ => None,
        }
    }

    pub fn as_object_mut(&mut self) -> (r: Option<&mut Object>)
        ensures
            match r {
                Some(o) => {
                    &&& *old(self) is Object
                    &&& *o == old(self)->Object_0
                    &&& *final(self) == Value::Object(*final(o))
                },
                None => !(*old(self) is Object) && *final(self) == *old(self),
            },
    {
        match self {
            Value::Object(o) => Some(o),
            _ => None,
        }
    }
}

impl Default for Value {
    /// The default value is the null value.
    fn default() -> (r: Self)
        ensures
            r is Null,
    {
        Value::Null
    }
}

} // verus!
