use vstd::prelude::*;
use crate::error::Error;

verus! {

/// A handle to an engine object of runtime `runtime`, tagged with the scope
/// generation it was issued under. Every operation checks the runtime's
/// name, the generation of the open scope and that the object is alive, so a
/// handle written by hand can at most name a live object of the open scope;
/// it can never reach a freed object or another scope.
#[derive(Debug, Clone, Copy, PartialEq, Eq, Structural)]
pub struct ObjRef {
    pub runtime: u64,
    pub id: usize,
    pub generation: u64,
}

/// The kinds of value that the host can see.
#[derive(Debug, Clone, Copy, PartialEq, Eq, Structural)]
pub enum Kind {
    Undefined,
    Null,
    Bool,
    Int,
    String,
    Object,
}

/// A JavaScript value as seen from inside a scope.
#[derive(Debug, PartialEq)]
pub enum Value {
    Undefined,
    Null,
    Bool(bool),
    Int(i32),
    Str(String),
    Object(ObjRef),
}

/// The engine's notion of sameness: primitives by content, objects by identity.
pub open spec fn same_value(a: Value, b: Value) -> bool {
    match (a, b) {
        (Value::Undefined, Value::Undefined) => true,
        (Value::Null, Value::Null) => true,
        (Value::Bool(x), Value::Bool(y)) => x == y,
        (Value::Int(x), Value::Int(y)) => x == y,
        (Value::Str(x), Value::Str(y)) => x@ == y@,
        (Value::Object(x), Value::Object(y)) => x.runtime == y.runtime && x.id == y.id,
        _ => false,
    }
}

pub open spec fn kind_of(v: Value) -> Kind {
    match v {
        Value::Undefined => Kind::Undefined,
        Value::Null => Kind::Null,
        Value::Bool(_) => Kind::Bool,
        Value::Int(_) => Kind::Int,
        Value::Str(_) => Kind::String,
        Value::Object(_) => Kind::Object,
    }
}

impl Value {
    pub fn kind(&self) -> (r: Kind)
        ensures
            r == kind_of(*self),
    {
        match self {
            Value::Undefined => Kind::Undefined,
            Value::Null => Kind::Null,
            Value::Bool(_) => Kind::Bool,
            Value::Int(_) => Kind::Int,
            Value::Str(_) => Kind::String,
            Value::Object(_) => Kind::Object,
        }
    }

    /// Compares two values the way the engine does: objects by identity.
    pub fn same(&self, other: &Value) -> (r: bool)
        ensures
            r == same_value(*self, *other),
    {
        match (self, other) {
            (Value::Undefined, Value::Undefined) => true,
            (Value::Null, Value::Null) => true,
            (Value::Bool(x), Value::Bool(y)) => *x == *y,
            (Value::Int(x), Value::Int(y)) => *x == *y,
            (Value::Str(x), Value::Str(y)) => x.eq(y),
            (Value::Object(x), Value::Object(y)) => x.runtime == y.runtime && x.id == y.id,
            _ => false,
        }
    }

    pub fn as_int(&self) -> (r: Result<i32, Error>)
        ensures
            r == (match *self {
                Value::Int(i) => Ok::<i32, Error>(i),
                _ => Err::<i32, Error>(Error::TypeMismatch),
            }),
    {
        match self {
            Value::Int(i) => Ok(*i),
            _ => Err(Error::TypeMismatch),
        }
    }

    pub fn as_bool(&self) -> (r: Result<bool, Error>)
        ensures
            r == (match *self {
                Value::Bool(b) => Ok::<bool, Error>(b),
                _ => Err::<bool, Error>(Error::TypeMismatch),
            }),
    {
        match self {
            Value::Bool(b) => Ok(*b),
            _ => Err(Error::TypeMismatch),
        }
    }

    pub fn as_string(&self) -> (r: Result<String, Error>)
        ensures
            match *self {
                Value::Str(s) => r is Ok && r->Ok_0@ == s@,
                _ => r == Err::<String, Error>(Error::TypeMismatch),
            },
    {
        match self {
            Value::Str(s) => Ok(s.clone()),
            _ => Err(Error::TypeMismatch),
        }
    }

    pub fn as_object(&self) -> (r: Result<ObjRef, Error>)
        ensures
            r == (match *self {
                Value::Object(o) => Ok::<ObjRef, Error>(o),
                _ => Err::<ObjRef, Error>(Error::TypeMismatch),
            }),
    {
        match self {
            Value::Object(o) => Ok(*o),
            _ => Err(Error::TypeMismatch),
        }
    }

    /// A bitwise copy. For an object it takes no reference: only the runtime
    /// may hand out a counted copy.
    pub(crate) fn copy_raw(&self) -> (r: Value)
        ensures
            r == *self,
    {
        match self {
            Value::Undefined => Value::Undefined,
            Value::Null => Value::Null,
            Value::Bool(b) => Value::Bool(*b),
            Value::Int(i) => Value::Int(*i),
            Value::Str(s) => Value::Str(s.clone()),
            Value::Object(o) => Value::Object(*o),
        }
    }
}

} // verus!
