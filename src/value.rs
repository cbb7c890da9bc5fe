use vstd::prelude::*;

use crate::app::{Surface, Title};
use crate::cell::ExtractError;

verus! {

/// Identity of a type that can be stored in an erased value.
#[derive(Clone, Copy, Debug, PartialEq, Eq, Structural, Hash)]
pub enum TypeKey {
    Unit,
    Int,
    Text,
    Title,
    Surface,
}

/// An owned value whose static type is erased; the variant records which
/// type it was built from, so that it can only be recovered as that type.
#[derive(Debug, PartialEq, Eq)]
pub enum Value {
    Unit,
    Int(i64),
    Text(String),
    Title(Title),
    Surface(Surface),
}

impl Value {
    /// The type the value was built from.
    pub open spec fn key(self) -> TypeKey {
        match self {
            Value::Unit => TypeKey::Unit,
            Value::Int(_) => TypeKey::Int,
            Value::Text(_) => TypeKey::Text,
            Value::Title(_) => TypeKey::Title,
            Value::Surface(_) => TypeKey::Surface,
        }
    }

    pub fn type_key(&self) -> (k: TypeKey)
        ensures
            k == self.key(),
    {
        match self {
            Value::Unit => TypeKey::Unit,
            Value::Int(_) => TypeKey::Int,
            Value::Text(_) => TypeKey::Text,
            Value::Title(_) => TypeKey::Title,
            Value::Surface(_) => TypeKey::Surface,
        }
    }

    /// An equal copy of the value.
    pub fn duplicate(&self) -> (r: Value)
        ensures
            r == *self,
    {
        match self {
            Value::Unit => Value::Unit,
            Value::Int(n) => Value::Int(*n),
            Value::Text(s) => Value::Text(s.clone()),
            Value::Title(t) => Value::Title(Title(t.0.clone())),
            Value::Surface(_) => Value::Surface(Surface {}),
        }
    }
}

/// A type that can be stored erased and recovered by a checked cast.
pub trait IntoSystemParam: Sized {
    /// The identity of the type.
    spec fn spec_key() -> TypeKey;

    /// The erased form of a value.
    spec fn spec_erase(self) -> Value;

    fn type_key() -> (k: TypeKey)
        ensures
            k == Self::spec_key(),
    ;

    fn into_value(self) -> (v: Value)
        ensures
            v == self.spec_erase(),
            v.key() == Self::spec_key(),
    ;

    /// Recovers a value of this type, failing with `TypeMismatch` when `v`
    /// was built from another type.
    fn from_value(v: &Value) -> (r: Result<Self, ExtractError>)
        ensures
            r is Ok <==> v.key() == Self::spec_key(),
            r matches Ok(x) ==> x.spec_erase() == *v,
            r is Err ==> r == Err::<Self, ExtractError>(
                ExtractError::TypeMismatch { requested: Self::spec_key(), actual: v.key() },
            ),
    ;
}

impl IntoSystemParam for () {
    open spec fn spec_key() -> TypeKey {
        TypeKey::Unit
    }

    open spec fn spec_erase(self) -> Value {
        Value::Unit
    }

    fn type_key() -> (k: TypeKey) {
        TypeKey::Unit
    }

    fn into_value(self) -> (v: Value) {
        Value::Unit
    }

    fn from_value(v: &Value) -> (r: Result<Self, ExtractError>) {
        match v {
            Value::Unit => Ok(()),
            _ => Err(ExtractError::TypeMismatch { requested: TypeKey::Unit, actual: v.type_key() }),
        }
    }
}

impl IntoSystemParam for i64 {
    open spec fn spec_key() -> TypeKey {
        TypeKey::Int
    }

    open spec fn spec_erase(self) -> Value {
        Value::Int(self)
    }

    fn type_key() -> (k: TypeKey) {
        TypeKey::Int
    }

    fn into_value(self) -> (v: Value) {
        Value::Int(self)
    }

    fn from_value(v: &Value) -> (r: Result<Self, ExtractError>) {
        match v {
            Value::Int(n) => Ok(*n),
            _ => Err(ExtractError::TypeMismatch { requested: TypeKey::Int, actual: v.type_key() }),
        }
    }
}

impl IntoSystemParam for String {
    open spec fn spec_key() -> TypeKey {
        TypeKey::Text
    }

    open spec fn spec_erase(self) -> Value {
        Value::Text(self)
    }

    fn type_key() -> (k: TypeKey) {
        TypeKey::Text
    }

    fn into_value(self) -> (v: Value) {
        Value::Text(self)
    }

    fn from_value(v: &Value) -> (r: Result<Self, ExtractError>) {
        match v {
            Value::Text(s) => Ok(s.clone()),
            _ => Err(ExtractError::TypeMismatch { requested: TypeKey::Text, actual: v.type_key() }),
        }
    }
}

impl IntoSystemParam for Title {
    open spec fn spec_key() -> TypeKey {
        TypeKey::Title
    }

    open spec fn spec_erase(self) -> Value {
        Value::Title(self)
    }

    fn type_key() -> (k: TypeKey) {
        TypeKey::Title
    }

    fn into_value(self) -> (v: Value) {
        Value::Title(self)
    }

    fn from_value(v: &Value) -> (r: Result<Self, ExtractError>) {
        match v {
            Value::Title(t) => Ok(Title(t.0.clone())),
            _ => Err(ExtractError::TypeMismatch { requested: TypeKey::Title, actual: v.type_key() }),
        }
    }
}

impl IntoSystemParam for Surface {
    open spec fn spec_key() -> TypeKey {
        TypeKey::Surface
    }

    open spec fn spec_erase(self) -> Value {
        Value::Surface(self)
    }

    fn type_key() -> (k: TypeKey) {
        TypeKey::Surface
    }

    fn into_value(self) -> (v: Value) {
        Value::Surface(self)
    }

    fn from_value(v: &Value) -> (r: Result<Self, ExtractError>) {
        match v {
            Value::Surface(_) => Ok(Surface {}),
            _ => Err(ExtractError::TypeMismatch { requested: TypeKey::Surface, actual: v.type_key() }),
        }
    }
}

} // verus!
