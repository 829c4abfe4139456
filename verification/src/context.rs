//! The shared context: a string-keyed store of type-tagged values.
//!
//! A value keeps the identity of the type it was written with. A read names
//! the type it expects and sees the value only when the two agree; nothing is
//! ever coerced.

use vstd::hash_map::StringHashMap;
use vstd::prelude::*;

verus! {

/// The run-time identity of a stored value's type.
#[derive(Clone, Copy, Debug, PartialEq, Eq, Structural)]
pub enum Kind {
    Flag,
    Integer,
    Unsigned,
    Text,
    Bytes,
}

/// A value together with the identity of its type.
#[derive(Debug)]
pub enum Value {
    Flag(bool),
    Integer(i64),
    Unsigned(u64),
    Text(String),
    Bytes(Vec<u8>),
}

/// What a [`Value`] is, mathematically.
pub enum ValueView {
    Flag(bool),
    Integer(i64),
    Unsigned(u64),
    Text(Seq<char>),
    Bytes(Seq<u8>),
}

impl View for Value {
    type V = ValueView;

    open spec fn view(&self) -> ValueView {
        match self {
            Value::Flag(b) => ValueView::Flag(*b),
            Value::Integer(i) => ValueView::Integer(*i),
            Value::Unsigned(u) => ValueView::Unsigned(*u),
            Value::Text(s) => ValueView::Text(s@),
            Value::Bytes(b) => ValueView::Bytes(b@),
        }
    }
}

/// The type identity that a value carries.
pub open spec fn kind_of(v: ValueView) -> Kind {
    match v {
        ValueView::Flag(_) => Kind::Flag,
        ValueView::Integer(_) => Kind::Integer,
        ValueView::Unsigned(_) => Kind::Unsigned,
        ValueView::Text(_) => Kind::Text,
        ValueView::Bytes(_) => Kind::Bytes,
    }
}

impl Value {
    /// The identity of the type this value was written with.
    pub fn kind(&self) -> (k: Kind)
        ensures
            k == kind_of(self@),
    {
        match self {
            Value::Flag(_) => Kind::Flag,
            Value::Integer(_) => Kind::Integer,
            Value::Unsigned(_) => Kind::Unsigned,
            Value::Text(_) => Kind::Text,
            Value::Bytes(_) => Kind::Bytes,
        }
    }
}

/// A type whose values the context can hold.
///
/// Each such type has one [`Kind`]; wrapping tags a value with it, and
/// narrowing gives the value back exactly when the tag is that of the type
/// asked for.
pub trait Storable: Sized {
    /// The identity under which values of this type are stored.
    spec fn kind() -> Kind;

    /// The stored form of this value.
    spec fn model(&self) -> ValueView;

    /// The stored form carries this type's identity.
    proof fn model_kind(&self)
        ensures
            kind_of(self.model()) == Self::kind(),
    ;

    /// Tags the value with its type.
    fn into_value(self) -> (v: Value)
        ensures
            v@ == self.model(),
    ;

    /// Borrows the value inside `v` if it is of this type.
    fn peek(v: &Value) -> (r: Option<&Self>)
        ensures
            match r {
                Some(x) => kind_of(v@) == Self::kind() && x.model() == v@,
                None => kind_of(v@) != Self::kind(),
            },
    ;

    /// Takes the value out of `v` if it is of this type.
    fn from_value(v: Value) -> (r: Option<Self>)
        ensures
            match r {
                Some(x) => kind_of(v@) == Self::kind() && x.model() == v@,
                None => kind_of(v@) != Self::kind(),
            },
    ;
}

impl Storable for bool {
    open spec fn kind() -> Kind {
        Kind::Flag
    }

    open spec fn model(&self) -> ValueView {
        ValueView::Flag(*self)
    }

    proof fn model_kind(&self) {
    }

    fn into_value(self) -> (v: Value) {
        Value::Flag(self)
    }

    fn peek(v: &Value) -> (r: Option<&Self>) {
        match v {
            Value::Flag(x) => Some(x),
            _ => None,
        }
    }

    fn from_value(v: Value) -> (r: Option<Self>) {
        match v {
            Value::Flag(x) => Some(x),
            _ => None,
        }
    }
}

impl Storable for i64 {
    open spec fn kind() -> Kind {
        Kind::Integer
    }

    open spec fn model(&self) -> ValueView {
        ValueView::Integer(*self)
    }

    proof fn model_kind(&self) {
    }

    fn into_value(self) -> (v: Value) {
        Value::Integer(self)
    }

    fn peek(v: &Value) -> (r: Option<&Self>) {
        match v {
            Value::Integer(x) => Some(x),
            _ => None,
        }
    }

    fn from_value(v: Value) -> (r: Option<Self>) {
        match v {
            Value::Integer(x) => Some(x),
            _ => None,
        }
    }
}

impl Storable for u64 {
    open spec fn kind() -> Kind {
        Kind::Unsigned
    }

    open spec fn model(&self) -> ValueView {
        ValueView::Unsigned(*self)
    }

    proof fn model_kind(&self) {
    }

    fn into_value(self) -> (v: Value) {
        Value::Unsigned(self)
    }

    fn peek(v: &Value) -> (r: Option<&Self>) {
        match v {
            Value::Unsigned(x) => Some(x),
            _ => None,
        }
    }

    fn from_value(v: Value) -> (r: Option<Self>) {
        match v {
            Value::Unsigned(x) => Some(x),
            _ => None,
        }
    }
}

impl Storable for String {
    open spec fn kind() -> Kind {
        Kind::Text
    }

    open spec fn model(&self) -> ValueView {
        ValueView::Text(self@)
    }

    proof fn model_kind(&self) {
    }

    fn into_value(self) -> (v: Value) {
        Value::Text(self)
    }

    fn peek(v: &Value) -> (r: Option<&Self>) {
        match v {
            Value::Text(x) => Some(x),
            _ => None,
        }
    }

    fn from_value(v: Value) -> (r: Option<Self>) {
        match v {
            Value::Text(x) => Some(x),
            _ => None,
        }
    }
}

impl Storable for Vec<u8> {
    open spec fn kind() -> Kind {
        Kind::Bytes
    }

    open spec fn model(&self) -> ValueView {
        ValueView::Bytes(self@)
    }

    proof fn model_kind(&self) {
    }

    fn into_value(self) -> (v: Value) {
        Value::Bytes(self)
    }

    fn peek(v: &Value) -> (r: Option<&Self>) {
        match v {
            Value::Bytes(x) => Some(x),
            _ => None,
        }
    }

    fn from_value(v: Value) -> (r: Option<Self>) {
        match v {
            Value::Bytes(x) => Some(x),
            _ => None,
        }
    }
}

/// The shared store that nodes read from and write to during a run.
pub struct TypedContext {
    slots: StringHashMap<Value>,
}

impl View for TypedContext {
    type V = Map<Seq<char>, ValueView>;

    closed spec fn view(&self) -> Map<Seq<char>, ValueView> {
        self.slots@.map_values(|v: Value| v@)
    }
}

/// What a read of `key` as a `T` sees in the store `m`: the value under the
/// key if there is one and it was written as a `T`, nothing otherwise.
pub open spec fn typed_lookup<T: Storable>(m: Map<Seq<char>, ValueView>, key: Seq<char>) -> Option<
    ValueView,
> {
    if m.contains_key(key) && kind_of(m[key]) == T::kind() {
        Some(m[key])
    } else {
        None
    }
}

impl TypedContext {
    /// An empty context.
    pub fn new() -> (r: Self)
        ensures
            r@ == Map::<Seq<char>, ValueView>::empty(),
    {
        let r = TypedContext { slots: StringHashMap::new() };
        assert(r@ =~= Map::<Seq<char>, ValueView>::empty());
        r
    }
}

/// Reads the value under `key` as a `T`.
///
/// The value is seen only if it was written as a `T`; a value of another type
/// reads as absent.
pub fn get_any<'a, T: Storable>(map: &'a TypedContext, key: &str) -> (r: Option<&'a T>)
    ensures
        match r {
            Some(x) => typed_lookup::<T>(map@, key@) == Some(x.model()),
            None => typed_lookup::<T>(map@, key@) is None,
        },
{
    match map.slots.get(key) {
        Some(v) => T::peek(v),
        None => None,
    }
}

/// Writes `value` under `key`, replacing whatever was there.
pub fn set_any<T: Storable>(map: &mut TypedContext, key: &str, value: T)
    ensures
        final(map)@ == old(map)@.insert(key@, value.model()),
{
    let stored = value.into_value();
    map.slots.insert(key.to_owned(), stored);
    assert(map@ =~= old(map)@.insert(key@, value.model()));
}

/// Narrows a value taken out of the context to a `T`, by value.
pub fn handle_any<T: Storable>(value: Value) -> (r: Option<T>)
    ensures
        match r {
            Some(x) => kind_of(value@) == T::kind() && x.model() == value@,
            None => kind_of(value@) != T::kind(),
        },
{
    T::from_value(value)
}

/// A value read back under the key and the type it was written with is the
/// value that was written.
pub proof fn lemma_read_after_write<T: Storable>(
    m: Map<Seq<char>, ValueView>,
    key: Seq<char>,
    value: T,
)
    ensures
        typed_lookup::<T>(m.insert(key, value.model()), key) == Some(value.model()),
{
    value.model_kind();
}

/// A value written as one type reads as absent under every other type.
pub proof fn lemma_read_as_other_type<T: Storable, U: Storable>(
    m: Map<Seq<char>, ValueView>,
    key: Seq<char>,
    value: T,
)
    requires
        T::kind() != U::kind(),
    ensures
        typed_lookup::<U>(m.insert(key, value.model()), key) is None,
{
    value.model_kind();
}

/// A write under one key leaves what is read under every other key as it was.
pub proof fn lemma_read_other_key<T: Storable, U: Storable>(
    m: Map<Seq<char>, ValueView>,
    key: Seq<char>,
    other: Seq<char>,
    value: T,
)
    requires
        key != other,
    ensures
        typed_lookup::<U>(m.insert(key, value.model()), other) == typed_lookup::<U>(m, other),
{
}

/// Of two writes under one key, the later one is what is read.
pub proof fn lemma_last_write_wins<T: Storable, U: Storable>(
    m: Map<Seq<char>, ValueView>,
    key: Seq<char>,
    first: T,
    second: U,
)
    ensures
        m.insert(key, first.model()).insert(key, second.model()) == m.insert(key, second.model()),
        typed_lookup::<U>(m.insert(key, first.model()).insert(key, second.model()), key) == Some(
            second.model(),
        ),
{
    second.model_kind();
    assert(m.insert(key, first.model()).insert(key, second.model()) =~= m.insert(
        key,
        second.model(),
    ));
}

} // verus!
