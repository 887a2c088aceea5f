//! Values that conditions compare, and the context that names them.
use vstd::prelude::*;

verus! {

/// A number held exactly as a decimal: its value times 10^18.
#[derive(Clone, Copy, Debug)]
pub struct Number {
    pub scaled: i128,
}

/// 10^18, the scale of [`Number::scaled`].
pub const SCALE: i128 = 1000000000000000000;

impl View for Number {
    type V = int;

    open spec fn view(&self) -> int {
        self.scaled as int
    }
}

impl Number {
    /// The integer `n`.
    pub fn from_int(n: i64) -> (r: Number)
        ensures
            r@ == n * SCALE,
    {
        Number { scaled: (n as i128) * SCALE }
    }
}

/// The mathematical meaning of a [`Value`].
pub enum ValueModel {
    Str(Seq<char>),
    Num(int),
    Bool(bool),
    Null,
}

/// A value of the context, or the result of resolving a term. `Null` stands
/// for an unknown identifier.
#[derive(Clone, Debug)]
pub enum Value {
    Str(String),
    Num(Number),
    Bool(bool),
    Null,
}

impl View for Value {
    type V = ValueModel;

    open spec fn view(&self) -> ValueModel {
        match self {
            Value::Str(s) => ValueModel::Str(s@),
            Value::Num(n) => ValueModel::Num(n@),
            Value::Bool(b) => ValueModel::Bool(*b),
            Value::Null => ValueModel::Null,
        }
    }
}

impl Value {
    /// A copy with the same meaning.
    pub fn copy_value(&self) -> (r: Value)
        ensures
            r@ == self@,
    {
        match self {
            Value::Str(s) => Value::Str(s.clone()),
            Value::Num(n) => Value::Num(*n),
            Value::Bool(b) => Value::Bool(*b),
            Value::Null => Value::Null,
        }
    }
}

/// The value of `k` among `entries`: the last entry named `k` wins.
pub open spec fn lookup(entries: Seq<(String, Value)>, k: Seq<char>) -> Option<ValueModel>
    decreases entries.len(),
{
    if entries.len() == 0 {
        None
    } else if entries.last().0@ == k {
        Some(entries.last().1@)
    } else {
        lookup(entries.drop_last(), k)
    }
}

/// A mapping from identifier names to values; each name has one value.
///
/// The entries sit in a `Vec` rather than a `HashMap`: vstd states what a
/// `HashMap` holds only for keys whose hashing it models (integers and
/// `bool`), not for `String` names, so lookups in one could not be proved.
/// Here the last entry of a name is its value, and `insert` appends.
#[derive(Clone, Debug)]
pub struct Context {
    entries: Vec<(String, Value)>,
}

impl View for Context {
    type V = Map<Seq<char>, ValueModel>;

    closed spec fn view(&self) -> Map<Seq<char>, ValueModel> {
        Map::new(
            |k: Seq<char>| lookup(self.entries@, k) is Some,
            |k: Seq<char>| lookup(self.entries@, k)->0,
        )
    }
}

impl Context {
    /// An empty context.
    pub fn new() -> (r: Context)
        ensures
            r@ == Map::<Seq<char>, ValueModel>::empty(),
    {
        let r = Context { entries: Vec::new() };
        assert(r@ =~= Map::<Seq<char>, ValueModel>::empty());
        r
    }

    /// Binds `key` to `value`, replacing any earlier value of `key`.
    pub fn insert(&mut self, key: String, value: Value)
        ensures
            final(self)@ == old(self)@.insert(key@, value@),
    {
        self.entries.push((key, value));
        proof {
            assert forall|k: Seq<char>| k != key@ implies lookup(self.entries@, k) == lookup(
                old(self).entries@,
                k,
            ) by {
                assert(self.entries@.drop_last() =~= old(self).entries@);
            }
        }
        assert(self@ =~= old(self)@.insert(key@, value@));
    }

    /// The value bound to the name `key`, if any.
    pub fn get(&self, key: &String) -> (r: Option<Value>)
        ensures
            r matches Some(v) ==> self@.contains_key(key@) && v@ == self@[key@],
            r is None ==> !self@.contains_key(key@),
    {
        let mut i: usize = self.entries.len();
        assert(self.entries@.subrange(0, i as int) =~= self.entries@);
        while i > 0
            invariant
                i <= self.entries@.len(),
                lookup(self.entries@, key@) == lookup(self.entries@.subrange(0, i as int), key@),
            decreases i,
        {
            let ghost pre = self.entries@.subrange(0, i as int);
            assert(pre.last() == self.entries@[i - 1]);
            assert(pre.drop_last() =~= self.entries@.subrange(0, i - 1));
            if self.entries[i - 1].0 == *key {
                return Some(self.entries[i - 1].1.copy_value());
            }
            i = i - 1;
        }
        None
    }
}

} // verus!
