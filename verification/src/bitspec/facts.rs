//! Facts: named values that the evaluation of a row records.
use vstd::prelude::*;
use vstd::hash_map::StringHashMap;
use vstd::string::StringExecFns;
use crate::num::Float64;

verus! {

/// The value of a fact.
#[derive(Debug, Clone)]
pub enum FactValue {
    Bool(bool),
    Num(Float64),
    Str(String),
}

/// The value of a fact, with a string held by its characters.
pub enum FactModel {
    Bool(bool),
    Num(Float64),
    Str(Seq<char>),
}

impl View for FactValue {
    type V = FactModel;

    open spec fn view(&self) -> FactModel {
        match self {
            FactValue::Bool(b) => FactModel::Bool(*b),
            FactValue::Num(x) => FactModel::Num(*x),
            FactValue::Str(s) => FactModel::Str(s@),
        }
    }
}

/// The facts of one evaluation, by name. A name has at most one value: the last that was
/// recorded under it.
pub struct FactMap {
    entries: StringHashMap<FactValue>,
}

impl View for FactMap {
    type V = Map<Seq<char>, FactModel>;

    closed spec fn view(&self) -> Map<Seq<char>, FactModel> {
        self.entries@.map_values(|v: FactValue| v@)
    }
}

impl FactMap {
    /// A map without facts.
    pub fn new() -> (m: FactMap)
        ensures
            m@ == Map::<Seq<char>, FactModel>::empty(),
    {
        let m = FactMap { entries: StringHashMap::new() };
        proof {
            assert(m@ =~= Map::<Seq<char>, FactModel>::empty());
        }
        m
    }

    /// Records a fact. A fact of the same name is replaced.
    pub fn insert(&mut self, key: &str, value: FactValue)
        ensures
            final(self)@ == old(self)@.insert(key@, value@),
    {
        self.entries.insert(String::from_str(key), value);
        proof {
            assert(self@ =~= old(self)@.insert(key@, value@));
        }
    }

    /// The fact of the given name, if one was recorded.
    pub fn get(&self, key: &str) -> (r: Option<&FactValue>)
        ensures
            match r {
                Some(v) => self@.contains_key(key@) && self@[key@] == v@,
                None => !self@.contains_key(key@),
            },
    {
        self.entries.get(key)
    }

    /// Whether a fact of the given name was recorded.
    pub fn contains_key(&self, key: &str) -> (r: bool)
        ensures
            r == self@.contains_key(key@),
    {
        self.entries.contains_key(key)
    }

    /// Whether no fact was recorded.
    pub fn is_empty(&self) -> (r: bool)
        ensures
            r == (self@ == Map::<Seq<char>, FactModel>::empty()),
    {
        let r = self.entries.is_empty();
        proof {
            if r {
                assert(self@ =~= Map::<Seq<char>, FactModel>::empty());
            } else {
                let k = choose|k: Seq<char>| self.entries@.dom().contains(k);
                assert(self@.contains_key(k));
            }
        }
        r
    }
}

} // verus!
