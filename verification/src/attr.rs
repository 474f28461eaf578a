//! Message attributes: an ordered map from string keys to string values.
//! Insertion order is kept; a lookup returns the first binding of a key, and
//! an insert replaces that binding in place.

use vstd::prelude::*;
use crate::text::str_eq;

verus! {

/// One attribute binding, in the mathematical model.
pub struct AttrPair {
    pub key: Seq<char>,
    pub val: Seq<char>,
}

/// Ordered attribute map.
#[derive(Clone, Debug, PartialEq, Eq)]
pub struct Attributes {
    pairs: Vec<(String, String)>,
}

impl View for Attributes {
    type V = Seq<AttrPair>;

    closed spec fn view(&self) -> Seq<AttrPair> {
        Seq::new(
            self.pairs.len() as nat,
            |i: int|
                if 0 <= i < self.pairs.len() {
                    AttrPair { key: self.pairs[i].0@, val: self.pairs[i].1@ }
                } else {
                    AttrPair { key: Seq::empty(), val: Seq::empty() }
                },
        )
    }
}

/// First binding of `key` in an attribute sequence.
pub open spec fn attrs_get(attrs: Seq<AttrPair>, key: Seq<char>) -> Option<Seq<char>>
    decreases attrs.len(),
{
    if attrs.len() == 0 {
        Option::None
    } else if attrs[0].key == key {
        Option::Some(attrs[0].val)
    } else {
        attrs_get(attrs.drop_first(), key)
    }
}

/// The attribute sequence after binding `key` to `val`: the first binding of
/// `key` is replaced in place, or a new one is appended.
pub open spec fn attrs_set(attrs: Seq<AttrPair>, key: Seq<char>, val: Seq<char>) -> Seq<AttrPair>
    decreases attrs.len(),
{
    if attrs.len() == 0 {
        seq![AttrPair { key, val }]
    } else if attrs[0].key == key {
        seq![AttrPair { key, val }] + attrs.drop_first()
    } else {
        seq![attrs[0]] + attrs_set(attrs.drop_first(), key, val)
    }
}

impl Attributes {
    /// An empty attribute map.
    pub fn new() -> (r: Attributes)
        ensures
            r@ == Seq::<AttrPair>::empty(),
    {
        let r = Attributes { pairs: Vec::new() };
        proof {
            assert(r@ =~= Seq::<AttrPair>::empty());
        }
        r
    }

    /// Number of bindings.
    pub fn len(&self) -> (r: usize)
        ensures
            r == self@.len(),
    {
        self.pairs.len()
    }

    /// Key of the binding at `i`.
    pub fn key_at(&self, i: usize) -> (r: &String)
        requires
            i < self@.len(),
        ensures
            r@ == self@[i as int].key,
    {
        &self.pairs[i].0
    }

    /// Value of the binding at `i`.
    pub fn val_at(&self, i: usize) -> (r: &String)
        requires
            i < self@.len(),
        ensures
            r@ == self@[i as int].val,
    {
        &self.pairs[i].1
    }

    /// First value bound to `key`, if any.
    pub fn get(&self, key: &str) -> (r: Option<&String>)
        ensures
            match r {
                Option::Some(v) => attrs_get(self@, key@) == Option::Some(v@),
                Option::None => attrs_get(self@, key@) is None,
            },
    {
        let n = self.pairs.len();
        let mut i: usize = 0;
        proof {
            assert(self@.skip(0) =~= self@);
        }
        while i < n
            invariant
                i <= n,
                n == self@.len(),
                attrs_get(self@, key@) == attrs_get(self@.skip(i as int), key@),
            decreases n - i,
        {
            proof {
                let t = self@.skip(i as int);
                assert(t[0] == self@[i as int]);
                assert(t.drop_first() =~= self@.skip(i + 1));
            }
            if str_eq(self.pairs[i].0.as_str(), key) {
                return Option::Some(&self.pairs[i].1);
            }
            i = i + 1;
        }
        proof {
            assert(self@.skip(n as int) =~= Seq::<AttrPair>::empty());
        }
        Option::None
    }

    /// Binds `key` to `val`: replaces the first binding of `key`, or appends.
    pub fn insert(&mut self, key: String, val: String)
        ensures
            final(self)@ == attrs_set(old(self)@, key@, val@),
    {
        let n = self.pairs.len();
        let mut i: usize = 0;
        while i < n
            invariant
                i <= n,
                n == self@.len(),
                self@ == old(self)@,
                forall|k: int| 0 <= k < i ==> (#[trigger] self@[k]).key != key@,
            decreases n - i,
        {
            if str_eq(self.pairs[i].0.as_str(), key.as_str()) {
                self.pairs[i] = (key, val);
                proof {
                    lemma_attrs_set_found(old(self)@, key@, val@, i as int);
                    assert(self@ =~= attrs_set(old(self)@, key@, val@));
                }
                return ;
            }
            i = i + 1;
        }
        self.pairs.push((key, val));
        proof {
            lemma_attrs_set_missing(old(self)@, key@, val@);
            assert(self@ =~= attrs_set(old(self)@, key@, val@));
        }
    }
}

/// Replacing a key that first occurs at `i` rewrites exactly that entry.
proof fn lemma_attrs_set_found(attrs: Seq<AttrPair>, key: Seq<char>, val: Seq<char>, i: int)
    requires
        0 <= i < attrs.len(),
        attrs[i].key == key,
        forall|k: int| 0 <= k < i ==> (#[trigger] attrs[k]).key != key,
    ensures
        attrs_set(attrs, key, val) =~= attrs.update(i, AttrPair { key, val }),
    decreases attrs.len(),
{
    if i == 0 {
        assert(attrs_set(attrs, key, val) == seq![AttrPair { key, val }] + attrs.drop_first());
    } else {
        assert forall|k: int| 0 <= k < i - 1 implies (#[trigger] attrs.drop_first()[k]).key
            != key by {
            assert(attrs.drop_first()[k] == attrs[k + 1]);
        }
        assert(attrs.drop_first()[i - 1] == attrs[i]);
        lemma_attrs_set_found(attrs.drop_first(), key, val, i - 1);
        assert(attrs[0].key != key);
    }
}

/// Binding an absent key appends it.
proof fn lemma_attrs_set_missing(attrs: Seq<AttrPair>, key: Seq<char>, val: Seq<char>)
    requires
        forall|k: int| 0 <= k < attrs.len() ==> (#[trigger] attrs[k]).key != key,
    ensures
        attrs_set(attrs, key, val) =~= attrs.push(AttrPair { key, val }),
    decreases attrs.len(),
{
    if attrs.len() > 0 {
        assert forall|k: int|
            0 <= k < attrs.drop_first().len() implies (#[trigger] attrs.drop_first()[k]).key
            != key by {
            assert(attrs.drop_first()[k] == attrs[k + 1]);
        }
        lemma_attrs_set_missing(attrs.drop_first(), key, val);
    }
}

} // verus!
