//! The serializable state tree: the persisted and loadable form of a
//! parameter tree.
//!
//! A state is either leaf data or a named node mapping string keys to
//! child states.  Lookup is by key; within one node the keys are meant
//! to be unique, and the entry order is kept so that serialization
//! output is deterministic.

use crate::tensor::{Data, DataV};
use vstd::prelude::*;
use vstd::string::StringExecFns;

verus! {

/// Mathematical value of a [`State`]: leaf data, or an ordered sequence
/// of key/child pairs.
#[verifier::ext_equal]
pub enum StateV {
    Data(DataV),
    Named(Seq<(Seq<char>, StateV)>),
}

/// The first child registered under `key`, if any.
pub open spec fn lookup(es: Seq<(Seq<char>, StateV)>, key: Seq<char>) -> Option<StateV>
    decreases es.len(),
{
    if es.len() == 0 {
        None
    } else if es[0].0 == key {
        Some(es[0].1)
    } else {
        lookup(es.drop_first(), key)
    }
}

/// A key that none of the entries carries is not found.
pub proof fn lemma_lookup_absent(es: Seq<(Seq<char>, StateV)>, key: Seq<char>)
    requires
        forall|i: int| 0 <= i < es.len() ==> es[i].0 != key,
    ensures
        lookup(es, key) is None,
    decreases es.len(),
{
    if es.len() > 0 {
        assert(forall|i: int|
            0 <= i < es.drop_first().len() ==> es.drop_first()[i] == es[i + 1]);
        lemma_lookup_absent(es.drop_first(), key);
    }
}

/// The serializable form of a parameter tree: raw leaf data, or a named
/// node of child states.
pub enum State {
    Data(Data),
    StateNamed(StateNamed),
}

/// A named state node: child states registered under string keys, in
/// registration order.
pub struct StateNamed {
    pub entries: Vec<(String, State)>,
}

impl State {
    pub open spec fn view(&self) -> StateV
        decreases self,
    {
        match self {
            State::Data(d) => StateV::Data(d@),
            State::StateNamed(n) => StateV::Named(Self::entries_view(n.entries@)),
        }
    }

    pub open spec fn entries_view(es: Seq<(String, State)>) -> Seq<(Seq<char>, StateV)>
        decreases es,
    {
        if es.len() == 0 {
            Seq::empty()
        } else {
            seq![(es[0].0@, es[0].1.view())] + Self::entries_view(es.drop_first())
        }
    }

    /// The child registered under `name`, when this state is a named
    /// node that carries the key; `None` for leaf data or a missing
    /// key.  Every load path treats `None` leniently, leaving the
    /// receiver unchanged.
    pub fn get(&self, name: &str) -> (r: Option<&State>)
        ensures
            match self@ {
                StateV::Data(_) => r is None,
                StateV::Named(es) => match (r, lookup(es, name@)) {
                    (Some(s), Some(v)) => s@ == v,
                    (None, None) => true,
                    _ => false,
                },
            },
    {
        match self {
            State::Data(_) => None,
            State::StateNamed(n) => n.get(name),
        }
    }
}

pub proof fn lemma_entries_view_len(es: Seq<(String, State)>)
    ensures
        State::entries_view(es).len() == es.len(),
        forall|i: int| 0 <= i < es.len() ==> #[trigger] State::entries_view(es)[i]
            == (es[i].0@, es[i].1.view()),
    decreases es,
{
    if es.len() > 0 {
        lemma_entries_view_len(es.drop_first());
        assert(forall|i: int|
            0 <= i < es.drop_first().len() ==> es.drop_first()[i] == es[i + 1]);
    }
}

impl StateNamed {
    pub open spec fn view(&self) -> Seq<(Seq<char>, StateV)> {
        State::entries_view(self.entries@)
    }

    /// A fresh node with no children; also the explicit "no parameter"
    /// sentinel an absent optional leaf serializes to.
    pub fn new() -> (r: StateNamed)
        ensures
            r@ == Seq::<(Seq<char>, StateV)>::empty(),
    {
        StateNamed { entries: Vec::new() }
    }

    /// Registers `state` under `name`.  Each key is registered at most
    /// once per node, which keeps the node's keys unique.
    pub fn register_state(&mut self, name: &str, state: State)
        requires
            lookup(old(self)@, name@) is None,
        ensures
            final(self)@ == old(self)@.push((name@, state@)),
    {
        let ghost old_entries = self.entries@;
        let key_str = String::from_str(name);
        let ghost e = (key_str, state);
        self.entries.push((key_str, state));
        proof {
            Self::lemma_entries_view_push(old_entries, e);
            assert(State::entries_view(self.entries@) =~= State::entries_view(old_entries).push(
                (name@, e.1.view()),
            ));
        }
    }

    proof fn lemma_entries_view_push(es: Seq<(String, State)>, e: (String, State))
        ensures
            State::entries_view(es.push(e)) =~= State::entries_view(es).push((e.0@, e.1.view())),
        decreases es,
    {
        lemma_entries_view_len(es.push(e));
        lemma_entries_view_len(es);
    }

    /// The first child registered under `name`, if any.
    pub fn get(&self, name: &str) -> (r: Option<&State>)
        ensures
            match (r, lookup(self@, name@)) {
                (Some(s), Some(v)) => s@ == v,
                (None, None) => true,
                _ => false,
            },
    {
        let key = name.to_owned();
        let n = self.entries.len();
        let mut i: usize = 0;
        proof {
            lemma_entries_view_len(self.entries@);
            assert(self@.skip(0) =~= self@);
        }
        while i < n
            invariant
                i <= n,
                n == self.entries.len(),
                key@ == name@,
                State::entries_view(self.entries@).len() == n,
                forall|k: int| 0 <= k < n ==> #[trigger] State::entries_view(self.entries@)[k]
                    == (self.entries@[k].0@, self.entries@[k].1.view()),
                forall|k: int| 0 <= k < i ==> self.entries@[k].0@ != name@,
                lookup(self@, name@) == lookup(self@.skip(i as int), name@),
            decreases n - i,
        {
            if self.entries[i].0 == key {
                proof {
                    let es = self@.skip(i as int);
                    assert(es[0] == self@[i as int]);
                    assert(es[0].0 == name@);
                }
                return Some(&self.entries[i].1);
            }
            proof {
                let es = self@.skip(i as int);
                assert(es[0] == self@[i as int]);
                assert(es.drop_first() =~= self@.skip(i as int + 1));
            }
            i = i + 1;
        }
        proof {
            assert(self@.skip(n as int) =~= Seq::<(Seq<char>, StateV)>::empty());
        }
        None
    }
}

} // verus!
