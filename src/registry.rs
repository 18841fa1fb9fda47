//! The register registry of one function.
//!
//! Registers are numbered by allocation: the `n`-th allocation yields
//! register `n - 1`. An allocation is bound to a name (a parameter) or to
//! none (an intermediate value). The registry's view is the sequence of
//! those bindings in allocation order, so register `i` is the one
//! allocated for `self@[i]`.

use vstd::prelude::*;

use indexmap::IndexMap;

use crate::error::LowerError;

verus! {

#[verifier::external_type_specification]
#[verifier::external_body]
#[verifier::reject_recursive_types(K)]
#[verifier::reject_recursive_types(V)]
#[verifier::reject_recursive_types(S)]
pub struct ExIndexMap<K, V, S>(IndexMap<K, V, S>);

/// What a name-to-register map holds, keyed by the names' views.
pub uninterp spec fn name_map(m: IndexMap<Option<String>, u32>) -> Map<Option<Seq<char>>, u32>;

/// Relies on `IndexMap::new`: a new map holds no entry.
#[verifier::external_body]
fn new_name_map() -> (r: IndexMap<Option<String>, u32>)
    ensures
        name_map(r).dom().len() == 0,
        name_map(r).dom().finite(),
{
    IndexMap::new()
}

/// Relies on `IndexMap::insert`: the key now maps to `value` (an entry for
/// an equal key is updated in place), and every other key keeps its value.
#[verifier::external_body]
fn name_map_insert(m: &mut IndexMap<Option<String>, u32>, key: Option<String>, value: u32)
    ensures
        name_map(*final(m)) == name_map(*old(m)).insert(key.deep_view(), value),
{
    m.insert(key, value);
}

/// Relies on `IndexMap::get`: the value stored under an equal key, if any.
#[verifier::external_body]
fn name_map_get(m: &IndexMap<Option<String>, u32>, key: &Option<String>) -> (r: Option<u32>)
    ensures
        r == (if name_map(*m).contains_key(key.deep_view()) {
            Some(name_map(*m)[key.deep_view()])
        } else {
            None
        }),
{
    m.get(key).copied()
}

/// The register most recently allocated for `key`, if any.
pub open spec fn last_index(log: Seq<Option<Seq<char>>>, key: Option<Seq<char>>) -> Option<nat>
    decreases log.len(),
{
    if log.len() == 0 {
        None
    } else if log.last() == key {
        Some((log.len() - 1) as nat)
    } else {
        last_index(log.drop_last(), key)
    }
}

pub proof fn lemma_last_index_push(log: Seq<Option<Seq<char>>>, k: Option<Seq<char>>, key: Option<Seq<char>>)
    ensures
        last_index(log.push(k), key) == (if k == key {
            Some(log.len())
        } else {
            last_index(log, key)
        }),
{
    assert(log.push(k).drop_last() =~= log);
}

pub proof fn lemma_last_index_bound(log: Seq<Option<Seq<char>>>, key: Option<Seq<char>>)
    ensures
        last_index(log, key) matches Some(i) ==> i < log.len() && log[i as int] == key,
    decreases log.len(),
{
    if log.len() > 0 && log.last() != key {
        lemma_last_index_bound(log.drop_last(), key);
    }
}

pub struct Registry {
    names: IndexMap<Option<String>, u32>,
    count: u32,
    log: Ghost<Seq<Option<Seq<char>>>>,
}

impl View for Registry {
    type V = Seq<Option<Seq<char>>>;

    closed spec fn view(&self) -> Seq<Option<Seq<char>>> {
        self.log@
    }
}

impl Registry {
    /// The map of names agrees with the allocation log.
    pub closed spec fn wf(&self) -> bool {
        &&& self.count as nat == self.log@.len()
        &&& forall|k: Option<Seq<char>>|
            #![trigger name_map(self.names).contains_key(k)]
            name_map(self.names).contains_key(k) <==> last_index(self.log@, k) is Some
        &&& forall|k: Option<Seq<char>>|
            #![trigger name_map(self.names)[k]]
            name_map(self.names).contains_key(k) ==> last_index(self.log@, k) == Some(
                name_map(self.names)[k] as nat,
            )
    }

    /// An empty registry.
    pub fn new() -> (r: Registry)
        ensures
            r.wf(),
            r@ == Seq::<Option<Seq<char>>>::empty(),
    {
        Registry { names: new_name_map(), count: 0, log: Ghost(Seq::empty()) }
    }

    /// The number of registers allocated so far.
    pub fn len(&self) -> (n: u32)
        requires
            self.wf(),
        ensures
            n as nat == self@.len(),
    {
        self.count
    }

    /// Allocates the next register and binds it to `name`.
    pub fn allocate(&mut self, name: Option<String>) -> (r: u32)
        requires
            old(self).wf(),
            old(self)@.len() < u32::MAX,
        ensures
            final(self).wf(),
            r as nat == old(self)@.len(),
            final(self)@ == old(self)@.push(name.deep_view()),
    {
        let r = self.count;
        let ghost key = name.deep_view();
        let ghost old_log = self.log@;
        name_map_insert(&mut self.names, name, r);
        self.count = r + 1;
        self.log = Ghost(old_log.push(key));
        proof {
            assert forall|k: Option<Seq<char>>|
                #![trigger name_map(self.names).contains_key(k)]
                name_map(self.names).contains_key(k) <==> last_index(self.log@, k) is Some by {
                lemma_last_index_push(old_log, key, k);
            }
            assert forall|k: Option<Seq<char>>|
                #![trigger name_map(self.names)[k]]
                name_map(self.names).contains_key(k) ==> last_index(self.log@, k) == Some(
                    name_map(self.names)[k] as nat,
                ) by {
                lemma_last_index_push(old_log, key, k);
            }
        }
        r
    }

    /// The register most recently bound to `name`.
    pub fn resolve(&self, name: &String) -> (r: Result<u32, LowerError>)
        requires
            self.wf(),
        ensures
            match r {
                Ok(i) => last_index(self@, Some(name@)) == Some(i as nat),
                Err(e) => last_index(self@, Some(name@)) is None && e == LowerError::UnboundIdentifier(
                    *name,
                ),
            },
    {
        let key = Some(name.clone());
        proof {
            lemma_last_index_bound(self@, Some(name@));
        }
        match name_map_get(&self.names, &key) {
            Some(i) => Ok(i),
            None => Err(LowerError::UnboundIdentifier(name.clone())),
        }
    }

    /// The most recently allocated register.
    pub fn last(&self) -> (r: Result<u32, LowerError>)
        requires
            self.wf(),
        ensures
            r == (if self@.len() == 0 {
                Err::<u32, LowerError>(LowerError::EmptyRegistry)
            } else {
                Ok((self@.len() - 1) as u32)
            }),
    {
        if self.count == 0 {
            Err(LowerError::EmptyRegistry)
        } else {
            Ok(self.count - 1)
        }
    }
}

} // verus!
