//! Answers that were found before, kept in a concurrent map under the names that were asked about.
use crate::text::strs;
use dashmap::DashMap;
use vstd::prelude::*;

verus! {

/// `dashmap::DashMap`: a hash map.
#[verifier::external_type_specification]
#[verifier::external_body]
#[verifier::reject_recursive_types(K)]
#[verifier::reject_recursive_types(V)]
#[verifier::reject_recursive_types(S)]
pub struct ExDashMap<K, V, S>(DashMap<K, V, S>);

/// The answers that a map holds, each under the names that were asked about.
pub uninterp spec fn held(answers: DashMap<Vec<String>, bool>) -> Map<Seq<Seq<char>>, bool>;

/// Calls `DashMap::new`, which makes a map that holds nothing.
#[verifier::external_body]
pub(crate) fn no_answers() -> (r: DashMap<Vec<String>, bool>)
    ensures
        forall|key: Seq<Seq<char>>| !#[trigger] held(r).contains_key(key),
{
    DashMap::new()
}

/// Calls `DashMap::get`, which finds the value under a key that is equal to the one given, if
/// there is one. It reads the value under a lock that is given back at once.
#[verifier::external_body]
pub(crate) fn recall(answers: &DashMap<Vec<String>, bool>, key: &Vec<String>) -> (r: Option<bool>)
    ensures
        match r {
            Some(answer) => held(*answers).contains_key(strs(key@)) && held(*answers)[strs(key@)]
                == answer,
            None => !held(*answers).contains_key(strs(key@)),
        },
{
    answers.get(key).map(|answer| *answer)
}

/// Calls `DashMap::insert`, which puts a value under a key, in place of the one that stood there,
/// and leaves what stands under other keys. It needs no more than a shared reference; the
/// exclusive one taken here is what lets the contract speak of a before and an after.
#[verifier::external_body]
pub(crate) fn remember(answers: &mut DashMap<Vec<String>, bool>, key: Vec<String>, answer: bool)
    ensures
        held(*final(answers)) == held(*old(answers)).insert(strs(key@), answer),
{
    answers.insert(key, answer);
}

} // verus!
