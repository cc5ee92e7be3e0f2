//! The calls this library makes into random sources. Each one is believed by
//! the verifier on the strength of the contract written here; nothing in this
//! file is proved.

use rand::seq::SliceRandom;
use vstd::prelude::*;
use crate::cards::Suit;

verus! {

/// `rand::seq::SliceRandom::shuffle` on the items, driven by `rand::thread_rng()`.
///
/// The shuffle only swaps elements of the slice, so the list afterwards holds
/// the same items, each as often as before. Nothing is claimed about their
/// order.
#[verifier::external_body]
pub(crate) fn shuffle<T>(items: &mut Vec<T>)
    ensures
        final(items)@.to_multiset() == old(items)@.to_multiset(),
{
    items.shuffle(&mut rand::thread_rng());
}

/// `rand::seq::SliceRandom::choose` on the suits, driven by `rand::thread_rng()`.
///
/// It returns `None` for an empty slice and otherwise one element of the
/// slice. Nothing is claimed about which one.
#[verifier::external_body]
pub(crate) fn choose_suit(suits: &Vec<Suit>) -> (picked: Option<Suit>)
    ensures
        suits@.len() == 0 ==> picked is None,
        suits@.len() > 0 ==> picked is Some && suits@.contains(picked->0),
{
    suits.choose(&mut rand::thread_rng()).copied()
}

/// `uuid::Uuid::new_v4()` written out with `to_string()`.
///
/// The identifier is drawn at random, so nothing is claimed about the text
/// that comes back, not even that it differs from an earlier one.
#[verifier::external_body]
pub(crate) fn fresh_room_id() -> (id: String) {
    uuid::Uuid::new_v4().to_string()
}

} // verus!
