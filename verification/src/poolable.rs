//! What the pool asks of the connections it holds and of the keys it files them under.

use std::fmt::Debug;
use std::hash::Hash;

use vstd::prelude::*;
use vstd::std_specs::hash::obeys_key_model;

verus! {

/// A marker to identify what version a pooled connection is.
#[derive(Clone, Copy, Debug, PartialEq, Eq, Hash, Structural)]
pub enum Ver {
    Auto,
    Http2,
}

/// When checking out a pooled connection, it might be that the connection only supports a single
/// reservation, or it might be usable for many.
///
/// Specifically, HTTP/1 requires a unique reservation, but HTTP/2 can be used for multiple
/// requests.
pub enum Reservation<T> {
    /// This connection could be used multiple times, the first one will be reinserted into the
    /// `idle` pool, and the second will be given to the checkout.
    Shared(T, T),
    /// This connection requires unique access. It will be returned after use is complete.
    Unique(T),
}

/// A connection that can be pooled.
///
/// The methods promise nothing: a connection can be closed by its peer between any two calls.
/// Contracts therefore speak of the answers that were given, through [`answers_open`],
/// [`answers_shareable`] and [`reserves_as`]. An implementation that states what its methods
/// return narrows those relations down, and with them every contract of the pool.
pub trait Poolable: Send + Sized + 'static {
    /// Whether the connection can still be used.
    fn is_open(&self) -> bool;

    /// Reserve this connection.
    ///
    /// Allows for HTTP/2 to return a shared reservation.
    fn reserve(self) -> Reservation<Self>;

    /// Whether the connection can serve several requests at once.
    fn can_share(&self) -> bool;
}

/// `is_open` can answer `answer` when asked of `value`.
pub open spec fn answers_open<T: Poolable>(value: T, answer: bool) -> bool {
    call_ensures(T::is_open, (&value,), answer)
}

/// `can_share` can answer `answer` when asked of `value`.
pub open spec fn answers_shareable<T: Poolable>(value: T, answer: bool) -> bool {
    call_ensures(T::can_share, (&value,), answer)
}

/// `reserve` can turn `value` into `reservation`.
pub open spec fn reserves_as<T: Poolable>(value: T, reservation: Reservation<T>) -> bool {
    call_ensures(T::reserve, (value,), reservation)
}

/// What connections are filed under, such as a scheme and an authority. Keys that are `==` count as
/// one key, so an authority that differs only in the ASCII case of its host is filed under the
/// same key.
pub trait Key: Eq + Hash + Clone + Debug + Send + 'static {

}

impl<T> Key for T where T: Eq + Hash + Clone + Debug + Send + 'static {

}

/// `K` is fit to be the key of a hash map: `Eq` and `Hash` agree, as the standard library's
/// `HashMap` asks of its keys, and a clone equals what it was cloned from.
///
/// `obeys_key_model` takes two keys that are `==` for one and the same value. Of keys that can be
/// `==` without being identical, such as authorities whose hosts are compared without regard to
/// ASCII case, contracts therefore speak only up to `==`: the key in a contract stands for all
/// keys that are `==` to it.
pub open spec fn lawful_key<K: Key>() -> bool {
    &&& obeys_key_model::<K>()
    &&& forall|original: K, copy: K| #[trigger] cloned(original, copy) ==> copy == original
}

/// A clone of a lawful key, which is the key itself.
pub fn clone_key<K: Key>(key: &K) -> (copy: K)
    requires
        lawful_key::<K>(),
    ensures
        copy == *key,
{
    let copy: K = key.clone();
    assert(cloned(*key, copy));
    copy
}

} // verus!
