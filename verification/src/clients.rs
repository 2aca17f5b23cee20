//! The connected clients, and who hears a broadcast.
use vstd::prelude::*;

verus! {

/// The senders of all clients, by client number. A client keeps its number, and its
/// place here, for as long as the server runs.
#[derive(Debug)]
pub struct Clients<S>(pub Vec<S>);

/// A message and the numbers of the clients that it goes to.
#[derive(Debug)]
pub struct Broadcast {
    pub message: Vec<u8>,
    pub recipients: Vec<usize>,
}

/// The numbers below `n`, in order, without the excluded one.
pub open spec fn everyone_but(n: nat, exclude_id: Option<usize>) -> Seq<usize>
    decreases n,
{
    if n == 0 {
        Seq::empty()
    } else {
        let others = everyone_but((n - 1) as nat, exclude_id);
        if exclude_id == Some((n - 1) as usize) {
            others
        } else {
            others.push((n - 1) as usize)
        }
    }
}

impl<S> View for Clients<S> {
    type V = Seq<S>;

    open spec fn view(&self) -> Seq<S> {
        self.0@
    }
}

impl<S> Clients<S> {
    /// No clients.
    pub fn new() -> (r: Clients<S>)
        ensures
            r@ == Seq::<S>::empty(),
    {
        Clients(Vec::new())
    }

    /// Adds a client and gives out its number.
    pub fn add_client(&mut self, client_tx: S) -> (client_id: usize)
        ensures
            client_id == old(self)@.len(),
            final(self)@ == old(self)@.push(client_tx),
    {
        let client_id: usize = self.0.len();
        self.0.push(client_tx);
        client_id
    }

    /// The sender of a client.
    pub fn get(&self, client_id: usize) -> (r: Option<&S>)
        ensures
            r == (if client_id < self@.len() {
                Some(&self@[client_id as int])
            } else {
                None
            }),
    {
        if client_id < self.0.len() {
            Some(&self.0[client_id])
        } else {
            None
        }
    }

    /// Addresses a message to all clients, or to all but one.
    pub fn broadcast_message(&self, message: Vec<u8>, exclude_id: Option<usize>) -> (r: Broadcast)
        ensures
            r.message@ == message@,
            r.recipients@ == everyone_but(self@.len(), exclude_id),
    {
        let mut recipients: Vec<usize> = Vec::new();
        for i in 0..self.0.len()
            invariant
                recipients@ == everyone_but(i as nat, exclude_id),
        {
            let wanted: bool = match exclude_id {
                Some(id) => i != id,
                None => true,
            };
            if wanted {
                recipients.push(i);
            }
        }
        Broadcast { message, recipients }
    }
}

proof fn lemma_everyone_but(n: nat, exclude_id: Option<usize>)
    requires
        n <= usize::MAX,
    ensures
        forall|k: int|
            0 <= k < everyone_but(n, exclude_id).len() ==> #[trigger] everyone_but(
                n,
                exclude_id,
            )[k] < n,
        forall|j: int, k: int|
            0 <= j < k < everyone_but(n, exclude_id).len() ==> #[trigger] everyone_but(
                n,
                exclude_id,
            )[j] < #[trigger] everyone_but(n, exclude_id)[k],
        forall|i: usize| #[trigger]
            everyone_but(n, exclude_id).contains(i) <==> i < n && exclude_id != Some(i),
    decreases n,
{
    if n > 0 {
        let m = (n - 1) as nat;
        lemma_everyone_but(m, exclude_id);
        let before = everyone_but(m, exclude_id);
        let all = everyone_but(n, exclude_id);
        assert forall|i: usize| #[trigger] all.contains(i) <==> i < n && exclude_id != Some(i) by {
            if before.contains(i) {
                let k = choose|k: int| 0 <= k < before.len() && before[k] == i;
                assert(all[k] == i);
            }
            if i == m && exclude_id != Some(i) {
                assert(all[before.len() as int] == i);
            }
            if all.contains(i) {
                let k = choose|k: int| 0 <= k < all.len() && all[k] == i;
                if k < before.len() {
                    assert(before[k] == i);
                }
            }
        }
    }
}

/// A broadcast goes to every client but the excluded one, and to each of them once.
pub proof fn broadcast_reaches_each_once(n: nat, exclude_id: Option<usize>)
    requires
        n <= usize::MAX,
    ensures
        forall|i: usize| #[trigger]
            everyone_but(n, exclude_id).contains(i) <==> i < n && exclude_id != Some(i),
        everyone_but(n, exclude_id).no_duplicates(),
{
    lemma_everyone_but(n, exclude_id);
}

} // verus!
