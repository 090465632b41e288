use vstd::prelude::*;
use crate::ids::ID_LENGTH;

verus! {

/// A known peer: a fixed-length identifier plus its transport address.
/// Routing decisions and equality go by `id` alone; the address is
/// metadata carried along for the transport layer.
#[derive(Clone, Copy, Debug)]
pub struct Node {
    pub id: [u8; ID_LENGTH],
    pub ip: u32,
    pub port: u16,
}

impl Node {
    pub fn new(id: [u8; ID_LENGTH], ip: u32, port: u16) -> (r: Node)
        ensures
            r.id == id,
            r.ip == ip,
            r.port == port,
    {
        Node { id, ip, port }
    }

    pub fn get_id(&self) -> (r: &[u8; ID_LENGTH])
        ensures
            r == &self.id,
    {
        &self.id
    }
}

/// True when the two identifiers hold the same bytes.
pub fn id_eq(a: &[u8; ID_LENGTH], b: &[u8; ID_LENGTH]) -> (r: bool)
    ensures
        r == (a@ == b@),
{
    let mut i: usize = 0;
    while i < ID_LENGTH
        invariant
            i <= ID_LENGTH,
            forall|j: int| 0 <= j < i ==> a@[j] == b@[j],
        decreases ID_LENGTH - i,
    {
        if a[i] != b[i] {
            return false;
        }
        i += 1;
    }
    proof {
        assert(a@ =~= b@);
    }
    true
}

/// The identifier as a growable byte vector.
pub fn id_to_vec(a: &[u8; ID_LENGTH]) -> (r: Vec<u8>)
    ensures
        r@ == a@,
{
    let mut r: Vec<u8> = Vec::new();
    let mut i: usize = 0;
    while i < ID_LENGTH
        invariant
            i <= ID_LENGTH,
            r@ == a@.take(i as int),
        decreases ID_LENGTH - i,
    {
        r.push(a[i]);
        proof {
            assert(r@ =~= a@.take(i + 1));
        }
        i += 1;
    }
    proof {
        assert(r@ =~= a@);
    }
    r
}

} // verus!
