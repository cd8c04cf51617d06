//! The framing of the wire protocol: a record followed by one sentinel byte.

use vstd::prelude::*;

verus! {

/// The byte that ends each frame.
pub const SOCKET_DETERMINANT: u8 = 36;

/// The port on which the layout accepts jobs.
pub const SOCKET_PORT: u16 = 4451;

/// A payload with the sentinel appended.
pub fn frame_payload(payload: &Vec<u8>) -> (r: Vec<u8>)
    ensures
        r@ == payload@.push(SOCKET_DETERMINANT),
{
    let mut r: Vec<u8> = Vec::new();
    let mut i: usize = 0;
    while i < payload.len()
        invariant
            i <= payload@.len(),
            r@ == payload@.take(i as int),
        decreases payload@.len() - i,
    {
        r.push(payload[i]);
        i += 1;
        assert(r@ =~= payload@.take(i as int));
    }
    assert(payload@.take(i as int) =~= payload@);
    r.push(SOCKET_DETERMINANT);
    r
}

/// The position of the first sentinel in `s`.
pub open spec fn first_sentinel(s: Seq<u8>) -> Option<int> {
    if exists|k: int| 0 <= k < s.len() && s[k] == SOCKET_DETERMINANT {
        Some(choose|k: int| 0 <= k < s.len() && s[k] == SOCKET_DETERMINANT
            && forall|j: int| 0 <= j < k ==> s[j] != SOCKET_DETERMINANT)
    } else {
        None
    }
}

/// Takes the first frame off `buf`: the bytes before the first sentinel,
/// and how many bytes the frame used, sentinel included. None where no
/// sentinel has come yet.
pub fn split_frame(buf: &Vec<u8>) -> (r: Option<(Vec<u8>, usize)>)
    ensures
        r is None <==> first_sentinel(buf@) is None,
        r matches Some((payload, used)) ==> {
            &&& first_sentinel(buf@) == Some(used - 1)
            &&& payload@ == buf@.take(used - 1)
            &&& buf@[used - 1] == SOCKET_DETERMINANT
            &&& forall|j: int| 0 <= j < used - 1 ==> payload@[j] != SOCKET_DETERMINANT
        },
{
    let mut payload: Vec<u8> = Vec::new();
    let mut i: usize = 0;
    while i < buf.len()
        invariant
            i <= buf@.len(),
            payload@ == buf@.take(i as int),
            forall|j: int| 0 <= j < i ==> buf@[j] != SOCKET_DETERMINANT,
        decreases buf@.len() - i,
    {
        if buf[i] == SOCKET_DETERMINANT {
            proof {
                let k = choose|k: int| 0 <= k < buf@.len() && buf@[k] == SOCKET_DETERMINANT
                    && forall|j: int| 0 <= j < k ==> buf@[j] != SOCKET_DETERMINANT;
                assert(0 <= i < buf@.len() && buf@[i as int] == SOCKET_DETERMINANT
                    && forall|j: int| 0 <= j < i ==> buf@[j] != SOCKET_DETERMINANT);
                if k < i { assert(buf@[k] != SOCKET_DETERMINANT); }
                if k > i { assert(buf@[i as int] != SOCKET_DETERMINANT); }
            }
            return Some((payload, i + 1));
        }
        payload.push(buf[i]);
        i += 1;
        assert(payload@ =~= buf@.take(i as int));
    }
    None
}

/// Framing then splitting gives the payload back, where it holds no
/// sentinel of its own.
pub proof fn lemma_frame_round_trip(payload: Seq<u8>)
    requires
        forall|j: int| 0 <= j < payload.len() ==> payload[j] != SOCKET_DETERMINANT,
    ensures
        first_sentinel(payload.push(SOCKET_DETERMINANT)) == Some(payload.len() as int),
{
    let s = payload.push(SOCKET_DETERMINANT);
    assert(s[payload.len() as int] == SOCKET_DETERMINANT);
    let k = choose|k: int| 0 <= k < s.len() && s[k] == SOCKET_DETERMINANT
        && forall|j: int| 0 <= j < k ==> s[j] != SOCKET_DETERMINANT;
    assert(0 <= payload.len() < s.len() && s[payload.len() as int] == SOCKET_DETERMINANT
        && forall|j: int| 0 <= j < payload.len() ==> s[j] != SOCKET_DETERMINANT);
    if k < payload.len() { assert(s[k] == payload[k]); }
    if k > payload.len() { assert(s[payload.len() as int] != SOCKET_DETERMINANT); }
}

} // verus!
