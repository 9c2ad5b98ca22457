//! Which peer plays which player.
//!
//! The two peers never negotiate this. Each compares the two names of the
//! session, and since both compare the same two names they come to the same
//! answer.

use crate::game::GameObjectId;
use vstd::prelude::*;
use vstd::string::StringSliceAdditionalSpecFns;
use vstd::utf8::{encode_utf8, encode_utf8_decode_utf8};

verus! {

/// Whether `a` comes before `b` in the lexicographic order of bytes: at the
/// first place where they differ `a` has the smaller byte, or `a` ends there
/// and `b` goes on.
pub open spec fn precedes(a: Seq<u8>, b: Seq<u8>) -> bool {
    exists|k: int|
        0 <= k <= a.len() && k < b.len() && #[trigger] a.take(k) == b.take(k) && (k == a.len()
            || a[k] < b[k])
}

/// The handles of this peer's player and of the other peer's, in that order:
/// the peer whose name comes last takes `first`.
pub open spec fn assigned(
    my_name: Seq<char>,
    their_name: Seq<char>,
    first: GameObjectId,
    second: GameObjectId,
) -> (GameObjectId, GameObjectId) {
    if precedes(encode_utf8(their_name), encode_utf8(my_name)) {
        (first, second)
    } else {
        (second, first)
    }
}

/// Compares two byte strings lexicographically.
pub fn bytes_precede(a: &[u8], b: &[u8]) -> (r: bool)
    ensures
        r == precedes(a@, b@),
{
    let mut i: usize = 0;
    while i < a.len() && i < b.len()
        invariant
            i <= a.len(),
            i <= b.len(),
            a@.take(i as int) == b@.take(i as int),
        decreases a.len() - i,
    {
        if a[i] != b[i] {
            let less = a[i] < b[i];
            proof {
                if !less {
                    assert forall|k: int|
                        0 <= k <= a@.len() && k < b@.len() && #[trigger] a@.take(k) == b@.take(
                            k,
                        ) implies !(k == a@.len() || a@[k] < b@[k]) by {
                        if k > i {
                            lemma_common_prefix(a@, b@, k, i as int);
                        } else if k < i {
                            if k < i {
                    lemma_common_prefix(a@, b@, i as int, k);
                }
                        }
                    }
                }
            }
            return less;
        }
        proof {
            assert(a@.take(i + 1) =~= a@.take(i as int).push(a@[i as int]));
            assert(b@.take(i + 1) =~= b@.take(i as int).push(b@[i as int]));
        }
        i += 1;
    }
    let shorter = i < b.len();
    proof {
        if !shorter {
            assert forall|k: int|
                0 <= k <= a@.len() && k < b@.len() && #[trigger] a@.take(k) == b@.take(
                    k,
                ) implies !(k == a@.len() || a@[k] < b@[k]) by {
                if k < i {
                    lemma_common_prefix(a@, b@, i as int, k);
                }
            }
        }
    }
    shorter
}

/// Picks the handles of this peer's player and of the other peer's.
pub fn assign_players(
    my_name: &str,
    their_name: &str,
    first: GameObjectId,
    second: GameObjectId,
) -> (ids: (GameObjectId, GameObjectId))
    ensures
        ids == assigned(my_name@, their_name@, first, second),
{
    if bytes_precede(their_name.as_bytes(), my_name.as_bytes()) {
        (first, second)
    } else {
        (second, first)
    }
}

/// Two strings that share their first `k` bytes share every byte before
/// `k`.
proof fn lemma_common_prefix(a: Seq<u8>, b: Seq<u8>, k: int, i: int)
    requires
        0 <= i < k,
        k <= a.len(),
        k <= b.len(),
        a.take(k) == b.take(k),
    ensures
        a[i] == b[i],
{
    assert(a[i] == a.take(k)[i]);
    assert(b[i] == b.take(k)[i]);
}

/// Two byte strings that agree before `i` and are not the same differ in
/// order: one of them precedes the other.
proof fn lemma_some_order(a: Seq<u8>, b: Seq<u8>, i: int)
    requires
        0 <= i <= a.len(),
        i <= b.len(),
        a.take(i) == b.take(i),
        a != b,
    ensures
        precedes(a, b) || precedes(b, a),
    decreases a.len() - i,
{
    if i == a.len() || i == b.len() {
        if i == a.len() && i == b.len() {
            assert(a.take(i) =~= a);
            assert(b.take(i) =~= b);
        }
    } else if a[i] == b[i] {
        assert(a.take(i + 1) =~= a.take(i).push(a[i]));
        assert(b.take(i + 1) =~= b.take(i).push(b[i]));
        lemma_some_order(a, b, i + 1);
    }
}

/// Of two byte strings at most one precedes the other.
proof fn lemma_one_order(a: Seq<u8>, b: Seq<u8>)
    ensures
        !(precedes(a, b) && precedes(b, a)),
{
    if precedes(a, b) && precedes(b, a) {
        let k = choose|k: int|
            0 <= k <= a.len() && k < b.len() && #[trigger] a.take(k) == b.take(k) && (k == a.len()
                || a[k] < b[k]);
        let j = choose|j: int|
            0 <= j <= b.len() && j < a.len() && #[trigger] b.take(j) == a.take(j) && (j == b.len()
                || b[j] < a[j]);
        if k < j {
            lemma_common_prefix(a, b, j, k);
        } else if j < k {
            lemma_common_prefix(a, b, k, j);
        }
    }
}

/// The two peers of a session agree on who plays whom: when their names
/// differ, the player that one peer takes for itself is the player that the
/// other peer takes for its opponent.
pub proof fn lemma_peers_agree(
    name_a: Seq<char>,
    name_b: Seq<char>,
    first: GameObjectId,
    second: GameObjectId,
)
    requires
        name_a != name_b,
    ensures
        assigned(name_a, name_b, first, second).0 == assigned(name_b, name_a, first, second).1,
        assigned(name_a, name_b, first, second).1 == assigned(name_b, name_a, first, second).0,
{
    let a = encode_utf8(name_a);
    let b = encode_utf8(name_b);
    encode_utf8_decode_utf8(name_a);
    encode_utf8_decode_utf8(name_b);
    assert(a.take(0) =~= b.take(0));
    lemma_some_order(a, b, 0);
    lemma_one_order(a, b);
}

} // verus!
