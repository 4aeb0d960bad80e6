//! What holds of the replies as a whole.

use vstd::prelude::*;
use crate::resp::laws::flatten;
use crate::resp::value::Frame;
use crate::store::reply::{first_non_bulk_key, first_non_bulk_name, hello_reply};
use crate::store::shape::{first_non_bulk, first_non_bulk_pair, pairs_reply};

verus! {

/// A hash is read the same from either protocol version: the flat array of
/// its fields and values, as RESP2 sends it, and the map of them, as RESP3
/// does, give the same pairs in the same order, or the same error.
pub proof fn law_hgetall_normalization(pairs: Seq<(Frame, Frame)>)
    ensures
        pairs_reply(Frame::Array(flatten(pairs))) == pairs_reply(Frame::RespMap(pairs)),
{
    let items = flatten(pairs);
    assert(items.len() % 2 == 0);
    if exists|at: int| first_non_bulk_pair(pairs, at) {
        let at = choose|at: int| first_non_bulk_pair(pairs, at);
        let flat: int = if !(pairs[at].0 is BulkString) {
            2 * at
        } else {
            2 * at + 1
        };
        assert(first_non_bulk(items, flat)) by {
            assert forall|j: int| 0 <= j < flat implies items[j] is BulkString by {
                if j / 2 < at {
                    assert(pairs[j / 2].0 is BulkString && pairs[j / 2].1 is BulkString);
                }
            }
        }
        let chosen = choose|c: int| first_non_bulk(items, c);
        assert(chosen == flat);
    } else {
        assert forall|c: int| !first_non_bulk(items, c) by {
            if 0 <= c < items.len() && !(items[c] is BulkString) {
                let bad = c / 2;
                assert(!(pairs[bad].0 is BulkString && pairs[bad].1 is BulkString));
                lemma_first_non_bulk_pair(pairs, bad);
            }
        }
        assert(pairs_reply(Frame::Array(items))->Ok_0 =~= pairs_reply(Frame::RespMap(pairs))->Ok_0);
    }
}

/// Where some pair has a key or a value that is no bulk string, one such
/// pair is the first.
proof fn lemma_first_non_bulk_pair(pairs: Seq<(Frame, Frame)>, bad: int)
    requires
        0 <= bad < pairs.len(),
        !(pairs[bad].0 is BulkString && pairs[bad].1 is BulkString),
    ensures
        exists|at: int| first_non_bulk_pair(pairs, at),
    decreases bad,
{
    if exists|j: int| 0 <= j < bad && !(pairs[j].0 is BulkString && pairs[j].1 is BulkString) {
        let j = choose|j: int| 0 <= j < bad && !(pairs[j].0 is BulkString && pairs[j].1 is BulkString);
        lemma_first_non_bulk_pair(pairs, j);
    } else {
        assert(first_non_bulk_pair(pairs, bad));
    }
}

/// Where some pair has a key that is no bulk string, one such pair is the
/// first.
proof fn lemma_first_non_bulk_key(pairs: Seq<(Frame, Frame)>, bad: int)
    requires
        0 <= bad < pairs.len(),
        !(pairs[bad].0 is BulkString),
    ensures
        exists|at: int| first_non_bulk_key(pairs, at),
    decreases bad,
{
    if exists|j: int| 0 <= j < bad && !(pairs[j].0 is BulkString) {
        let j = choose|j: int| 0 <= j < bad && !(pairs[j].0 is BulkString);
        lemma_first_non_bulk_key(pairs, j);
    } else {
        assert(first_non_bulk_key(pairs, bad));
    }
}

/// The settings of a connection are read the same from either protocol
/// version: the flat array of names and values and the map of them give the
/// same settings in the same order, or the same error.
pub proof fn law_hello_normalization(pairs: Seq<(Frame, Frame)>)
    ensures
        hello_reply(Frame::Array(flatten(pairs))) == hello_reply(Frame::RespMap(pairs)),
{
    let items = flatten(pairs);
    assert(items.len() % 2 == 0);
    if exists|at: int| first_non_bulk_key(pairs, at) {
        let at = choose|at: int| first_non_bulk_key(pairs, at);
        assert(first_non_bulk_name(items, 2 * at)) by {
            assert forall|j: int| 0 <= j < 2 * at && j % 2 == 0 implies items[j] is BulkString by {
                assert(pairs[j / 2].0 is BulkString);
            }
        }
        let chosen = choose|c: int| first_non_bulk_name(items, c);
        assert(chosen == 2 * at);
    } else {
        assert forall|c: int| !first_non_bulk_name(items, c) by {
            if 0 <= c < items.len() && c % 2 == 0 && !(items[c] is BulkString) {
                lemma_first_non_bulk_key(pairs, c / 2);
            }
        }
        assert(hello_reply(Frame::Array(items))->Ok_0 =~= hello_reply(Frame::RespMap(pairs))->Ok_0);
    }
}

} // verus!
