//! The first exchange on a punched connection.
//!
//! Each side sends a random number per socket. The two numbers belong to the connection and are
//! the same on both sides, so their ordered pair is a key on which both sides agree.

use vstd::prelude::*;
use vstd::slice::slice_subrange;

use crate::wire::{be_bytes, be_u64, be_value, law_be_reads_back, lemma_be_len, lemma_byte_ranges, push_be_u64};

verus! {

/// The version that carries a random number.
pub const PRE_HANDSHAKE_VERSION: u8 = 2;

/// The first bytes of the exchange: `HPCH`.
pub open spec fn magic() -> Seq<u8> {
    seq![72u8, 80u8, 67u8, 72u8]
}

/// What one side sends: the first bytes, the version and its number.
pub open spec fn greeting(number: u64) -> Seq<u8> {
    magic().push(PRE_HANDSHAKE_VERSION) + be_bytes(number as nat, 8)
}

/// The ordered pair of two numbers.
pub open spec fn ordered(a: u64, b: u64) -> (u64, u64) {
    if a <= b {
        (a, b)
    } else {
        (b, a)
    }
}

/// The key that a side with this number finds when the other side sends this.
pub open spec fn key_found(own: u64, received: Seq<u8>) -> Option<(u64, u64)> {
    if received.take(5) == magic().push(PRE_HANDSHAKE_VERSION) {
        Some(ordered(own, be_value(received.skip(5)) as u64))
    } else {
        None
    }
}

/// `rand::random` gives any number.
#[verifier::external_body]
fn random_number() -> u64 {
    rand::random()
}

/// A number for a new socket, and what to send for it.
pub fn open_greeting() -> (r: (u64, Vec<u8>))
    ensures
        r.1@ == greeting(r.0),
{
    let own: u64 = random_number();
    (own, encode_greeting(own))
}

/// What a side sends that has drawn this number.
pub fn encode_greeting(own: u64) -> (out: Vec<u8>)
    ensures
        out@ == greeting(own),
{
    let mut out: Vec<u8> = Vec::new();
    out.push(72);
    out.push(80);
    out.push(67);
    out.push(72);
    out.push(PRE_HANDSHAKE_VERSION);
    push_be_u64(&mut out, own);
    assert(out@ =~= greeting(own));
    out
}

/// The key of a connection, from the own number and from what the peer has sent; none if the peer
/// does not speak this version of the exchange.
pub fn connection_key(own: u64, received: &[u8]) -> (key: Option<(u64, u64)>)
    requires
        received@.len() == 13,
    ensures
        key == key_found(own, received@),
{
    let matches: bool = received[0] == 72 && received[1] == 80 && received[2] == 67 && received[3]
        == 72 && received[4] == PRE_HANDSHAKE_VERSION;
    proof {
        let expected = magic().push(PRE_HANDSHAKE_VERSION);
        if matches {
            assert(received@.take(5) =~= expected);
        } else if received@.take(5) == expected {
            let head = received@.take(5);
            assert(head[0] == 72 && head[1] == 80 && head[2] == 67 && head[3] == 72 && head[4]
                == PRE_HANDSHAKE_VERSION);
        }
    }
    if !matches {
        return None;
    }
    let rest = slice_subrange(received, 5, 13);
    assert(rest@.take(8) == received@.skip(5));
    let other: u64 = be_u64(rest);
    if own <= other {
        Some((own, other))
    } else {
        Some((other, own))
    }
}

/// The key holds the numbers of both sides, the smaller one first, so that it does not matter who
/// computes it.
pub proof fn law_key_holds_both_numbers(a: u64, b: u64)
    ensures
        key_found(a, greeting(b)) matches Some((x, y)) && x <= y && ((x == a && y == b) || (x == b
            && y == a)),
        greeting(a) == greeting(b) ==> a == b,
{
    law_key_is_shared(a, b);
    law_key_is_shared(a, a);
    law_key_is_shared(b, a);
    law_key_is_shared(b, b);
}

/// What does not begin with the four letters and the version gives no key; what does gives one.
pub proof fn law_foreign_greeting_gives_no_key(own: u64, received: Seq<u8>)
    requires
        received.len() == 13,
    ensures
        key_found(own, received) is Some <==> received[0] == 0x48 && received[1] == 0x50
            && received[2] == 0x43 && received[3] == 0x48 && received[4] == 2,
{
    let expected = magic().push(PRE_HANDSHAKE_VERSION);
    let head = received.take(5);
    if head == expected {
        assert(head[0] == 72 && head[1] == 80 && head[2] == 67 && head[3] == 72 && head[4] == 2);
    }
    if received[0] == 72 && received[1] == 80 && received[2] == 67 && received[3] == 72
        && received[4] == 2 {
        assert(head =~= expected);
    }
}

/// Both sides of a connection find the same key.
pub proof fn law_key_is_shared(a: u64, b: u64)
    ensures
        greeting(a).len() == 13,
        key_found(a, greeting(b)) == Some(ordered(a, b)),
        key_found(b, greeting(a)) == key_found(a, greeting(b)),
{
    lemma_be_len(a as nat, 8);
    lemma_be_len(b as nat, 8);
    lemma_byte_ranges();
    law_be_reads_back(a as nat, 8);
    law_be_reads_back(b as nat, 8);
    let head = magic().push(PRE_HANDSHAKE_VERSION);
    assert(greeting(a).take(5) == head);
    assert(greeting(b).take(5) == head);
    assert(greeting(a).skip(5) == be_bytes(a as nat, 8));
    assert(greeting(b).skip(5) == be_bytes(b as nat, 8));
}

} // verus!
