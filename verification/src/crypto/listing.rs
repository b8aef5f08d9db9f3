//! Listing a trust directory: how many entries a walk may visit, and the
//! order and limit of the peers and remembered endpoints it returns.

use vstd::prelude::*;
use vstd::seq_lib::{to_multiset_build, to_multiset_insert};

use crate::crypto::store::{
    derive_peer_id, spec_peer_id, RememberedEndpoint, StoreError, TrustedPeer,
    MAX_TRUST_DIRECTORY_ENTRIES,
};
use crate::net::{ip_key, ip_key_exec};
use crate::order::{lemma_lex_lt_asymmetric, lemma_lex_lt_transitive, lemma_lex_total, lex_compare, lex_lt, LexOrder};

verus! {

/// A listing returns between one and 1024 entries.
pub fn check_listing_limit(maximum: usize) -> (r: Result<(), StoreError>)
    ensures
        r is Ok <==> 0 < maximum <= MAX_TRUST_DIRECTORY_ENTRIES,
        r is Err ==> r == Err::<(), StoreError>(StoreError::Persistence),
{
    if maximum == 0 || maximum > MAX_TRUST_DIRECTORY_ENTRIES {
        Err(StoreError::Persistence)
    } else {
        Ok(())
    }
}

/// Counts one more directory entry visited; a walk past 1024 entries is
/// refused.
pub fn count_visit(visited: usize) -> (r: Result<usize, StoreError>)
    ensures
        visited < MAX_TRUST_DIRECTORY_ENTRIES ==> r == Ok::<usize, StoreError>((visited + 1) as usize),
        visited >= MAX_TRUST_DIRECTORY_ENTRIES ==> r == Err::<usize, StoreError>(
            StoreError::Persistence,
        ),
{
    if visited >= MAX_TRUST_DIRECTORY_ENTRIES {
        Err(StoreError::Persistence)
    } else {
        Ok(visited + 1)
    }
}

/// A peer's place in a listing: its peer id.
pub open spec fn peer_key(p: TrustedPeer) -> Seq<u8> {
    spec_peer_id(p.identity_key@)
}

/// Each key is at most the next.
pub open spec fn sorted_by(keys: Seq<Seq<u8>>) -> bool {
    forall|a: int, b: int| 0 <= a < b < keys.len() ==> !lex_lt(#[trigger] keys[b], #[trigger] keys[a])
}

pub open spec fn peer_keys(s: Seq<TrustedPeer>) -> Seq<Seq<u8>> {
    s.map_values(|p: TrustedPeer| peer_key(p))
}

pub open spec fn endpoint_key(e: RememberedEndpoint) -> Seq<u8> {
    ip_key(e.address)
}

pub open spec fn endpoint_keys(s: Seq<RememberedEndpoint>) -> Seq<Seq<u8>> {
    s.map_values(|e: RememberedEndpoint| endpoint_key(e))
}

/// Where a key goes in sorted keys so that the order stays sorted and
/// equal keys keep their order: after every key that is not greater.
pub proof fn lemma_insert_keeps_sorted(keys: Seq<Seq<u8>>, i: int, k: Seq<u8>, n: nat)
    requires
        sorted_by(keys),
        0 <= i <= keys.len(),
        k.len() == n,
        forall|j: int| 0 <= j < keys.len() ==> (#[trigger] keys[j]).len() == n,
        forall|j: int| 0 <= j < i ==> !lex_lt(k, #[trigger] keys[j]),
        i < keys.len() ==> lex_lt(k, keys[i]),
    ensures
        sorted_by(keys.insert(i, k)),
{
    let t = keys.insert(i, k);
    assert forall|a: int, b: int| 0 <= a < b < t.len() implies !lex_lt(#[trigger] t[b], #[trigger] t[a]) by {
        if a < i && b == i {
            assert(t[b] == k && t[a] == keys[a]);
            assert(!lex_lt(k, keys[a]));
        } else if a < i && b > i {
            assert(t[b] == keys[b - 1] && t[a] == keys[a]);
        } else if a == i {
            assert(t[a] == k && t[b] == keys[b - 1]);
            if lex_lt(keys[b - 1], k) {
                if b - 1 > i {
                    assert(!lex_lt(keys[b - 1], keys[i]));
                    if keys[b - 1] != keys[i] {
                        lemma_lex_total(keys[b - 1], keys[i]);
                        lemma_lex_lt_transitive(keys[i], keys[b - 1], k);
                    }
                    lemma_lex_lt_asymmetric(k, keys[i]);
                } else {
                    lemma_lex_lt_asymmetric(k, keys[i]);
                }
            }
        } else if a > i {
            assert(t[b] == keys[b - 1] && t[a] == keys[a - 1]);
        } else {
            assert(t[a] == keys[a] && t[b] == keys[b]);
        }
    }
}

/// The first `maximum` of `all`.
pub open spec fn first_n<A>(all: Seq<A>, maximum: usize) -> Seq<A> {
    if maximum < all.len() {
        all.subrange(0, maximum as int)
    } else {
        all
    }
}

/// Trusted peers in peer-id order, peers with the same id in the order
/// given, cut to the first `maximum`.
pub fn sort_trusted_peers(peers: Vec<TrustedPeer>, maximum: usize) -> (r: Vec<TrustedPeer>)
    ensures
        exists|all: Seq<TrustedPeer>|
            all.to_multiset() == peers@.to_multiset() && sorted_by(peer_keys(all)) && r@
                == first_n(all, maximum),
{
    let mut out: Vec<TrustedPeer> = Vec::new();
    let mut i: usize = 0;
    assert(peers@.subrange(0, 0) =~= out@);
    while i < peers.len()
        invariant
            i <= peers@.len(),
            out@.to_multiset() == peers@.subrange(0, i as int).to_multiset(),
            sorted_by(peer_keys(out@)),
            forall|j: int| 0 <= j < out@.len() ==> (#[trigger] peer_keys(out@)[j]).len() == 16,
        decreases peers@.len() - i,
    {
        let peer = peers[i];
        let key = derive_peer_id(&peer.identity_key);
        let mut pos: usize = 0;
        let mut stop = false;
        while pos < out.len() && !stop
            invariant
                pos <= out@.len(),
                key.0@ == peer_key(peer),
                forall|j: int| 0 <= j < pos ==> !lex_lt(peer_key(peer), #[trigger] peer_keys(out@)[j]),
                stop ==> pos < out@.len() && lex_lt(peer_key(peer), peer_keys(out@)[pos as int]),
            decreases out@.len() - pos, if stop { 0int } else { 1int },
        {
            let other = derive_peer_id(&out[pos].identity_key);
            assert(peer_keys(out@)[pos as int] == other.0@);
            match lex_compare(key.0.as_slice(), other.0.as_slice()) {
                LexOrder::Less => {
                    stop = true;
                },
                _ => {
                    pos = pos + 1;
                },
            }
        }
        let ghost before = out@;
        proof {
            lemma_insert_keeps_sorted(peer_keys(before), pos as int, peer_key(peer), 16);
            assert(peer_keys(before.insert(pos as int, peer)) =~= peer_keys(before).insert(
                pos as int,
                peer_key(peer),
            ));
            to_multiset_insert(before, pos as int, peer);
            to_multiset_build(peers@.subrange(0, i as int), peer);
            assert(peers@.subrange(0, i + 1) =~= peers@.subrange(0, i as int).push(peer));
        }
        out.insert(pos, peer);
        i = i + 1;
    }
    assert(peers@.subrange(0, i as int) =~= peers@);
    let ghost all = out@;
    out.truncate(maximum);
    assert(all.to_multiset() == peers@.to_multiset() && sorted_by(peer_keys(all)) && out@
        == first_n(all, maximum));
    out
}

/// Remembered endpoints in address order, endpoints at the same address
/// in the order given, cut to the first `maximum`.
pub fn sort_remembered_endpoints(endpoints: Vec<RememberedEndpoint>, maximum: usize) -> (r: Vec<
    RememberedEndpoint,
>)
    ensures
        exists|all: Seq<RememberedEndpoint>|
            all.to_multiset() == endpoints@.to_multiset() && sorted_by(endpoint_keys(all)) && r@
                == first_n(all, maximum),
{
    let mut out: Vec<RememberedEndpoint> = Vec::new();
    let mut i: usize = 0;
    assert(endpoints@.subrange(0, 0) =~= out@);
    while i < endpoints.len()
        invariant
            i <= endpoints@.len(),
            out@.to_multiset() == endpoints@.subrange(0, i as int).to_multiset(),
            sorted_by(endpoint_keys(out@)),
            forall|j: int| 0 <= j < out@.len() ==> (#[trigger] endpoint_keys(out@)[j]).len() == 17,
        decreases endpoints@.len() - i,
    {
        let endpoint = endpoints[i];
        let key = ip_key_exec(&endpoint.address);
        let mut pos: usize = 0;
        let mut stop = false;
        while pos < out.len() && !stop
            invariant
                pos <= out@.len(),
                key@ == endpoint_key(endpoint),
                forall|j: int|
                    0 <= j < pos ==> !lex_lt(endpoint_key(endpoint), #[trigger] endpoint_keys(out@)[j]),
                stop ==> pos < out@.len() && lex_lt(
                    endpoint_key(endpoint),
                    endpoint_keys(out@)[pos as int],
                ),
            decreases out@.len() - pos, if stop { 0int } else { 1int },
        {
            let other = ip_key_exec(&out[pos].address);
            assert(endpoint_keys(out@)[pos as int] == other@);
            match lex_compare(key.as_slice(), other.as_slice()) {
                LexOrder::Less => {
                    stop = true;
                },
                _ => {
                    pos = pos + 1;
                },
            }
        }
        let ghost before = out@;
        proof {
            lemma_insert_keeps_sorted(endpoint_keys(before), pos as int, endpoint_key(endpoint), 17);
            assert(endpoint_keys(before.insert(pos as int, endpoint)) =~= endpoint_keys(
                before,
            ).insert(pos as int, endpoint_key(endpoint)));
            to_multiset_insert(before, pos as int, endpoint);
            to_multiset_build(endpoints@.subrange(0, i as int), endpoint);
            assert(endpoints@.subrange(0, i + 1) =~= endpoints@.subrange(0, i as int).push(
                endpoint,
            ));
        }
        out.insert(pos, endpoint);
        i = i + 1;
    }
    assert(endpoints@.subrange(0, i as int) =~= endpoints@);
    let ghost all = out@;
    out.truncate(maximum);
    assert(all.to_multiset() == endpoints@.to_multiset() && sorted_by(endpoint_keys(all)) && out@
        == first_n(all, maximum));
    out
}

} // verus!
