//! The mathematical model of a chained table: one sequence of key-value pairs
//! per bucket, and what a table with such chains maps each key to.

use vstd::prelude::*;

verus! {

/// The sum of the bytes.
pub open spec fn byte_sum(bytes: Seq<u8>) -> nat
    decreases bytes.len(),
{
    if bytes.len() == 0 {
        0
    } else {
        byte_sum(bytes.drop_last()) + bytes.last() as nat
    }
}

/// The hash of a key: the sum of the bytes of its UTF-8 encoding, wrapped to
/// the width of `usize`.
pub open spec fn spec_hash(key: Seq<char>) -> usize {
    (byte_sum(vstd::utf8::encode_utf8(key)) % (usize::MAX as nat + 1)) as usize
}

/// The bucket in which a table of `buckets` buckets keeps `key`.
pub open spec fn bucket_of(key: Seq<char>, buckets: nat) -> int {
    spec_hash(key) as int % buckets as int
}

/// Whether one of the pairs of `chain` has the key `key`.
pub open spec fn chain_has<T>(chain: Seq<(Seq<char>, T)>, key: Seq<char>) -> bool {
    exists|i: int| 0 <= i < chain.len() && (#[trigger] chain[i]).0 == key
}

/// The position in `chain` of a pair with the key `key`.
pub open spec fn chain_position<T>(chain: Seq<(Seq<char>, T)>, key: Seq<char>) -> int {
    choose|i: int| 0 <= i < chain.len() && (#[trigger] chain[i]).0 == key
}

/// What well-formed chains look like: there is a bucket, every pair sits in
/// the bucket of its key, and no chain holds a key twice.
pub open spec fn chains_wf<T>(chains: Seq<Seq<(Seq<char>, T)>>) -> bool {
    &&& chains.len() > 0
    &&& forall|b: int, i: int|
        0 <= b < chains.len() && 0 <= i < chains[b].len() ==> bucket_of(
            (#[trigger] chains[b][i]).0,
            chains.len(),
        ) == b
    &&& forall|b: int, i: int, j: int|
        0 <= b < chains.len() && 0 <= i < chains[b].len() && 0 <= j < chains[b].len() && i != j
            ==> (#[trigger] chains[b][i]).0 != (#[trigger] chains[b][j]).0
}

/// The map from keys to values that the chains stand for.
pub open spec fn chains_map<T>(chains: Seq<Seq<(Seq<char>, T)>>) -> Map<Seq<char>, T> {
    Map::new(
        |key: Seq<char>| chain_has(chains[bucket_of(key, chains.len())], key),
        |key: Seq<char>|
            {
                let chain = chains[bucket_of(key, chains.len())];
                chain[chain_position(chain, key)].1
            },
    )
}

/// The chains with the value of `key` replaced by `value`, in place.
pub open spec fn with_value<T>(chains: Seq<Seq<(Seq<char>, T)>>, key: Seq<char>, value: T) -> Seq<
    Seq<(Seq<char>, T)>,
> {
    let b = bucket_of(key, chains.len());
    chains.update(b, chains[b].update(chain_position(chains[b], key), (key, value)))
}

/// The chains with the pair of `key` taken out of its chain.
pub open spec fn without_key<T>(chains: Seq<Seq<(Seq<char>, T)>>, key: Seq<char>) -> Seq<
    Seq<(Seq<char>, T)>,
> {
    let b = bucket_of(key, chains.len());
    chains.update(b, chains[b].remove(chain_position(chains[b], key)))
}

/// In well-formed chains a key has one position only.
pub proof fn lemma_chain_position<T>(chains: Seq<Seq<(Seq<char>, T)>>, key: Seq<char>, i: int)
    requires
        chains_wf(chains),
        0 <= i < chains[bucket_of(key, chains.len())].len(),
        chains[bucket_of(key, chains.len())][i].0 == key,
    ensures
        chain_position(chains[bucket_of(key, chains.len())], key) == i,
{
    let b = bucket_of(key, chains.len());
    let j = chain_position(chains[b], key);
    assert(chains[b][i].0 == key);
    assert(chains[b][j].0 == key);
    if i != j {
        assert(chains[b][i].0 != chains[b][j].0);
    }
}

/// A pair found in the chain of its key's bucket is what the map holds for
/// that key.
pub proof fn lemma_chain_hit<T>(chains: Seq<Seq<(Seq<char>, T)>>, key: Seq<char>, i: int)
    requires
        chains_wf(chains),
        0 <= i < chains[bucket_of(key, chains.len())].len(),
        chains[bucket_of(key, chains.len())][i].0 == key,
    ensures
        chains_map(chains).contains_key(key),
        chains_map(chains)[key] == chains[bucket_of(key, chains.len())][i].1,
{
    let b = bucket_of(key, chains.len());
    let chain = chains[b];
    assert(chain[i].0 == key);
    let j = chain_position(chain, key);
    assert(chains[b][j].0 == key);
    if i != j {
        assert(chains[b][i].0 != chains[b][j].0);
    }
}

/// A key that the chain of its bucket does not hold is not in the map.
pub proof fn lemma_chain_miss<T>(chains: Seq<Seq<(Seq<char>, T)>>, key: Seq<char>)
    requires
        forall|i: int|
            0 <= i < chains[bucket_of(key, chains.len())].len() ==> (#[trigger] chains[bucket_of(
                key,
                chains.len(),
            )][i]).0 != key,
    ensures
        !chains_map(chains).contains_key(key),
{
}

/// Replacing one chain changes the number of pairs by the difference of the
/// two chains' lengths.
pub proof fn lemma_flatten_len_update<A>(chains: Seq<Seq<A>>, b: int, chain: Seq<A>)
    requires
        0 <= b < chains.len(),
    ensures
        chains.update(b, chain).flatten().len() == chains.flatten().len() - chains[b].len()
            + chain.len(),
    decreases chains.len(),
{
    let front = chains.drop_last();
    let updated = chains.update(b, chain);
    assert(chains =~= front.push(chains.last()));
    front.lemma_flatten_push(chains.last());
    if b == chains.len() - 1 {
        assert(updated =~= front.push(chain));
        front.lemma_flatten_push(chain);
    } else {
        lemma_flatten_len_update(front, b, chain);
        assert(updated =~= front.update(b, chain).push(chains.last()));
        front.update(b, chain).lemma_flatten_push(chains.last());
    }
}

/// Appending a pair with a new key to the chain of its bucket adds the pair
/// to the map and keeps the chains well-formed.
pub proof fn lemma_chains_push<T>(chains: Seq<Seq<(Seq<char>, T)>>, key: Seq<char>, value: T)
    requires
        chains_wf(chains),
        !chains_map(chains).contains_key(key),
    ensures
        ({
            let b = bucket_of(key, chains.len());
            let after = chains.update(b, chains[b].push((key, value)));
            &&& chains_wf(after)
            &&& chains_map(after) == chains_map(chains).insert(key, value)
            &&& after.flatten().len() == chains.flatten().len() + 1
        }),
{
    let b = bucket_of(key, chains.len());
    let after = chains.update(b, chains[b].push((key, value)));
    lemma_flatten_len_update(chains, b, chains[b].push((key, value)));
    assert forall|i: int| 0 <= i < chains[b].len() implies (#[trigger] chains[b][i]).0 != key by {
        if chains[b][i].0 == key {
            lemma_chain_hit(chains, key, i);
        }
    }
    assert(chains_wf(after)) by {
        assert forall|c: int, i: int| 0 <= c < after.len() && 0 <= i < after[c].len() implies bucket_of(
            (#[trigger] after[c][i]).0,
            after.len(),
        ) == c by {
            if c == b && i < chains[b].len() {
                assert(after[c][i] == chains[b][i]);
            } else if c != b {
                assert(after[c][i] == chains[c][i]);
            }
        }
        assert forall|c: int, i: int, j: int|
            0 <= c < after.len() && 0 <= i < after[c].len() && 0 <= j < after[c].len() && i
                != j implies (#[trigger] after[c][i]).0 != (#[trigger] after[c][j]).0 by {
            if c != b {
                assert(after[c][i] == chains[c][i] && after[c][j] == chains[c][j]);
            } else {
                if i < chains[b].len() {
                    assert(after[c][i] == chains[b][i]);
                }
                if j < chains[b].len() {
                    assert(after[c][j] == chains[b][j]);
                }
            }
        }
    }
    assert forall|k: Seq<char>| #[trigger]
        chains_map(after).contains_key(k) == chains_map(chains).insert(key, value).contains_key(
            k,
        ) by {
        let c = bucket_of(k, chains.len());
        if k == key {
            assert(after[b][chains[b].len() as int].0 == key);
        } else if chains_map(chains).contains_key(k) {
            let i = chain_position(chains[c], k);
            assert(after[c][i].0 == k);
        } else if chains_map(after).contains_key(k) {
            let i = chain_position(after[c], k);
            assert(after[c][i].0 == k);
            assert(chains[c][i].0 == k);
        }
    }
    assert forall|k: Seq<char>| chains_map(after).contains_key(k) implies #[trigger] chains_map(
        after,
    )[k] == chains_map(chains).insert(key, value)[k] by {
        let c = bucket_of(k, chains.len());
        if k == key {
            lemma_chain_hit(after, key, chains[b].len() as int);
        } else {
            let i = chain_position(chains[c], k);
            assert(chains[c][i].0 == k);
            lemma_chain_hit(chains, k, i);
            assert(after[c][i] == chains[c][i]);
            lemma_chain_hit(after, k, i);
        }
    }
    assert(chains_map(after) =~= chains_map(chains).insert(key, value));
}

/// Replacing the value of a pair in place replaces the value in the map and
/// keeps the chains well-formed.
pub proof fn lemma_chains_set<T>(chains: Seq<Seq<(Seq<char>, T)>>, key: Seq<char>, i: int, value: T)
    requires
        chains_wf(chains),
        0 <= i < chains[bucket_of(key, chains.len())].len(),
        chains[bucket_of(key, chains.len())][i].0 == key,
    ensures
        ({
            let b = bucket_of(key, chains.len());
            let after = chains.update(b, chains[b].update(i, (key, value)));
            &&& chains_wf(after)
            &&& chains_map(after) == chains_map(chains).insert(key, value)
            &&& after.flatten().len() == chains.flatten().len()
        }),
{
    let b = bucket_of(key, chains.len());
    let after = chains.update(b, chains[b].update(i, (key, value)));
    lemma_flatten_len_update(chains, b, chains[b].update(i, (key, value)));
    assert forall|c: int, j: int| 0 <= c < after.len() && 0 <= j < after[c].len() implies (
    #[trigger] after[c][j]).0 == chains[c][j].0 by {}
    assert(chains_wf(after)) by {
        assert forall|c: int, j: int| 0 <= c < after.len() && 0 <= j < after[c].len() implies bucket_of(
            (#[trigger] after[c][j]).0,
            after.len(),
        ) == c by {
            assert(after[c][j].0 == chains[c][j].0);
        }
        assert forall|c: int, j: int, l: int|
            0 <= c < after.len() && 0 <= j < after[c].len() && 0 <= l < after[c].len() && j
                != l implies (#[trigger] after[c][j]).0 != (#[trigger] after[c][l]).0 by {
            assert(after[c][j].0 == chains[c][j].0);
            assert(after[c][l].0 == chains[c][l].0);
        }
    }
    assert forall|k: Seq<char>| #[trigger]
        chains_map(after).contains_key(k) == chains_map(chains).insert(key, value).contains_key(
            k,
        ) by {
        let c = bucket_of(k, chains.len());
        if k == key {
            assert(after[b][i].0 == key);
        } else if chains_map(chains).contains_key(k) {
            let j = chain_position(chains[c], k);
            assert(after[c][j].0 == k);
        } else if chains_map(after).contains_key(k) {
            let j = chain_position(after[c], k);
            assert(after[c][j].0 == k);
            assert(chains[c][j].0 == k);
        }
    }
    assert forall|k: Seq<char>| chains_map(after).contains_key(k) implies #[trigger] chains_map(
        after,
    )[k] == chains_map(chains).insert(key, value)[k] by {
        let c = bucket_of(k, chains.len());
        if k == key {
            lemma_chain_hit(after, key, i);
        } else {
            let j = chain_position(chains[c], k);
            assert(chains[c][j].0 == k);
            lemma_chain_hit(chains, k, j);
            assert(after[c][j] == chains[c][j]);
            lemma_chain_hit(after, k, j);
        }
    }
    assert(chains_map(after) =~= chains_map(chains).insert(key, value));
}

/// Taking a pair out of its chain takes its key out of the map and keeps the
/// chains well-formed.
pub proof fn lemma_chains_remove<T>(chains: Seq<Seq<(Seq<char>, T)>>, key: Seq<char>, i: int)
    requires
        chains_wf(chains),
        0 <= i < chains[bucket_of(key, chains.len())].len(),
        chains[bucket_of(key, chains.len())][i].0 == key,
    ensures
        ({
            let b = bucket_of(key, chains.len());
            let after = chains.update(b, chains[b].remove(i));
            &&& chains_wf(after)
            &&& chains_map(after) == chains_map(chains).remove(key)
            &&& after.flatten().len() == chains.flatten().len() - 1
        }),
{
    let b = bucket_of(key, chains.len());
    let after = chains.update(b, chains[b].remove(i));
    lemma_flatten_len_update(chains, b, chains[b].remove(i));
    // Where a pair of the new chains sat in the old ones.
    let origin = |c: int, j: int| if c == b && j >= i { j + 1 } else { j };
    assert forall|c: int, j: int| 0 <= c < after.len() && 0 <= j < after[c].len() implies (
    #[trigger] after[c][j]) == chains[c][origin(c, j)] && 0 <= origin(c, j) < chains[c].len() by {}
    assert(chains_wf(after)) by {
        assert forall|c: int, j: int| 0 <= c < after.len() && 0 <= j < after[c].len() implies bucket_of(
            (#[trigger] after[c][j]).0,
            after.len(),
        ) == c by {
            assert(after[c][j] == chains[c][origin(c, j)]);
        }
        assert forall|c: int, j: int, l: int|
            0 <= c < after.len() && 0 <= j < after[c].len() && 0 <= l < after[c].len() && j
                != l implies (#[trigger] after[c][j]).0 != (#[trigger] after[c][l]).0 by {
            assert(after[c][j] == chains[c][origin(c, j)]);
            assert(after[c][l] == chains[c][origin(c, l)]);
        }
    }
    assert forall|k: Seq<char>| #[trigger]
        chains_map(after).contains_key(k) == chains_map(chains).remove(key).contains_key(k) by {
        let c = bucket_of(k, chains.len());
        if chains_map(after).contains_key(k) {
            let j = chain_position(after[c], k);
            assert(after[c][j].0 == k);
            assert(after[c][j] == chains[c][origin(c, j)]);
            assert(chains[c][origin(c, j)].0 == k);
            if k == key {
                assert(chains[b][i].0 != chains[b][origin(c, j)].0);
            }
        } else if k != key && chains_map(chains).contains_key(k) {
            let j = chain_position(chains[c], k);
            assert(chains[c][j].0 == k);
            let l = if c == b && j > i { j - 1 } else { j };
            assert(after[c][l] == chains[c][j]);
            assert(after[c][l].0 == k);
        }
    }
    assert forall|k: Seq<char>| chains_map(after).contains_key(k) implies #[trigger] chains_map(
        after,
    )[k] == chains_map(chains).remove(key)[k] by {
        let c = bucket_of(k, chains.len());
        let j = chain_position(after[c], k);
        assert(after[c][j].0 == k);
        assert(after[c][j] == chains[c][origin(c, j)]);
        lemma_chain_hit(after, k, j);
        lemma_chain_hit(chains, k, origin(c, j));
    }
    assert(chains_map(after) =~= chains_map(chains).remove(key));
}

/// Whether no two pairs of `pairs` share a key.
pub open spec fn distinct_keys<T>(pairs: Seq<(Seq<char>, T)>) -> bool {
    forall|i: int, j: int|
        0 <= i < pairs.len() && 0 <= j < pairs.len() && i != j ==> (#[trigger] pairs[i]).0 != (
        #[trigger] pairs[j]).0
}

/// The map from keys to values that pairs with distinct keys stand for.
pub open spec fn pairs_map<T>(pairs: Seq<(Seq<char>, T)>) -> Map<Seq<char>, T> {
    Map::new(|key: Seq<char>| chain_has(pairs, key), |key: Seq<char>| pairs[chain_position(pairs, key)].1)
}

/// The chains into which a table of `buckets` buckets sorts `pairs` when it
/// takes them in one after the other.
pub open spec fn distributed<T>(pairs: Seq<(Seq<char>, T)>, buckets: nat) -> Seq<Seq<(Seq<char>, T)>> {
    Seq::new(buckets, |b: int| pairs.filter(|pair: (Seq<char>, T)| bucket_of(pair.0, buckets) == b))
}

/// Where the pairs of chain `b` begin in the flattened chains.
pub open spec fn offset<A>(chains: Seq<Seq<A>>, b: int) -> int {
    chains.take(b).flatten().len() as int
}

/// The pair at position `i` of chain `b` sits at `offset(chains, b) + i` of
/// the flattened chains.
pub proof fn lemma_flatten_compose<A>(chains: Seq<Seq<A>>, b: int, i: int)
    requires
        0 <= b < chains.len(),
        0 <= i < chains[b].len(),
    ensures
        0 <= offset(chains, b) + i < chains.flatten().len(),
        chains.flatten()[offset(chains, b) + i] == chains[b][i],
    decreases chains.len(),
{
    let front = chains.drop_last();
    assert(chains =~= front.push(chains.last()));
    front.lemma_flatten_push(chains.last());
    if b == chains.len() - 1 {
        assert(chains.take(b) =~= front);
    } else {
        assert(chains.take(b) =~= front.take(b));
        lemma_flatten_compose(front, b, i);
    }
}

/// Every position of the flattened chains is a position of one chain.
pub proof fn lemma_flatten_decompose<A>(chains: Seq<Seq<A>>, k: int) -> (at: (int, int))
    requires
        0 <= k < chains.flatten().len(),
    ensures
        0 <= at.0 < chains.len(),
        0 <= at.1 < chains[at.0].len(),
        k == offset(chains, at.0) + at.1,
        chains.flatten()[k] == chains[at.0][at.1],
    decreases chains.len(),
{
    if chains.len() == 0 {
        (0, 0)
    } else {
        let front = chains.drop_last();
        assert(chains =~= front.push(chains.last()));
        front.lemma_flatten_push(chains.last());
        if k < front.flatten().len() {
            let at = lemma_flatten_decompose(front, k);
            assert(chains.take(at.0) =~= front.take(at.0));
            at
        } else {
            assert(chains.take(chains.len() - 1) =~= front);
            (chains.len() - 1, k - front.flatten().len())
        }
    }
}

/// The pairs of well-formed chains have distinct keys, and they stand for
/// the same map as the chains.
pub proof fn lemma_flatten_map<T>(chains: Seq<Seq<(Seq<char>, T)>>)
    requires
        chains_wf(chains),
    ensures
        distinct_keys(chains.flatten()),
        pairs_map(chains.flatten()) == chains_map(chains),
{
    let pairs = chains.flatten();
    assert forall|i: int, j: int| 0 <= i < pairs.len() && 0 <= j < pairs.len() && i != j implies (
    #[trigger] pairs[i]).0 != (#[trigger] pairs[j]).0 by {
        let a = lemma_flatten_decompose(chains, i);
        let b = lemma_flatten_decompose(chains, j);
        if a.0 == b.0 {
            assert(chains[a.0][a.1].0 != chains[a.0][b.1].0);
        } else {
            assert(bucket_of(chains[a.0][a.1].0, chains.len()) == a.0);
            assert(bucket_of(chains[b.0][b.1].0, chains.len()) == b.0);
        }
    }
    assert forall|key: Seq<char>| #[trigger]
        pairs_map(pairs).contains_key(key) == chains_map(chains).contains_key(key) by {
        let b = bucket_of(key, chains.len());
        if pairs_map(pairs).contains_key(key) {
            let k = chain_position(pairs, key);
            assert(pairs[k].0 == key);
            let at = lemma_flatten_decompose(chains, k);
            assert(bucket_of(chains[at.0][at.1].0, chains.len()) == at.0);
            assert(chains[b][at.1].0 == key);
        }
        if chains_map(chains).contains_key(key) {
            let i = chain_position(chains[b], key);
            assert(chains[b][i].0 == key);
            lemma_flatten_compose(chains, b, i);
            assert(pairs[offset(chains, b) + i].0 == key);
        }
    }
    assert forall|key: Seq<char>| pairs_map(pairs).contains_key(key) implies #[trigger] pairs_map(
        pairs,
    )[key] == chains_map(chains)[key] by {
        let k = chain_position(pairs, key);
        assert(pairs[k].0 == key);
        let at = lemma_flatten_decompose(chains, k);
        assert(bucket_of(chains[at.0][at.1].0, chains.len()) == at.0);
        lemma_chain_hit(chains, key, at.1);
    }
    assert(pairs_map(pairs) =~= chains_map(chains));
}

/// Taking one more pair in appends it to the chain of its key's bucket.
pub proof fn lemma_distributed_push<T>(pairs: Seq<(Seq<char>, T)>, pair: (Seq<char>, T), buckets: nat)
    requires
        buckets > 0,
    ensures
        distributed(pairs.push(pair), buckets) == distributed(pairs, buckets).update(
            bucket_of(pair.0, buckets),
            distributed(pairs, buckets)[bucket_of(pair.0, buckets)].push(pair),
        ),
{
    let after = distributed(pairs.push(pair), buckets);
    let expected = distributed(pairs, buckets).update(
        bucket_of(pair.0, buckets),
        distributed(pairs, buckets)[bucket_of(pair.0, buckets)].push(pair),
    );
    assert forall|b: int| 0 <= b < buckets implies #[trigger] after[b] == expected[b] by {
        pairs.lemma_filter_push(pair, |p: (Seq<char>, T)| bucket_of(p.0, buckets) == b);
    }
    assert(after =~= expected);
}

/// Pairs with distinct keys keep them when a pair with a new key joins, and
/// the map gains that pair.
pub proof fn lemma_pairs_map_push<T>(pairs: Seq<(Seq<char>, T)>, pair: (Seq<char>, T))
    requires
        distinct_keys(pairs.push(pair)),
    ensures
        !pairs_map(pairs).contains_key(pair.0),
        pairs_map(pairs.push(pair)) == pairs_map(pairs).insert(pair.0, pair.1),
{
    let longer = pairs.push(pair);
    let last = pairs.len() as int;
    assert(longer[last] == pair);
    if pairs_map(pairs).contains_key(pair.0) {
        let i = chain_position(pairs, pair.0);
        assert(longer[i] == pairs[i]);
        assert(longer[i].0 != longer[last].0);
    }
    assert forall|key: Seq<char>| #[trigger]
        pairs_map(longer).contains_key(key) == pairs_map(pairs).insert(pair.0, pair.1).contains_key(
            key,
        ) by {
        if pairs_map(longer).contains_key(key) && key != pair.0 {
            let i = chain_position(longer, key);
            assert(longer[i].0 == key);
            assert(pairs[i].0 == key);
        }
        if pairs_map(pairs).contains_key(key) {
            let i = chain_position(pairs, key);
            assert(longer[i].0 == key);
        }
    }
    assert forall|key: Seq<char>| pairs_map(longer).contains_key(key) implies #[trigger] pairs_map(
        longer,
    )[key] == pairs_map(pairs).insert(pair.0, pair.1)[key] by {
        let i = chain_position(longer, key);
        assert(longer[i].0 == key);
        if key == pair.0 {
            if i != last {
                assert(longer[i].0 != longer[last].0);
            }
        } else {
            let j = chain_position(pairs, key);
            assert(pairs[i].0 == key);
            assert(pairs[j].0 == key);
            assert(longer[j] == pairs[j]);
            if i != j {
                assert(longer[i].0 != longer[j].0);
            }
        }
    }
    assert(pairs_map(longer) =~= pairs_map(pairs).insert(pair.0, pair.1));
}

/// Pairs with distinct keys stand for a finite map with one key per pair.
pub proof fn lemma_pairs_map_len<T>(pairs: Seq<(Seq<char>, T)>)
    requires
        distinct_keys(pairs),
    ensures
        pairs_map(pairs).dom().finite(),
        pairs_map(pairs).dom().len() == pairs.len(),
{
    let keys = pairs.map_values(|pair: (Seq<char>, T)| pair.0);
    assert forall|i: int, j: int| 0 <= i < keys.len() && 0 <= j < keys.len() && i != j implies keys[i]
        != keys[j] by {
        assert(pairs[i].0 != pairs[j].0);
    }
    assert forall|key: Seq<char>| #[trigger] keys.to_set().contains(key) == pairs_map(
        pairs,
    ).dom().contains(key) by {
        if keys.contains(key) {
            let i = choose|i: int| 0 <= i < keys.len() && keys[i] == key;
            assert(pairs[i].0 == key);
        }
        if chain_has(pairs, key) {
            let i = chain_position(pairs, key);
            assert(keys[i] == key);
        }
    }
    assert(keys.to_set() =~= pairs_map(pairs).dom());
    keys.unique_seq_to_set();
    vstd::seq_lib::seq_to_set_is_finite(keys);
}

} // verus!
