//! Consistent-hash ring with virtual nodes: each server owns several
//! positions on a `u64` ring and a key belongs to the first position at or
//! after its own hash, wrapping around to the smallest position.
use std::collections::hash_map::DefaultHasher;
use std::collections::BTreeMap;
use std::hash::{Hash, Hasher};
use vstd::prelude::*;

verus! {

broadcast use vstd::std_specs::btree::group_btree_axioms, vstd::laws_cmp::group_laws_cmp;

/// The value `DefaultHasher::new()` computes for a string with `Hash::hash`
/// and `Hasher::finish`.
pub uninterp spec fn str_hash(s: Seq<char>) -> u64;

/// Hashes a string with std's `DefaultHasher`.
///
/// Trusted: the contract says only that the result is `str_hash` of the
/// string. `DefaultHasher::new()` is documented to create hashers that all
/// agree with one another (it is not randomly seeded), so the result depends
/// on the string alone; the algorithm itself is left unstated.
#[verifier::external_body]
pub fn hash(value: &str) -> (h: u64)
    ensures
        h == str_hash(value@),
{
    let mut hasher = DefaultHasher::new();
    value.hash(&mut hasher);
    hasher.finish()
}

/// The smallest position of `ring` that is at least `pos`, if there is one.
///
/// Trusted: calls `BTreeMap::range(pos..)` and takes the first entry's key;
/// std documents that `range` yields the entries of the range in ascending
/// key order, so the first one is the smallest key `>= pos`.
#[verifier::external_body]
fn first_position_from(ring: &BTreeMap<u64, String>, pos: u64) -> (found: Option<u64>)
    ensures
        match found {
            Some(k) => is_first_at_or_after(ring@.dom(), pos, k),
            None => forall|j: u64| ring@.dom().contains(j) ==> j < pos,
        },
{
    ring.range(pos..).next().map(|(k, _)| *k)
}

/// `k` is the smallest element of `dom` that is at least `pos`.
pub open spec fn is_first_at_or_after(dom: Set<u64>, pos: u64, k: u64) -> bool {
    &&& dom.contains(k)
    &&& k >= pos
    &&& forall|j: u64| dom.contains(j) && j >= pos ==> k <= j
}

/// The ring position that serves ring point `pos`: the first position at or
/// after `pos`, or else (wrapping around) the smallest position.
pub open spec fn position_for<V>(positions: Map<u64, V>, pos: u64) -> Option<u64> {
    if exists|k: u64| is_first_at_or_after(positions.dom(), pos, k) {
        Some(choose|k: u64| is_first_at_or_after(positions.dom(), pos, k))
    } else if exists|k: u64| is_first_at_or_after(positions.dom(), 0, k) {
        Some(choose|k: u64| is_first_at_or_after(positions.dom(), 0, k))
    } else {
        None
    }
}

/// The server that owns `key` on a ring with the given positions.
pub open spec fn server_for(positions: Map<u64, Seq<char>>, key: Seq<char>) -> Option<Seq<char>> {
    match position_for(positions, str_hash(key)) {
        Some(p) => Some(positions[p]),
        None => None,
    }
}

/// An empty ring serves no point.
pub proof fn lemma_position_for_empty<V>(positions: Map<u64, V>, pos: u64)
    requires
        positions.is_empty(),
    ensures
        position_for(positions, pos) is None,
{
    assert forall|k: u64| !is_first_at_or_after(positions.dom(), pos, k) by {
        assert(!positions.dom().contains(k));
    }
    assert forall|k: u64| !is_first_at_or_after(positions.dom(), 0, k) by {
        assert(!positions.dom().contains(k));
    }
}

/// The position found by a successor search (or, when none is at or after
/// `pos`, by the search from zero) is the one `position_for` names.
pub proof fn lemma_position_for_is<V>(positions: Map<u64, V>, pos: u64, k: u64)
    requires
        is_first_at_or_after(positions.dom(), pos, k) || (
            (forall|j: u64| positions.dom().contains(j) ==> j < pos)
            && is_first_at_or_after(positions.dom(), 0, k)),
    ensures
        position_for(positions, pos) == Some(k),
{
    let d = positions.dom();
    if is_first_at_or_after(d, pos, k) {
        let c = choose|c: u64| is_first_at_or_after(d, pos, c);
        assert(c <= k && k <= c);
    } else {
        assert forall|c: u64| !is_first_at_or_after(d, pos, c) by {
            if d.contains(c) {
                assert(c < pos);
            }
        }
        let c = choose|c: u64| is_first_at_or_after(d, 0, c);
        assert(c <= k && k <= c);
    }
}

/// A finite set with an element at or after `pos` has a smallest such element.
pub proof fn lemma_first_exists(dom: Set<u64>, pos: u64, x: u64)
    requires
        dom.finite(),
        dom.contains(x),
        x >= pos,
    ensures
        exists|k: u64| is_first_at_or_after(dom, pos, k),
    decreases dom.len(),
{
    let rest = dom.remove(x);
    if exists|y: u64| rest.contains(y) && y >= pos {
        let y = choose|y: u64| rest.contains(y) && y >= pos;
        lemma_first_exists(rest, pos, y);
        let c = choose|c: u64| is_first_at_or_after(rest, pos, c);
        if c < x {
            assert(is_first_at_or_after(dom, pos, c));
        } else {
            assert(is_first_at_or_after(dom, pos, x));
        }
    } else {
        assert(is_first_at_or_after(dom, pos, x));
    }
}

/// On a finite ring, `position_for` names a held position, and it names one
/// exactly when the ring is not empty.
pub proof fn lemma_position_for_held<V>(positions: Map<u64, V>, pos: u64)
    requires
        positions.dom().finite(),
    ensures
        position_for(positions, pos) is Some <==> !positions.is_empty(),
        position_for(positions, pos) matches Some(k) ==> positions.contains_key(k),
{
    if positions.is_empty() {
        lemma_position_for_empty(positions, pos);
    } else {
        let w = positions.dom().choose();
        assert(positions.dom().contains(w)) by {
            assert(!(positions.dom() =~= Set::<u64>::empty()));
        }
        lemma_first_exists(positions.dom(), 0, w);
    }
}

/// Ring-level statement: every key is served exactly when the ring holds a
/// position.
pub proof fn lemma_server_for_some_iff_nonempty(positions: Map<u64, Seq<char>>, key: Seq<char>)
    requires
        positions.dom().finite(),
    ensures
        server_for(positions, key) is Some <==> !positions.is_empty(),
{
    lemma_position_for_held(positions, str_hash(key));
}

/// Growing a ring where every position is either new or unchanged, and every
/// new or changed position is held by `server`, moves points only to `server`.
pub proof fn lemma_extension_moves_only_to(
    old_positions: Map<u64, Seq<char>>,
    new_positions: Map<u64, Seq<char>>,
    server: Seq<char>,
    pos: u64,
)
    requires
        new_positions.dom().finite(),
        old_positions.dom().subset_of(new_positions.dom()),
        forall|k: u64|
            #[trigger] new_positions.contains_key(k) ==> new_positions[k] == server || (
            old_positions.contains_key(k) && new_positions[k] == old_positions[k]),
    ensures
        match position_for(new_positions, pos) {
            Some(k) => new_positions[k] == server || (position_for(old_positions, pos) == Some(k)
                && old_positions[k] == new_positions[k]),
            None => position_for(old_positions, pos) is None,
        },
{
    lemma_position_for_held(new_positions, pos);
    let dn = new_positions.dom();
    let d = old_positions.dom();
    match position_for(new_positions, pos) {
        Some(k) => {
            if new_positions[k] != server {
                assert(d.contains(k));
                if exists|c: u64| is_first_at_or_after(dn, pos, c) {
                    let c = choose|c: u64| is_first_at_or_after(dn, pos, c);
                    assert(c == k);
                    assert(is_first_at_or_after(d, pos, k));
                    lemma_position_for_is(old_positions, pos, k);
                } else {
                    assert forall|j: u64| d.contains(j) implies j < pos by {
                        assert(dn.contains(j));
                        if j >= pos {
                            lemma_first_exists(dn, pos, j);
                        }
                    }
                    let c = choose|c: u64| is_first_at_or_after(dn, 0, c);
                    assert(c == k);
                    assert(is_first_at_or_after(d, 0, k));
                    lemma_position_for_is(old_positions, pos, k);
                }
            }
        },
        None => {
            assert(old_positions.is_empty()) by {
                assert forall|j: u64| !d.contains(j) by {
                    if d.contains(j) {
                        assert(dn.contains(j));
                    }
                }
                assert(d =~= Set::<u64>::empty());
            }
            lemma_position_for_empty(old_positions, pos);
        },
    }
}

/// Shrinking a ring by dropping only positions held by `server` leaves every
/// point not served by `server` with the same position and holder.
pub proof fn lemma_restriction_keeps_others(
    old_positions: Map<u64, Seq<char>>,
    new_positions: Map<u64, Seq<char>>,
    server: Seq<char>,
    pos: u64,
)
    requires
        old_positions.dom().finite(),
        new_positions.dom().subset_of(old_positions.dom()),
        forall|k: u64|
            #[trigger] new_positions.contains_key(k) ==> new_positions[k] == old_positions[k],
        forall|k: u64|
            #[trigger] old_positions.contains_key(k) && !new_positions.contains_key(k)
                ==> old_positions[k] == server,
    ensures
        match position_for(old_positions, pos) {
            Some(k) => old_positions[k] != server ==> position_for(new_positions, pos) == Some(k)
                && new_positions[k] == old_positions[k],
            None => position_for(new_positions, pos) is None,
        },
{
    lemma_position_for_held(old_positions, pos);
    let d = old_positions.dom();
    let dn = new_positions.dom();
    match position_for(old_positions, pos) {
        Some(k) => {
            if old_positions[k] != server {
                assert(dn.contains(k));
                if exists|c: u64| is_first_at_or_after(d, pos, c) {
                    let c = choose|c: u64| is_first_at_or_after(d, pos, c);
                    assert(c == k);
                    assert(is_first_at_or_after(dn, pos, k));
                    lemma_position_for_is(new_positions, pos, k);
                } else {
                    assert forall|j: u64| dn.contains(j) implies j < pos by {
                        assert(d.contains(j));
                        if j >= pos {
                            lemma_first_exists(d, pos, j);
                        }
                    }
                    let c = choose|c: u64| is_first_at_or_after(d, 0, c);
                    assert(c == k);
                    assert(is_first_at_or_after(dn, 0, k));
                    lemma_position_for_is(new_positions, pos, k);
                }
            }
        },
        None => {
            assert(new_positions.is_empty()) by {
                assert forall|j: u64| !dn.contains(j) by {
                    if dn.contains(j) {
                        assert(d.contains(j));
                    }
                }
                assert(dn =~= Set::<u64>::empty());
            }
            lemma_position_for_empty(new_positions, pos);
        },
    }
}

/// What adding a server does to the positions: old ones stay unless the
/// server takes them over, and the server holds each of its virtual-node
/// positions.
pub proof fn lemma_add_positions_shape(positions: Map<u64, Seq<char>>, server: Seq<char>, n: nat)
    requires
        positions.dom().finite(),
    ensures
        add_positions(positions, server, n).dom().finite(),
        positions.dom().subset_of(add_positions(positions, server, n).dom()),
        forall|k: u64|
            #[trigger] add_positions(positions, server, n).contains_key(k) ==> add_positions(
                positions,
                server,
                n,
            )[k] == server || (positions.contains_key(k) && add_positions(positions, server, n)[k]
                == positions[k]),
        forall|i: nat|
            i < n ==> add_positions(positions, server, n).contains_key(
                #[trigger] vnode_position(server, i),
            ) && add_positions(positions, server, n)[vnode_position(server, i)] == server,
    decreases n,
{
    if n > 0 {
        lemma_add_positions_shape(positions, server, (n - 1) as nat);
    }
}

/// Consistent hashing, adding: after a server joins, every key is served
/// either by the same server as before or by the new one.
pub proof fn lemma_add_server_moves_keys_only_to_it(
    positions: Map<u64, Seq<char>>,
    server: Seq<char>,
    n: nat,
    key: Seq<char>,
)
    requires
        positions.dom().finite(),
    ensures
        server_for(add_positions(positions, server, n), key) == server_for(positions, key)
            || server_for(add_positions(positions, server, n), key) == Some(server),
{
    lemma_add_positions_shape(positions, server, n);
    lemma_extension_moves_only_to(positions, add_positions(positions, server, n), server, str_hash(key));
}

/// After adding a server with at least one virtual node, every key is served.
pub proof fn lemma_add_server_serves_every_key(
    positions: Map<u64, Seq<char>>,
    server: Seq<char>,
    n: nat,
    key: Seq<char>,
)
    requires
        positions.dom().finite(),
        n > 0,
    ensures
        server_for(add_positions(positions, server, n), key) is Some,
{
    lemma_add_positions_shape(positions, server, n);
    let m = add_positions(positions, server, n);
    assert(m.contains_key(vnode_position(server, 0)));
    assert(!m.is_empty()) by {
        assert(m.dom().contains(vnode_position(server, 0)));
    }
    lemma_server_for_some_iff_nonempty(m, key);
}

/// What removing a server does to the positions: some positions disappear,
/// the rest keep their holders, and none of the server's virtual-node
/// positions is left.
pub proof fn lemma_remove_positions_shape(positions: Map<u64, Seq<char>>, server: Seq<char>, n: nat)
    ensures
        remove_positions(positions, server, n).dom().subset_of(positions.dom()),
        forall|k: u64|
            #[trigger] remove_positions(positions, server, n).contains_key(k) ==> remove_positions(
                positions,
                server,
                n,
            )[k] == positions[k],
        forall|k: u64|
            #[trigger] positions.contains_key(k) && !remove_positions(
                positions,
                server,
                n,
            ).contains_key(k) ==> exists|i: nat| i < n && k == #[trigger] vnode_position(server, i),
        forall|i: nat|
            i < n ==> !remove_positions(positions, server, n).contains_key(
                #[trigger] vnode_position(server, i),
            ),
    decreases n,
{
    if n > 0 {
        let m = (n - 1) as nat;
        lemma_remove_positions_shape(positions, server, m);
        let r = remove_positions(positions, server, n);
        assert forall|k: u64| #[trigger] positions.contains_key(k) && !r.contains_key(k) implies exists|i: nat|
            i < n && k == #[trigger] vnode_position(server, i) by {
            if k == vnode_position(server, m) {
            } else {
                assert(!remove_positions(positions, server, m).contains_key(k));
                let i = choose|i: nat| i < m && k == #[trigger] vnode_position(server, i);
                assert(i < n);
            }
        }
    }
}

/// Consistent hashing, removing: when the positions a leaving server would
/// occupy are all held by that server, every key it did not serve keeps its
/// server.
pub proof fn lemma_remove_server_keeps_other_keys(
    positions: Map<u64, Seq<char>>,
    server: Seq<char>,
    n: nat,
    key: Seq<char>,
)
    requires
        positions.dom().finite(),
        forall|i: nat|
            i < n && positions.contains_key(#[trigger] vnode_position(server, i))
                ==> positions[vnode_position(server, i)] == server,
        server_for(positions, key) != Some(server),
    ensures
        server_for(remove_positions(positions, server, n), key) == server_for(positions, key),
{
    lemma_remove_positions_shape(positions, server, n);
    let r = remove_positions(positions, server, n);
    assert forall|k: u64| #[trigger] positions.contains_key(k) && !r.contains_key(k) implies positions[k]
        == server by {
        let i = choose|i: nat| i < n && k == #[trigger] vnode_position(server, i);
    }
    lemma_restriction_keeps_others(positions, r, server, str_hash(key));
}

/// A removed server serves no key afterwards, provided every position it
/// held is one of its virtual-node positions.
pub proof fn lemma_removed_server_serves_nothing(
    positions: Map<u64, Seq<char>>,
    server: Seq<char>,
    n: nat,
    key: Seq<char>,
)
    requires
        positions.dom().finite(),
        forall|k: u64|
            #[trigger] positions.contains_key(k) && positions[k] == server ==> exists|i: nat|
                i < n && k == #[trigger] vnode_position(server, i),
    ensures
        server_for(remove_positions(positions, server, n), key) != Some(server),
{
    lemma_remove_positions_shape(positions, server, n);
    let r = remove_positions(positions, server, n);
    assert(r.dom().finite()) by {
        vstd::set_lib::lemma_len_subset(r.dom(), positions.dom());
    }
    lemma_position_for_held(r, str_hash(key));
    match position_for(r, str_hash(key)) {
        Some(k) => {
            if r[k] == server {
                assert(positions[k] == server);
                let i = choose|i: nat| i < n && k == #[trigger] vnode_position(server, i);
                assert(!r.contains_key(vnode_position(server, i)));
            }
        },
        None => {},
    }
}

/// The positions after adding a server are the old ones and the server's
/// virtual-node positions; positions that are not the server's keep their holders.
pub proof fn lemma_add_positions_keys(positions: Map<u64, Seq<char>>, server: Seq<char>, n: nat)
    ensures
        forall|k: u64|
            #[trigger] add_positions(positions, server, n).contains_key(k) <==> (
            positions.contains_key(k) || exists|i: nat| i < n && k == #[trigger] vnode_position(server, i)),
        forall|k: u64|
            positions.contains_key(k) && (forall|i: nat| i < n ==> k != #[trigger] vnode_position(server, i))
                ==> #[trigger] add_positions(positions, server, n)[k] == positions[k],
    decreases n,
{
    if n > 0 {
        let m = (n - 1) as nat;
        lemma_add_positions_keys(positions, server, m);
        let a = add_positions(positions, server, n);
        assert forall|k: u64| #[trigger] a.contains_key(k) <==> (positions.contains_key(k)
            || exists|i: nat| i < n && k == #[trigger] vnode_position(server, i)) by {
            if a.contains_key(k) && k != vnode_position(server, m) {
                assert(add_positions(positions, server, m).contains_key(k));
                if !positions.contains_key(k) {
                    let i = choose|i: nat| i < m && k == #[trigger] vnode_position(server, i);
                    assert(i < n);
                }
            }
            if exists|i: nat| i < n && k == #[trigger] vnode_position(server, i) {
                let i = choose|i: nat| i < n && k == #[trigger] vnode_position(server, i);
                if i < m {
                    assert(add_positions(positions, server, m).contains_key(k));
                }
            }
        }
        assert forall|k: u64|
            positions.contains_key(k) && (forall|i: nat| i < n ==> k != #[trigger] vnode_position(server, i))
                implies #[trigger] a[k] == positions[k] by {
            assert(k != vnode_position(server, m));
            assert forall|i: nat| i < m implies k != #[trigger] vnode_position(server, i) by {
                assert(i < n);
            }
            assert(add_positions(positions, server, m)[k] == positions[k]);
        }
    }
}

/// The positions after removing a server are the old ones that are not among
/// its virtual-node positions, with their holders.
pub proof fn lemma_remove_positions_keys(positions: Map<u64, Seq<char>>, server: Seq<char>, n: nat)
    ensures
        forall|k: u64|
            #[trigger] remove_positions(positions, server, n).contains_key(k) <==> (
            positions.contains_key(k) && forall|i: nat| i < n ==> k != #[trigger] vnode_position(server, i)),
        forall|k: u64|
            #[trigger] remove_positions(positions, server, n).contains_key(k) ==> remove_positions(
                positions,
                server,
                n,
            )[k] == positions[k],
    decreases n,
{
    if n > 0 {
        let m = (n - 1) as nat;
        lemma_remove_positions_keys(positions, server, m);
        let r = remove_positions(positions, server, n);
        assert forall|k: u64| #[trigger] r.contains_key(k) <==> (positions.contains_key(k)
            && forall|i: nat| i < n ==> k != #[trigger] vnode_position(server, i)) by {
            if r.contains_key(k) {
                assert(remove_positions(positions, server, m).contains_key(k));
                assert(k != vnode_position(server, m));
                assert forall|i: nat| i < n implies k != #[trigger] vnode_position(server, i) by {
                    if i < m {
                        assert(remove_positions(positions, server, m).contains_key(k));
                    }
                }
            }
            if positions.contains_key(k) && forall|i: nat| i < n ==> k != #[trigger] vnode_position(server, i) {
                assert(k != vnode_position(server, m));
                assert forall|i: nat| i < m implies k != #[trigger] vnode_position(server, i) by {
                    assert(i < n);
                }
                assert(remove_positions(positions, server, m).contains_key(k));
            }
        }
        assert forall|k: u64| #[trigger] r.contains_key(k) implies r[k] == positions[k] by {
            assert(remove_positions(positions, server, m).contains_key(k));
        }
    }
}

/// Removing a server undoes adding it, when none of its virtual-node
/// positions was held before it was added.
pub proof fn lemma_remove_undoes_add(positions: Map<u64, Seq<char>>, server: Seq<char>, n: nat)
    requires
        forall|i: nat| i < n ==> !positions.contains_key(#[trigger] vnode_position(server, i)),
    ensures
        remove_positions(add_positions(positions, server, n), server, n) == positions,
{
    let a = add_positions(positions, server, n);
    let r = remove_positions(a, server, n);
    lemma_add_positions_keys(positions, server, n);
    lemma_remove_positions_keys(a, server, n);
    assert forall|k: u64| #[trigger] r.contains_key(k) <==> positions.contains_key(k) by {
        if positions.contains_key(k) {
            assert forall|i: nat| i < n implies k != #[trigger] vnode_position(server, i) by {
                if k == vnode_position(server, i) {
                    assert(!positions.contains_key(vnode_position(server, i)));
                }
            }
            assert(a.contains_key(k));
        }
    }
    assert forall|k: u64| #[trigger] r.contains_key(k) implies r[k] == positions[k] by {
        assert(a[k] == positions[k]);
    }
    assert(r =~= positions);
}

/// The decimal digit character of `d < 10`.
pub open spec fn digit_char(d: nat) -> char {
    if d == 0 { '0' }
    else if d == 1 { '1' }
    else if d == 2 { '2' }
    else if d == 3 { '3' }
    else if d == 4 { '4' }
    else if d == 5 { '5' }
    else if d == 6 { '6' }
    else if d == 7 { '7' }
    else if d == 8 { '8' }
    else { '9' }
}

/// The decimal representation of `n`, as `format!("{}", n)` writes it.
pub open spec fn decimal(n: nat) -> Seq<char>
    decreases n,
{
    if n < 10 {
        seq![digit_char(n)]
    } else {
        decimal(n / 10).push(digit_char(n % 10))
    }
}

/// The label of the `i`-th virtual node of `server`: `"{server}#{i}"`.
pub open spec fn vnode_label(server: Seq<char>, i: nat) -> Seq<char> {
    server + seq!['#'] + decimal(i)
}

/// A decimal digit character.
pub open spec fn is_digit(c: char) -> bool {
    '0' <= c <= '9'
}

/// The number that a string of decimal digits denotes, most significant first.
pub open spec fn numeral_value(s: Seq<char>) -> int
    decreases s.len(),
{
    if s.len() == 0 {
        0
    } else {
        numeral_value(s.drop_last()) * 10 + ((s.last() as int) - ('0' as int))
    }
}

/// `decimal(n)` is the standard numeral of `n`: a non-empty string of
/// decimal digits that denotes `n`, with no leading zero.
pub proof fn lemma_decimal_is_numeral(n: nat)
    ensures
        decimal(n).len() > 0,
        forall|i: int| 0 <= i < decimal(n).len() ==> is_digit(#[trigger] decimal(n)[i]),
        numeral_value(decimal(n)) == n,
        decimal(n)[0] == '0' ==> n == 0,
    decreases n,
{
    if n >= 10 {
        lemma_decimal_is_numeral(n / 10);
        let d = decimal(n / 10);
        let r = decimal(n);
        assert(r == d.push(digit_char(n % 10)));
        assert(r.drop_last() =~= d);
        assert forall|i: int| 0 <= i < r.len() implies is_digit(#[trigger] r[i]) by {
            if i < d.len() {
                assert(r[i] == d[i]);
            }
        }
        assert(r[0] == d[0]);
        lemma_digit_char_value((n % 10) as nat);
        assert(r.last() == digit_char((n % 10) as nat));
        assert(numeral_value(r) == numeral_value(d) * 10 + (n % 10));
        vstd::arithmetic::div_mod::lemma_fundamental_div_mod(n as int, 10);
        assert(n == 10 * (n / 10) + n % 10);
        assert(numeral_value(d) == n / 10);
    } else {
        lemma_digit_char_value(n);
        assert(decimal(n).drop_last() =~= Seq::<char>::empty());
        assert(numeral_value(decimal(n).drop_last()) == 0);
        assert(numeral_value(decimal(n)) == (digit_char(n) as int) - ('0' as int));
    }
}

/// The digit character of `d` denotes `d`.
proof fn lemma_digit_char_value(d: nat)
    requires
        d < 10,
    ensures
        (digit_char(d) as int) - ('0' as int) == d,
        is_digit(digit_char(d)),
        digit_char(d) == '0' ==> d == 0,
{
}

/// Different numbers have different numerals.
pub proof fn lemma_decimal_injective(a: nat, b: nat)
    ensures
        decimal(a) == decimal(b) ==> a == b,
{
    lemma_decimal_is_numeral(a);
    lemma_decimal_is_numeral(b);
}

/// The labels of a server's virtual nodes are pairwise distinct: node `i`
/// and node `j` get the same label only when `i == j`.
pub proof fn lemma_vnode_labels_distinct(server: Seq<char>, i: nat, j: nat)
    ensures
        vnode_label(server, i) == vnode_label(server, j) ==> i == j,
{
    let li = vnode_label(server, i);
    let lj = vnode_label(server, j);
    if li == lj {
        let k = server.len() + 1;
        assert(li.subrange(k as int, li.len() as int) =~= decimal(i));
        assert(lj.subrange(k as int, lj.len() as int) =~= decimal(j));
        lemma_decimal_injective(i, j);
    }
}

/// The ring position of the `i`-th virtual node of `server`.
pub open spec fn vnode_position(server: Seq<char>, i: nat) -> u64 {
    str_hash(vnode_label(server, i))
}

/// The positions after inserting the first `n` virtual nodes of `server`, in order.
pub open spec fn add_positions(
    positions: Map<u64, Seq<char>>,
    server: Seq<char>,
    n: nat,
) -> Map<u64, Seq<char>>
    decreases n,
{
    if n == 0 {
        positions
    } else {
        add_positions(positions, server, (n - 1) as nat).insert(
            vnode_position(server, (n - 1) as nat),
            server,
        )
    }
}

/// The positions after removing the first `n` virtual-node positions of
/// `server`, whoever holds them.
pub open spec fn remove_positions(
    positions: Map<u64, Seq<char>>,
    server: Seq<char>,
    n: nat,
) -> Map<u64, Seq<char>>
    decreases n,
{
    if n == 0 {
        positions
    } else {
        remove_positions(positions, server, (n - 1) as nat).remove(
            vnode_position(server, (n - 1) as nat),
        )
    }
}

fn digit_str(d: usize) -> (s: &'static str)
    requires
        d < 10,
    ensures
        s@ == seq![digit_char(d as nat)],
{
    proof {
        reveal_strlit("0");
        reveal_strlit("1");
        reveal_strlit("2");
        reveal_strlit("3");
        reveal_strlit("4");
        reveal_strlit("5");
        reveal_strlit("6");
        reveal_strlit("7");
        reveal_strlit("8");
        reveal_strlit("9");
    }
    if d == 0 { "0" }
    else if d == 1 { "1" }
    else if d == 2 { "2" }
    else if d == 3 { "3" }
    else if d == 4 { "4" }
    else if d == 5 { "5" }
    else if d == 6 { "6" }
    else if d == 7 { "7" }
    else if d == 8 { "8" }
    else { "9" }
}

/// Appends the decimal digits of `n` to `out`.
fn push_decimal(out: &mut String, n: usize)
    ensures
        final(out)@ == old(out)@ + decimal(n as nat),
    decreases n,
{
    if n >= 10 {
        push_decimal(out, n / 10);
    }
    out.append(digit_str(n % 10));
    proof {
        if n >= 10 {
            assert(old(out)@ + decimal((n / 10) as nat) + seq![digit_char((n % 10) as nat)]
                =~= old(out)@ + decimal(n as nat));
        } else {
            assert(n % 10 == n);
        }
    }
}

/// `format!("{}#{}", server, i)`.
pub fn vnode_key(server: &str, i: usize) -> (label: String)
    ensures
        label@ == vnode_label(server@, i as nat),
{
    let mut out = String::from_str(server);
    proof {
        reveal_strlit("#");
    }
    out.append("#");
    push_decimal(&mut out, i);
    out
}

/// Abstract state of a ring: who holds each position, and how many virtual
/// nodes each added server gets.
pub struct RingState {
    pub positions: Map<u64, Seq<char>>,
    pub virtual_nodes: nat,
}

pub struct ConsistentHashRing {
    ring: BTreeMap<u64, String>,
    virtual_nodes: usize,
}

impl View for ConsistentHashRing {
    type V = RingState;

    closed spec fn view(&self) -> RingState {
        RingState {
            positions: self.ring@.map_values(|s: String| s@),
            virtual_nodes: self.virtual_nodes as nat,
        }
    }
}

impl ConsistentHashRing {
    /// A ring holds finitely many positions.
    pub proof fn lemma_positions_finite(&self)
        ensures
            self@.positions.dom().finite(),
    {
        assert(self@.positions.dom() =~= self.ring@.dom());
    }

    pub fn new(virtual_nodes: usize) -> (r: Self)
        ensures
            r@.positions == Map::<u64, Seq<char>>::empty(),
            r@.virtual_nodes == virtual_nodes as nat,
    {
        let r = ConsistentHashRing { ring: BTreeMap::new(), virtual_nodes };
        assert(r@.positions =~= Map::<u64, Seq<char>>::empty());
        r
    }

    /// Places `virtual_nodes` positions of `server` on the ring: position
    /// `hash("{server}#{i}")` for each `i`, taking it over if another server
    /// held it.
    pub fn add_server(&mut self, server: &str)
        ensures
            final(self)@.positions == add_positions(
                old(self)@.positions,
                server@,
                old(self)@.virtual_nodes,
            ),
            final(self)@.virtual_nodes == old(self)@.virtual_nodes,
    {
        let n = self.virtual_nodes;
        let mut i: usize = 0;
        while i < n
            invariant
                n == self.virtual_nodes,
                n == old(self).virtual_nodes,
                i <= n,
                self@.positions == add_positions(old(self)@.positions, server@, i as nat),
            decreases n - i,
        {
            let key = vnode_key(server, i);
            let pos = hash(key.as_str());
            let ghost before = self@.positions;
            self.ring.insert(pos, String::from_str(server));
            assert(self@.positions =~= before.insert(pos, server@));
            i = i + 1;
        }
    }

    /// Removes the `virtual_nodes` positions that `server` would occupy.
    pub fn remove_server(&mut self, server: &str)
        ensures
            final(self)@.positions == remove_positions(
                old(self)@.positions,
                server@,
                old(self)@.virtual_nodes,
            ),
            final(self)@.virtual_nodes == old(self)@.virtual_nodes,
    {
        let n = self.virtual_nodes;
        let mut i: usize = 0;
        while i < n
            invariant
                n == self.virtual_nodes,
                n == old(self).virtual_nodes,
                i <= n,
                self@.positions == remove_positions(old(self)@.positions, server@, i as nat),
            decreases n - i,
        {
            let key = vnode_key(server, i);
            let pos = hash(key.as_str());
            let ghost before = self@.positions;
            self.ring.remove(&pos);
            assert(self@.positions =~= before.remove(pos));
            i = i + 1;
        }
    }

    /// The server that owns `key`: the holder of the first position at or
    /// after `hash(key)`, wrapping around to the smallest position; `None`
    /// exactly when the ring is empty.
    pub fn get_server(&self, key: &str) -> (server: Option<&str>)
        ensures
            (match server {
                Some(s) => Some(s@),
                None => None::<Seq<char>>,
            }) == server_for(self@.positions, key@),
            server is None <==> self@.positions.is_empty(),
    {
        let found = self.get_position(key);
        proof {
            self.lemma_positions_finite();
            lemma_position_for_held(self@.positions, str_hash(key@));
            assert(self@.positions.dom() == self.ring@.dom());
        }
        match found {
            None => None,
            Some(k) => match self.ring.get(&k) {
                Some(s) => Some(s.as_str()),
                None => None,
            },
        }
    }

    /// The position that serves `key`, as `get_server` finds it.
    pub fn get_position(&self, key: &str) -> (position: Option<u64>)
        ensures
            position == position_for(self@.positions, str_hash(key@)),
    {
        if self.ring.is_empty() {
            proof {
                lemma_position_for_empty(self@.positions, str_hash(key@));
            }
            return None;
        }
        let pos = hash(key);
        let found = first_position_from(&self.ring, pos);
        let k = match found {
            Some(k) => k,
            None => {
                let first = first_position_from(&self.ring, 0);
                proof {
                    let w = choose|w: u64| self.ring@.dom().contains(w);
                    assert(self.ring@.dom().contains(w));
                }
                first.unwrap()
            },
        };
        proof {
            assert(self@.positions.dom() == self.ring@.dom());
            lemma_position_for_is(self@.positions, pos, k);
        }
        Some(k)
    }

    /// Every position with its holder, in ascending order of position.
    pub fn entries(&self) -> (entries: Vec<(u64, String)>)
        ensures
            forall|i: int|
                0 <= i < entries@.len() ==> self@.positions.contains_key(#[trigger] entries@[i].0)
                    && self@.positions[entries@[i].0] == entries@[i].1@,
            forall|i: int, j: int| 0 <= i < j < entries@.len() ==> entries@[i].0 < entries@[j].0,
            forall|k: u64|
                self@.positions.contains_key(k) ==> exists|i: int|
                    0 <= i < entries@.len() && #[trigger] entries@[i].0 == k,
    {
        let mut out: Vec<(u64, String)> = Vec::new();
        let mut next: u64 = 0;
        let mut done = false;
        while !done
            invariant
                forall|i: int|
                    0 <= i < out@.len() ==> self@.positions.contains_key(#[trigger] out@[i].0)
                        && self@.positions[out@[i].0] == out@[i].1@,
                forall|i: int, j: int| 0 <= i < j < out@.len() ==> out@[i].0 < out@[j].0,
                !done ==> forall|i: int| 0 <= i < out@.len() ==> #[trigger] out@[i].0 < next,
                !done ==> forall|k: u64|
                    self@.positions.contains_key(k) && k < next ==> exists|i: int|
                        0 <= i < out@.len() && #[trigger] out@[i].0 == k,
                done ==> forall|k: u64|
                    self@.positions.contains_key(k) ==> exists|i: int|
                        0 <= i < out@.len() && #[trigger] out@[i].0 == k,
            decreases (if done { 0int } else { 1 + u64::MAX - next }),
        {
            assert(self@.positions.dom() == self.ring@.dom());
            match first_position_from(&self.ring, next) {
                Some(k) => {
                    let holder = self.ring.get(&k).unwrap().clone();
                    let ghost before = out@;
                    out.push((k, holder));
                    assert forall|kk: u64| self@.positions.contains_key(kk) && kk < k implies exists|i: int|
                        0 <= i < out@.len() && #[trigger] out@[i].0 == kk by {
                        let i = choose|i: int| 0 <= i < before.len() && #[trigger] before[i].0 == kk;
                        assert(out@[i] == before[i]);
                    }
                    if k == u64::MAX {
                        done = true;
                        assert forall|kk: u64| self@.positions.contains_key(kk) implies exists|i: int|
                            0 <= i < out@.len() && #[trigger] out@[i].0 == kk by {
                            if kk == k {
                                assert(out@[out@.len() - 1].0 == kk);
                            }
                        }
                    } else {
                        next = k + 1;
                        assert forall|kk: u64| self@.positions.contains_key(kk) && kk < next implies exists|i: int|
                            0 <= i < out@.len() && #[trigger] out@[i].0 == kk by {
                            if kk == k {
                                assert(out@[out@.len() - 1].0 == kk);
                            }
                        }
                    }
                },
                None => {
                    done = true;
                },
            }
        }
        out
    }
}

} // verus!
