//! The slab arenas that hold the nodes of a tree and the polygons and links
//! of a navigation mesh, and what is assumed of the `slab` crate.
//!
//! A slab gives each value it takes a key of its own and keeps it under that
//! key. Nothing here removes a single value, so a key stays good for as long
//! as its slab is not cleared.
use crate::brush::Face;
use crate::link::NavmeshLink;
use crate::tree::Node;
use slab::Slab;
use vstd::prelude::*;

verus! {

/// `slab::Slab`, made known so that it can stand in fields and signatures.
/// Nothing is seen of what is inside it but through the functions below.
#[verifier::external_type_specification]
#[verifier::external_body]
#[verifier::reject_recursive_types(T)]
pub struct ExSlab<T>(Slab<T>);

/// The nodes in a slab, each under its key.
pub uninterp spec fn nodes_of(slab: Slab<Node>) -> Map<usize, Node>;

/// The faces in a slab, each under its key.
pub uninterp spec fn faces_of(slab: Slab<Face>) -> Map<usize, Face>;

/// The links in a slab, each under its key.
pub uninterp spec fn links_of(slab: Slab<NavmeshLink>) -> Map<usize, NavmeshLink>;

/// `keys` lists the keys of `map` once each, smallest first.
pub open spec fn is_key_order<V>(map: Map<usize, V>, keys: Seq<usize>) -> bool {
    &&& forall|i: int, j: int| 0 <= i < j < keys.len() ==> keys[i] < keys[j]
    &&& forall|k: usize| map.contains_key(k) <==> keys.contains(k)
}

/// The keys of `map`, smallest first.
pub open spec fn key_order<V>(map: Map<usize, V>) -> Seq<usize> {
    choose|keys: Seq<usize>| is_key_order(map, keys)
}

/// A map has one key order at most.
pub proof fn lemma_key_order_unique<V>(map: Map<usize, V>, a: Seq<usize>, b: Seq<usize>)
    requires
        is_key_order(map, a),
        is_key_order(map, b),
    ensures
        a == b,
    decreases a.len(),
{
    if a.len() == 0 {
        if b.len() > 0 {
            assert(b.contains(b[0]));
            assert(map.contains_key(b[0]));
            assert(a.contains(b[0]));
        }
        assert(a =~= b);
    } else {
        let top = a.last();
        assert(a.contains(top));
        assert(map.contains_key(top));
        assert(b.contains(top));
        let j = choose|j: int| 0 <= j < b.len() && b[j] == top;
        assert(b.contains(b.last()));
        assert(map.contains_key(b.last()));
        assert(a.contains(b.last()));
        let i = choose|i: int| 0 <= i < a.len() && a[i] == b.last();
        assert(b.last() == top);
        let rest = map.remove(top);
        assert(is_key_order(rest, a.drop_last())) by {
            assert forall|k: usize| rest.contains_key(k) <==> a.drop_last().contains(k) by {
                if rest.contains_key(k) {
                    assert(a.contains(k));
                    let m = choose|m: int| 0 <= m < a.len() && a[m] == k;
                    assert(a.drop_last()[m] == k);
                }
                if a.drop_last().contains(k) {
                    let m = choose|m: int| 0 <= m < a.drop_last().len() && a.drop_last()[m] == k;
                    assert(a[m] == k);
                    assert(a.contains(k));
                }
            }
        }
        assert(is_key_order(rest, b.drop_last())) by {
            assert forall|k: usize| rest.contains_key(k) <==> b.drop_last().contains(k) by {
                if rest.contains_key(k) {
                    assert(b.contains(k));
                    let m = choose|m: int| 0 <= m < b.len() && b[m] == k;
                    assert(b.drop_last()[m] == k);
                }
                if b.drop_last().contains(k) {
                    let m = choose|m: int| 0 <= m < b.drop_last().len() && b.drop_last()[m] == k;
                    assert(b[m] == k);
                    assert(b.contains(k));
                }
            }
        }
        lemma_key_order_unique(rest, a.drop_last(), b.drop_last());
        assert(a =~= a.drop_last().push(top));
        assert(b =~= b.drop_last().push(top));
    }
}

/// A listing of a map's keys, smallest first, is its key order.
pub proof fn lemma_key_order_is<V>(map: Map<usize, V>, keys: Seq<usize>)
    requires
        is_key_order(map, keys),
    ensures
        key_order(map) == keys,
{
    lemma_key_order_unique(map, key_order(map), keys);
}

/// `Slab::new`: the slab it makes holds nothing.
#[verifier::external_body]
pub(crate) fn node_slab_new() -> (slab: Slab<Node>)
    ensures
        forall|k: usize| !nodes_of(slab).contains_key(k),
{
    Slab::new()
}

/// `Slab::insert`: stores the value under a key that held nothing, leaves
/// every other entry as it was, and returns the key. (Like `Vec::push`, it
/// aborts where memory runs out.)
#[verifier::external_body]
pub(crate) fn node_slab_insert(slab: &mut Slab<Node>, node: Node) -> (key: usize)
    ensures
        !nodes_of(*old(slab)).contains_key(key),
        nodes_of(*final(slab)) == nodes_of(*old(slab)).insert(key, node),
{
    slab.insert(node)
}

/// `Slab::get`: the value under the key, `None` where the key holds nothing.
#[verifier::external_body]
pub(crate) fn node_slab_get(slab: &Slab<Node>, key: usize) -> (node: Option<&Node>)
    ensures
        match node {
            Some(n) => nodes_of(*slab).contains_key(key) && *n == nodes_of(*slab)[key],
            None => !nodes_of(*slab).contains_key(key),
        },
{
    slab.get(key)
}

/// `IndexMut for Slab`, used to overwrite: the key must hold a value, which
/// is replaced; every other entry stays as it was.
#[verifier::external_body]
pub(crate) fn node_slab_set(slab: &mut Slab<Node>, key: usize, node: Node)
    requires
        nodes_of(*old(slab)).contains_key(key),
    ensures
        nodes_of(*final(slab)) == nodes_of(*old(slab)).insert(key, node),
{
    slab[key] = node;
}

/// `Slab::iter`: visits every entry once, in the order of the keys. Only the
/// keys are kept.
#[verifier::external_body]
pub(crate) fn node_slab_keys(slab: &Slab<Node>) -> (keys: Vec<usize>)
    ensures
        is_key_order(nodes_of(*slab), keys@),
{
    slab.iter().map(|entry| entry.0).collect()
}

/// `Slab::new`: the slab it makes holds nothing.
#[verifier::external_body]
pub(crate) fn face_slab_new() -> (slab: Slab<Face>)
    ensures
        forall|k: usize| !faces_of(slab).contains_key(k),
{
    Slab::new()
}

/// `Slab::insert`: stores the value under a key that held nothing, leaves
/// every other entry as it was, and returns the key. (Like `Vec::push`, it
/// aborts where memory runs out.)
#[verifier::external_body]
pub(crate) fn face_slab_insert(slab: &mut Slab<Face>, face: Face) -> (key: usize)
    ensures
        !faces_of(*old(slab)).contains_key(key),
        faces_of(*final(slab)) == faces_of(*old(slab)).insert(key, face),
{
    slab.insert(face)
}

/// `Slab::get`: the value under the key, `None` where the key holds nothing.
#[verifier::external_body]
pub(crate) fn face_slab_get(slab: &Slab<Face>, key: usize) -> (face: Option<Face>)
    ensures
        match face {
            Some(f) => faces_of(*slab).contains_key(key) && f == faces_of(*slab)[key],
            None => !faces_of(*slab).contains_key(key),
        },
{
    slab.get(key).copied()
}

/// `Slab::iter`: visits every entry once, in the order of the keys. Only the
/// keys are kept.
#[verifier::external_body]
pub(crate) fn face_slab_keys(slab: &Slab<Face>) -> (keys: Vec<usize>)
    ensures
        is_key_order(faces_of(*slab), keys@),
{
    slab.iter().map(|entry| entry.0).collect()
}

/// `Slab::new`: the slab it makes holds nothing.
#[verifier::external_body]
pub(crate) fn link_slab_new() -> (slab: Slab<NavmeshLink>)
    ensures
        forall|k: usize| !links_of(slab).contains_key(k),
{
    Slab::new()
}

/// `Slab::insert`: stores the value under a key that held nothing, leaves
/// every other entry as it was, and returns the key. (Like `Vec::push`, it
/// aborts where memory runs out.)
#[verifier::external_body]
pub(crate) fn link_slab_insert(slab: &mut Slab<NavmeshLink>, link: NavmeshLink) -> (key: usize)
    ensures
        !links_of(*old(slab)).contains_key(key),
        links_of(*final(slab)) == links_of(*old(slab)).insert(key, link),
{
    slab.insert(link)
}

/// `Slab::get`: the value under the key, `None` where the key holds nothing.
#[verifier::external_body]
pub(crate) fn link_slab_get(slab: &Slab<NavmeshLink>, key: usize) -> (link: Option<NavmeshLink>)
    ensures
        match link {
            Some(l) => links_of(*slab).contains_key(key) && l == links_of(*slab)[key],
            None => !links_of(*slab).contains_key(key),
        },
{
    slab.get(key).copied()
}

/// `Slab::clear`: the slab holds nothing afterwards.
#[verifier::external_body]
pub(crate) fn link_slab_clear(slab: &mut Slab<NavmeshLink>)
    ensures
        forall|k: usize| !links_of(*final(slab)).contains_key(k),
{
    slab.clear();
}

} // verus!
