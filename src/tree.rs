//! Eager descent: an element and all its descendants read at once, with a
//! registry deciding which elements hold children. The tree comes out
//! flat, in document order, each node with its nesting depth.

use vstd::prelude::*;

use crate::element::Data;
use crate::error::Error;
use crate::io::Cursor;
use crate::reader::{decode_header, header_decode};
use crate::registry::{is_master_id, Registry};
use crate::types::{ElementId, ElementSize};

verus! {

/// A node of a decoded tree: ID, declared size, nesting depth, and payload
/// (none for a master element).
pub type NodeFields = (nat, nat, nat, Option<Seq<u8>>);

/// The element at the start of `s`, read at nesting depth `depth`, with
/// all its descendants in document order; and its length in octets.
/// Masters may hold children down to depth `limit`.
pub open spec fn tree_decode(s: Seq<u8>, reg: Map<u64, bool>, depth: nat, limit: nat) -> Result<
    (Seq<NodeFields>, nat),
    Error,
>
    decreases s.len(), 0nat,
{
    match header_decode(s) {
        Err(e) => Err(e),
        Ok((id, size, h)) => if s.len() < h + size {
            Err(Error::UnexpectedEof)
        } else if is_master_id(reg, id) {
            match trees_decode(s.subrange(h as int, (h + size) as int), reg, depth + 1, limit) {
                Err(e) => Err(e),
                Ok(nodes) => Ok((seq![(id, size, depth, None::<Seq<u8>>)] + nodes, h + size)),
            }
        } else {
            Ok((seq![(id, size, depth, Some(s.subrange(h as int, (h + size) as int)))], h + size))
        },
    }
}

/// The elements that fill `s` exactly, read at nesting depth `depth`, each
/// followed by its descendants.
pub open spec fn trees_decode(s: Seq<u8>, reg: Map<u64, bool>, depth: nat, limit: nat) -> Result<
    Seq<NodeFields>,
    Error,
>
    decreases s.len(), 1nat,
{
    if s.len() == 0 {
        Ok(seq![])
    } else if depth > limit {
        Err(Error::NestingTooDeep)
    } else {
        match header_decode(s) {
            Err(e) => Err(e),
            Ok((_, size, h)) => if s.len() < h + size {
                Err(Error::UnexpectedEof)
            } else {
                match tree_decode(s, reg, depth, limit) {
                    Err(e) => Err(e),
                    Ok((nodes, _)) => {
                        let next = s.skip((h + size) as int);
                        match trees_decode(next, reg, depth, limit) {
                            Err(e) => Err(e),
                            Ok(rest) => Ok(nodes + rest),
                        }
                    },
                }
            },
        }
    }
}

/// One element of a tree read eagerly.
#[derive(Debug)]
pub struct TreeNode {
    pub(crate) id: ElementId,
    pub(crate) size: ElementSize,
    pub(crate) depth: usize,
    pub(crate) data: Data,
}

impl View for TreeNode {
    type V = NodeFields;

    closed spec fn view(&self) -> NodeFields {
        (self.id as nat, self.size as nat, self.depth as nat, self.data@)
    }
}

/// The fields of each node of `v`.
pub open spec fn nodes_view(v: Seq<TreeNode>) -> Seq<NodeFields> {
    v.map_values(|n: TreeNode| n@)
}

impl TreeNode {
    /// The element's ID.
    pub fn id(&self) -> (r: ElementId)
        ensures
            r == self@.0,
    {
        self.id
    }

    /// The element's declared size.
    pub fn size(&self) -> (r: ElementSize)
        ensures
            r == self@.1,
    {
        self.size
    }

    /// How deep the element sits: 0 for the element read, 1 for its children, and so on.
    pub fn depth(&self) -> (r: usize)
        ensures
            r == self@.2,
    {
        self.depth
    }

    /// The element's data: absent for a master element. Consumes `self`.
    pub fn data(self) -> (r: Data)
        ensures
            r@ == self@.3,
    {
        self.data
    }
}

/// A decoded tree takes at least one octet: its header and payload.
pub proof fn lemma_tree_decode_len(s: Seq<u8>, reg: Map<u64, bool>, depth: nat, limit: nat)
    requires
        tree_decode(s, reg, depth, limit) is Ok,
    ensures
        header_decode(s) is Ok,
        tree_decode(s, reg, depth, limit)->Ok_0.1 == header_decode(s)->Ok_0.1 + header_decode(
            s,
        )->Ok_0.2,
        1 <= tree_decode(s, reg, depth, limit)->Ok_0.1 <= s.len(),
{
    crate::primitives::lemma_vint_decode_bound(s, false);
}

/// Decode the element at the start of `buf` at depth `depth`, and all its
/// descendants, appending them to `out` in document order.
#[verifier::rlimit(30)]
fn decode_tree_into(
    buf: &[u8],
    reg: &Registry,
    depth: usize,
    limit: usize,
    out: &mut Vec<TreeNode>,
) -> (r: Result<usize, Error>)
    requires
        depth <= limit,
    ensures
        match tree_decode(buf@, reg@, depth as nat, limit as nat) {
            Ok((nodes, n)) => match r {
                Ok(c) => c == n && nodes_view(final(out)@) == nodes_view(old(out)@) + nodes,
                Err(_) => false,
            },
            Err(e) => r == Err::<usize, Error>(e),
        },
    decreases buf@.len(),
{
    let (id, size, h) = match decode_header(buf) {
        Ok(x) => x,
        Err(e) => return Err(e),
    };
    if buf.len() - h < size {
        return Err(Error::UnexpectedEof);
    }
    proof {
        crate::primitives::lemma_vint_decode_bound(buf@, false);
    }
    let payload = &buf[h..h + size];
    if reg.is_master(id) {
        assert(tree_decode(buf@, reg@, depth as nat, limit as nat) == match trees_decode(
            buf@.subrange(h as int, (h + size) as int),
            reg@,
            (depth + 1) as nat,
            limit as nat,
        ) {
            Err(e) => Err(e),
            Ok(nodes) => Ok(
                (
                    seq![(id as nat, size as nat, depth as nat, None::<Seq<u8>>)] + nodes,
                    (h + size) as nat,
                ),
            ),
        });
        let ghost start = nodes_view(out@);
        out.push(TreeNode { id, size, depth, data: Data::new(None) });
        let ghost head = seq![(id as nat, size as nat, depth as nat, None::<Seq<u8>>)];
        let ghost done: Seq<NodeFields> = seq![];
        let mut pos: usize = 0;
        assert(payload@.skip(0) =~= payload@);
        while pos < payload.len()
            invariant
                depth <= limit,
                pos <= payload@.len() < buf@.len(),
                payload@ == buf@.subrange(h as int, h + size),
                head == seq![(id as nat, size as nat, depth as nat, None::<Seq<u8>>)],
                tree_decode(buf@, reg@, depth as nat, limit as nat) == match trees_decode(
                    payload@,
                    reg@,
                    (depth + 1) as nat,
                    limit as nat,
                ) {
                    Err(e) => Err(e),
                    Ok(nodes) => Ok((head + nodes, (h + size) as nat)),
                },
                nodes_view(out@) == start + head + done,
                trees_decode(payload@, reg@, (depth + 1) as nat, limit as nat) == match
                trees_decode(
                    payload@.skip(pos as int),
                    reg@,
                    (depth + 1) as nat,
                    limit as nat,
                ) {
                    Ok(rest) => Ok(done + rest),
                    Err(x) => Err::<Seq<NodeFields>, Error>(x),
                },
            decreases payload@.len() - pos,
        {
            if depth >= limit {
                assert(trees_decode(payload@.skip(pos as int), reg@, (depth + 1) as nat, limit as nat)
                    == Err::<Seq<NodeFields>, Error>(Error::NestingTooDeep));
                assert(trees_decode(payload@, reg@, (depth + 1) as nat, limit as nat)
                    == Err::<Seq<NodeFields>, Error>(Error::NestingTooDeep));
                assert(tree_decode(buf@, reg@, depth as nat, limit as nat) == Err::<
                    (Seq<NodeFields>, nat),
                    Error,
                >(Error::NestingTooDeep));
                return Err(Error::NestingTooDeep);
            }
            let rest = &payload[pos..payload.len()];
            let n = match decode_tree_into(rest, reg, depth + 1, limit, out) {
                Ok(n) => n,
                Err(e) => {
                    proof {
                        let t = payload@.skip(pos as int);
                        match header_decode(t) {
                            Ok((_, sz, hh)) => {
                                if t.len() >= hh + sz {
                                    assert(trees_decode(t, reg@, (depth + 1) as nat, limit as nat)
                                        == Err::<Seq<NodeFields>, Error>(e));
                                }
                            },
                            Err(_) => {},
                        }
                        assert(trees_decode(payload@, reg@, (depth + 1) as nat, limit as nat)
                            == Err::<Seq<NodeFields>, Error>(e));
                        assert(tree_decode(buf@, reg@, depth as nat, limit as nat) == Err::<
                            (Seq<NodeFields>, nat),
                            Error,
                        >(e));
                    }
                    return Err(e);
                },
            };
            proof {
                lemma_tree_decode_len(rest@, reg@, (depth + 1) as nat, limit as nat);
                let nodes = tree_decode(rest@, reg@, (depth + 1) as nat, limit as nat)->Ok_0.0;
                assert(rest@.skip(n as int) =~= payload@.skip(pos + n));
                match trees_decode(payload@.skip(pos + n), reg@, (depth + 1) as nat, limit as nat) {
                    Ok(tail) => {
                        assert(done + nodes + tail =~= done + (nodes + tail));
                    },
                    Err(_) => {},
                }
                assert(start + head + done + nodes =~= start + head + (done + nodes));
                done = done + nodes;
            }
            pos += n;
        }
        Ok(h + size)
    } else {
        let mut data: Vec<u8> = Vec::new();
        data.extend_from_slice(payload);
        assert(data@ =~= payload@);
        let ghost start = nodes_view(out@);
        out.push(TreeNode { id, size, depth, data: Data::new(Some(data)) });
        assert(nodes_view(out@) =~= start + seq![
            (id as nat, size as nat, depth as nat, Some(payload@)),
        ]);
        Ok(h + size)
    }
}

/// Read an element and all its descendants at once, in document order.
/// The element read has depth 0, its children depth 1, and so on; master
/// elements, as `registry` names them, may hold children down to depth
/// `max_depth`.
pub fn read_element_tree(r: &mut Cursor, registry: &Registry, max_depth: usize) -> (res: Result<
    (Vec<TreeNode>, usize),
    Error,
>)
    ensures
        match tree_decode(old(r)@, registry@, 0, max_depth as nat) {
            Ok((nodes, n)) => match res {
                Ok((v, c)) => nodes_view(v@) == nodes && c == n && final(r)@ == old(r)@.skip(
                    n as int,
                ),
                Err(_) => false,
            },
            Err(e) => res == Err::<(Vec<TreeNode>, usize), Error>(e) && final(r)@ == old(r)@,
        },
{
    let mut out: Vec<TreeNode> = Vec::new();
    let n = match decode_tree_into(r.remaining(), registry, 0, max_depth, &mut out) {
        Ok(n) => n,
        Err(e) => return Err(e),
    };
    proof {
        lemma_tree_decode_len(old(r)@, registry@, 0, max_depth as nat);
    }
    r.advance(n);
    Ok((out, n))
}

} // verus!
