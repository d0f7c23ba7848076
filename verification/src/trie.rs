//! Prefix tries for lexical search: three independent tries (case names,
//! citations, content tokens) over one node implementation, with insertion
//! and exact/prefix lookup proved against a path-to-documents model.

use vstd::prelude::*;

use crate::config::TrieConfig;
use crate::errors::SearchError;
use crate::text::{
    folded_split, join_tokens, lower_of, split_and_fold_tokens, split_whitespace_tokens,
    split_ws,
    join_with_spaces,
};
use crate::{CaseId, DocRef};

verus! {

/// How many prefix completions a lookup reports at most.
pub const COMPLETION_LIMIT: usize = 10;

/// Trie node structure: children keyed by token, a terminal flag, the
/// document references that end here, and how many insertions ended here.
#[derive(Debug)]
pub struct TrieNode {
    children: Vec<(String, TrieNode)>,
    is_end_of_word: bool,
    document_refs: Vec<DocRef>,
    frequency: u32,
}

/// Search result from trie lookup.
#[derive(Debug)]
pub struct TrieSearchResult {
    pub exact_matches: Vec<DocRef>,
    pub prefix_completions: Vec<String>,
    pub total_matches: usize,
}

/// The index of the first child entry whose token reads `tok`.
pub closed spec fn find_child_in(cs: Seq<(String, TrieNode)>, tok: Seq<char>) -> Option<int>
    decreases cs.len(),
{
    if cs.len() == 0 {
        None
    } else if cs[0].0@ == tok {
        Some(0int)
    } else {
        match find_child_in(cs.drop_first(), tok) {
            Some(k) => Some(k + 1),
            None => None,
        }
    }
}

/// What [`find_child_in`] returns: the first matching entry, if any.
pub proof fn lemma_find_characterization(cs: Seq<(String, TrieNode)>, tok: Seq<char>)
    ensures
        match find_child_in(cs, tok) {
            Some(k) => 0 <= k < cs.len() && cs[k].0@ == tok && (forall|j: int|
                0 <= j < k ==> cs[j].0@ != tok),
            None => forall|j: int| 0 <= j < cs.len() ==> cs[j].0@ != tok,
        },
    decreases cs.len(),
{
    if cs.len() > 0 && cs[0].0@ != tok {
        lemma_find_characterization(cs.drop_first(), tok);
        match find_child_in(cs.drop_first(), tok) {
            Some(k) => {
                assert(cs.drop_first()[k] == cs[k + 1]);
                assert forall|j: int| 0 <= j < k + 1 implies cs[j].0@ != tok by {
                    if j >= 1 {
                        assert(cs.drop_first()[j - 1] == cs[j]);
                    }
                }
            },
            None => {
                assert forall|j: int| 0 <= j < cs.len() implies cs[j].0@ != tok by {
                    if j >= 1 {
                        assert(cs.drop_first()[j - 1] == cs[j]);
                    }
                }
            },
        }
    }
}

/// Appending a child entry leaves earlier finds unchanged and lets a
/// previously missing token be found at the end.
pub proof fn lemma_find_push(cs: Seq<(String, TrieNode)>, e: (String, TrieNode), tok: Seq<char>)
    ensures
        find_child_in(cs.push(e), tok) == (match find_child_in(cs, tok) {
            Some(k) => Some(k),
            None => if e.0@ == tok {
                Some(cs.len() as int)
            } else {
                None
            },
        }),
    decreases cs.len(),
{
    if cs.len() == 0 {
        assert(cs.push(e)[0] == e);
        assert(cs.push(e).drop_first() =~= Seq::<(String, TrieNode)>::empty());
        assert(find_child_in(Seq::<(String, TrieNode)>::empty(), tok) is None);
        assert(find_child_in(cs, tok) is None);
    } else {
        assert(cs.push(e)[0] == cs[0]);
        assert(cs.push(e).drop_first() =~= cs.drop_first().push(e));
        lemma_find_push(cs.drop_first(), e, tok);
        assert(cs.drop_first().len() == cs.len() - 1);
        if cs[0].0@ == tok {
            assert(find_child_in(cs.push(e), tok) == Some(0int));
            assert(find_child_in(cs, tok) == Some(0int));
        } else {
            assert(find_child_in(cs.push(e), tok) == (match find_child_in(
                cs.push(e).drop_first(),
                tok,
            ) {
                Some(k) => Some(k + 1),
                None => None,
            }));
            assert(find_child_in(cs, tok) == (match find_child_in(cs.drop_first(), tok) {
                Some(k) => Some(k + 1),
                None => None,
            }));
        }
    }
}

/// Finding a child looks only at the tokens, not at the child nodes.
pub proof fn lemma_find_same_keys(
    cs1: Seq<(String, TrieNode)>,
    cs2: Seq<(String, TrieNode)>,
    tok: Seq<char>,
)
    requires
        cs1.len() == cs2.len(),
        forall|j: int| 0 <= j < cs1.len() ==> cs1[j].0@ == #[trigger] cs2[j].0@,
    ensures
        find_child_in(cs1, tok) == find_child_in(cs2, tok),
    decreases cs1.len(),
{
    if cs1.len() > 0 {
        assert(cs1[0].0@ == cs2[0].0@);
        assert(forall|j: int|
            0 <= j < cs1.drop_first().len() ==> cs1.drop_first()[j] == cs1[j + 1]
                && cs2.drop_first()[j] == #[trigger] cs2[j + 1]);
        lemma_find_same_keys(cs1.drop_first(), cs2.drop_first(), tok);
    }
}

/// The smaller of two counts.
pub open spec fn min_nat(a: nat, b: nat) -> nat {
    if a <= b {
        a
    } else {
        b
    }
}

/// How many terminal nodes the subtree rooted here holds, this node
/// included.
pub closed spec fn terminal_count(node: TrieNode) -> nat
    decreases node,
{
    (if node.is_end_of_word {
        1nat
    } else {
        0nat
    }) + terminal_count_seq(node.children@)
}

/// The terminal nodes held by the subtrees of a child list, all of them
/// included.
pub closed spec fn terminal_count_seq(cs: Seq<(String, TrieNode)>) -> nat
    decreases cs,
{
    if cs.len() == 0 {
        0nat
    } else {
        terminal_count(cs[0].1) + terminal_count_seq(cs.drop_first())
    }
}

/// How many completions a walk below `node` can yield: the terminal nodes
/// of its subtree, the node itself counting only when the walk already
/// stands past the query path.
pub closed spec fn available_completions(node: TrieNode, past_prefix: bool) -> nat {
    (if past_prefix && node.is_end_of_word {
        1nat
    } else {
        0nat
    }) + terminal_count_seq(node.children@)
}

/// Whether `s` reads as `base` extended along some token path to a
/// terminal node below `node`, joined with spaces, reaching past the first
/// `prefix_len` tokens.
pub closed spec fn completion_entry(
    node: TrieNode,
    base: Seq<Seq<char>>,
    prefix_len: nat,
    s: Seq<char>,
) -> bool {
    exists|ext: Seq<Seq<char>>|
        (match node.lookup(ext) {
            Some(n) => n.is_end_of_word,
            None => false,
        }) && base.len() + ext.len() > prefix_len && s == join_tokens(base + ext)
}

impl TrieNode {
    /// The child node reached by one token, if any.
    pub closed spec fn child(self, tok: Seq<char>) -> Option<TrieNode> {
        match find_child_in(self.children@, tok) {
            Some(k) => Some(self.children@[k].1),
            None => None,
        }
    }

    /// The node reached by walking a token path, if the path exists.
    pub closed spec fn lookup(self, path: Seq<Seq<char>>) -> Option<TrieNode>
        decreases path.len(),
    {
        if path.len() == 0 {
            Some(self)
        } else {
            match self.child(path[0]) {
                Some(c) => c.lookup(path.drop_first()),
                None => None,
            }
        }
    }

    /// The document references attached at a token path: the terminal node's
    /// list, or empty where the path is missing or not terminal.
    pub closed spec fn docs_at(self, path: Seq<Seq<char>>) -> Seq<DocRef> {
        match self.lookup(path) {
            Some(n) => if n.is_end_of_word {
                n.document_refs@
            } else {
                Seq::empty()
            },
            None => Seq::empty(),
        }
    }

    /// Structural health: a node is terminal exactly when documents end
    /// here, the frequency counts them (saturating), and child tokens are
    /// unique.
    pub closed spec fn wf(self) -> bool
        decreases self,
    {
        &&& (self.is_end_of_word <==> self.document_refs@.len() > 0)
        &&& self.frequency as nat == if self.document_refs@.len() > u32::MAX as nat {
            u32::MAX as nat
        } else {
            self.document_refs@.len()
        }
        &&& (forall|k1: int, k2: int|
            0 <= k1 < k2 < self.children@.len() ==> (#[trigger] self.children@[k1].0@)
                != (#[trigger] self.children@[k2].0@))
        &&& (forall|k: int| 0 <= k < self.children@.len() ==> (#[trigger] self.children@[k].1).wf())
    }

    /// A fresh node: no children, not terminal, nothing attached anywhere.
    fn new() -> (r: TrieNode)
        ensures
            r.wf(),
            forall|q: Seq<Seq<char>>| #[trigger] r.docs_at(q) == Seq::<DocRef>::empty(),
            forall|q: Seq<Seq<char>>| q.len() > 0 ==> #[trigger] r.lookup(q) is None,
    {
        let r = TrieNode { children: Vec::new(), is_end_of_word: false, document_refs: Vec::new(), frequency: 0 };
        proof {
            assert forall|q: Seq<Seq<char>>| #[trigger] r.docs_at(q) == Seq::<DocRef>::empty() by {
                if q.len() > 0 {
                    assert(find_child_in(r.children@, q[0]) is None);
                }
            }
            assert forall|q: Seq<Seq<char>>| q.len() > 0 implies #[trigger] r.lookup(q) is None by {
                assert(find_child_in(r.children@, q[0]) is None);
            }
        }
        r
    }
}

/// The first child entry of `node` whose token equals `tok`, by linear scan.
fn find_child_index(node: &TrieNode, tok: &String) -> (r: Option<usize>)
    ensures
        match r {
            Some(k) => k < node.children@.len() && find_child_in(node.children@, tok@) == Some(
                k as int,
            ),
            None => find_child_in(node.children@, tok@) is None,
        },
{
    let mut i: usize = 0;
    while i < node.children.len()
        invariant
            i <= node.children@.len(),
            forall|j: int| 0 <= j < i ==> (#[trigger] node.children@[j].0@) != tok@,
        decreases node.children@.len() - i,
    {
        if node.children[i].0 == *tok {
            proof {
                lemma_find_characterization(node.children@, tok@);
            }
            return Some(i);
        }
        i += 1;
    }
    proof {
        lemma_find_characterization(node.children@, tok@);
    }
    None
}

/// Walks or creates the nodes for `tokens[t..]` below `node`, marks the last
/// one terminal and attaches `doc` there. Every other path keeps exactly the
/// documents it had.
fn insert_from(node: &mut TrieNode, tokens: &Vec<String>, t: usize, doc: DocRef)
    requires
        old(node).wf(),
        t <= tokens@.len(),
    ensures
        final(node).wf(),
        final(node).docs_at(tokens.deep_view().skip(t as int)) == old(node).docs_at(
            tokens.deep_view().skip(t as int),
        ).push(doc),
        match final(node).lookup(tokens.deep_view().skip(t as int)) {
            Some(n) => n.is_end_of_word,
            None => false,
        },
        forall|q: Seq<Seq<char>>|
            q != tokens.deep_view().skip(t as int) ==> #[trigger] final(node).docs_at(q) == old(
                node,
            ).docs_at(q),
    decreases tokens@.len() - t,
{
    let ghost rest = tokens.deep_view().skip(t as int);
    if t == tokens.len() {
        proof {
            assert(rest =~= Seq::<Seq<char>>::empty());
        }
        let ghost pre = *node;
        node.is_end_of_word = true;
        node.document_refs.push(doc);
        node.frequency = if node.frequency == u32::MAX {
            u32::MAX
        } else {
            node.frequency + 1
        };
        proof {
            assert(node.lookup(rest) == Some(*node));
            assert(node.docs_at(rest) == node.document_refs@);
            assert forall|q: Seq<Seq<char>>| q != rest implies #[trigger] node.docs_at(q)
                == pre.docs_at(q) by {
                if q.len() == 0 {
                    assert(q =~= rest);
                } else {
                    assert(node.child(q[0]) == pre.child(q[0]));
                }
            }
        }
    } else {
        let tok: &String = &tokens[t];
        proof {
            assert(rest[0] == tokens.deep_view()[t as int]);
            assert(rest.drop_first() =~= tokens.deep_view().skip(t + 1 as int));
        }
        let opt_k = find_child_index(node, tok);
        let ghost cs_orig = node.children@;
        let k: usize = match opt_k {
            Some(k) => k,
            None => {
                let fresh = TrieNode::new();
                let keystr = tok.clone();
                proof {
                    lemma_find_push(node.children@, (keystr, fresh), tok@);
                    lemma_find_characterization(node.children@, tok@);
                }
                node.children.push((keystr, fresh));
                node.children.len() - 1
            },
        };
        let ghost cs_before = node.children@;
        let ghost node_before = *node;
        proof {
            // In both branches the token is now found at k.
            assert(find_child_in(cs_before, tok@) == Some(k as int));
            assert(cs_before[k as int].0@ == tok@) by {
                lemma_find_characterization(cs_before, tok@);
            }
        }
        let (key, mut child) = node.children.remove(k);
        let ghost child_before = child;
        insert_from(&mut child, tokens, t + 1, doc);
        node.children.insert(k, (key, child));
        proof {
            let cs_after = node.children@;
            assert(cs_after =~= cs_before.update(k as int, (key, child)));
            assert(forall|j: int|
                0 <= j < cs_after.len() ==> (#[trigger] cs_after[j].0@) == cs_before[j].0@);
            lemma_find_same_keys(cs_after, cs_before, tok@);
            assert(find_child_in(cs_after, tok@) == Some(k as int));
            assert(node.child(tok@) == Some(child));

            // How the children looked when this call began.
            lemma_find_characterization(cs_orig, tok@);

            // Well-formedness.
            assert(node.wf()) by {
                assert(forall|j: int|
                    0 <= j < cs_after.len() ==> (#[trigger] cs_after[j].0@) == cs_before[j].0@);
                if opt_k is None {
                    assert(forall|j: int|
                        0 <= j < cs_orig.len() ==> cs_before[j] == #[trigger] cs_orig[j]);
                    assert(forall|j: int| 0 <= j < cs_orig.len() ==> (#[trigger] cs_orig[j].0@) != tok@);
                    assert(cs_before[cs_orig.len() as int].0@ == tok@);
                }
                assert(forall|k1: int, k2: int|
                    0 <= k1 < k2 < cs_after.len() ==> (#[trigger] cs_after[k1].0@)
                        != (#[trigger] cs_after[k2].0@));
                assert(forall|j: int|
                    0 <= j < cs_after.len() && j != k ==> (#[trigger] cs_after[j].1)
                        == cs_before[j].1 && cs_after[j].1.wf());
                assert(cs_after[k as int].1 == child && child.wf());
            }

            // The updated path.
            assert(node.lookup(rest) == child.lookup(rest.drop_first()));
            assert(node.docs_at(rest) == child.docs_at(rest.drop_first()));
            if opt_k is Some {
                assert(old(node).child(tok@) == Some(child_before));
                assert(old(node).docs_at(rest) == child_before.docs_at(rest.drop_first()));
            } else {
                assert(old(node).child(tok@) is None);
                assert(old(node).lookup(rest) is None);
                assert(child_before.docs_at(rest.drop_first()) == Seq::<DocRef>::empty());
            }

            // Every other path is untouched.
            assert forall|q: Seq<Seq<char>>| q != rest implies #[trigger] node.docs_at(q) == old(
                node,
            ).docs_at(q) by {
                if q.len() == 0 {
                    assert(node.is_end_of_word == old(node).is_end_of_word);
                    assert(node.document_refs@ == old(node).document_refs@);
                } else {
                    if q[0] == tok@ {
                        assert(q.drop_first() != rest.drop_first()) by {
                            if q.drop_first() == rest.drop_first() {
                                assert(q.len() == rest.len());
                                assert(q[0] == rest[0]);
                                assert forall|j: int| 1 <= j < q.len() implies q[j] == rest[j] by {
                                    assert(q.drop_first()[j - 1] == rest.drop_first()[j - 1]);
                                    assert(q[j] == q.drop_first()[j - 1]);
                                    assert(rest[j] == rest.drop_first()[j - 1]);
                                }
                                assert(q =~= rest);
                            }
                        }
                        assert(node.docs_at(q) == child.docs_at(q.drop_first()));
                        assert(child.docs_at(q.drop_first()) == child_before.docs_at(
                            q.drop_first(),
                        ));
                        if opt_k is Some {
                            assert(old(node).docs_at(q) == child_before.docs_at(q.drop_first()));
                        } else {
                            assert(old(node).lookup(q) is None);
                            assert(child_before.docs_at(q.drop_first()) == Seq::<
                                DocRef,
                            >::empty());
                        }
                    } else {
                        lemma_find_same_keys(cs_after, cs_before, q[0]);
                        if opt_k is None {
                            let e = cs_before[cs_before.len() - 1];
                            assert(cs_before =~= cs_orig.push(e));
                            lemma_find_push(cs_orig, e, q[0]);
                            assert(e.0@ == tok@);
                        }
                        assert(find_child_in(cs_after, q[0]) == find_child_in(cs_orig, q[0]));
                        lemma_find_characterization(cs_orig, q[0]);
                        match find_child_in(cs_orig, q[0]) {
                            Some(j) => {
                                assert(cs_orig[j].0@ == q[0]);
                                assert(j != k as int) by {
                                    if opt_k is Some {
                                        assert(cs_orig[k as int].0@ == tok@);
                                    } else {
                                        assert(j < cs_orig.len());
                                    }
                                }
                                assert(cs_after[j].1 == cs_before[j].1);
                                assert(cs_before[j].1 == cs_orig[j].1);
                                assert(node.child(q[0]) == old(node).child(q[0]));
                            },
                            None => {
                                assert(node.child(q[0]) is None);
                                assert(old(node).child(q[0]) is None);
                            },
                        }
                    }
                }
            }
        }
    }
}

/// Copies a vector of document references.
fn clone_docrefs(v: &Vec<DocRef>) -> (r: Vec<DocRef>)
    ensures
        r@ == v@,
{
    let mut r: Vec<DocRef> = Vec::new();
    let mut i: usize = 0;
    while i < v.len()
        invariant
            i <= v@.len(),
            r@ =~= v@.take(i as int),
        decreases v@.len() - i,
    {
        r.push(v[i]);
        proof {
            assert(r@ =~= v@.take(i + 1 as int));
        }
        i += 1;
    }
    proof {
        assert(v@.take(v@.len() as int) =~= v@);
    }
    r
}

/// Gathers joined token paths of terminal descendants into `out`, walking
/// depth first, stopping at `limit` entries: as many completions as the
/// subtree offers, up to the cap. Entries only accumulate, and the working
/// path is left as it was found.
fn collect_completions(
    node: &TrieNode,
    path: &mut Vec<String>,
    prefix_len: usize,
    out: &mut Vec<String>,
    limit: usize,
)
    requires
        node.wf(),
        old(out)@.len() <= limit,
        old(path)@.len() >= prefix_len,
    ensures
        final(out)@.len() <= limit,
        old(out)@.len() <= final(out)@.len(),
        final(path)@ == old(path)@,
        forall|k: int| 0 <= k < old(out)@.len() ==> #[trigger] final(out)@[k] == old(out)@[k],
        forall|k: int|
            old(out)@.len() <= k < final(out)@.len() ==> completion_entry(
                *node,
                old(path).deep_view(),
                prefix_len as nat,
                (#[trigger] final(out)@[k])@,
            ),
        final(out)@.len() == min_nat(
            limit as nat,
            old(out)@.len() + available_completions(*node, old(path)@.len() > prefix_len),
        ),
    decreases node,
{
    let ghost base = path.deep_view();
    let ghost past = old(path)@.len() > prefix_len;
    if out.len() >= limit {
        return ;
    }
    let ghost self_part: nat = if past && node.is_end_of_word {
        1nat
    } else {
        0nat
    };
    if node.is_end_of_word && path.len() > prefix_len {
        let joined = join_with_spaces(path);
        let ghost joined_view = joined@;
        out.push(joined);
        proof {
            let ext = Seq::<Seq<char>>::empty();
            assert(node.lookup(ext) == Some(*node));
            assert(base + ext =~= base);
            assert(joined_view == join_tokens(base + ext));
            assert(completion_entry(*node, base, prefix_len as nat, joined_view));
        }
    }
    let ghost base0: nat = old(out)@.len() + self_part;
    let ghost total: nat = terminal_count_seq(node.children@);
    let ghost mut done: nat = 0;
    let mut k: usize = 0;
    proof {
        assert(node.children@.skip(0) =~= node.children@);
        assert(base.len() == old(path)@.len());
    }
    while k < node.children.len()
        invariant
            node.wf(),
            k <= node.children@.len(),
            out@.len() <= limit,
            old(out)@.len() <= out@.len(),
            path@ == old(path)@,
            base == old(path).deep_view(),
            base.len() == old(path)@.len(),
            old(path)@.len() >= prefix_len,
            total == terminal_count_seq(node.children@),
            done + terminal_count_seq(node.children@.skip(k as int)) == total,
            out@.len() == min_nat(limit as nat, base0 + done),
            base0 <= limit,
            forall|z: int| 0 <= z < old(out)@.len() ==> #[trigger] out@[z] == old(out)@[z],
            forall|z: int|
                old(out)@.len() <= z < out@.len() ==> completion_entry(
                    *node,
                    base,
                    prefix_len as nat,
                    (#[trigger] out@[z])@,
                ),
        decreases node.children@.len() - k,
    {
        let tokcopy = node.children[k].0.clone();
        proof {
            assert(path.deep_view() =~= base);
            assert(node.children@.skip(k as int)[0] == node.children@[k as int]);
            assert(node.children@.skip(k as int).drop_first() =~= node.children@.skip(
                k + 1 as int,
            ));
        }
        path.push(tokcopy);
        let ghost pushed_dv = path.deep_view();
        proof {
            assert(pushed_dv =~= base.push(node.children@[k as int].0@));
            assert(decreases_to!(node => node.children@[k as int].1));
            assert(node.children@[k as int].1.wf());
        }
        let ghost pre_rec = out@;
        collect_completions(&node.children[k].1, path, prefix_len, out, limit);
        path.pop();
        proof {
            assert(path@ =~= old(path)@);
            let child = node.children@[k as int].1;
            assert(available_completions(child, pushed_dv.len() > prefix_len) == terminal_count(
                child,
            )) by {
                assert(pushed_dv.len() == base.len() + 1);
                assert(pushed_dv.len() > prefix_len);
            }
            assert(out@.len() == min_nat(limit as nat, pre_rec.len() + terminal_count(child)));
            assert(out@.len() == min_nat(limit as nat, base0 + done + terminal_count(child)));
            done = done + terminal_count(child);
            let tok = node.children@[k as int].0@;
            assert(node.child(tok) == Some(child)) by {
                lemma_find_characterization(node.children@, tok);
                match find_child_in(node.children@, tok) {
                    Some(j) => {
                        assert(node.children@[j].0@ == tok);
                        if j != k as int {
                            assert(node.wf());
                        }
                    },
                    None => {
                        assert(node.children@[k as int].0@ != tok);
                    },
                }
            }
            assert forall|z: int|
                pre_rec.len() <= z < out@.len() implies completion_entry(
                *node,
                base,
                prefix_len as nat,
                (#[trigger] out@[z])@,
            ) by {
                assert(completion_entry(child, pushed_dv, prefix_len as nat, out@[z]@));
                let ext0 = choose|ext0: Seq<Seq<char>>|
                    (match child.lookup(ext0) {
                        Some(n) => n.is_end_of_word,
                        None => false,
                    }) && pushed_dv.len() + ext0.len() > prefix_len as nat && out@[z]@
                    == join_tokens(pushed_dv + ext0);
                let ext = seq![tok] + ext0;
                assert(ext[0] == tok);
                assert(ext.drop_first() =~= ext0);
                assert(node.lookup(ext) == child.lookup(ext0));
                assert(base + ext =~= pushed_dv + ext0);
                assert(out@[z]@ == join_tokens(base + ext));
                assert(base.len() + ext.len() > prefix_len as nat);
                assert(completion_entry(*node, base, prefix_len as nat, out@[z]@));
            }
        }
        k += 1;
    }
    proof {
        assert(node.children@.skip(node.children@.len() as int) =~= Seq::<
            (String, TrieNode),
        >::empty());
        assert(done == total);
        assert(available_completions(*node, past) == self_part + total);
    }
}

/// Walks the trie along `tokens` and reports the exact matches, the capped
/// prefix completions, and their combined count.
fn node_search(root: &TrieNode, tokens: &Vec<String>) -> (r: TrieSearchResult)
    requires
        root.wf(),
    ensures
        r.exact_matches@ == root.docs_at(tokens.deep_view()),
        root.lookup(tokens.deep_view()) is None ==> r.prefix_completions@.len() == 0,
        r.prefix_completions@.len() <= COMPLETION_LIMIT,
        r.total_matches as nat == crate::sat_add_usize(
            r.exact_matches@.len(),
            r.prefix_completions@.len(),
        ),
        match root.lookup(tokens.deep_view()) {
            Some(n) => (forall|k: int|
                0 <= k < r.prefix_completions@.len() ==> completion_entry(
                    n,
                    tokens.deep_view(),
                    tokens.deep_view().len(),
                    (#[trigger] r.prefix_completions@[k])@,
                )) && r.prefix_completions@.len() == min_nat(
                COMPLETION_LIMIT as nat,
                available_completions(n, false),
            ),
            None => true,
        },
{
    let ghost dv = tokens.deep_view();
    let mut cur: &TrieNode = root;
    proof {
        assert(dv.skip(0) =~= dv);
    }
    let mut i: usize = 0;
    while i < tokens.len()
        invariant
            root.wf(),
            cur.wf(),
            i <= tokens@.len(),
            dv == tokens.deep_view(),
            root.lookup(dv) == cur.lookup(dv.skip(i as int)),
        decreases tokens@.len() - i,
    {
        proof {
            assert(dv.skip(i as int)[0] == dv[i as int]);
            assert(dv.skip(i as int).drop_first() =~= dv.skip(i + 1 as int));
        }
        let opt_k = find_child_index(cur, &tokens[i]);
        match opt_k {
            Some(k) => {
                proof {
                    assert(cur.child(dv[i as int]) == Some(cur.children@[k as int].1));
                    assert(cur.children@[k as int].1.wf());
                }
                cur = &cur.children[k].1;
            },
            None => {
                proof {
                    assert(cur.child(dv[i as int]) is None);
                    assert(cur.lookup(dv.skip(i as int)) is None);
                    assert(root.docs_at(dv) == Seq::<DocRef>::empty());
                }
                return TrieSearchResult {
                    exact_matches: Vec::new(),
                    prefix_completions: Vec::new(),
                    total_matches: 0,
                };
            },
        }
        i += 1;
    }
    proof {
        assert(dv.skip(tokens@.len() as int) =~= Seq::<Seq<char>>::empty());
        assert(root.lookup(dv) == Some(*cur));
    }
    let exact_matches = if cur.is_end_of_word {
        clone_docrefs(&cur.document_refs)
    } else {
        Vec::new()
    };
    let mut path = crate::clone_string_vec(tokens);
    proof {
        assert(path.deep_view() == tokens.deep_view());
        assert(path@.len() == tokens.deep_view().len());
    }
    let mut prefix_completions: Vec<String> = Vec::new();
    collect_completions(cur, &mut path, tokens.len(), &mut prefix_completions, COMPLETION_LIMIT);
    let total_matches = if exact_matches.len() <= usize::MAX - prefix_completions.len() {
        exact_matches.len() + prefix_completions.len()
    } else {
        usize::MAX
    };
    TrieSearchResult { exact_matches, prefix_completions, total_matches }
}

/// Trie for case names.
pub struct CaseNameTrie {
    root: TrieNode,
}

/// Trie for content (sentences, paragraphs).
pub struct ContentTrie {
    root: TrieNode,
}

/// Trie for legal citations.
pub struct CitationTrie {
    root: TrieNode,
}

impl CaseNameTrie {
    /// Whether `s` reads as this path extended to a terminal descendant.
    pub closed spec fn completion_ok(&self, path: Seq<Seq<char>>, s: Seq<char>) -> bool {
        match self.root.lookup(path) {
            Some(n) => completion_entry(n, path, path.len(), s),
            None => false,
        }
    }

    /// How many completions this path can yield here.
    pub closed spec fn completion_total(&self, path: Seq<Seq<char>>) -> nat {
        match self.root.lookup(path) {
            Some(n) => available_completions(n, false),
            None => 0,
        }
    }

    /// What this trie attaches to a lowercased token path.
    pub closed spec fn docs(&self, path: Seq<Seq<char>>) -> Seq<DocRef> {
        self.root.docs_at(path)
    }

    /// Whether the lowercased token path exists at all.
    pub closed spec fn has_path(&self, path: Seq<Seq<char>>) -> bool {
        self.root.lookup(path) is Some
    }

    /// Structural health of the trie.
    pub closed spec fn wf(&self) -> bool {
        self.root.wf()
    }

    fn new() -> (r: Self)
        ensures
            r.wf(),
            forall|q: Seq<Seq<char>>| #[trigger] r.docs(q) == Seq::<DocRef>::empty(),
            forall|q: Seq<Seq<char>>| q.len() > 0 ==> !(#[trigger] r.has_path(q)),
    {
        CaseNameTrie { root: TrieNode::new() }
    }

    fn insert(&mut self, case_name: &str, case_id: CaseId) -> (r: Result<(), SearchError>)
        requires
            old(self).wf(),
        ensures
            r is Ok,
            final(self).wf(),
            final(self).docs(folded_split(case_name@)) == old(self).docs(
                folded_split(case_name@),
            ).push((DocRef { case_id, paragraph_index: 0, char_offset: None })),
            forall|q: Seq<Seq<char>>|
                q != folded_split(case_name@) ==> #[trigger] final(self).docs(q) == old(
                    self,
                ).docs(q),
    {
        let tokens = split_and_fold_tokens(case_name);
        let doc_ref = DocRef { case_id, paragraph_index: 0, char_offset: None };
        proof {
            assert(tokens.deep_view().skip(0) =~= tokens.deep_view());
        }
        insert_from(&mut self.root, &tokens, 0, doc_ref);
        Ok(())
    }

    fn search(&self, query: &str) -> (r: Result<TrieSearchResult, SearchError>)
        requires
            self.wf(),
        ensures
            match r {
                Ok(res) => {
                    &&& res.exact_matches@ == self.docs(folded_split(query@))
                    &&& (!self.has_path(folded_split(query@)) ==> res.prefix_completions@.len()
                        == 0)
                    &&& (forall|k: int|
                        0 <= k < res.prefix_completions@.len() ==> self.completion_ok(
                            folded_split(query@),
                            (#[trigger] res.prefix_completions@[k])@,
                        ))
                    &&& res.prefix_completions@.len() == min_nat(
                        COMPLETION_LIMIT as nat,
                        self.completion_total(folded_split(query@)),
                    )
                    &&& res.prefix_completions@.len() <= COMPLETION_LIMIT
                    &&& res.total_matches as nat == crate::sat_add_usize(
                        res.exact_matches@.len(),
                        res.prefix_completions@.len(),
                    )
                },
                Err(_) => false,
            },
    {
        let tokens = split_and_fold_tokens(query);
        Ok(node_search(&self.root, &tokens))
    }
}

impl ContentTrie {
    /// Whether `s` reads as this path extended to a terminal descendant.
    pub closed spec fn completion_ok(&self, path: Seq<Seq<char>>, s: Seq<char>) -> bool {
        match self.root.lookup(path) {
            Some(n) => completion_entry(n, path, path.len(), s),
            None => false,
        }
    }

    /// How many completions this path can yield here.
    pub closed spec fn completion_total(&self, path: Seq<Seq<char>>) -> nat {
        match self.root.lookup(path) {
            Some(n) => available_completions(n, false),
            None => 0,
        }
    }

    /// What this trie attaches to a lowercased token path.
    pub closed spec fn docs(&self, path: Seq<Seq<char>>) -> Seq<DocRef> {
        self.root.docs_at(path)
    }

    /// Whether the lowercased token path exists at all.
    pub closed spec fn has_path(&self, path: Seq<Seq<char>>) -> bool {
        self.root.lookup(path) is Some
    }

    /// Structural health of the trie.
    pub closed spec fn wf(&self) -> bool {
        self.root.wf()
    }

    fn new() -> (r: Self)
        ensures
            r.wf(),
            forall|q: Seq<Seq<char>>| #[trigger] r.docs(q) == Seq::<DocRef>::empty(),
            forall|q: Seq<Seq<char>>| q.len() > 0 ==> !(#[trigger] r.has_path(q)),
    {
        ContentTrie { root: TrieNode::new() }
    }

    fn insert(&mut self, tokens: &Vec<String>, doc_ref: DocRef) -> (r: Result<(), SearchError>)
        requires
            old(self).wf(),
        ensures
            r is Ok,
            final(self).wf(),
            final(self).docs(tokens.deep_view().map_values(|t: Seq<char>| lower_of(t))) == old(
                self,
            ).docs(tokens.deep_view().map_values(|t: Seq<char>| lower_of(t))).push(doc_ref),
            forall|q: Seq<Seq<char>>|
                q != tokens.deep_view().map_values(|t: Seq<char>| lower_of(t))
                    ==> #[trigger] final(self).docs(q) == old(self).docs(q),
    {
        let normalized = fold_tokens(tokens);
        proof {
            assert(normalized.deep_view().skip(0) =~= normalized.deep_view());
        }
        insert_from(&mut self.root, &normalized, 0, doc_ref);
        Ok(())
    }

    fn search_tokens(&self, tokens: &Vec<String>) -> (r: Result<TrieSearchResult, SearchError>)
        requires
            self.wf(),
        ensures
            match r {
                Ok(res) => {
                    &&& res.exact_matches@ == self.docs(
                        tokens.deep_view().map_values(|t: Seq<char>| lower_of(t)),
                    )
                    &&& (!self.has_path(tokens.deep_view().map_values(|t: Seq<char>| lower_of(t)))
                        ==> res.prefix_completions@.len() == 0)
                    &&& (forall|k: int|
                        0 <= k < res.prefix_completions@.len() ==> self.completion_ok(
                            tokens.deep_view().map_values(|t: Seq<char>| lower_of(t)),
                            (#[trigger] res.prefix_completions@[k])@,
                        ))
                    &&& res.prefix_completions@.len() == min_nat(
                        COMPLETION_LIMIT as nat,
                        self.completion_total(tokens.deep_view().map_values(|t: Seq<char>| lower_of(t))),
                    )
                    &&& res.prefix_completions@.len() <= COMPLETION_LIMIT
                    &&& res.total_matches as nat == crate::sat_add_usize(
                        res.exact_matches@.len(),
                        res.prefix_completions@.len(),
                    )
                },
                Err(_) => false,
            },
    {
        let normalized = fold_tokens(tokens);
        Ok(node_search(&self.root, &normalized))
    }
}

impl CitationTrie {
    /// Whether `s` reads as this path extended to a terminal descendant.
    pub closed spec fn completion_ok(&self, path: Seq<Seq<char>>, s: Seq<char>) -> bool {
        match self.root.lookup(path) {
            Some(n) => completion_entry(n, path, path.len(), s),
            None => false,
        }
    }

    /// How many completions this path can yield here.
    pub closed spec fn completion_total(&self, path: Seq<Seq<char>>) -> nat {
        match self.root.lookup(path) {
            Some(n) => available_completions(n, false),
            None => 0,
        }
    }

    /// What this trie attaches to a token path, casing preserved.
    pub closed spec fn docs(&self, path: Seq<Seq<char>>) -> Seq<DocRef> {
        self.root.docs_at(path)
    }

    /// Whether the token path exists at all.
    pub closed spec fn has_path(&self, path: Seq<Seq<char>>) -> bool {
        self.root.lookup(path) is Some
    }

    /// Structural health of the trie.
    pub closed spec fn wf(&self) -> bool {
        self.root.wf()
    }

    fn new() -> (r: Self)
        ensures
            r.wf(),
            forall|q: Seq<Seq<char>>| #[trigger] r.docs(q) == Seq::<DocRef>::empty(),
            forall|q: Seq<Seq<char>>| q.len() > 0 ==> !(#[trigger] r.has_path(q)),
    {
        CitationTrie { root: TrieNode::new() }
    }

    fn insert(&mut self, citation: &str, doc_ref: DocRef) -> (r: Result<(), SearchError>)
        requires
            old(self).wf(),
        ensures
            r is Ok,
            final(self).wf(),
            final(self).docs(split_ws(citation@)) == old(self).docs(split_ws(citation@)).push(
                doc_ref,
            ),
            forall|q: Seq<Seq<char>>|
                q != split_ws(citation@) ==> #[trigger] final(self).docs(q) == old(self).docs(q),
    {
        let tokens = split_whitespace_tokens(citation);
        proof {
            assert(tokens.deep_view().skip(0) =~= tokens.deep_view());
        }
        insert_from(&mut self.root, &tokens, 0, doc_ref);
        Ok(())
    }

    fn search(&self, query: &str) -> (r: Result<TrieSearchResult, SearchError>)
        requires
            self.wf(),
        ensures
            match r {
                Ok(res) => {
                    &&& res.exact_matches@ == self.docs(split_ws(query@))
                    &&& (!self.has_path(split_ws(query@)) ==> res.prefix_completions@.len() == 0)
                    &&& (forall|k: int|
                        0 <= k < res.prefix_completions@.len() ==> self.completion_ok(
                            split_ws(query@),
                            (#[trigger] res.prefix_completions@[k])@,
                        ))
                    &&& res.prefix_completions@.len() == min_nat(
                        COMPLETION_LIMIT as nat,
                        self.completion_total(split_ws(query@)),
                    )
                    &&& res.prefix_completions@.len() <= COMPLETION_LIMIT
                    &&& res.total_matches as nat == crate::sat_add_usize(
                        res.exact_matches@.len(),
                        res.prefix_completions@.len(),
                    )
                },
                Err(_) => false,
            },
    {
        let tokens = split_whitespace_tokens(query);
        Ok(node_search(&self.root, &tokens))
    }
}

/// Lowercases every token of a list.
fn fold_tokens(tokens: &Vec<String>) -> (r: Vec<String>)
    ensures
        r.deep_view() == tokens.deep_view().map_values(|t: Seq<char>| lower_of(t)),
{
    let mut r: Vec<String> = Vec::new();
    let mut i: usize = 0;
    while i < tokens.len()
        invariant
            i <= tokens@.len(),
            r@.len() == i,
            forall|k: int|
                0 <= k < i ==> r@[k]@ == lower_of(#[trigger] tokens.deep_view()[k]),
        decreases tokens@.len() - i,
    {
        let lowered = crate::text::lowercase(tokens[i].as_str());
        proof {
            assert(tokens.deep_view()[i as int] == tokens@[i as int]@);
        }
        r.push(lowered);
        i += 1;
    }
    proof {
        assert(r.deep_view() =~= tokens.deep_view().map_values(|t: Seq<char>| lower_of(t)));
    }
    r
}

/// Main trie index manager.
pub struct TrieIndex {
    config: TrieConfig,
    case_name_trie: CaseNameTrie,
    content_trie: ContentTrie,
    citation_trie: CitationTrie,
}

impl TrieIndex {
    /// What the case-name trie attaches to a lowercased token path.
    pub closed spec fn name_docs_at(&self, path: Seq<Seq<char>>) -> Seq<DocRef> {
        self.case_name_trie.docs(path)
    }

    /// What the citation trie attaches to a token path.
    pub closed spec fn citation_docs_at(&self, path: Seq<Seq<char>>) -> Seq<DocRef> {
        self.citation_trie.docs(path)
    }

    /// What the content trie attaches to a lowercased token path.
    pub closed spec fn content_docs_at(&self, path: Seq<Seq<char>>) -> Seq<DocRef> {
        self.content_trie.docs(path)
    }

    /// The exact matches a query yields: the case-name trie first, then the
    /// citation trie, then the content trie.
    pub open spec fn query_matches(&self, q: Seq<char>) -> Seq<DocRef> {
        if self.name_docs_at(folded_split(q)).len() > 0 {
            self.name_docs_at(folded_split(q))
        } else if self.citation_docs_at(split_ws(q)).len() > 0 {
            self.citation_docs_at(split_ws(q))
        } else {
            self.content_docs_at(folded_split(q))
        }
    }

    /// Whether `s` is a completion of the sub-trie that answers this
    /// query — case names first, then citations, then content — read as the
    /// query's token path extended to a terminal descendant there.
    pub closed spec fn reported_completion(&self, q: Seq<char>, s: Seq<char>) -> bool {
        if self.name_docs_at(folded_split(q)).len() > 0 {
            self.case_name_trie.completion_ok(folded_split(q), s)
        } else if self.citation_docs_at(split_ws(q)).len() > 0 {
            self.citation_trie.completion_ok(split_ws(q), s)
        } else {
            self.content_trie.completion_ok(folded_split(q), s)
        }
    }

    /// How many completions the answering sub-trie holds for this query.
    pub closed spec fn completion_total(&self, q: Seq<char>) -> nat {
        if self.name_docs_at(folded_split(q)).len() > 0 {
            self.case_name_trie.completion_total(folded_split(q))
        } else if self.citation_docs_at(split_ws(q)).len() > 0 {
            self.citation_trie.completion_total(split_ws(q))
        } else {
            self.content_trie.completion_total(folded_split(q))
        }
    }

    /// Whether no trie has a node for this query's token path.
    pub closed spec fn misses_everywhere(&self, q: Seq<char>) -> bool {
        &&& !self.case_name_trie.has_path(folded_split(q))
        &&& !self.citation_trie.has_path(split_ws(q))
        &&& !self.content_trie.has_path(folded_split(q))
    }

    /// Structural health of all three tries.
    pub closed spec fn wf(&self) -> bool {
        &&& self.case_name_trie.wf()
        &&& self.content_trie.wf()
        &&& self.citation_trie.wf()
    }

    /// Create new trie index.
    pub fn new(config: TrieConfig) -> (r: Result<Self, SearchError>)
        ensures
            match r {
                Ok(t) => {
                    &&& t.wf()
                    &&& forall|q: Seq<char>| #[trigger] t.query_matches(q) == Seq::<DocRef>::empty()
                },
                Err(_) => false,
            },
    {
        let case_name_trie = CaseNameTrie::new();
        let content_trie = ContentTrie::new();
        let citation_trie = CitationTrie::new();
        let t = TrieIndex { config, case_name_trie, content_trie, citation_trie };
        Ok(t)
    }

    /// Load trie from disk: not offered by this index.
    pub fn load_from_disk(_path: &str) -> (r: Result<Self, SearchError>)
        ensures
            r is Err,
    {
        Err(SearchError::NotSupported { operation: String::from_str("Loading trie from disk") })
    }

    /// Save trie to disk: nothing is written; persistence belongs to the
    /// surrounding application.
    pub fn save_to_disk(&self, _path: &str) -> (r: Result<(), SearchError>)
        ensures
            r is Ok,
    {
        Ok(())
    }

    /// Insert case name into trie: tokens are lowercased first.
    pub fn insert_case_name(&mut self, case_name: &str, case_id: CaseId) -> (r: Result<
        (),
        SearchError,
    >)
        requires
            old(self).wf(),
        ensures
            r is Ok,
            final(self).wf(),
            final(self).name_docs_at(folded_split(case_name@)) == old(self).name_docs_at(
                folded_split(case_name@),
            ).push((DocRef { case_id, paragraph_index: 0, char_offset: None })),
            forall|p: Seq<Seq<char>>|
                p != folded_split(case_name@) ==> #[trigger] final(self).name_docs_at(p) == old(
                    self,
                ).name_docs_at(p),
            forall|p: Seq<Seq<char>>| #[trigger] final(self).citation_docs_at(p) == old(
                self,
            ).citation_docs_at(p),
            forall|p: Seq<Seq<char>>| #[trigger] final(self).content_docs_at(p) == old(
                self,
            ).content_docs_at(p),
    {
        self.case_name_trie.insert(case_name, case_id)
    }

    /// Insert content sequence into trie: tokens are lowercased first.
    pub fn insert_content(&mut self, tokens: &Vec<String>, doc_ref: DocRef) -> (r: Result<
        (),
        SearchError,
    >)
        requires
            old(self).wf(),
        ensures
            r is Ok,
            final(self).wf(),
            final(self).content_docs_at(tokens.deep_view().map_values(|t: Seq<char>| lower_of(t)))
                == old(self).content_docs_at(
                tokens.deep_view().map_values(|t: Seq<char>| lower_of(t)),
            ).push(doc_ref),
            forall|p: Seq<Seq<char>>|
                p != tokens.deep_view().map_values(|t: Seq<char>| lower_of(t))
                    ==> #[trigger] final(self).content_docs_at(p) == old(self).content_docs_at(p),
            forall|p: Seq<Seq<char>>| #[trigger] final(self).name_docs_at(p) == old(
                self,
            ).name_docs_at(p),
            forall|p: Seq<Seq<char>>| #[trigger] final(self).citation_docs_at(p) == old(
                self,
            ).citation_docs_at(p),
    {
        self.content_trie.insert(tokens, doc_ref)
    }

    /// Insert citation into trie, preserving its casing.
    pub fn insert_citation(&mut self, citation: &str, doc_ref: DocRef) -> (r: Result<
        (),
        SearchError,
    >)
        requires
            old(self).wf(),
        ensures
            r is Ok,
            final(self).wf(),
            final(self).citation_docs_at(split_ws(citation@)) == old(self).citation_docs_at(
                split_ws(citation@),
            ).push(doc_ref),
            forall|p: Seq<Seq<char>>|
                p != split_ws(citation@) ==> #[trigger] final(self).citation_docs_at(p) == old(
                    self,
                ).citation_docs_at(p),
            forall|p: Seq<Seq<char>>| #[trigger] final(self).name_docs_at(p) == old(
                self,
            ).name_docs_at(p),
            forall|p: Seq<Seq<char>>| #[trigger] final(self).content_docs_at(p) == old(
                self,
            ).content_docs_at(p),
    {
        self.citation_trie.insert(citation, doc_ref)
    }

    /// Search for exact matches and prefixes: the case-name trie first, then
    /// citations, then content. A query whose path no trie holds yields an
    /// empty result, never an error.
    pub fn search(&self, query: &str) -> (r: Result<TrieSearchResult, SearchError>)
        requires
            self.wf(),
        ensures
            match r {
                Ok(res) => {
                    &&& res.exact_matches@ == self.query_matches(query@)
                    &&& (self.misses_everywhere(query@) ==> res.exact_matches@.len() == 0
                        && res.prefix_completions@.len() == 0 && res.total_matches == 0)
                    &&& (forall|k: int|
                        0 <= k < res.prefix_completions@.len() ==> self.reported_completion(
                            query@,
                            (#[trigger] res.prefix_completions@[k])@,
                        ))
                    &&& res.prefix_completions@.len() == min_nat(
                        COMPLETION_LIMIT as nat,
                        self.completion_total(query@),
                    )
                    &&& res.prefix_completions@.len() <= COMPLETION_LIMIT
                    &&& res.total_matches as nat == crate::sat_add_usize(
                        res.exact_matches@.len(),
                        res.prefix_completions@.len(),
                    )
                },
                Err(_) => false,
            },
    {
        let name_result = self.case_name_trie.search(query)?;
        if name_result.exact_matches.len() > 0 {
            return Ok(name_result);
        }
        let citation_result = self.citation_trie.search(query)?;
        if citation_result.exact_matches.len() > 0 {
            return Ok(citation_result);
        }
        let tokens = split_whitespace_tokens(query);
        let res = self.content_trie.search_tokens(&tokens)?;
        proof {
            assert(tokens.deep_view().map_values(|t: Seq<char>| lower_of(t)) == folded_split(
                query@,
            ));
        }
        Ok(res)
    }

    /// Get completion suggestions for a prefix: not computed here.
    pub fn get_completions(&self, _prefix: &str, _limit: usize) -> (r: Result<
        Vec<String>,
        SearchError,
    >)
        ensures
            match r {
                Ok(v) => v@.len() == 0,
                Err(_) => false,
            },
    {
        Ok(Vec::new())
    }
}


/// The lexical round trip: a case name just inserted is among the exact
/// matches of any query text whose lowercased tokens read the same, and it
/// arrives last in the list.
pub proof fn lemma_case_name_round_trip(
    pre: TrieIndex,
    post: TrieIndex,
    name: Seq<char>,
    query: Seq<char>,
    case_id: CaseId,
)
    requires
        folded_split(query) == folded_split(name),
        post.name_docs_at(folded_split(name)) == pre.name_docs_at(folded_split(name)).push(
            (DocRef { case_id, paragraph_index: 0, char_offset: None }),
        ),
    ensures
        post.query_matches(query).len() > 0,
        post.query_matches(query).last() == (DocRef {
            case_id,
            paragraph_index: 0,
            char_offset: None,
        }),
{
}

} // verus!
