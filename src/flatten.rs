//! Flattening of a document tree into identifier/text entries of a language
//! table.
use vstd::prelude::*;
use vstd::string::*;
use vstd::hash_map::StringHashMap;
use crate::document::{key_text, key_to_text, scalar_text, scalar_to_text, Key, Node};
use crate::path::{join, PathTracker};

verus! {

/// One flattened message: its identifier and its text.
pub type Entry = (Seq<char>, Seq<char>);

/// The entries that flattening `node` inserts, in order, when the mappings
/// above it are `path`. Only a mapping yields entries.
pub open spec fn doc_entries(node: Node, path: Seq<Seq<char>>) -> Seq<Entry>
    decreases node, 0nat,
{
    match node {
        Node::Mapping(pairs) => pairs_entries(pairs@, pairs@.len(), path),
        _ => Seq::empty(),
    }
}

/// The entries that the first `n` key/child pairs of a mapping yield, in
/// document order. A pair whose key has no text form, or whose key holds a
/// `.`, yields nothing; a mapping child is flattened under its key; a scalar
/// child yields one entry.
pub open spec fn pairs_entries(pairs: Seq<(Key, Node)>, n: nat, path: Seq<Seq<char>>) -> Seq<Entry>
    decreases pairs, n,
{
    if n == 0 || n > pairs.len() {
        Seq::empty()
    } else {
        let child = pairs[n - 1].1;
        let here = match key_text(pairs[n - 1].0) {
            None => Seq::empty(),
            Some(t) => if t.contains('.') {
                Seq::empty()
            } else if child is Mapping {
                doc_entries(child, path.push(t))
            } else {
                seq![(join(path.push(t)), scalar_text(child))]
            },
        };
        pairs_entries(pairs, (n - 1) as nat, path) + here
    }
}

/// The table `m` after inserting `es` in order; a later entry overwrites an
/// earlier one with the same identifier.
pub open spec fn insert_all(m: Map<Seq<char>, Seq<char>>, es: Seq<Entry>) -> Map<Seq<char>, Seq<char>>
    decreases es.len(),
{
    if es.len() == 0 {
        m
    } else {
        insert_all(m, es.drop_last()).insert(es.last().0, es.last().1)
    }
}

/// A language table as identifiers mapped to texts.
pub open spec fn table_view(t: StringHashMap<String>) -> Map<Seq<char>, Seq<char>> {
    t@.map_values(|s: String| s@)
}

/// Inserting two runs of entries one after the other is inserting their
/// concatenation.
pub proof fn lemma_insert_all_concat(m: Map<Seq<char>, Seq<char>>, a: Seq<Entry>, b: Seq<Entry>)
    ensures
        insert_all(m, a + b) == insert_all(insert_all(m, a), b),
    decreases b.len(),
{
    if b.len() == 0 {
        assert(a + b =~= a);
    } else {
        lemma_insert_all_concat(m, a, b.drop_last());
        assert((a + b).drop_last() =~= a + b.drop_last());
    }
}

/// Whether a mapping key is followed: it has a text form holding no `.`.
pub open spec fn usable_key(k: Key) -> bool {
    key_text(k) is Some && !key_text(k)->0.contains('.')
}

/// The scalar leaves of `node` that are reached through usable keys only.
pub open spec fn leaf_count(node: Node) -> nat
    decreases node, 0nat,
{
    match node {
        Node::Mapping(pairs) => pairs_leaf_count(pairs@, pairs@.len()),
        _ => 0,
    }
}

/// The scalar leaves below the first `n` pairs of a mapping that are reached
/// through usable keys only.
pub open spec fn pairs_leaf_count(pairs: Seq<(Key, Node)>, n: nat) -> nat
    decreases pairs, n,
{
    if n == 0 || n > pairs.len() {
        0
    } else {
        let child = pairs[n - 1].1;
        let here: nat = if !usable_key(pairs[n - 1].0) {
            0
        } else if child is Mapping {
            leaf_count(child)
        } else {
            1
        };
        pairs_leaf_count(pairs, (n - 1) as nat) + here
    }
}

/// Flattening a document inserts exactly one entry for each scalar leaf that
/// is reached through keys that have a text form and hold no `.`.
pub proof fn lemma_entry_count(node: Node, path: Seq<Seq<char>>)
    ensures
        doc_entries(node, path).len() == leaf_count(node),
    decreases node, 0nat,
{
    match node {
        Node::Mapping(pairs) => lemma_pairs_entry_count(pairs@, pairs@.len(), path),
        _ => {},
    }
}

/// The entries of the first `n` pairs of a mapping are as many as the
/// leaves that they reach through usable keys.
pub proof fn lemma_pairs_entry_count(pairs: Seq<(Key, Node)>, n: nat, path: Seq<Seq<char>>)
    ensures
        pairs_entries(pairs, n, path).len() == pairs_leaf_count(pairs, n),
    decreases pairs, n,
{
    if n == 0 || n > pairs.len() {
    } else {
        lemma_pairs_entry_count(pairs, (n - 1) as nat, path);
        let child = pairs[n - 1].1;
        if usable_key(pairs[n - 1].0) && child is Mapping {
            let t = key_text(pairs[n - 1].0)->0;
            vstd::seq::axiom_seq_index_decreases(pairs, n - 1);
            lemma_entry_count(child, path.push(t));
        }
    }
}

/// Two mappings that agree on their first `n` pairs yield the same entries
/// from them.
pub proof fn lemma_pairs_entries_prefix(a: Seq<(Key, Node)>, b: Seq<(Key, Node)>, n: nat, path: Seq<Seq<char>>)
    requires
        n <= a.len(),
        n <= b.len(),
        a.take(n as int) == b.take(n as int),
    ensures
        pairs_entries(a, n, path) == pairs_entries(b, n, path),
    decreases n,
{
    if n > 0 {
        assert(a[n - 1] == a.take(n as int)[n - 1]);
        assert(b[n - 1] == b.take(n as int)[n - 1]);
        assert(a.take(n - 1) =~= a.take(n as int).take(n - 1));
        assert(b.take(n - 1) =~= b.take(n as int).take(n - 1));
        lemma_pairs_entries_prefix(a, b, (n - 1) as nat, path);
    }
}

/// A pair whose key holds a `.` adds nothing to a mapping's entries,
/// whatever its value: its key is never an identifier, and a mapping under
/// it is never visited.
pub proof fn lemma_dotted_key_skipped(pairs: Seq<(Key, Node)>, i: int, path: Seq<Seq<char>>)
    requires
        0 <= i < pairs.len(),
        key_text(pairs[i].0) is Some,
        key_text(pairs[i].0)->0.contains('.'),
    ensures
        pairs_entries(pairs.remove(i), (pairs.len() - 1) as nat, path) == pairs_entries(pairs, pairs.len(), path),
{
    lemma_dotted_key_skipped_upto(pairs, i, pairs.len(), path);
}

proof fn lemma_dotted_key_skipped_upto(pairs: Seq<(Key, Node)>, i: int, n: nat, path: Seq<Seq<char>>)
    requires
        0 <= i < n <= pairs.len(),
        key_text(pairs[i].0) is Some,
        key_text(pairs[i].0)->0.contains('.'),
    ensures
        pairs_entries(pairs.remove(i), (n - 1) as nat, path) == pairs_entries(pairs, n, path),
    decreases n,
{
    let rest = pairs.remove(i);
    if n == i + 1 {
        assert(rest.take(i) =~= pairs.take(i));
        lemma_pairs_entries_prefix(rest, pairs, i as nat, path);
        assert(pairs_entries(pairs, n, path) =~= pairs_entries(pairs, i as nat, path));
    } else {
        lemma_dotted_key_skipped_upto(pairs, i, (n - 1) as nat, path);
        assert(rest[n - 2] == pairs[n - 1]);
    }
}

/// Whether no identifier of `a` is an identifier of `b`.
pub open spec fn disjoint_ids(a: Seq<Entry>, b: Seq<Entry>) -> bool {
    forall|x: int, y: int| 0 <= x < a.len() && 0 <= y < b.len() ==> a[x].0 != b[y].0
}

/// An insertion under an identifier that `b` never uses survives `b`.
pub proof fn lemma_insert_survives(m: Map<Seq<char>, Seq<char>>, id: Seq<char>, text: Seq<char>, b: Seq<Entry>)
    requires
        forall|y: int| 0 <= y < b.len() ==> b[y].0 != id,
    ensures
        insert_all(m.insert(id, text), b) == insert_all(m, b).insert(id, text),
    decreases b.len(),
{
    if b.len() == 0 {
    } else {
        lemma_insert_survives(m, id, text, b.drop_last());
        assert(insert_all(m.insert(id, text), b) =~= insert_all(m, b).insert(id, text));
    }
}

/// Entries with disjoint identifiers can be inserted in either order.
pub proof fn lemma_disjoint_commute(m: Map<Seq<char>, Seq<char>>, a: Seq<Entry>, b: Seq<Entry>)
    requires
        disjoint_ids(a, b),
    ensures
        insert_all(insert_all(m, a), b) == insert_all(insert_all(m, b), a),
    decreases a.len(),
{
    if a.len() > 0 {
        let e = a.last();
        assert(disjoint_ids(a.drop_last(), b));
        lemma_disjoint_commute(m, a.drop_last(), b);
        assert forall|y: int| 0 <= y < b.len() implies b[y].0 != e.0 by {
            assert(a[a.len() - 1] == e);
        }
        lemma_insert_survives(insert_all(m, a.drop_last()), e.0, e.1, b);
    }
}

/// Whether `s` holds a `.`.
pub fn has_dot(s: &str) -> (r: bool)
    ensures
        r == s@.contains('.'),
{
    let n = s.unicode_len();
    let mut i: usize = 0;
    while i < n
        invariant
            n == s@.len(),
            i <= n,
            forall|j: int| 0 <= j < i ==> s@[j] != '.',
        decreases n - i,
    {
        if s.get_char(i) == '.' {
            return true;
        }
        i += 1;
    }
    false
}

/// Flattens `node` into `table`, below the path that `tracker` holds; the
/// tracker is back at that path afterwards.
pub fn flatten(node: &Node, table: &mut StringHashMap<String>, tracker: &mut PathTracker)
    ensures
        table_view(*final(table)) == insert_all(table_view(*old(table)), doc_entries(*node, old(tracker)@)),
        final(tracker)@ == old(tracker)@,
    decreases node,
{
    match node {
        Node::Mapping(pairs) => {
            let ghost path = tracker@;
            let mut i: usize = 0;
            while i < pairs.len()
                invariant
                    i <= pairs.len(),
                    tracker@ == path,
                    path == old(tracker)@,
                    *node == Node::Mapping(*pairs),
                    table_view(*table) == insert_all(table_view(*old(table)), pairs_entries(pairs@, i as nat, path)),
                decreases pairs.len() - i,
            {
                let pair = &pairs[i];
                let ghost before = table_view(*table);
                match key_to_text(&pair.0) {
                    None => {
                        assert(pairs_entries(pairs@, (i + 1) as nat, path) =~= pairs_entries(pairs@, i as nat, path));
                    },
                    Some(t) => {
                        if has_dot(t.as_str()) {
                            assert(pairs_entries(pairs@, (i + 1) as nat, path) =~= pairs_entries(pairs@, i as nat, path));
                        } else {
                            match &pair.1 {
                                Node::Mapping(_) => {
                                    proof {
                                        assert(decreases_to!(*node => node->Mapping_0));
                                        assert(decreases_to!(*node => pairs@));
                                        vstd::seq::axiom_seq_index_decreases(pairs@, i as int);
                                        assert(decreases_to!(*pair => pair.1));
                                    }
                                    tracker.enter(t);
                                    flatten(&pair.1, table, tracker);
                                    tracker.leave();
                                    assert(tracker@ =~= path);
                                    assert(pairs_entries(pairs@, (i + 1) as nat, path) == pairs_entries(pairs@, i as nat, path) + doc_entries(pair.1, path.push(t@)));
                                    proof {
                                        lemma_insert_all_concat(
                                            table_view(*old(table)),
                                            pairs_entries(pairs@, i as nat, path),
                                            doc_entries(pair.1, path.push(t@)),
                                        );
                                    }
                                },
                                _ => {
                                    let id = tracker.identifier(t.as_str());
                                    let text = scalar_to_text(&pair.1);
                                    table.insert(id, text);
                                    assert(table_view(*table) =~= before.insert(id@, text@));
                                    assert(pairs_entries(pairs@, (i + 1) as nat, path) == pairs_entries(pairs@, i as nat, path) + seq![(id@, text@)]);
                                    assert(seq![(id@, text@)].drop_last() =~= Seq::<Entry>::empty());
                                    assert(insert_all(before, Seq::<Entry>::empty()) == before);
                                    assert(insert_all(before, seq![(id@, text@)]) == before.insert(id@, text@));
                                    proof {
                                        lemma_insert_all_concat(
                                            table_view(*old(table)),
                                            pairs_entries(pairs@, i as nat, path),
                                            seq![(id@, text@)],
                                        );
                                    }
                                },
                            }
                        }
                    },
                }
                i += 1;
            }
        },
        _ => {},
    }
}

/// Flattens one document into `table`, starting from its root.
pub fn flatten_document(node: &Node, table: &mut StringHashMap<String>)
    ensures
        table_view(*final(table)) == insert_all(table_view(*old(table)), doc_entries(*node, Seq::empty())),
{
    let mut tracker = PathTracker::new();
    flatten(node, table, &mut tracker);
}

} // verus!
