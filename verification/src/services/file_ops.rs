//! File operations inside WSL: the parsing and editing around the commands.
use vstd::prelude::*;
use vstd::string::StringSliceAdditionalSpecFns;

use crate::text::{
    append_chars, append_str, chars_eq, chars_eq_str, chars_of, contains, contains_seq,
    decimal, decimal_string, join, join_strings, keep_some, lemma_keep_some_end,
    lemma_keep_some_append, lemma_keep_some_filter, lemma_keep_some_from, lemma_keep_some_has,
    lemma_keep_some_step, lemma_split_from_nonempty, lines, lines_of, parse_unsigned, parse_unsigned_chars, replace_all,
    replace_chars, slice_chars, split_char, split_char_exec, split_once, split_once_chars,
    splitn, splitn_exec, string_from, strip_prefix, strip_prefix_exec, trim, trim_chars,
    trim_end_char, trim_end_char_exec, trim_start_char, trim_start_char_exec, truncate,
    truncate_chars, views, words, words_of,
};

verus! {

broadcast use vstd::string::group_string_axioms;

#[derive(Debug)]
pub struct FileInfo {
    pub path: String,
    pub size: u64,
    pub permissions: String,
    pub modified: String,
    pub file_type: String,
}

#[derive(Debug)]
pub struct DirEntry {
    pub name: String,
    pub entry_type: String,
    pub size: Option<u64>,
    pub modified: Option<String>,
}

#[derive(Debug)]
pub struct SearchMatch {
    pub file: String,
    pub line: u32,
    pub content: String,
}

#[derive(Debug)]
pub struct EditResult {
    pub success: bool,
    pub diff: Option<String>,
    pub message: String,
}

#[derive(Debug, Clone)]
pub struct EditOp {
    pub old_text: String,
    pub new_text: String,
}

#[derive(Debug)]
pub struct TreeEntry {
    pub name: String,
    pub entry_type: String,
    pub children: Option<Vec<TreeEntry>>,
}

/// A tree entry as a value: its name, its type and, for a directory that
/// was descended into, its children in order.
pub struct TreeNode {
    pub name: Seq<char>,
    pub entry_type: Seq<char>,
    pub children: Option<Seq<TreeNode>>,
}

/// The value of an entry and of everything below it.
pub open spec fn node_view(e: TreeEntry) -> TreeNode
    decreases e,
{
    TreeNode {
        name: e.name@,
        entry_type: e.entry_type@,
        children: match e.children {
            Some(c) => Some(nodes_view(c@)),
            None => None,
        },
    }
}

/// The values of a list of entries, in order.
pub open spec fn nodes_view(es: Seq<TreeEntry>) -> Seq<TreeNode>
    decreases es,
{
    if es.len() == 0 {
        Seq::empty()
    } else {
        nodes_view(es.drop_last()).push(node_view(es.last()))
    }
}

/// Index of the first node named `n`.
pub open spec fn first_node(ns: Seq<TreeNode>, n: Seq<char>) -> Option<int> {
    if exists|i: int| 0 <= i < ns.len() && ns[i].name == n && forall|j: int| 0 <= j < i ==> ns[j].name != n {
        Some(choose|i: int| 0 <= i < ns.len() && ns[i].name == n && forall|j: int| 0 <= j < i ==> ns[j].name != n)
    } else {
        None
    }
}

/// The children of a node; none when it was not descended into.
pub open spec fn kids(nd: TreeNode) -> Seq<TreeNode> {
    match nd.children {
        Some(c) => c,
        None => Seq::empty(),
    }
}

/// The tree `ns` with the path `p` added: when the first name of `p` is not
/// among the entries, a new entry is added at the end (the last name of `p`
/// gets type `ty` and no children, the others type `DIR`); when it is, the
/// first entry of that name is kept as it is for a one-name path, and
/// otherwise gets the rest of `p` added to its children (an empty list when
/// it had none).
pub open spec fn insert_spec(ns: Seq<TreeNode>, p: Seq<Seq<char>>, ty: Seq<char>) -> Seq<TreeNode>
    decreases p.len(),
{
    if p.len() == 0 {
        ns
    } else {
        match first_node(ns, p[0]) {
            Some(i) => if p.len() == 1 {
                ns
            } else {
                ns.update(
                    i,
                    TreeNode {
                        name: ns[i].name,
                        entry_type: ns[i].entry_type,
                        children: Some(insert_spec(kids(ns[i]), p.drop_first(), ty)),
                    },
                )
            },
            None => if p.len() == 1 {
                ns.push(TreeNode { name: p[0], entry_type: ty, children: None })
            } else {
                ns.push(
                    TreeNode {
                        name: p[0],
                        entry_type: "DIR"@,
                        children: Some(insert_spec(Seq::empty(), p.drop_first(), ty)),
                    },
                )
            },
        }
    }
}

/// The names of `ns` are pairwise distinct.
pub open spec fn distinct_names(ns: Seq<TreeNode>) -> bool {
    forall|i: int, j: int| 0 <= i < j < ns.len() ==> ns[i].name != ns[j].name
}

/// The names are pairwise distinct in `ns` and in every list of children
/// below it.
pub open spec fn distinct_tree(ns: Seq<TreeNode>) -> bool
    decreases ns,
{
    &&& distinct_names(ns)
    &&& forall|i: int| 0 <= i < ns.len() ==> match #[trigger] ns[i].children {
        Some(c) => distinct_tree(c),
        None => true,
    }
}

/// Index of the first entry named `n`.
pub open spec fn first_named(es: Seq<TreeEntry>, n: Seq<char>) -> Option<int> {
    if exists|i: int| 0 <= i < es.len() && es[i].name@ == n && forall|j: int| 0 <= j < i ==> es[j].name@ != n {
        Some(choose|i: int| 0 <= i < es.len() && es[i].name@ == n && forall|j: int| 0 <= j < i ==> es[j].name@ != n)
    } else {
        None
    }
}

/// The entry reached by following the names of `p` from `es`, taking the
/// first entry of each name.
pub open spec fn node_at(es: Seq<TreeEntry>, p: Seq<Seq<char>>) -> Option<TreeEntry>
    decreases p.len(),
{
    if p.len() == 0 {
        None
    } else {
        match first_named(es, p[0]) {
            None => None,
            Some(i) => if p.len() == 1 {
                Some(es[i])
            } else {
                match es[i].children {
                    Some(c) => node_at(c@, p.drop_first()),
                    None => None,
                }
            },
        }
    }
}

/// `q` is one of `p`'s non-empty prefixes.
pub open spec fn is_path_prefix(q: Seq<Seq<char>>, p: Seq<Seq<char>>) -> bool {
    1 <= q.len() <= p.len() && p.take(q.len() as int) == q
}

pub open spec fn parts_view(parts: Seq<&str>) -> Seq<Seq<char>> {
    parts.map_values(|s: &str| s@)
}

proof fn lemma_first_named_unique(es: Seq<TreeEntry>, n: Seq<char>, i: int)
    requires
        0 <= i < es.len(),
        es[i].name@ == n,
        forall|j: int| 0 <= j < i ==> es[j].name@ != n,
    ensures
        first_named(es, n) == Some(i),
{
    let k = choose|k: int| 0 <= k < es.len() && es[k].name@ == n && forall|j: int| 0 <= j < k ==> es[j].name@ != n;
    assert(k == i) by {
        if k < i {
        } else if k > i {
            assert(es[i].name@ != n);
        }
    }
}

proof fn lemma_first_named_none(es: Seq<TreeEntry>, n: Seq<char>)
    requires
        forall|j: int| 0 <= j < es.len() ==> es[j].name@ != n,
    ensures
        first_named(es, n) is None,
{
}

proof fn lemma_first_named_some(es: Seq<TreeEntry>, n: Seq<char>)
    requires
        first_named(es, n) is Some,
    ensures
        0 <= first_named(es, n)->0 < es.len(),
        es[first_named(es, n)->0].name@ == n,
        forall|j: int| 0 <= j < first_named(es, n)->0 ==> es[j].name@ != n,
{
}

/// Changing one entry for another of the same name, or adding an entry of a
/// new name at the end, leaves the first entry of every other name where it was.
proof fn lemma_first_named_other(es: Seq<TreeEntry>, fs: Seq<TreeEntry>, changed: Seq<char>, m: Seq<char>)
    requires
        m != changed,
        es.len() <= fs.len(),
        forall|j: int| 0 <= j < es.len() ==> (fs[j].name@ == es[j].name@ || (es[j].name@ == changed && fs[j].name@ == changed)),
        forall|j: int| es.len() <= j < fs.len() ==> fs[j].name@ == changed,
    ensures
        first_named(fs, m) == first_named(es, m),
        first_named(es, m) matches Some(i) ==> fs[i].name@ == es[i].name@,
{
    if first_named(es, m) is Some {
        lemma_first_named_some(es, m);
        let i = first_named(es, m)->0;
        assert forall|j: int| 0 <= j < i implies fs[j].name@ != m by {
            assert(es[j].name@ != m);
        }
        lemma_first_named_unique(fs, m, i);
    } else {
        assert forall|j: int| 0 <= j < fs.len() implies fs[j].name@ != m by {
            if j < es.len() {
                if es[j].name@ == m {
                    let k = choose|k: int| 0 <= k <= j && es[k].name@ == m && forall|l: int| 0 <= l < k ==> es[l].name@ != m;
                    lemma_least_named(es, m, j);
                }
            }
        }
        lemma_first_named_none(fs, m);
    }
}

/// If some entry is named `m`, a first one is.
proof fn lemma_least_named(es: Seq<TreeEntry>, m: Seq<char>, j: int)
    requires
        0 <= j < es.len(),
        es[j].name@ == m,
    ensures
        first_named(es, m) is Some,
    decreases j,
{
    if exists|k: int| 0 <= k < j && es[k].name@ == m {
        let k = choose|k: int| 0 <= k < j && es[k].name@ == m;
        lemma_least_named(es, m, k);
    } else {
        lemma_first_named_unique(es, m, j);
    }
}

/// Nothing is reached in an empty list.
proof fn lemma_node_at_empty(p: Seq<Seq<char>>)
    ensures
        node_at(Seq::<TreeEntry>::empty(), p) is None,
{
}

/// The entries reached in `fs` and `es` through names other than `changed`
/// are the same, when `fs` differs from `es` only in entries named
/// `changed` and in entries of that name added at the end.
proof fn lemma_node_at_other(es: Seq<TreeEntry>, fs: Seq<TreeEntry>, changed: Seq<char>, q: Seq<Seq<char>>)
    requires
        q.len() > 0,
        q[0] != changed,
        es.len() <= fs.len(),
        forall|j: int| 0 <= j < es.len() ==> (fs[j] == es[j] || (es[j].name@ == changed && fs[j].name@ == changed)),
        forall|j: int| es.len() <= j < fs.len() ==> fs[j].name@ == changed,
    ensures
        node_at(fs, q) == node_at(es, q),
{
    lemma_first_named_other(es, fs, changed, q[0]);
    if first_named(es, q[0]) is Some {
        lemma_first_named_some(es, q[0]);
        let i = first_named(es, q[0])->0;
        assert(fs[i] == es[i]);
    }
}

/// The entries of `old` stay where they were, with their names and types, and
/// at most one entry is added at the end.
pub open spec fn kept_in_place(old: Seq<TreeEntry>, new: Seq<TreeEntry>) -> bool {
    &&& old.len() <= new.len() <= old.len() + 1
    &&& forall|i: int| 0 <= i < old.len() ==> (#[trigger] new[i]).name@ == old[i].name@
        && new[i].entry_type@ == old[i].entry_type@
}

/// What inserting `p` into `old` gives, in the terms the contract uses.
pub open spec fn inserted(old: Seq<TreeEntry>, new: Seq<TreeEntry>, p: Seq<Seq<char>>, ty: Seq<char>) -> bool {
    &&& forall|q: Seq<Seq<char>>| (#[trigger] node_at(new, q) is Some) <==> (node_at(old, q) is Some || is_path_prefix(q, p))
    &&& forall|q: Seq<Seq<char>>| #[trigger] node_at(old, q) is Some ==> node_at(new, q) is Some
        && node_at(new, q)->0.name@ == node_at(old, q)->0.name@
        && node_at(new, q)->0.entry_type@ == node_at(old, q)->0.entry_type@
    &&& forall|q: Seq<Seq<char>>| #[trigger] is_path_prefix(q, p) && node_at(old, q) is None ==> node_at(new, q) is Some
        && node_at(new, q)->0.name@ == q.last()
        && node_at(new, q)->0.entry_type@ == (if q.len() == p.len() { ty } else { "DIR"@ })
}

proof fn lemma_first_named_none_all(es: Seq<TreeEntry>, n: Seq<char>)
    requires
        first_named(es, n) is None,
    ensures
        forall|j: int| 0 <= j < es.len() ==> es[j].name@ != n,
{
    assert forall|j: int| 0 <= j < es.len() implies es[j].name@ != n by {
        if es[j].name@ == n {
            lemma_least_named(es, n, j);
        }
    }
}

proof fn lemma_prefix_step(q: Seq<Seq<char>>, p: Seq<Seq<char>>)
    requires
        q.len() > 1,
        p.len() > 1,
        q[0] == p[0],
    ensures
        is_path_prefix(q, p) <==> is_path_prefix(q.drop_first(), p.drop_first()),
{
    if is_path_prefix(q, p) {
        assert(p.drop_first().take(q.len() - 1) =~= q.drop_first());
    }
    if is_path_prefix(q.drop_first(), p.drop_first()) {
        assert forall|i: int| 0 <= i < q.len() implies p.take(q.len() as int)[i] == q[i] by {
            if i > 0 {
                assert(p.drop_first().take(q.len() - 1)[i - 1] == q.drop_first()[i - 1]);
            }
        }
        assert(p.take(q.len() as int) =~= q);
    }
}

/// Inserting a one-name path whose name is already there changes nothing.
proof fn lemma_insert_existing_leaf(es: Seq<TreeEntry>, p: Seq<Seq<char>>, ty: Seq<char>)
    requires
        p.len() == 1,
        first_named(es, p[0]) is Some,
    ensures
        inserted(es, es, p, ty),
{
    assert forall|q: Seq<Seq<char>>| is_path_prefix(q, p) implies node_at(es, q) is Some by {
        assert(q =~= p);
    }
}

/// Inserting a one-name path whose name is missing adds a leaf at the end.
proof fn lemma_insert_new_leaf(old_es: Seq<TreeEntry>, leaf: TreeEntry, p: Seq<Seq<char>>, ty: Seq<char>)
    requires
        p.len() == 1,
        first_named(old_es, p[0]) is None,
        leaf.name@ == p[0],
        leaf.entry_type@ == ty,
        leaf.children is None,
    ensures
        inserted(old_es, old_es.push(leaf), p, ty),
{
    let es = old_es.push(leaf);
    let n = p[0];
    lemma_first_named_none_all(old_es, n);
    assert forall|j: int| 0 <= j < old_es.len() implies es[j].name@ != n by {
        assert(es[j] == old_es[j]);
    }
    lemma_first_named_unique(es, n, old_es.len() as int);
    assert forall|q: Seq<Seq<char>>| #![auto] q.len() > 0 && q[0] != n implies node_at(es, q) == node_at(old_es, q) by {
        lemma_node_at_other(old_es, es, n, q);
    }
    assert forall|q: Seq<Seq<char>>| (#[trigger] node_at(es, q) is Some) <==> (node_at(old_es, q) is Some || is_path_prefix(q, p)) by {
        if q.len() > 0 && q[0] == n {
            if q.len() == 1 {
                assert(q =~= p);
                assert(p.take(1) =~= p);
            } else {
                assert(!is_path_prefix(q, p));
            }
        } else if q.len() > 0 {
            if is_path_prefix(q, p) {
                assert(p.take(q.len() as int)[0] == p[0]);
            }
        }
    }
    assert forall|q: Seq<Seq<char>>| #[trigger] is_path_prefix(q, p) && node_at(old_es, q) is None implies node_at(es, q) is Some
        && node_at(es, q)->0.name@ == q.last()
        && node_at(es, q)->0.entry_type@ == (if q.len() == p.len() { ty } else { "DIR"@ }) by {
        assert(q =~= p);
    }
}

/// Inserting a longer path under an entry that is there: the entry keeps its
/// name and type, and the rest of the path goes into its children.
proof fn lemma_insert_below(
    old_es: Seq<TreeEntry>,
    idx: int,
    e2: TreeEntry,
    ch0: Seq<TreeEntry>,
    ch: Seq<TreeEntry>,
    p: Seq<Seq<char>>,
    ty: Seq<char>,
)
    requires
        p.len() > 1,
        first_named(old_es, p[0]) == Some(idx),
        e2.name@ == old_es[idx].name@,
        e2.entry_type@ == old_es[idx].entry_type@,
        e2.children matches Some(c) && c@ == ch,
        ch0 == (match old_es[idx].children {
            Some(c) => c@,
            None => Seq::<TreeEntry>::empty(),
        }),
        inserted(ch0, ch, p.drop_first(), ty),
    ensures
        inserted(old_es, old_es.update(idx, e2), p, ty),
{
    let es = old_es.update(idx, e2);
    let n = p[0];
    let rest = p.drop_first();
    lemma_first_named_some(old_es, n);
    assert forall|j: int| 0 <= j < idx implies es[j].name@ != n by {
        assert(es[j] == old_es[j]);
    }
    lemma_first_named_unique(es, n, idx);
    assert forall|q: Seq<Seq<char>>| #![auto] q.len() > 0 && q[0] != n implies node_at(es, q) == node_at(old_es, q) by {
        lemma_node_at_other(old_es, es, n, q);
    }
    assert forall|r: Seq<Seq<char>>| #![auto] node_at(ch0, r) == (match old_es[idx].children {
        Some(c) => node_at(c@, r),
        None => None,
    }) by {
        if old_es[idx].children is None {
            lemma_node_at_empty(r);
        }
    }
    assert forall|q: Seq<Seq<char>>| (#[trigger] node_at(es, q) is Some) <==> (node_at(old_es, q) is Some || is_path_prefix(q, p)) by {
        if q.len() > 1 && q[0] == n {
            lemma_prefix_step(q, p);
            assert(node_at(es, q) == node_at(ch, q.drop_first()));
            assert(node_at(old_es, q) == node_at(ch0, q.drop_first()));
            assert(node_at(ch, q.drop_first()) is Some <==> (node_at(ch0, q.drop_first()) is Some || is_path_prefix(q.drop_first(), rest)));
        } else if q.len() == 1 && q[0] == n {
            assert(p.take(1) =~= q);
        }
    }
    assert forall|q: Seq<Seq<char>>| #[trigger] node_at(old_es, q) is Some implies node_at(es, q) is Some
        && node_at(es, q)->0.name@ == node_at(old_es, q)->0.name@
        && node_at(es, q)->0.entry_type@ == node_at(old_es, q)->0.entry_type@ by {
        if q.len() > 1 && q[0] == n {
            assert(node_at(es, q) == node_at(ch, q.drop_first()));
            assert(node_at(old_es, q) == node_at(ch0, q.drop_first()));
            assert(node_at(ch0, q.drop_first()) is Some);
        }
    }
    assert forall|q: Seq<Seq<char>>| #[trigger] is_path_prefix(q, p) && node_at(old_es, q) is None implies node_at(es, q) is Some
        && node_at(es, q)->0.name@ == q.last()
        && node_at(es, q)->0.entry_type@ == (if q.len() == p.len() { ty } else { "DIR"@ }) by {
        assert(q[0] == p[0]);
        if q.len() > 1 {
            let r = q.drop_first();
            lemma_prefix_step(q, p);
            assert(node_at(es, q) == node_at(ch, r));
            assert(node_at(old_es, q) == node_at(ch0, r));
            assert(is_path_prefix(r, rest));
            assert(r.last() == q.last());
        }
    }
}

/// Inserting a longer path whose first name is missing: a directory entry is
/// added at the end, with the rest of the path below it.
proof fn lemma_insert_new_dir(
    old_es: Seq<TreeEntry>,
    dir: TreeEntry,
    ch: Seq<TreeEntry>,
    p: Seq<Seq<char>>,
    ty: Seq<char>,
)
    requires
        p.len() > 1,
        first_named(old_es, p[0]) is None,
        dir.name@ == p[0],
        dir.entry_type@ == "DIR"@,
        dir.children matches Some(c) && c@ == ch,
        inserted(Seq::<TreeEntry>::empty(), ch, p.drop_first(), ty),
    ensures
        inserted(old_es, old_es.push(dir), p, ty),
{
    let es = old_es.push(dir);
    let n = p[0];
    let rest = p.drop_first();
    let ch0 = Seq::<TreeEntry>::empty();
    lemma_first_named_none_all(old_es, n);
    assert forall|j: int| 0 <= j < old_es.len() implies es[j].name@ != n by {
        assert(es[j] == old_es[j]);
    }
    lemma_first_named_unique(es, n, old_es.len() as int);
    assert forall|q: Seq<Seq<char>>| #![auto] q.len() > 0 && q[0] != n implies node_at(es, q) == node_at(old_es, q) by {
        lemma_node_at_other(old_es, es, n, q);
    }
    assert forall|r: Seq<Seq<char>>| #![auto] node_at(ch0, r) is None by {
        lemma_node_at_empty(r);
    }
    assert forall|q: Seq<Seq<char>>| (#[trigger] node_at(es, q) is Some) <==> (node_at(old_es, q) is Some || is_path_prefix(q, p)) by {
        if q.len() > 1 && q[0] == n {
            lemma_prefix_step(q, p);
            assert(node_at(es, q) == node_at(ch, q.drop_first()));
            assert(node_at(ch, q.drop_first()) is Some <==> (node_at(ch0, q.drop_first()) is Some || is_path_prefix(q.drop_first(), rest)));
        } else if q.len() == 1 && q[0] == n {
            assert(p.take(1) =~= q);
        }
    }
    assert forall|q: Seq<Seq<char>>| #[trigger] node_at(old_es, q) is Some implies node_at(es, q) is Some
        && node_at(es, q)->0.name@ == node_at(old_es, q)->0.name@
        && node_at(es, q)->0.entry_type@ == node_at(old_es, q)->0.entry_type@ by {
        if q.len() > 0 && q[0] == n {
            assert(node_at(old_es, q) is None);
        }
    }
    assert forall|q: Seq<Seq<char>>| #[trigger] is_path_prefix(q, p) && node_at(old_es, q) is None implies node_at(es, q) is Some
        && node_at(es, q)->0.name@ == q.last()
        && node_at(es, q)->0.entry_type@ == (if q.len() == p.len() { ty } else { "DIR"@ }) by {
        assert(q[0] == p[0]);
        if q.len() > 1 {
            let r = q.drop_first();
            lemma_prefix_step(q, p);
            assert(node_at(es, q) == node_at(ch, r));
            assert(is_path_prefix(r, rest));
            assert(node_at(ch0, r) is None);
            assert(r.last() == q.last());
        }
    }
}

/// The values of a list of entries are the values of its entries.
proof fn lemma_nodes_view(es: Seq<TreeEntry>)
    ensures
        nodes_view(es).len() == es.len(),
        forall|i: int| 0 <= i < es.len() ==> #[trigger] nodes_view(es)[i] == node_view(es[i]),
    decreases es.len(),
{
    if es.len() > 0 {
        lemma_nodes_view(es.drop_last());
    }
}

/// Adding an entry at the end adds its value at the end.
proof fn lemma_nodes_view_push(es: Seq<TreeEntry>, e: TreeEntry)
    ensures
        nodes_view(es.push(e)) == nodes_view(es).push(node_view(e)),
{
    assert(es.push(e).drop_last() =~= es);
}

/// Changing one entry changes its value alone.
proof fn lemma_nodes_view_update(es: Seq<TreeEntry>, i: int, e: TreeEntry)
    requires
        0 <= i < es.len(),
    ensures
        nodes_view(es.update(i, e)) == nodes_view(es).update(i, node_view(e)),
{
    lemma_nodes_view(es);
    lemma_nodes_view(es.update(i, e));
    assert(nodes_view(es.update(i, e)) =~= nodes_view(es).update(i, node_view(e)));
}

proof fn lemma_first_node_unique(ns: Seq<TreeNode>, n: Seq<char>, i: int)
    requires
        0 <= i < ns.len(),
        ns[i].name == n,
        forall|j: int| 0 <= j < i ==> ns[j].name != n,
    ensures
        first_node(ns, n) == Some(i),
{
    let k = choose|k: int| 0 <= k < ns.len() && ns[k].name == n && forall|j: int| 0 <= j < k ==> ns[j].name != n;
    assert(k == i) by {
        if k > i {
            assert(ns[i].name != n);
        }
    }
}

/// If some node is named `n`, a first one is.
proof fn lemma_least_node(ns: Seq<TreeNode>, n: Seq<char>, j: int)
    requires
        0 <= j < ns.len(),
        ns[j].name == n,
    ensures
        first_node(ns, n) is Some,
    decreases j,
{
    if exists|k: int| 0 <= k < j && ns[k].name == n {
        let k = choose|k: int| 0 <= k < j && ns[k].name == n;
        lemma_least_node(ns, n, k);
    } else {
        lemma_first_node_unique(ns, n, j);
    }
}

proof fn lemma_first_node_none_all(ns: Seq<TreeNode>, n: Seq<char>)
    requires
        first_node(ns, n) is None,
    ensures
        forall|j: int| 0 <= j < ns.len() ==> ns[j].name != n,
{
    assert forall|j: int| 0 <= j < ns.len() implies ns[j].name != n by {
        if ns[j].name == n {
            lemma_least_node(ns, n, j);
        }
    }
}

/// The first entry of a name in a list is the first node of that name in
/// its values.
proof fn lemma_first_node_view(es: Seq<TreeEntry>, n: Seq<char>)
    ensures
        first_node(nodes_view(es), n) == first_named(es, n),
{
    lemma_nodes_view(es);
    let ns = nodes_view(es);
    if first_named(es, n) is Some {
        lemma_first_named_some(es, n);
        let i = first_named(es, n)->0;
        assert forall|j: int| 0 <= j < i implies ns[j].name != n by {
            assert(ns[j] == node_view(es[j]));
        }
        lemma_first_node_unique(ns, n, i);
    } else {
        lemma_first_named_none_all(es, n);
        assert forall|j: int| 0 <= j < ns.len() implies ns[j].name != n by {
            assert(ns[j] == node_view(es[j]));
        }
    }
}

/// After the name `n` was given to node `i`, or to a node added at the end
/// of a list that lacked it, that node is the first of its name.
proof fn lemma_first_node_after(ns: Seq<TreeNode>, ms: Seq<TreeNode>, n: Seq<char>, i: int)
    requires
        0 <= i < ms.len(),
        ms[i].name == n,
        ns.len() <= ms.len(),
        forall|j: int| 0 <= j < i ==> ms[j].name == ns[j].name,
        first_node(ns, n) == Some(i) || (first_node(ns, n) is None && i == ns.len()),
    ensures
        first_node(ms, n) == Some(i),
{
    if first_node(ns, n) is None {
        lemma_first_node_none_all(ns, n);
    }
    assert forall|j: int| 0 <= j < i implies ms[j].name != n by {
        assert(ms[j].name == ns[j].name);
    }
    lemma_first_node_unique(ms, n, i);
}

/// Adding a path a second time changes nothing, whatever type is asked for
/// the second time.
pub proof fn lemma_insert_idempotent(ns: Seq<TreeNode>, p: Seq<Seq<char>>, ty1: Seq<char>, ty2: Seq<char>)
    ensures
        insert_spec(insert_spec(ns, p, ty1), p, ty2) == insert_spec(ns, p, ty1),
    decreases p.len(),
{
    let mid = insert_spec(ns, p, ty1);
    if p.len() > 0 {
        let n = p[0];
        let rest = p.drop_first();
        match first_node(ns, n) {
            Some(i) => {
                if p.len() > 1 {
                    lemma_first_node_after(ns, mid, n, i);
                    lemma_insert_idempotent(kids(ns[i]), rest, ty1, ty2);
                    assert(mid.update(i, mid[i]) =~= mid);
                }
            },
            None => {
                let i = ns.len() as int;
                lemma_first_node_after(ns, mid, n, i);
                if p.len() > 1 {
                    lemma_insert_idempotent(Seq::empty(), rest, ty1, ty2);
                    assert(mid.update(i, mid[i]) =~= mid);
                }
            },
        }
    }
}

/// Adding a path to a tree whose sibling names are distinct at every level
/// keeps them distinct.
pub proof fn lemma_insert_keeps_distinct(ns: Seq<TreeNode>, p: Seq<Seq<char>>, ty: Seq<char>)
    requires
        distinct_tree(ns),
    ensures
        distinct_tree(insert_spec(ns, p, ty)),
    decreases p.len(),
{
    let r = insert_spec(ns, p, ty);
    let empty = Seq::<TreeNode>::empty();
    assert(distinct_tree(empty));
    if p.len() > 0 {
        let n = p[0];
        let rest = p.drop_first();
        match first_node(ns, n) {
            Some(i) => {
                if p.len() > 1 {
                    assert(ns[i].children matches Some(c) ==> distinct_tree(c));
                    lemma_insert_keeps_distinct(kids(ns[i]), rest, ty);
                    assert forall|j: int| 0 <= j < r.len() implies match #[trigger] r[j].children {
                        Some(c) => distinct_tree(c),
                        None => true,
                    } by {
                        if j != i {
                            assert(r[j] == ns[j]);
                        }
                    }
                }
            },
            None => {
                lemma_first_node_none_all(ns, n);
                if p.len() > 1 {
                    lemma_insert_keeps_distinct(empty, rest, ty);
                }
                assert forall|j: int| 0 <= j < r.len() implies match #[trigger] r[j].children {
                    Some(c) => distinct_tree(c),
                    None => true,
                } by {
                    if j < ns.len() {
                        assert(r[j] == ns[j]);
                    }
                }
            },
        }
    }
}

pub struct FileOpsService;

impl FileOpsService {
    /// Index of the first entry named `name`.
    fn find_entry(entries: &Vec<TreeEntry>, name: &str) -> (r: Option<usize>)
        ensures
            match r {
                Some(i) => first_named(entries@, name@) == Some(i as int),
                None => first_named(entries@, name@) is None,
            },
    {
        let n = chars_of(name);
        for i in 0..entries.len()
            invariant
                n@ == name@,
                forall|j: int| 0 <= j < i ==> entries@[j].name@ != name@,
        {
            let en = chars_of(entries[i].name.as_str());
            if crate::text::chars_eq(&en, &n) {
                proof {
                    lemma_first_named_unique(entries@, name@, i as int);
                }
                return Some(i);
            }
        }
        proof {
            lemma_first_named_none(entries@, name@);
        }
        None
    }

    /// Adds the path `parts` to the tree `entries` (see `insert_spec`): every
    /// missing entry along it is created, the last one with type
    /// `entry_type` and no children, the others as directories (`DIR`).
    /// Entries already there keep their names and types, and nothing else
    /// becomes reachable; an empty path changes nothing.
    pub fn insert_tree(entries: &mut Vec<TreeEntry>, parts: &[&str], entry_type: &str)
        ensures
            nodes_view(final(entries)@) == insert_spec(nodes_view(old(entries)@), parts_view(parts@), entry_type@),
            parts@.len() == 0 ==> final(entries)@ == old(entries)@,
            inserted(old(entries)@, final(entries)@, parts_view(parts@), entry_type@),
            kept_in_place(old(entries)@, final(entries)@),
    {
        Self::insert_tree_from(entries, parts, 0, entry_type);
        assert(parts_view(parts@).skip(0) == parts_view(parts@));
    }

    fn insert_tree_from(entries: &mut Vec<TreeEntry>, parts: &[&str], from: usize, entry_type: &str)
        requires
            from <= parts@.len(),
        ensures
            nodes_view(final(entries)@) == insert_spec(
                nodes_view(old(entries)@),
                parts_view(parts@).skip(from as int),
                entry_type@,
            ),
            from == parts@.len() ==> final(entries)@ == old(entries)@,
            inserted(old(entries)@, final(entries)@, parts_view(parts@).skip(from as int), entry_type@),
            kept_in_place(old(entries)@, final(entries)@),
        decreases parts@.len() - from,
    {
        let ghost p = parts_view(parts@).skip(from as int);
        let ghost old_es = entries@;
        if from == parts.len() {
            assert forall|q: Seq<Seq<char>>| !is_path_prefix(q, p) by {}
            return;
        }
        let name: &str = parts[from];
        assert(p[0] == name@);
        let pos = Self::find_entry(entries, name);
        proof {
            lemma_first_node_view(old_es, name@);
        }
        if from + 1 == parts.len() {
            match pos {
                Some(_) => {
                    proof {
                        lemma_insert_existing_leaf(old_es, p, entry_type@);
                    }
                },
                None => {
                    let leaf = TreeEntry {
                        name: String::from_str(name),
                        entry_type: String::from_str(entry_type),
                        children: None,
                    };
                    proof {
                        lemma_insert_new_leaf(old_es, leaf, p, entry_type@);
                        lemma_nodes_view_push(old_es, leaf);
                    }
                    entries.push(leaf);
                },
            }
        } else {
            assert(p.drop_first() =~= parts_view(parts@).skip(from + 1));
            match pos {
                Some(idx) => {
                    let e = entries.remove(idx);
                    let ghost e0 = e;
                    let TreeEntry { name: ename, entry_type: etype, children } = e;
                    let mut ch = match children {
                        Some(c) => c,
                        None => Vec::new(),
                    };
                    let ghost ch0 = ch@;
                    assert(nodes_view(ch0) == kids(node_view(e0)));
                    Self::insert_tree_from(&mut ch, parts, from + 1, entry_type);
                    let e2 = TreeEntry { name: ename, entry_type: etype, children: Some(ch) };
                    proof {
                        assert(e0 == old_es[idx as int]);
                        lemma_insert_below(old_es, idx as int, e2, ch0, e2.children->0@, p, entry_type@);
                        lemma_nodes_view_update(old_es, idx as int, e2);
                        lemma_nodes_view(old_es);
                    }
                    entries.insert(idx, e2);
                    assert(entries@ =~= old_es.update(idx as int, e2));
                },
                None => {
                    let mut ch: Vec<TreeEntry> = Vec::new();
                    Self::insert_tree_from(&mut ch, parts, from + 1, entry_type);
                    let dir = TreeEntry {
                        name: String::from_str(name),
                        entry_type: String::from_str("DIR"),
                        children: Some(ch),
                    };
                    proof {
                        lemma_insert_new_dir(old_es, dir, dir.children->0@, p, entry_type@);
                        lemma_nodes_view_push(old_es, dir);
                    }
                    entries.push(dir);
                },
            }
        }
    }
}

// ---------------------------------------------------------------------------
// Editing
// ---------------------------------------------------------------------------

/// The note recorded for an edit that was made.
pub open spec fn replace_note(e: EditOp) -> Seq<char> {
    "--- replace \""@ + truncate(e.old_text@, 40) + "\" \u{2192} \""@ + truncate(e.new_text@, 40)
        + "\""@
}

/// The note recorded for an edit whose text was not found.
pub open spec fn not_found_note(e: EditOp) -> Seq<char> {
    "--- pattern not found: \""@ + truncate(e.old_text@, 40) + "\""@
}

/// One edit applied to `(text, notes)`: when the text holds the old text,
/// every occurrence is replaced (and, unless this is a dry run, noted);
/// otherwise the miss is noted.
pub open spec fn edit_step(st: (Seq<char>, Seq<Seq<char>>), e: EditOp, dry_run: bool) -> (
    Seq<char>,
    Seq<Seq<char>>,
) {
    if contains_seq(st.0, e.old_text@) {
        (
            replace_all(st.0, e.old_text@, e.new_text@),
            if dry_run {
                st.1
            } else {
                st.1.push(replace_note(e))
            },
        )
    } else {
        (st.0, st.1.push(not_found_note(e)))
    }
}

/// The edits applied one after the other.
pub open spec fn run_edits(st: (Seq<char>, Seq<Seq<char>>), es: Seq<EditOp>, dry_run: bool) -> (
    Seq<char>,
    Seq<Seq<char>>,
)
    decreases es.len(),
{
    if es.len() == 0 {
        st
    } else {
        run_edits(edit_step(st, es[0], dry_run), es.drop_first(), dry_run)
    }
}

/// The edited text and the notes of the edits, starting from `content`.
pub open spec fn edited(content: Seq<char>, es: Seq<EditOp>, dry_run: bool) -> (Seq<char>, Seq<Seq<char>>) {
    run_edits((content, seq![]), es, dry_run)
}

/// The diff a dry run reports: the notes, one per line, or `No changes`.
pub open spec fn dry_run_diff(notes: Seq<Seq<char>>) -> Seq<char> {
    if join(notes, "\n"@).len() == 0 {
        "No changes"@
    } else {
        join(notes, "\n"@)
    }
}

// ---------------------------------------------------------------------------
// Reading command output
// ---------------------------------------------------------------------------

/// A line of `grep -n` output: `file:line:content`.
pub open spec fn search_line(l: Seq<char>) -> Option<(Seq<char>, u32, Seq<char>)> {
    let ps = splitn(l, ':', 3);
    if ps.len() == 3 {
        match parse_unsigned(ps[1], u32::MAX as nat) {
            Some(n) => Some((ps[0], n as u32, ps[2])),
            None => None,
        }
    } else {
        None
    }
}

/// The lines after the first one (`skip(1)` of an iterator).
pub open spec fn after_first(ls: Seq<Seq<char>>) -> Seq<Seq<char>> {
    if ls.len() == 0 {
        ls
    } else {
        ls.drop_first()
    }
}

pub open spec fn match_view(m: SearchMatch) -> (Seq<char>, u32, Seq<char>) {
    (m.file@, m.line, m.content@)
}

/// A line of `ls -la` output: at least nine words, the last one the name;
/// `.` and `..` are left out.
pub open spec fn dir_line(l: Seq<char>) -> Option<(Seq<char>, Seq<char>, Option<u64>, Seq<char>)> {
    let ws = words(l);
    if ws.len() < 9 {
        None
    } else if ws.last() == "."@ || ws.last() == ".."@ {
        None
    } else {
        Some(
            (
                ws.last(),
                if ws[0].len() > 0 && ws[0][0] == 'd' {
                    "DIR"@
                } else {
                    "FILE"@
                },
                match parse_unsigned(ws[4], u64::MAX as nat) {
                    Some(n) => Some(n as u64),
                    None => None,
                },
                ws[5] + seq![' '] + ws[6] + seq![' '] + ws[7],
            ),
        )
    }
}

/// The lines of an `ls -la` listing that are entries: at least nine words,
/// the last of which is neither `.` nor `..`.
pub open spec fn is_entry_line(l: Seq<char>) -> bool {
    words(l).len() >= 9 && words(l).last() != "."@ && words(l).last() != ".."@
}

/// What an entry line tells: the name is its last word; the type is `DIR`
/// when its first word begins with `d` and `FILE` otherwise; the size is the
/// number in its fifth word, if it is one; the time is its sixth, seventh
/// and eighth words joined by spaces.
pub open spec fn entry_fields(l: Seq<char>) -> (Seq<char>, Seq<char>, Option<u64>, Seq<char>) {
    let ws = words(l);
    (
        ws.last(),
        if ws[0].len() > 0 && ws[0][0] == 'd' {
            "DIR"@
        } else {
            "FILE"@
        },
        match parse_unsigned(ws[4], u64::MAX as nat) {
            Some(n) => Some(n as u64),
            None => None,
        },
        ws[5] + seq![' '] + ws[6] + seq![' '] + ws[7],
    )
}

/// The entries read from an `ls -la` listing are, in order, one for every
/// line after the first that is an entry line (any name but `.` and `..`,
/// hidden names included), with the fields that line tells.
pub proof fn lemma_listing_entries(out: Seq<char>)
    ensures
        keep_some(after_first(lines(out)).map_values(|l: Seq<char>| dir_line(l))) == after_first(
            lines(out),
        ).filter(|l: Seq<char>| is_entry_line(l)).map_values(|l: Seq<char>| entry_fields(l)),
{
    reveal_strlit(".");
    reveal_strlit("..");
    lemma_keep_some_filter(
        after_first(lines(out)),
        |l: Seq<char>| dir_line(l),
        |l: Seq<char>| is_entry_line(l),
        |l: Seq<char>| entry_fields(l),
    );
}

pub open spec fn dir_entry_view(d: DirEntry) -> (Seq<char>, Seq<char>, Option<u64>, Seq<char>) {
    (
        d.name@,
        d.entry_type@,
        d.size,
        match d.modified {
            Some(m) => m@,
            None => seq![],
        },
    )
}

/// The information that `stat --format %s:%A:%y:%F` printed: the text is
/// trimmed and cut at its first three colons; a size that does not read as a
/// number is 0 and a missing piece is empty.
pub open spec fn stat_fields(stat: Seq<char>) -> (u64, Seq<char>, Seq<char>, Seq<char>) {
    let ps = splitn(trim(stat), ':', 4);
    (
        match parse_unsigned(ps[0], u64::MAX as nat) {
            Some(n) => n as u64,
            None => 0,
        },
        if ps.len() > 1 {
            ps[1]
        } else {
            seq![]
        },
        if ps.len() > 2 {
            ps[2]
        } else {
            seq![]
        },
        if ps.len() > 3 {
            ps[3]
        } else {
            seq![]
        },
    )
}

/// A line of `find -printf "%y:%p\n"` output under `base`: the path relative
/// to `base`, cut at its slashes, with `DIR` for a directory and `FILE` for
/// anything else.
pub open spec fn tree_line(base: Seq<char>, l: Seq<char>) -> Option<(Seq<Seq<char>>, Seq<char>)> {
    match split_once(l, ':') {
        None => None,
        Some((ty, full)) => {
            let rel = trim_start_char(
                match strip_prefix(full, base) {
                    Some(r) => r,
                    None => full,
                },
                '/',
            );
            if rel.len() == 0 {
                None
            } else {
                Some(
                    (
                        split_char(rel, '/'),
                        if ty == "d"@ {
                            "DIR"@
                        } else {
                            "FILE"@
                        },
                    ),
                )
            }
        },
    }
}

/// The paths and types that a `find` listing under `path` names, in order.
pub open spec fn tree_ops(path: Seq<char>, listing: Seq<char>) -> Seq<(Seq<Seq<char>>, Seq<char>)> {
    keep_some(lines(listing).map_values(|l: Seq<char>| tree_line(trim_end_char(path, '/'), l)))
}

/// Some operation names a path of which `q` is a prefix.
pub open spec fn mentioned(os: Seq<(Seq<Seq<char>>, Seq<char>)>, q: Seq<Seq<char>>) -> bool {
    exists|i: int| 0 <= i < os.len() && is_path_prefix(q, #[trigger] os[i].0)
}

/// The type of the entry at `q` after the operations: given by the first
/// operation that names it, its own type if the path ends there and `DIR`
/// if the path goes on.
pub open spec fn type_of(os: Seq<(Seq<Seq<char>>, Seq<char>)>, q: Seq<Seq<char>>) -> Seq<char>
    decreases os.len(),
{
    if os.len() == 0 {
        seq![]
    } else if mentioned(os.drop_last(), q) {
        type_of(os.drop_last(), q)
    } else if q.len() == os.last().0.len() {
        os.last().1
    } else {
        "DIR"@
    }
}

/// The tree that the operations build from nothing: exactly the prefixes of
/// their paths are there, each entry named by the last name of its path and
/// typed by `type_of`.
/// The `/`-separated pieces of the path that a listing line `t:p` names,
/// relative to `base`: `p` without `base` in front, if it is there, and
/// without the `/`s it then begins with; none for a line without `:` or
/// whose relative path is empty.
pub open spec fn line_pieces(base: Seq<char>, l: Seq<char>) -> Option<Seq<Seq<char>>> {
    match split_once(l, ':') {
        None => None,
        Some((_, p)) => {
            let rel = trim_start_char(
                match strip_prefix(p, base) {
                    Some(r) => r,
                    None => p,
                },
                '/',
            );
            if 0 < rel.len() {
                Some(split_char(rel, '/'))
            } else {
                None
            }
        },
    }
}

/// Every path that a line of the listing names below `path` is in the
/// tree built from it, however deep: each of its prefixes leads to an
/// entry.
pub proof fn lemma_listed_paths_reachable(path: Seq<char>, listing: Seq<char>, es: Seq<TreeEntry>)
    requires
        built_tree(es, tree_ops(path, listing)),
    ensures
        forall|i: int, q: Seq<Seq<char>>|
            0 <= i < lines(listing).len() && line_pieces(trim_end_char(path, '/'), lines(listing)[i]) is Some
                && #[trigger] is_path_prefix(q, line_pieces(trim_end_char(path, '/'), lines(listing)[i])->0)
                ==> node_at(es, q) is Some,
{
    let base = trim_end_char(path, '/');
    let ls = lines(listing);
    let m = ls.map_values(|l: Seq<char>| tree_line(base, l));
    let os = tree_ops(path, listing);
    assert forall|i: int, q: Seq<Seq<char>>|
        0 <= i < ls.len() && line_pieces(base, ls[i]) is Some && #[trigger] is_path_prefix(
            q,
            line_pieces(base, ls[i])->0,
        ) implies node_at(es, q) is Some by {
        assert(m[i] == tree_line(base, ls[i]));
        assert(m[i] is Some && (m[i]->0).0 == line_pieces(base, ls[i])->0);
        lemma_keep_some_has(m, i);
        let j = choose|j: int| 0 <= j < os.len() && os[j] == m[i]->0;
        assert(is_path_prefix(q, os[j].0));
        assert(mentioned(os, q));
    }
}

/// The type of a path is that of the first operation that names it.
proof fn lemma_type_of_first(os: Seq<(Seq<Seq<char>>, Seq<char>)>, q: Seq<Seq<char>>, k: int)
    requires
        0 <= k < os.len(),
        os[k].0 == q,
        q.len() >= 1,
        forall|j: int| 0 <= j < k ==> !is_path_prefix(q, #[trigger] os[j].0),
    ensures
        type_of(os, q) == os[k].1,
    decreases os.len(),
{
    assert(q.take(q.len() as int) =~= q);
    if k < os.len() - 1 {
        assert(os.drop_last()[k] == os[k]);
        assert(is_path_prefix(q, os.drop_last()[k].0));
        assert(mentioned(os.drop_last(), q));
        assert forall|j: int| 0 <= j < k implies !is_path_prefix(q, #[trigger] os.drop_last()[j].0) by {
            assert(os.drop_last()[j] == os[j]);
        }
        lemma_type_of_first(os.drop_last(), q, k);
    } else {
        assert(!mentioned(os.drop_last(), q)) by {
            if mentioned(os.drop_last(), q) {
                let j = choose|j: int| 0 <= j < os.drop_last().len() && is_path_prefix(q, #[trigger] os.drop_last()[j].0);
                assert(os.drop_last()[j] == os[j]);
            }
        }
    }
}

/// The first line of the listing that names a path below `path` decides
/// the type of its entry in the tree built from it: `DIR` for a line of
/// type `d`, `FILE` for any other.
pub proof fn lemma_listed_path_type(path: Seq<char>, listing: Seq<char>, es: Seq<TreeEntry>, i: int)
    requires
        built_tree(es, tree_ops(path, listing)),
        0 <= i < lines(listing).len(),
        line_pieces(trim_end_char(path, '/'), lines(listing)[i]) is Some,
        forall|j: int|
            0 <= j < i && line_pieces(trim_end_char(path, '/'), lines(listing)[j]) is Some ==> !is_path_prefix(
                line_pieces(trim_end_char(path, '/'), lines(listing)[i])->0,
                #[trigger] line_pieces(trim_end_char(path, '/'), lines(listing)[j])->0,
            ),
    ensures
        node_at(es, line_pieces(trim_end_char(path, '/'), lines(listing)[i])->0) is Some,
        node_at(es, line_pieces(trim_end_char(path, '/'), lines(listing)[i])->0)->0.entry_type@ == (if (
        split_once(lines(listing)[i], ':')->0).0 == "d"@ {
            "DIR"@
        } else {
            "FILE"@
        }),
{
    let base = trim_end_char(path, '/');
    let ls = lines(listing);
    let ps = line_pieces(base, ls[i])->0;
    let m = ls.map_values(|l: Seq<char>| tree_line(base, l));
    let os = tree_ops(path, listing);
    let pre = keep_some(m.take(i));
    let k = pre.len() as int;
    assert(m =~= m.take(i) + m.skip(i));
    lemma_keep_some_append(m.take(i), m.skip(i));
    lemma_keep_some_step(m, i);
    assert(m[i] == tree_line(base, ls[i]));
    assert(os[k] == m[i]->0);
    let rel = trim_start_char(
        match strip_prefix((split_once(ls[i], ':')->0).1, base) {
            Some(r) => r,
            None => (split_once(ls[i], ':')->0).1,
        },
        '/',
    );
    lemma_split_from_nonempty(rel, '/', 0, 0);
    assert(os[k].0 == ps);
    assert forall|j: int| 0 <= j < k implies !is_path_prefix(ps, #[trigger] os[j].0) by {
        assert(os[j] == pre[j]);
        lemma_keep_some_from(m.take(i), j);
        let j2 = choose|j2: int| 0 <= j2 < m.take(i).len() && m.take(i)[j2] == Some(pre[j]);
        assert(m[j2] == tree_line(base, ls[j2]));
        assert(line_pieces(base, ls[j2])->0 == os[j].0);
    }
    lemma_type_of_first(os, ps, k);
    assert(ps.take(ps.len() as int) =~= ps);
    assert(is_path_prefix(ps, os[k].0));
    assert(mentioned(os, ps));
}

/// The tree that adding the paths of `os` one after the other to an empty
/// tree gives (see `insert_spec`).
pub open spec fn build_nodes(os: Seq<(Seq<Seq<char>>, Seq<char>)>) -> Seq<TreeNode>
    decreases os.len(),
{
    if os.len() == 0 {
        Seq::empty()
    } else {
        insert_spec(build_nodes(os.drop_last()), os.last().0, os.last().1)
    }
}

/// A tree built from a listing never holds two entries of one name in the
/// same list, at any level.
pub proof fn lemma_built_names_distinct(os: Seq<(Seq<Seq<char>>, Seq<char>)>)
    ensures
        distinct_tree(build_nodes(os)),
    decreases os.len(),
{
    if os.len() == 0 {
        assert(distinct_tree(Seq::<TreeNode>::empty()));
    } else {
        lemma_built_names_distinct(os.drop_last());
        lemma_insert_keeps_distinct(build_nodes(os.drop_last()), os.last().0, os.last().1);
    }
}

pub open spec fn built_tree(es: Seq<TreeEntry>, os: Seq<(Seq<Seq<char>>, Seq<char>)>) -> bool {
    &&& forall|q: Seq<Seq<char>>| (#[trigger] node_at(es, q) is Some) <==> mentioned(os, q)
    &&& forall|q: Seq<Seq<char>>| #[trigger] node_at(es, q) is Some ==> node_at(es, q)->0.name@ == q.last()
        && node_at(es, q)->0.entry_type@ == type_of(os, q)
}

pub open spec fn strings_view(v: Seq<String>) -> Seq<Seq<char>> {
    v.map_values(|s: String| s@)
}

/// The arguments of the `find` that searches for files named `pattern`
/// below `path`, leaving out paths through the excluded directories.
pub open spec fn search_files_args_spec(path: Seq<char>, pattern: Seq<char>, exclude: Seq<String>) -> Seq<Seq<char>>
    decreases exclude.len(),
{
    if exclude.len() == 0 {
        seq!["find"@, path, "-name"@, pattern, "-type"@, "f"@]
    } else {
        search_files_args_spec(path, pattern, exclude.drop_last()) + seq![
            "!"@,
            "-path"@,
            "*/"@ + exclude.last()@ + "/*"@,
        ]
    }
}

/// Each pattern of files to search as `--include` and the pattern.
pub open spec fn include_args(xs: Seq<String>) -> Seq<Seq<char>>
    decreases xs.len(),
{
    if xs.len() == 0 {
        seq![]
    } else {
        include_args(xs.drop_last()) + seq!["--include"@, xs.last()@]
    }
}

/// Each excluded directory as `--exclude-dir` and its name.
pub open spec fn exclude_dir_args(xs: Seq<String>) -> Seq<Seq<char>>
    decreases xs.len(),
{
    if xs.len() == 0 {
        seq![]
    } else {
        exclude_dir_args(xs.drop_last()) + seq!["--exclude-dir"@, xs.last()@]
    }
}

/// The arguments of the `grep` that searches the files below `path`.
pub open spec fn search_in_files_args_spec(
    path: Seq<char>,
    pattern: Seq<char>,
    is_regex: bool,
    case_insensitive: bool,
    include_globs: Seq<String>,
    exclude: Seq<String>,
    max_results: nat,
    context_lines: nat,
) -> Seq<Seq<char>> {
    seq!["grep"@, "-r"@, "-n"@] + (if is_regex {
        seq!["-E"@]
    } else {
        seq![]
    }) + (if case_insensitive {
        seq!["-i"@]
    } else {
        seq![]
    }) + (if context_lines > 0 {
        seq!["-C"@, decimal(context_lines)]
    } else {
        seq![]
    }) + seq!["--max-count"@, decimal(max_results)] + include_args(include_globs) + exclude_dir_args(
        exclude,
    ) + seq![pattern, path]
}


/// One more path inserted into a tree built by some operations gives the tree
/// built by those operations and that one.
proof fn lemma_built_step(
    old_es: Seq<TreeEntry>,
    new_es: Seq<TreeEntry>,
    done: Seq<(Seq<Seq<char>>, Seq<char>)>,
    op: (Seq<Seq<char>>, Seq<char>),
)
    requires
        built_tree(old_es, done),
        inserted(old_es, new_es, op.0, op.1),
    ensures
        built_tree(new_es, done.push(op)),
{
    let all = done.push(op);
    assert(all.drop_last() =~= done);
    assert(all.last() == op);
    assert forall|q: Seq<Seq<char>>| mentioned(all, q) <==> (mentioned(done, q) || is_path_prefix(q, op.0)) by {
        if mentioned(all, q) {
            let i = choose|i: int| 0 <= i < all.len() && is_path_prefix(q, #[trigger] all[i].0);
            if i < done.len() {
                assert(all[i] == done[i]);
            }
        }
        if mentioned(done, q) {
            let i = choose|i: int| 0 <= i < done.len() && is_path_prefix(q, #[trigger] done[i].0);
            assert(all[i] == done[i]);
        }
        if is_path_prefix(q, op.0) {
            assert(all[done.len() as int] == op);
        }
    }
    assert forall|q: Seq<Seq<char>>| (#[trigger] node_at(new_es, q) is Some) <==> mentioned(all, q) by {
        assert(node_at(old_es, q) is Some <==> mentioned(done, q));
    }
    assert forall|q: Seq<Seq<char>>| #[trigger] node_at(new_es, q) is Some implies node_at(new_es, q)->0.name@ == q.last()
        && node_at(new_es, q)->0.entry_type@ == type_of(all, q) by {
        if node_at(old_es, q) is Some {
            assert(mentioned(done, q));
        } else {
            assert(!mentioned(done, q));
            assert(is_path_prefix(q, op.0));
        }
    }
}

/// Appends `s` as a new string to `v`.
fn push_string(v: &mut Vec<String>, s: String)
    ensures
        strings_view(final(v)@) == strings_view(old(v)@).push(s@),
{
    v.push(s);
    assert(strings_view(v@) =~= strings_view(old(v)@).push(s@));
}

impl FileOpsService {
    /// The shell command that writes `content` to `path`, creating its
    /// directory first.
    pub fn write_file_command(path: &str, content: &str) -> (c: String)
        ensures
            c@ == "mkdir -p \"$(dirname '"@ + path@ + "')\" && cat > '"@ + path@
                + "' << 'WSLMCPEOF'\n"@ + content@ + "\nWSLMCPEOF"@,
    {
        let mut v = chars_of("mkdir -p \"$(dirname '");
        append_str(&mut v, path);
        append_str(&mut v, "')\" && cat > '");
        append_str(&mut v, path);
        append_str(&mut v, "' << 'WSLMCPEOF'\n");
        append_str(&mut v, content);
        append_str(&mut v, "\nWSLMCPEOF");
        string_from(&v)
    }

    /// The report of a write: the number of bytes of `content` on success,
    /// the error output otherwise.
    pub fn write_file_message(path: &str, content: &str, ok: bool, stderr: &str) -> (m: String)
        ensures
            m@ == if ok {
                "Written "@ + decimal((content.spec_bytes().len() as usize) as nat) + " bytes to "@ + path@
            } else {
                "Write failed: "@ + stderr@
            },
    {
        if ok {
            let n = content.len();
            let mut v = chars_of("Written ");
            let d = decimal_string(n as u64);
            append_str(&mut v, d.as_str());
            append_str(&mut v, " bytes to ");
            append_str(&mut v, path);
            string_from(&v)
        } else {
            let mut v = chars_of("Write failed: ");
            append_str(&mut v, stderr);
            string_from(&v)
        }
    }

    /// The outcome of editing a file whose current text is `content`: the
    /// report, and the new text to write (none for a dry run or an empty
    /// file).  Each edit replaces every occurrence of its old text in the text
    /// as the earlier edits left it.
    pub fn edit_content(content: &str, edits: &[EditOp], dry_run: bool) -> (r: (EditResult, Option<String>))
        ensures
            content@.len() == 0 ==> !r.0.success && r.0.diff is None && r.0.message@
                == "File empty or not found"@ && r.1 is None,
            content@.len() > 0 && dry_run ==> ({
                &&& r.0.success == (edited(content@, edits@, true).0 != content@)
                &&& r.0.diff matches Some(d) && d@ == dry_run_diff(edited(content@, edits@, true).1)
                &&& r.0.message@ == "Dry run"@
                &&& r.1 is None
            }),
            content@.len() > 0 && !dry_run ==> ({
                &&& r.0.success
                &&& r.0.diff matches Some(d) && d@ == join(edited(content@, edits@, false).1, "\n"@)
                &&& r.0.message@ == "File updated"@
                &&& r.1 matches Some(t) && t@ == edited(content@, edits@, false).0
            }),
    {
        let original = chars_of(content);
        if original.len() == 0 {
            return (
                EditResult {
                    success: false,
                    diff: None,
                    message: String::from_str("File empty or not found"),
                },
                None,
            );
        }
        let mut result = slice_chars(&original, 0, original.len());
        assert(result@ == content@);
        let mut diffs: Vec<String> = Vec::new();
        assert(edits@.skip(0) == edits@);
        assert(strings_view(diffs@) =~= Seq::<Seq<char>>::empty());
        for i in 0..edits.len()
            invariant
                edited(content@, edits@, dry_run) == run_edits(
                    (result@, strings_view(diffs@)),
                    edits@.skip(i as int),
                    dry_run,
                ),
        {
            let ghost rest = edits@.skip(i as int);
            assert(rest[0] == edits@[i as int]);
            assert(rest.drop_first() == edits@.skip(i + 1));
            let ghost before = (result@, strings_view(diffs@));
            let old_text = chars_of(edits[i].old_text.as_str());
            let new_text = chars_of(edits[i].new_text.as_str());
            if contains(&result, &old_text) {
                result = replace_chars(&result, &old_text, &new_text);
                if !dry_run {
                    let mut note = chars_of("--- replace \"");
                    append_chars(&mut note, &truncate_chars(&old_text, 40));
                    append_str(&mut note, "\" \u{2192} \"");
                    append_chars(&mut note, &truncate_chars(&new_text, 40));
                    append_str(&mut note, "\"");
                    push_string(&mut diffs, string_from(&note));
                }
            } else {
                let mut note = chars_of("--- pattern not found: \"");
                append_chars(&mut note, &truncate_chars(&old_text, 40));
                append_str(&mut note, "\"");
                push_string(&mut diffs, string_from(&note));
            }
            assert((result@, strings_view(diffs@)) == edit_step(before, edits@[i as int], dry_run));
        }
        assert(edits@.skip(edits.len() as int) =~= Seq::<EditOp>::empty());
        assert(strings_view(diffs@) == diffs@.map_values(|x: String| x@));
        let diff = join_strings(&diffs, "\n");
        if dry_run {
            let changed = !chars_eq(&original, &result);
            let d = if diff.as_str().is_empty() {
                String::from_str("No changes")
            } else {
                diff
            };
            (EditResult { success: changed, diff: Some(d), message: String::from_str("Dry run") }, None)
        } else {
            (
                EditResult {
                    success: true,
                    diff: Some(diff),
                    message: String::from_str("File updated"),
                },
                Some(string_from(&result)),
            )
        }
    }

    /// The matches that `grep -r -n` printed (see `search_line`).
    pub fn parse_search_output(out: &str) -> (r: Vec<SearchMatch>)
        ensures
            r@.map_values(|m: SearchMatch| match_view(m)) == keep_some(
                lines(out@).map_values(|l: Seq<char>| search_line(l)),
            ),
    {
        let v = chars_of(out);
        let ls = lines_of(&v);
        let ghost m = views(ls@).map_values(|l: Seq<char>| search_line(l));
        let mut r: Vec<SearchMatch> = Vec::new();
        assert(m.skip(0) == m);
        for i in 0..ls.len()
            invariant
                m == views(ls@).map_values(|l: Seq<char>| search_line(l)),
                keep_some(m) == r@.map_values(|x: SearchMatch| match_view(x)) + keep_some(
                    m.skip(i as int),
                ),
        {
            proof {
                lemma_keep_some_step(m, i as int);
            }
            let ghost before = r@.map_values(|x: SearchMatch| match_view(x));
            let ps = splitn_exec(&ls[i], ':', 3);
            assert(m[i as int] == search_line(ls@[i as int]@));
            if ps.len() == 3 {
                match parse_unsigned_chars(&ps[1], 4294967295u64) {
                    Some(n) => {
                        let sm = SearchMatch {
                            file: string_from(&ps[0]),
                            line: n as u32,
                            content: string_from(&ps[2]),
                        };
                        r.push(sm);
                        assert(r@.map_values(|x: SearchMatch| match_view(x)) =~= before.push(
                            match_view(sm),
                        ));
                    },
                    None => {},
                }
            }
            assert(before + keep_some(m.skip(i as int)) =~= r@.map_values(
                |x: SearchMatch| match_view(x),
            ) + keep_some(m.skip(i + 1)));
        }
        proof {
            lemma_keep_some_end(m);
        }
        assert(r@.map_values(|x: SearchMatch| match_view(x)) + Seq::empty() =~= r@.map_values(
            |x: SearchMatch| match_view(x),
        ));
        r
    }

    /// The entries that `ls -la` printed, after its first line (see
    /// `dir_line`).
    pub fn parse_directory_listing(out: &str) -> (r: Vec<DirEntry>)
        ensures
            r@.map_values(|d: DirEntry| dir_entry_view(d)) == keep_some(
                after_first(lines(out@)).map_values(|l: Seq<char>| dir_line(l)),
            ),
    {
        let v = chars_of(out);
        let ls = lines_of(&v);
        let ghost m = after_first(views(ls@)).map_values(|l: Seq<char>| dir_line(l));
        let mut r: Vec<DirEntry> = Vec::new();
        if ls.len() == 0 {
            assert(m =~= Seq::<Option<(Seq<char>, Seq<char>, Option<u64>, Seq<char>)>>::empty());
            assert(r@.map_values(|d: DirEntry| dir_entry_view(d)) =~= Seq::<
                (Seq<char>, Seq<char>, Option<u64>, Seq<char>),
            >::empty());
            return r;
        }
        assert(m.skip(0) == m);
        for k in 1..ls.len()
            invariant
                ls@.len() >= 1,
                m == after_first(views(ls@)).map_values(|l: Seq<char>| dir_line(l)),
                keep_some(m) == r@.map_values(|x: DirEntry| dir_entry_view(x)) + keep_some(
                    m.skip(k - 1),
                ),
        {
            let i = k - 1;
            proof {
                lemma_keep_some_step(m, i as int);
            }
            let ghost before = r@.map_values(|x: DirEntry| dir_entry_view(x));
            assert(after_first(views(ls@))[i as int] == ls@[k as int]@);
            assert(m[i as int] == dir_line(ls@[k as int]@));
            let ws = words_of(&ls[k]);
            let ghost wv = views(ws@);
            assert(wv == words(ls@[k as int]@));
            assert(forall|j: int| 0 <= j < ws@.len() ==> wv[j] == ws@[j]@);
            if ws.len() >= 9 {
                assert(wv.last() == ws@[ws.len() - 1]@);
                let name = &ws[ws.len() - 1];
                if !chars_eq_str(name, ".") && !chars_eq_str(name, "..") {
                    let entry_type = if ws[0].len() > 0 && ws[0][0] == 'd' {
                        String::from_str("DIR")
                    } else {
                        String::from_str("FILE")
                    };
                    let size = parse_unsigned_chars(&ws[4], u64::MAX);
                    let mut modified = slice_chars(&ws[5], 0, ws[5].len());
                    modified.push(' ');
                    append_chars(&mut modified, &ws[6]);
                    modified.push(' ');
                    append_chars(&mut modified, &ws[7]);
                    assert(ws[5]@.subrange(0, ws[5]@.len() as int) == ws[5]@);
                    let d = DirEntry {
                        name: string_from(name),
                        entry_type,
                        size,
                        modified: Some(string_from(&modified)),
                    };
                    assert(modified@ == wv[5] + seq![' '] + wv[6] + seq![' '] + wv[7]);
                    assert(dir_line(ls@[k as int]@) == Some(dir_entry_view(d)));
                    r.push(d);
                    assert(r@.map_values(|x: DirEntry| dir_entry_view(x)) =~= before.push(
                        dir_entry_view(d),
                    ));
                } else {
                    assert(dir_line(ls@[k as int]@) is None);
                }
            } else {
                assert(dir_line(ls@[k as int]@) is None);
            }
            assert(before + keep_some(m.skip(i as int)) =~= r@.map_values(
                |x: DirEntry| dir_entry_view(x),
            ) + keep_some(m.skip(i + 1)));
        }
        proof {
            lemma_keep_some_end(m);
        }
        assert(r@.map_values(|x: DirEntry| dir_entry_view(x)) + Seq::empty() =~= r@.map_values(
            |x: DirEntry| dir_entry_view(x),
        ));
        r
    }

    /// The information of `path` from what `stat` printed (see `stat_fields`).
    pub fn parse_file_info(path: &str, stat: &str) -> (f: FileInfo)
        ensures
            f.path@ == path@,
            (f.size, f.permissions@, f.modified@, f.file_type@) == stat_fields(stat@),
    {
        let v = chars_of(stat);
        let t = trim_chars(&v);
        let ps = splitn_exec(&t, ':', 4);
        assert(views(ps@).len() == ps@.len());
        let size = match parse_unsigned_chars(&ps[0], u64::MAX) {
            Some(n) => n,
            None => 0,
        };
        let permissions = if ps.len() > 1 {
            string_from(&ps[1])
        } else {
            String::new()
        };
        let modified = if ps.len() > 2 {
            string_from(&ps[2])
        } else {
            String::new()
        };
        let file_type = if ps.len() > 3 {
            string_from(&ps[3])
        } else {
            String::new()
        };
        FileInfo { path: String::from_str(path), size, permissions, modified, file_type }
    }

    /// The arguments of the `find` that searches for files named `pattern`.
    pub fn search_files_args(path: &str, pattern: &str, exclude: &[String]) -> (a: Vec<String>)
        ensures
            strings_view(a@) == search_files_args_spec(path@, pattern@, exclude@),
    {
        let mut a: Vec<String> = Vec::new();
        push_string(&mut a, String::from_str("find"));
        push_string(&mut a, String::from_str(path));
        push_string(&mut a, String::from_str("-name"));
        push_string(&mut a, String::from_str(pattern));
        push_string(&mut a, String::from_str("-type"));
        push_string(&mut a, String::from_str("f"));
        assert(strings_view(a@) =~= search_files_args_spec(path@, pattern@, exclude@.take(0)));
        for i in 0..exclude.len()
            invariant
                strings_view(a@) == search_files_args_spec(path@, pattern@, exclude@.take(i as int)),
        {
            assert(exclude@.take(i + 1).drop_last() =~= exclude@.take(i as int));
            push_string(&mut a, String::from_str("!"));
            push_string(&mut a, String::from_str("-path"));
            let mut g = chars_of("*/");
            append_str(&mut g, exclude[i].as_str());
            append_str(&mut g, "/*");
            push_string(&mut a, string_from(&g));
        }
        assert(exclude@.take(exclude.len() as int) =~= exclude@);
        a
    }

    /// The arguments of the `grep` that searches inside files.
    #[verifier::spinoff_prover]
    #[verifier::rlimit(80)]
    pub fn search_in_files_args(
        path: &str,
        pattern: &str,
        is_regex: bool,
        case_insensitive: bool,
        include_globs: &[String],
        exclude: &[String],
        max_results: usize,
        context_lines: usize,
    ) -> (a: Vec<String>)
        ensures
            strings_view(a@) == search_in_files_args_spec(
                path@,
                pattern@,
                is_regex,
                case_insensitive,
                include_globs@,
                exclude@,
                max_results as nat,
                context_lines as nat,
            ),
    {
        let mut a: Vec<String> = Vec::new();
        push_string(&mut a, String::from_str("grep"));
        push_string(&mut a, String::from_str("-r"));
        push_string(&mut a, String::from_str("-n"));
        if is_regex {
            push_string(&mut a, String::from_str("-E"));
        }
        if case_insensitive {
            push_string(&mut a, String::from_str("-i"));
        }
        if context_lines > 0 {
            push_string(&mut a, String::from_str("-C"));
            push_string(&mut a, decimal_string(context_lines as u64));
        }
        push_string(&mut a, String::from_str("--max-count"));
        push_string(&mut a, decimal_string(max_results as u64));
        let ghost head = strings_view(a@);
        assert(include_args(include_globs@.take(0)) =~= Seq::<Seq<char>>::empty());
        for i in 0..include_globs.len()
            invariant
                strings_view(a@) == head + include_args(include_globs@.take(i as int)),
        {
            assert(include_globs@.take(i + 1).drop_last() =~= include_globs@.take(i as int));
            push_string(&mut a, String::from_str("--include"));
            push_string(&mut a, include_globs[i].clone());
            assert(strings_view(a@) =~= head + include_args(include_globs@.take(i + 1)));
        }
        assert(include_globs@.take(include_globs.len() as int) =~= include_globs@);
        let ghost head2 = strings_view(a@);
        assert(exclude_dir_args(exclude@.take(0)) =~= Seq::<Seq<char>>::empty());
        for i in 0..exclude.len()
            invariant
                strings_view(a@) == head2 + exclude_dir_args(exclude@.take(i as int)),
        {
            assert(exclude@.take(i + 1).drop_last() =~= exclude@.take(i as int));
            push_string(&mut a, String::from_str("--exclude-dir"));
            push_string(&mut a, exclude[i].clone());
            assert(strings_view(a@) =~= head2 + exclude_dir_args(exclude@.take(i + 1)));
        }
        assert(exclude@.take(exclude.len() as int) =~= exclude@);
        push_string(&mut a, String::from_str(pattern));
        push_string(&mut a, String::from_str(path));
        assert(strings_view(a@) =~= search_in_files_args_spec(
            path@,
            pattern@,
            is_regex,
            case_insensitive,
            include_globs@,
            exclude@,
            max_results as nat,
            context_lines as nat,
        ));
        a
    }

    /// The tree that a `find -maxdepth 3 -printf "%y:%p\n"` listing below
    /// `path` describes: its paths added in the order of the listing (see
    /// `tree_ops`, `build_nodes` and `built_tree`).
    pub fn build_tree(path: &str, listing: &str) -> (r: Vec<TreeEntry>)
        ensures
            nodes_view(r@) == build_nodes(tree_ops(path@, listing@)),
            built_tree(r@, tree_ops(path@, listing@)),
    {
        let pv = chars_of(path);
        let base = trim_end_char_exec(&pv, '/');
        let v = chars_of(listing);
        let ls = lines_of(&v);
        let ghost m = views(ls@).map_values(|l: Seq<char>| tree_line(base@, l));
        let ghost ops = keep_some(m);
        let mut entries: Vec<TreeEntry> = Vec::new();
        let ghost mut done: Seq<(Seq<Seq<char>>, Seq<char>)> = Seq::empty();
        assert(m.skip(0) == m);
        assert(done + keep_some(m) =~= keep_some(m));
        assert forall|q: Seq<Seq<char>>| !mentioned(done, q) by {}
        for i in 0..ls.len()
            invariant
                m == views(ls@).map_values(|l: Seq<char>| tree_line(base@, l)),
                ops == keep_some(m),
                ops == done + keep_some(m.skip(i as int)),
                built_tree(entries@, done),
                nodes_view(entries@) == build_nodes(done),
        {
            proof {
                lemma_keep_some_step(m, i as int);
            }
            assert(m[i as int] == tree_line(base@, ls@[i as int]@));
            let ghost done0 = done;
            match split_once_chars(&ls[i], ':') {
                Some((ty, full)) => {
                    let stripped = match strip_prefix_exec(&full, &base) {
                        Some(rest) => rest,
                        None => full,
                    };
                    let rel = trim_start_char_exec(&stripped, '/');
                    if rel.len() > 0 {
                        let pieces = split_char_exec(&rel, '/');
                        let mut strs: Vec<String> = Vec::new();
                        for j in 0..pieces.len()
                            invariant
                                strings_view(strs@) == views(pieces@).take(j as int),
                        {
                            push_string(&mut strs, string_from(&pieces[j]));
                            assert(views(pieces@).take(j + 1) =~= views(pieces@).take(j as int).push(
                                pieces@[j as int]@,
                            ));
                        }
                        let mut refs: Vec<&str> = Vec::new();
                        for j in 0..strs.len()
                            invariant
                                parts_view(refs@) == strings_view(strs@).take(j as int),
                        {
                            let sj: &str = strs[j].as_str();
                            assert(sj@ == strs@[j as int]@);
                            let ghost before_refs = refs@;
                            refs.push(sj);
                            assert(refs@ == before_refs.push(sj));
                            assert(parts_view(refs@) =~= parts_view(before_refs).push(sj@));
                            assert(strings_view(strs@).take(j + 1) =~= strings_view(strs@).take(
                                j as int,
                            ).push(strs@[j as int]@));
                        }
                        assert(strings_view(strs@).take(strs@.len() as int) =~= strings_view(strs@));
                        assert(views(pieces@).take(pieces@.len() as int) =~= views(pieces@));
                        let is_dir = chars_eq_str(&ty, "d");
                        let et = if is_dir {
                            "DIR"
                        } else {
                            "FILE"
                        };
                        let ghost before = entries@;
                        let ghost op = (split_char(rel@, '/'), et@);
                        assert(tree_line(base@, ls@[i as int]@) == Some(op));
                        Self::insert_tree(&mut entries, refs.as_slice(), et);
                        proof {
                            lemma_built_step(before, entries@, done, op);
                            assert(done.push(op).drop_last() =~= done);
                            done = done.push(op);
                        }
                    }
                },
                None => {},
            }
            assert(done0 + keep_some(m.skip(i as int)) =~= done + keep_some(m.skip(i + 1)));
        }
        proof {
            lemma_keep_some_end(m);
        }
        assert(done + Seq::empty() =~= done);
        entries
    }

    /// The lines of command output, as strings.
    pub fn output_lines(out: &str) -> (r: Vec<String>)
        ensures
            strings_view(r@) == lines(out@),
    {
        let v = chars_of(out);
        let ls = lines_of(&v);
        let mut r: Vec<String> = Vec::new();
        for i in 0..ls.len()
            invariant
                strings_view(r@) == views(ls@).take(i as int),
        {
            push_string(&mut r, string_from(&ls[i]));
            assert(views(ls@).take(i + 1) =~= views(ls@).take(i as int).push(ls@[i as int]@));
        }
        assert(views(ls@).take(ls.len() as int) =~= views(ls@));
        r
    }
}

} // verus!
