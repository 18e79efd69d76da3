//! What was found at a path of the file system, and its content hash.
//!
//! The caller inspects the file system and describes what it found as an
//! `FsEntry`; the bytes that are hashed for it, and so its hash, are computed
//! here.

use vstd::prelude::*;
use vstd::multiset::Multiset;
use vstd::utf8::encode_utf8;

use crate::data::{lemma_le_bytes_len, lemma_order_bytes_antisym, lemma_order_bytes_trans, le_bytes, order_bytes, usize_bytes, push_bytes, push_le_bytes, compare_bytes, Comparison};
use crate::sha256_hash::{sha256, sha256_digest};

verus! {

/// What was found at a path.
#[derive(Debug)]
pub enum FsEntry {
    /// The metadata of the path could not be read.
    Unreadable,
    /// A regular file: the length its metadata gives, and the bytes that could
    /// be read from it.
    RegularFile { len: u64, contents: Vec<u8> },
    /// A directory: the name and the entry of each of its children, if it
    /// could be listed.
    Directory(Option<Vec<(String, FsEntry)>>),
    /// A symbolic link: its target, if it could be read.
    Symlink(Option<String>),
    /// Anything else.
    Other,
}

/// The mathematical model of an `FsEntry`.
pub enum FsEntryV {
    Unreadable,
    RegularFile(u64, Seq<u8>),
    Directory(Option<Seq<(Seq<char>, FsEntryV)>>),
    Symlink(Option<Seq<char>>),
    Other,
}

pub open spec fn fs_entry_view(e: &FsEntry) -> FsEntryV
    decreases e,
{
    match e {
        FsEntry::Unreadable => FsEntryV::Unreadable,
        FsEntry::RegularFile { len, contents } => FsEntryV::RegularFile(*len, contents@),
        FsEntry::Directory(None) => FsEntryV::Directory(None),
        FsEntry::Directory(Some(children)) => FsEntryV::Directory(Some(children_view(children@))),
        FsEntry::Symlink(None) => FsEntryV::Symlink(None),
        FsEntry::Symlink(Some(t)) => FsEntryV::Symlink(Some(t@)),
        FsEntry::Other => FsEntryV::Other,
    }
}

pub open spec fn children_view(s: Seq<(String, FsEntry)>) -> Seq<(Seq<char>, FsEntryV)>
    decreases s,
{
    if s.len() == 0 {
        Seq::empty()
    } else {
        children_view(s.drop_last()).push((s.last().0@, fs_entry_view(&s.last().1)))
    }
}

impl View for FsEntry {
    type V = FsEntryV;

    open spec fn view(&self) -> FsEntryV {
        fs_entry_view(self)
    }
}

pub proof fn lemma_children_view(s: Seq<(String, FsEntry)>)
    ensures
        children_view(s).len() == s.len(),
        forall|i: int| 0 <= i < s.len() ==> #[trigger] children_view(s)[i] == (s[i].0@, s[i].1@),
    decreases s.len(),
{
    if s.len() > 0 {
        lemma_children_view(s.drop_last());
    }
}

// ------------------------------------------------------------------
// The order of the children of a directory
// ------------------------------------------------------------------

/// Whether name `a` sorts after name `b`, comparing their UTF-8 bytes.
pub open spec fn name_after(a: Seq<char>, b: Seq<char>) -> bool {
    order_bytes(encode_utf8(a), encode_utf8(b)) > 0
}

/// `order` with index `j` inserted before the first index whose name sorts
/// after the name of `j`.
pub open spec fn insert_by_name(order: Seq<int>, names: Seq<Seq<char>>, j: int) -> Seq<int>
    decreases order.len(),
{
    if order.len() == 0 {
        seq![j]
    } else if name_after(names[order[0]], names[j]) {
        seq![j] + order
    } else {
        seq![order[0]] + insert_by_name(order.drop_first(), names, j)
    }
}

/// The indices of the first `n` names, stably sorted by name.
pub open spec fn name_order(names: Seq<Seq<char>>, n: nat) -> Seq<int>
    decreases n,
{
    if n == 0 {
        Seq::empty()
    } else {
        insert_by_name(name_order(names, (n - 1) as nat), names, n - 1)
    }
}

pub open spec fn child_names(children: Seq<(Seq<char>, FsEntryV)>) -> Seq<Seq<char>> {
    children.map_values(|c: (Seq<char>, FsEntryV)| c.0)
}

// ------------------------------------------------------------------
// The bytes that are hashed
// ------------------------------------------------------------------

/// The bytes hashed for what was found at a path: a byte for its kind, then
/// its content; a directory's children in the order of their names.
pub open spec fn fs_encoding(e: FsEntryV) -> Seq<u8>
    decreases e, 0nat,
{
    match e {
        FsEntryV::Unreadable => seq![255u8],
        FsEntryV::RegularFile(len, contents) => seq![0u8] + le_bytes(len as nat, 8) + contents,
        FsEntryV::Directory(None) => seq![1u8] + le_bytes(0, usize_bytes()),
        FsEntryV::Directory(Some(children)) => seq![1u8] + le_bytes(children.len(), usize_bytes())
            + children_encoding(children, name_order(child_names(children), children.len())),
        FsEntryV::Symlink(None) => seq![2u8],
        FsEntryV::Symlink(Some(t)) => seq![2u8] + le_bytes(encode_utf8(t).len(), usize_bytes())
            + encode_utf8(t),
        FsEntryV::Other => seq![3u8],
    }
}

/// The bytes hashed for the children at the given indices, in that order.
pub open spec fn children_encoding(children: Seq<(Seq<char>, FsEntryV)>, order: Seq<int>) -> Seq<u8>
    decreases children, order.len(),
{
    if order.len() == 0 {
        Seq::empty()
    } else {
        let j = order.last();
        children_encoding(children, order.drop_last()) + if 0 <= j < children.len() {
            fs_encoding(children[j].1)
        } else {
            Seq::empty()
        }
    }
}

// ------------------------------------------------------------------
// Laws of the order
// ------------------------------------------------------------------

proof fn lemma_insert_by_name(order: Seq<int>, names: Seq<Seq<char>>, j: int)
    ensures
        insert_by_name(order, names, j).len() == order.len() + 1,
        insert_by_name(order, names, j).to_multiset() =~= order.to_multiset().insert(j),
    decreases order.len(),
{
    broadcast use vstd::seq_lib::group_to_multiset_ensures;
    if order.len() > 0 {
        lemma_insert_by_name(order.drop_first(), names, j);
        assert(order =~= seq![order[0]] + order.drop_first());
        vstd::seq_lib::lemma_multiset_commutative(seq![order[0]], order.drop_first());
        vstd::seq_lib::lemma_multiset_commutative(seq![order[0]], insert_by_name(order.drop_first(), names, j));
        vstd::seq_lib::lemma_multiset_commutative(seq![j], order);
    }
}

/// Law: the children are hashed in an order that holds each child once.
pub proof fn law_name_order_is_permutation(names: Seq<Seq<char>>, n: nat)
    ensures
        name_order(names, n).len() == n,
        name_order(names, n).to_multiset() =~= Seq::new(n, |i: int| i).to_multiset(),
    decreases n,
{
    broadcast use vstd::seq_lib::group_to_multiset_ensures;
    if n > 0 {
        law_name_order_is_permutation(names, (n - 1) as nat);
        lemma_insert_by_name(name_order(names, (n - 1) as nat), names, n - 1);
        assert(Seq::new(n, |i: int| i) =~= Seq::new((n - 1) as nat, |i: int| i).push(n - 1));
    }
}

// ------------------------------------------------------------------
// What is hashed of a regular file
// ------------------------------------------------------------------

/// Law: the bytes hashed for a regular file are its kind, its eight-byte
/// length, and then all of its contents; so two files whose contents differ
/// anywhere are hashed from different bytes.
pub proof fn law_regular_file_bytes(len: u64, c1: Seq<u8>, c2: Seq<u8>)
    ensures
        fs_encoding(FsEntryV::RegularFile(len, c1)).len() == 9 + c1.len(),
        fs_encoding(FsEntryV::RegularFile(len, c1)).skip(9) == c1,
        c1 != c2 ==> fs_encoding(FsEntryV::RegularFile(len, c1)) != fs_encoding(FsEntryV::RegularFile(len, c2)),
{
    lemma_le_bytes_len(len as nat, 8);
    let e1 = fs_encoding(FsEntryV::RegularFile(len, c1));
    let e2 = fs_encoding(FsEntryV::RegularFile(len, c2));
    assert(e1.skip(9) =~= c1);
    assert(e2.skip(9) =~= c2);
}

// ------------------------------------------------------------------
// The hash of a directory does not depend on the order of its listing
// ------------------------------------------------------------------

/// Name `a` sorts no later than name `b`.
pub open spec fn name_le(a: Seq<char>, b: Seq<char>) -> bool {
    order_bytes(encode_utf8(a), encode_utf8(b)) <= 0
}

/// The indices are in the order of their names.
pub open spec fn indices_sorted(order: Seq<int>, names: Seq<Seq<char>>) -> bool {
    forall|i: int, j: int| 0 <= i < j < order.len() ==> name_le(names[#[trigger] order[i]], names[#[trigger] order[j]])
}

/// Comparing names is a total preorder.
proof fn lemma_name_le(a: Seq<char>, b: Seq<char>, c: Seq<char>)
    ensures
        name_le(a, b) || name_le(b, a),
        !name_le(a, b) <==> name_after(a, b),
        name_le(a, b) && name_le(b, c) ==> name_le(a, c),
        name_le(a, b) && name_le(b, a) ==> a == b,
{
    let (x, y, z) = (encode_utf8(a), encode_utf8(b), encode_utf8(c));
    lemma_order_bytes_antisym(x, y);
    lemma_order_bytes_antisym(y, z);
    lemma_order_bytes_antisym(x, z);
    if order_bytes(x, y) < 0 && order_bytes(y, z) < 0 {
        lemma_order_bytes_trans(x, y, z);
    }
    vstd::utf8::encode_utf8_decode_utf8(a);
    vstd::utf8::encode_utf8_decode_utf8(b);
}

/// Inserting by name keeps the indices in the order of their names.
proof fn lemma_insert_by_name_sorted(order: Seq<int>, names: Seq<Seq<char>>, j: int)
    requires
        indices_sorted(order, names),
    ensures
        indices_sorted(insert_by_name(order, names, j), names),
    decreases order.len(),
{
    broadcast use vstd::seq_lib::group_to_multiset_ensures;
    let r = insert_by_name(order, names, j);
    if order.len() == 0 {
    } else if name_after(names[order[0]], names[j]) {
        assert forall|a: int, b: int| 0 <= a < b < r.len() implies name_le(names[#[trigger] r[a]], names[#[trigger] r[b]]) by {
            if a == 0 {
                lemma_name_le(names[j], names[order[0]], names[order[b - 1]]);
                if b - 1 > 0 {
                    assert(name_le(names[order[0]], names[order[b - 1]]));
                } else {
                    lemma_name_le(names[order[0]], names[order[0]], names[order[0]]);
                }
            } else {
                assert(r[a] == order[a - 1] && r[b] == order[b - 1]);
            }
        }
    } else {
        let rest = insert_by_name(order.drop_first(), names, j);
        assert(indices_sorted(order.drop_first(), names)) by {
            assert forall|a: int, b: int| 0 <= a < b < order.drop_first().len() implies name_le(
                names[#[trigger] order.drop_first()[a]],
                names[#[trigger] order.drop_first()[b]],
            ) by {
                assert(order.drop_first()[a] == order[a + 1] && order.drop_first()[b] == order[b + 1]);
            }
        }
        lemma_insert_by_name_sorted(order.drop_first(), names, j);
        lemma_insert_by_name(order.drop_first(), names, j);
        assert(r == seq![order[0]] + rest);
        assert forall|a: int, b: int| 0 <= a < b < r.len() implies name_le(names[#[trigger] r[a]], names[#[trigger] r[b]]) by {
            if a == 0 {
                let x = rest[b - 1];
                assert(rest.to_multiset().contains(x)) by {
                    assert(rest.contains(x));
                }
                assert(order.drop_first().to_multiset().insert(j).contains(x));
                if x == j {
                    lemma_name_le(names[order[0]], names[j], names[j]);
                } else {
                    assert(order.drop_first().to_multiset().contains(x));
                    assert(order.drop_first().contains(x));
                    let k = choose|k: int| 0 <= k < order.drop_first().len() && order.drop_first()[k] == x;
                    assert(order[k + 1] == x);
                }
            } else {
                assert(r[a] == rest[a - 1] && r[b] == rest[b - 1]);
            }
        }
    }
}

/// The indices that hash a directory's children are in the order of the names.
proof fn lemma_name_order_sorted(names: Seq<Seq<char>>, n: nat)
    ensures
        indices_sorted(name_order(names, n), names),
    decreases n,
{
    if n > 0 {
        lemma_name_order_sorted(names, (n - 1) as nat);
        lemma_insert_by_name_sorted(name_order(names, (n - 1) as nat), names, n - 1);
    }
}

/// The children of a directory in the order they are hashed.
pub open spec fn sorted_children(children: Seq<(Seq<char>, FsEntryV)>) -> Seq<(Seq<char>, FsEntryV)> {
    name_order(child_names(children), children.len()).map_values(|i: int| children[i])
}

/// The bytes hashed for a sequence of children, in that order.
pub open spec fn listing_encoding(s: Seq<(Seq<char>, FsEntryV)>) -> Seq<u8>
    decreases s.len(),
{
    if s.len() == 0 {
        Seq::empty()
    } else {
        listing_encoding(s.drop_last()) + fs_encoding(s.last().1)
    }
}

/// Inserting an index by name adds its child to the children taken.
proof fn lemma_insert_by_name_children(
    order: Seq<int>,
    names: Seq<Seq<char>>,
    j: int,
    children: Seq<(Seq<char>, FsEntryV)>,
)
    ensures
        insert_by_name(order, names, j).map_values(|i: int| children[i]).to_multiset() =~= order.map_values(
            |i: int| children[i],
        ).to_multiset().insert(children[j]),
    decreases order.len(),
{
    broadcast use vstd::seq_lib::group_to_multiset_ensures;
    let f = |i: int| children[i];
    if order.len() == 0 {
        assert(insert_by_name(order, names, j).map_values(f) =~= Seq::<(Seq<char>, FsEntryV)>::empty().push(children[j]));
        assert(order.map_values(f) =~= Seq::<(Seq<char>, FsEntryV)>::empty());
    } else if name_after(names[order[0]], names[j]) {
        assert(insert_by_name(order, names, j).map_values(f) =~= seq![children[j]] + order.map_values(f));
        vstd::seq_lib::lemma_seq_union_to_multiset_commutative(seq![children[j]], order.map_values(f));
        assert(order.map_values(f) + seq![children[j]] =~= order.map_values(f).push(children[j]));
    } else {
        let rest = insert_by_name(order.drop_first(), names, j);
        lemma_insert_by_name_children(order.drop_first(), names, j, children);
        assert(insert_by_name(order, names, j).map_values(f) =~= seq![children[order[0]]] + rest.map_values(f));
        assert(order.map_values(f) =~= seq![children[order[0]]] + order.drop_first().map_values(f));
        vstd::seq_lib::lemma_multiset_commutative(seq![children[order[0]]], rest.map_values(f));
        vstd::seq_lib::lemma_multiset_commutative(seq![children[order[0]]], order.drop_first().map_values(f));
    }
}

/// The children in hashing order are the children, each once.
proof fn lemma_sorted_children_multiset(children: Seq<(Seq<char>, FsEntryV)>, n: nat)
    requires
        n <= children.len(),
    ensures
        name_order(child_names(children), n).map_values(|i: int| children[i]).to_multiset() =~= children.take(
            n as int,
        ).to_multiset(),
    decreases n,
{
    broadcast use vstd::seq_lib::group_to_multiset_ensures;
    let names = child_names(children);
    if n == 0 {
        assert(children.take(0) =~= Seq::<(Seq<char>, FsEntryV)>::empty());
    } else {
        lemma_sorted_children_multiset(children, (n - 1) as nat);
        lemma_insert_by_name_children(name_order(names, (n - 1) as nat), names, n - 1, children);
        assert(children.take(n as int) =~= children.take(n - 1).push(children[n - 1]));
    }
}

/// Hashing the children at the given indices hashes them in that order.
proof fn lemma_children_encoding(children: Seq<(Seq<char>, FsEntryV)>, order: Seq<int>)
    requires
        forall|k: int| 0 <= k < order.len() ==> 0 <= #[trigger] order[k] < children.len(),
    ensures
        children_encoding(children, order) == listing_encoding(order.map_values(|i: int| children[i])),
    decreases order.len(),
{
    if order.len() > 0 {
        lemma_children_encoding(children, order.drop_last());
        assert(order.map_values(|i: int| children[i]).drop_last() =~= order.drop_last().map_values(
            |i: int| children[i],
        ));
    }
}

/// The names of a collection of children tell them apart.
pub open spec fn names_tell_apart(m: Multiset<(Seq<char>, FsEntryV)>) -> bool {
    forall|a: (Seq<char>, FsEntryV), b: (Seq<char>, FsEntryV)|
        #![trigger m.contains(a), m.contains(b)]
        m.contains(a) && m.contains(b) && a.0 == b.0 ==> a == b
}

/// The children are in the order of their names.
pub open spec fn listing_sorted(s: Seq<(Seq<char>, FsEntryV)>) -> bool {
    forall|i: int, j: int| 0 <= i < j < s.len() ==> name_le((#[trigger] s[i]).0, (#[trigger] s[j]).0)
}

/// Two listings of the same children, each in the order of the names, where
/// the names tell the children apart, are the same.
proof fn lemma_sorted_listing_unique(x: Seq<(Seq<char>, FsEntryV)>, y: Seq<(Seq<char>, FsEntryV)>)
    requires
        listing_sorted(x),
        listing_sorted(y),
        x.to_multiset() == y.to_multiset(),
        names_tell_apart(x.to_multiset()),
    ensures
        x == y,
    decreases x.len(),
{
    broadcast use vstd::multiset::group_multiset_axioms;
    broadcast use vstd::seq_lib::group_to_multiset_ensures;

    if x.len() == 0 || y.len() == 0 {
        assert(x.to_multiset().len() == y.to_multiset().len());
        assert(x =~= y);
    } else {
        assert(x.contains(x[0]));
        assert(y.contains(y[0]));
        assert(y.to_multiset().contains(x[0]));
        assert(x.to_multiset().contains(y[0]));
        assert(y.contains(x[0]));
        assert(x.contains(y[0]));
        let i = choose|i: int| 0 <= i < y.len() && y[i] == x[0];
        let j = choose|j: int| 0 <= j < x.len() && x[j] == y[0];
        if j > 0 {
            assert(name_le(x[0].0, x[j].0));
        } else {
            lemma_name_le(x[0].0, x[0].0, x[0].0);
        }
        if i > 0 {
            assert(name_le(y[0].0, y[i].0));
        } else {
            lemma_name_le(y[0].0, y[0].0, y[0].0);
        }
        lemma_name_le(x[0].0, y[0].0, x[0].0);
        assert(x[0] == y[0]);
        assert(x.drop_first() =~= x.remove(0));
        assert(y.drop_first() =~= y.remove(0));
        assert(x.drop_first().to_multiset() =~= x.to_multiset().remove(x[0]));
        assert(y.drop_first().to_multiset() =~= y.to_multiset().remove(y[0]));
        assert(listing_sorted(x.drop_first())) by {
            assert forall|a: int, b: int| 0 <= a < b < x.drop_first().len() implies name_le(
                (#[trigger] x.drop_first()[a]).0,
                (#[trigger] x.drop_first()[b]).0,
            ) by {
                assert(x.drop_first()[a] == x[a + 1] && x.drop_first()[b] == x[b + 1]);
            }
        }
        assert(listing_sorted(y.drop_first())) by {
            assert forall|a: int, b: int| 0 <= a < b < y.drop_first().len() implies name_le(
                (#[trigger] y.drop_first()[a]).0,
                (#[trigger] y.drop_first()[b]).0,
            ) by {
                assert(y.drop_first()[a] == y[a + 1] && y.drop_first()[b] == y[b + 1]);
            }
        }
        assert(names_tell_apart(x.drop_first().to_multiset())) by {
            let m = x.drop_first().to_multiset();
            assert forall|a: (Seq<char>, FsEntryV), b: (Seq<char>, FsEntryV)|
                m.contains(a) && m.contains(b) && a.0 == b.0 implies a == b by {
                assert(x.to_multiset().contains(a));
                assert(x.to_multiset().contains(b));
            }
        }
        lemma_sorted_listing_unique(x.drop_first(), y.drop_first());
        assert(x =~= y) by {
            assert(x =~= seq![x[0]] + x.drop_first());
            assert(y =~= seq![y[0]] + y.drop_first());
        }
    }
}

/// The hashing order holds indices of children only.
proof fn lemma_name_order_in_range(names: Seq<Seq<char>>, n: nat)
    ensures
        forall|k: int| 0 <= k < name_order(names, n).len() ==> 0 <= #[trigger] name_order(names, n)[k] < n,
{
    broadcast use vstd::seq_lib::group_to_multiset_ensures;
    law_name_order_is_permutation(names, n);
    let ord = name_order(names, n);
    let range = Seq::new(n, |i: int| i);
    assert forall|k: int| 0 <= k < ord.len() implies 0 <= #[trigger] ord[k] < n by {
        assert(ord.contains(ord[k]));
        assert(range.to_multiset().contains(ord[k]));
        assert(range.contains(ord[k]));
    }
}

/// The bytes hashed for a directory's children are those of its children
/// sorted by name, and that sorted listing is the children, each once.
proof fn lemma_directory_listing(c: Seq<(Seq<char>, FsEntryV)>)
    ensures
        children_encoding(c, name_order(child_names(c), c.len())) == listing_encoding(sorted_children(c)),
        listing_sorted(sorted_children(c)),
        sorted_children(c).to_multiset() == c.to_multiset(),
{
    let names = child_names(c);
    let ord = name_order(names, c.len());
    let sc = sorted_children(c);
    lemma_name_order_in_range(names, c.len());
    law_name_order_is_permutation(names, c.len());
    lemma_children_encoding(c, ord);
    lemma_name_order_sorted(names, c.len());
    assert forall|i: int, j: int| 0 <= i < j < sc.len() implies name_le((#[trigger] sc[i]).0, (#[trigger] sc[j]).0) by {
        assert(sc[i] == c[ord[i]] && sc[j] == c[ord[j]]);
        assert(names[ord[i]] == c[ord[i]].0 && names[ord[j]] == c[ord[j]].0);
        assert(name_le(names[ord[i]], names[ord[j]]));
    }
    lemma_sorted_children_multiset(c, c.len());
    assert(c.take(c.len() as int) =~= c);
}

/// Law: the hash of a directory does not depend on the order in which its
/// children were listed, as long as their names tell them apart: two
/// listings that hold the same children hash alike.
pub proof fn law_listing_order(c1: Seq<(Seq<char>, FsEntryV)>, c2: Seq<(Seq<char>, FsEntryV)>)
    requires
        c1.to_multiset() == c2.to_multiset(),
        forall|i: int, j: int| 0 <= i < j < c1.len() ==> c1[i].0 != c1[j].0,
    ensures
        fs_encoding(FsEntryV::Directory(Some(c1))) == fs_encoding(FsEntryV::Directory(Some(c2))),
{
    broadcast use vstd::seq_lib::group_to_multiset_ensures;
    lemma_directory_listing(c1);
    lemma_directory_listing(c2);
    assert(c1.len() == c2.len()) by {
        c1.to_multiset_ensures();
        c2.to_multiset_ensures();
    }
    assert(names_tell_apart(c1.to_multiset())) by {
        let m = c1.to_multiset();
        assert forall|a: (Seq<char>, FsEntryV), b: (Seq<char>, FsEntryV)|
            m.contains(a) && m.contains(b) && a.0 == b.0 implies a == b by {
            assert(c1.contains(a));
            assert(c1.contains(b));
            let i = choose|i: int| 0 <= i < c1.len() && c1[i] == a;
            let j = choose|j: int| 0 <= j < c1.len() && c1[j] == b;
            if i < j {
                assert(c1[i].0 != c1[j].0);
            } else if j < i {
                assert(c1[j].0 != c1[i].0);
            }
        }
    }
    lemma_sorted_listing_unique(sorted_children(c1), sorted_children(c2));
}

/// Listings whose children hash from the same bytes, one by one, hash from
/// the same bytes.
proof fn lemma_listing_encoding_pairwise(x: Seq<(Seq<char>, FsEntryV)>, y: Seq<(Seq<char>, FsEntryV)>)
    requires
        x.len() == y.len(),
        forall|i: int| 0 <= i < x.len() ==> fs_encoding((#[trigger] x[i]).1) == fs_encoding(y[i].1),
    ensures
        listing_encoding(x) == listing_encoding(y),
    decreases x.len(),
{
    if x.len() > 0 {
        lemma_listing_encoding_pairwise(x.drop_last(), y.drop_last());
        assert(fs_encoding(x[x.len() - 1].1) == fs_encoding(y[y.len() - 1].1));
    }
}

/// Law: two directories whose children, sorted by name, pair up with
/// children hashed from the same bytes hash alike, whatever their names and
/// whatever order they were listed in.
pub proof fn law_directories_pair_up(c1: Seq<(Seq<char>, FsEntryV)>, c2: Seq<(Seq<char>, FsEntryV)>)
    requires
        c1.len() == c2.len(),
        forall|i: int|
            0 <= i < c1.len() ==> fs_encoding((#[trigger] sorted_children(c1)[i]).1) == fs_encoding(
                sorted_children(c2)[i].1,
            ),
    ensures
        fs_encoding(FsEntryV::Directory(Some(c1))) == fs_encoding(FsEntryV::Directory(Some(c2))),
{
    lemma_directory_listing(c1);
    lemma_directory_listing(c2);
    law_name_order_is_permutation(child_names(c1), c1.len());
    law_name_order_is_permutation(child_names(c2), c2.len());
    lemma_listing_encoding_pairwise(sorted_children(c1), sorted_children(c2));
}

// ------------------------------------------------------------------
// Computing the hash
// ------------------------------------------------------------------

/// The position at which index `j` goes into `order`.
fn find_name_position(order: &Vec<usize>, children: &Vec<(String, FsEntry)>, j: usize) -> (r: usize)
    requires
        j < children@.len(),
        forall|k: int| 0 <= k < order@.len() ==> #[trigger] order@[k] < children@.len(),
    ensures
        r <= order@.len(),
        insert_by_name(order@.map_values(|x: usize| x as int), child_names(children_view(children@)), j as int)
            == order@.map_values(|x: usize| x as int).take(r as int).push(j as int)
                + order@.map_values(|x: usize| x as int).skip(r as int),
{
    let ghost names = child_names(children_view(children@));
    let ghost ord = order@.map_values(|x: usize| x as int);
    proof {
        lemma_children_view(children@);
    }
    let name_j = children[j].0.as_str().as_bytes();
    assert(ord.skip(0) =~= ord);
    assert(ord.take(0) + insert_by_name(ord, names, j as int) =~= insert_by_name(ord, names, j as int));
    let mut p: usize = 0;
    while p < order.len()
        invariant
            p <= order@.len(),
            j < children@.len(),
            ord == order@.map_values(|x: usize| x as int),
            names == child_names(children_view(children@)),
            children_view(children@).len() == children@.len(),
            forall|k: int| 0 <= k < children@.len() ==> #[trigger] children_view(children@)[k] == (children@[k].0@, children@[k].1@),
            forall|k: int| 0 <= k < order@.len() ==> #[trigger] order@[k] < children@.len(),
            name_j@ == encode_utf8(children@[j as int].0@),
            insert_by_name(ord, names, j as int) == ord.take(p as int) + insert_by_name(ord.skip(p as int), names, j as int),
        decreases order.len() - p,
    {
        let k = order[p];
        let c = compare_bytes(children[k].0.as_str().as_bytes(), name_j);
        let ghost rest = ord.skip(p as int);
        assert(rest[0] == k as int);
        assert(names[k as int] == children@[k as int].0@);
        assert(names[j as int] == children@[j as int].0@);
        match c {
            Comparison::Greater => {
                assert(rest =~= ord.skip(p as int));
                assert(insert_by_name(rest, names, j as int) == seq![j as int] + rest);
                assert(ord.take(p as int) + (seq![j as int] + rest) =~= ord.take(p as int).push(j as int) + ord.skip(p as int));
                return p;
            },
            _ => {},
        }
        assert(rest.drop_first() =~= ord.skip(p + 1));
        assert(ord.take(p as int) + (seq![rest[0]] + insert_by_name(rest.drop_first(), names, j as int))
            =~= ord.take(p + 1) + insert_by_name(ord.skip(p + 1), names, j as int));
        p = p + 1;
    }
    assert(ord.skip(p as int) =~= Seq::<int>::empty());
    assert(ord.take(p as int) + seq![j as int] =~= ord.take(p as int).push(j as int) + ord.skip(p as int));
    p
}

/// The indices of the children, stably sorted by name.
fn sort_by_name(children: &Vec<(String, FsEntry)>) -> (r: Vec<usize>)
    ensures
        r@.map_values(|x: usize| x as int) == name_order(child_names(children_view(children@)), children@.len()),
        forall|k: int| 0 <= k < r@.len() ==> #[trigger] r@[k] < children@.len(),
{
    let ghost names = child_names(children_view(children@));
    let mut order: Vec<usize> = Vec::new();
    let mut j: usize = 0;
    assert(order@.map_values(|x: usize| x as int) =~= name_order(names, 0));
    while j < children.len()
        invariant
            j <= children@.len(),
            names == child_names(children_view(children@)),
            order@.map_values(|x: usize| x as int) == name_order(names, j as nat),
            forall|k: int| 0 <= k < order@.len() ==> #[trigger] order@[k] < children@.len(),
        decreases children.len() - j,
    {
        let ghost before = order@;
        let p = find_name_position(&order, children, j);
        order.insert(p, j);
        proof {
            let ord = before.map_values(|x: usize| x as int);
            assert(order@ == before.insert(p as int, j));
            assert(order@.map_values(|x: usize| x as int) =~= ord.take(p as int).push(j as int) + ord.skip(p as int));
            assert forall|k: int| 0 <= k < order@.len() implies #[trigger] order@[k] < children@.len() by {
                if k < p {
                    assert(order@[k] == before[k]);
                } else if k > p {
                    assert(order@[k] == before[k - 1]);
                }
            }
        }
        j = j + 1;
    }
    order
}

/// Appends the bytes hashed for what was found at a path.
pub fn encode_fs_entry(e: &FsEntry, out: &mut Vec<u8>)
    ensures
        final(out)@ == old(out)@ + fs_encoding(e@),
    decreases e, 0nat,
{
    let ghost start = out@;
    match e {
        FsEntry::Unreadable => {
            out.push(255u8);
        },
        FsEntry::RegularFile { len, contents } => {
            out.push(0u8);
            push_le_bytes(out, *len, 8);
            push_bytes(out, contents.as_slice());
        },
        FsEntry::Directory(None) => {
            out.push(1u8);
            push_le_bytes(out, 0, usize::BITS / 8);
        },
        FsEntry::Directory(Some(children)) => {
            out.push(1u8);
            proof {
                lemma_children_view(children@);
            }
            push_le_bytes(out, children.len() as u64, usize::BITS / 8);
            let order = sort_by_name(children);
            encode_children(children, &order, out);
        },
        FsEntry::Symlink(None) => {
            out.push(2u8);
        },
        FsEntry::Symlink(Some(t)) => {
            out.push(2u8);
            let bytes = t.as_str().as_bytes();
            push_le_bytes(out, bytes.len() as u64, usize::BITS / 8);
            push_bytes(out, bytes);
        },
        FsEntry::Other => {
            out.push(3u8);
        },
    }
    assert(out@ =~= start + fs_encoding(e@));
}

/// Appends the bytes hashed for the children at the indices in `order`.
fn encode_children(children: &Vec<(String, FsEntry)>, order: &Vec<usize>, out: &mut Vec<u8>)
    requires
        forall|k: int| 0 <= k < order@.len() ==> #[trigger] order@[k] < children@.len(),
    ensures
        final(out)@ == old(out)@ + children_encoding(children_view(children@), order@.map_values(|x: usize| x as int)),
    decreases children, order@.len() + 1,
{
    let ghost ord = order@.map_values(|x: usize| x as int);
    let ghost start = out@;
    proof {
        lemma_children_view(children@);
    }
    assert(ord.take(0) =~= Seq::<int>::empty());
    let mut k: usize = 0;
    while k < order.len()
        invariant
            k <= order@.len(),
            ord == order@.map_values(|x: usize| x as int),
            forall|i: int| 0 <= i < order@.len() ==> #[trigger] order@[i] < children@.len(),
            children_view(children@).len() == children@.len(),
            forall|i: int| 0 <= i < children@.len() ==> #[trigger] children_view(children@)[i] == (children@[i].0@, children@[i].1@),
            out@ == start + children_encoding(children_view(children@), ord.take(k as int)),
        decreases order.len() - k,
    {
        let j = order[k];
        encode_fs_entry(&children[j].1, out);
        assert(ord.take(k + 1).drop_last() =~= ord.take(k as int));
        assert(ord.take(k + 1).last() == j as int);
        assert(out@ =~= start + children_encoding(children_view(children@), ord.take(k + 1)));
        k = k + 1;
    }
    assert(ord.take(order.len() as int) =~= ord);
}

/// The content hash of what was found at a path.
pub fn content_hash(e: &FsEntry) -> (r: [u8; 32])
    ensures
        r@ == sha256(fs_encoding(e@)),
{
    let mut input: Vec<u8> = Vec::new();
    encode_fs_entry(e, &mut input);
    assert(input@ =~= fs_encoding(e@));
    sha256_digest(input.as_slice())
}

} // verus!
