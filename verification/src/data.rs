//! Values of the language, the mapping of values to values, and the total
//! order on values that mappings are sorted by.

use vstd::prelude::*;
use vstd::utf8::encode_utf8;

use crate::sha256_hash::{Sha256Hash, sha256};
use crate::fs_entry::{FsEntry, fs_encoding, content_hash};

verus! {

// ------------------------------------------------------------------
// Types
// ------------------------------------------------------------------

/// The built-in functions.
#[derive(Debug, Clone, Copy, PartialEq, Eq, Structural, PartialOrd, Ord, Hash)]
pub enum Function {
    LoadFile,
    WriteFile,
}

/// A file or directory in the file system, identified by the hash of its content.
#[derive(Debug)]
pub struct File {
    pub path: String,
    hash: [u8; 32],
}

/// A mapping from values to values, kept sorted by key.
#[derive(Debug)]
pub struct Mapping {
    entries: Vec<(Value, Value)>,
}

/// A value of the language.
#[derive(Debug)]
pub enum Value {
    Boolean(bool),
    Integer(i64),
    /// The bit pattern of a 64-bit floating-point number.
    Float(u64),
    String(String),
    File(File),
    Mapping(Mapping),
    Function(Function),
}

/// The result of comparing two values.
#[derive(Debug, Clone, Copy, PartialEq, Eq, Structural)]
pub enum Comparison {
    Less,
    Equal,
    Greater,
}

impl Comparison {
    pub open spec fn as_int(self) -> int {
        match self {
            Comparison::Less => -1,
            Comparison::Equal => 0,
            Comparison::Greater => 1,
        }
    }
}

// ------------------------------------------------------------------
// Mathematical model
// ------------------------------------------------------------------

/// The mathematical model of a value.
pub enum ValueV {
    Boolean(bool),
    Integer(i64),
    Float(u64),
    Str(Seq<char>),
    /// The path and the content hash of a file.
    File(Seq<char>, Seq<u8>),
    /// The entries of a mapping, in the order they are stored.
    Mapping(Seq<(ValueV, ValueV)>),
    Function(Function),
}

impl File {
    pub closed spec fn spec_path(&self) -> Seq<char> {
        self.path@
    }

    pub closed spec fn spec_hash(&self) -> Seq<u8> {
        self.hash@
    }
}

impl Mapping {
    pub closed spec fn spec_entries(&self) -> Seq<(Value, Value)> {
        self.entries@
    }
}

pub open spec fn value_view(v: &Value) -> ValueV
    decreases v,
{
    match v {
        Value::Boolean(b) => ValueV::Boolean(*b),
        Value::Integer(i) => ValueV::Integer(*i),
        Value::Float(f) => ValueV::Float(*f),
        Value::String(s) => ValueV::Str(s@),
        Value::File(f) => ValueV::File(f.spec_path(), f.spec_hash()),
        Value::Mapping(m) => ValueV::Mapping(entries_view(m.spec_entries())),
        Value::Function(f) => ValueV::Function(*f),
    }
}

pub open spec fn entries_view(s: Seq<(Value, Value)>) -> Seq<(ValueV, ValueV)>
    decreases s,
{
    if s.len() == 0 {
        Seq::empty()
    } else {
        entries_view(s.drop_last()).push((value_view(&s.last().0), value_view(&s.last().1)))
    }
}

impl View for Value {
    type V = ValueV;

    open spec fn view(&self) -> ValueV {
        value_view(self)
    }
}

impl View for Mapping {
    type V = Seq<(ValueV, ValueV)>;

    open spec fn view(&self) -> Seq<(ValueV, ValueV)> {
        entries_view(self.spec_entries())
    }
}

impl View for File {
    type V = (Seq<char>, Seq<u8>);

    open spec fn view(&self) -> (Seq<char>, Seq<u8>) {
        (self.spec_path(), self.spec_hash())
    }
}

// ------------------------------------------------------------------
// The order on values
// ------------------------------------------------------------------

/// -1, 0 or 1 as `a` is below, equal to or above `b`.
pub open spec fn sign(a: int, b: int) -> int {
    if a < b {
        -1
    } else if a == b {
        0
    } else {
        1
    }
}

/// Lexicographic comparison of byte sequences.
pub open spec fn order_bytes(a: Seq<u8>, b: Seq<u8>) -> int
    decreases a.len(),
{
    if a.len() == 0 {
        if b.len() == 0 {
            0
        } else {
            -1
        }
    } else if b.len() == 0 {
        1
    } else if a[0] != b[0] {
        sign(a[0] as int, b[0] as int)
    } else {
        order_bytes(a.drop_first(), b.drop_first())
    }
}

/// The position of a value's kind in the order of kinds.
pub open spec fn rank(v: ValueV) -> int {
    match v {
        ValueV::Boolean(_) => 0,
        ValueV::Integer(_) => 1,
        ValueV::Float(_) => 2,
        ValueV::Str(_) => 3,
        ValueV::File(_, _) => 4,
        ValueV::Mapping(_) => 5,
        ValueV::Function(_) => 6,
    }
}

pub open spec fn function_rank(f: Function) -> int {
    match f {
        Function::LoadFile => 0,
        Function::WriteFile => 1,
    }
}

pub open spec fn bool_rank(b: bool) -> int {
    if b {
        1
    } else {
        0
    }
}

/// The order on values: first by kind, then by content.  Strings compare by
/// their UTF-8 bytes, files by their hash alone, mappings lexicographically by
/// their entries.
pub open spec fn vorder(a: ValueV, b: ValueV) -> int
    decreases a,
{
    match a {
        ValueV::Boolean(x) => match b {
            ValueV::Boolean(y) => sign(bool_rank(x), bool_rank(y)),
            _ => sign(rank(a), rank(b)),
        },
        ValueV::Integer(x) => match b {
            ValueV::Integer(y) => sign(x as int, y as int),
            _ => sign(rank(a), rank(b)),
        },
        ValueV::Float(x) => match b {
            ValueV::Float(y) => sign(x as int, y as int),
            _ => sign(rank(a), rank(b)),
        },
        ValueV::Str(x) => match b {
            ValueV::Str(y) => order_bytes(encode_utf8(x), encode_utf8(y)),
            _ => sign(rank(a), rank(b)),
        },
        ValueV::File(_, x) => match b {
            ValueV::File(_, y) => order_bytes(x, y),
            _ => sign(rank(a), rank(b)),
        },
        ValueV::Mapping(x) => match b {
            ValueV::Mapping(y) => order_entries(x, y),
            _ => sign(rank(a), rank(b)),
        },
        ValueV::Function(x) => match b {
            ValueV::Function(y) => sign(function_rank(x), function_rank(y)),
            _ => sign(rank(a), rank(b)),
        },
    }
}

/// Lexicographic comparison of entry sequences, each entry by key then value.
pub open spec fn order_entries(a: Seq<(ValueV, ValueV)>, b: Seq<(ValueV, ValueV)>) -> int
    decreases a,
{
    if a.len() == 0 {
        if b.len() == 0 {
            0
        } else {
            -1
        }
    } else if b.len() == 0 {
        1
    } else {
        let c = vorder(a[0].0, b[0].0);
        if c != 0 {
            c
        } else {
            let d = vorder(a[0].1, b[0].1);
            if d != 0 {
                d
            } else {
                order_entries(a.drop_first(), b.drop_first())
            }
        }
    }
}

/// Two values are equal as the language sees them.
pub open spec fn vequal(a: ValueV, b: ValueV) -> bool {
    vorder(a, b) == 0
}

// ------------------------------------------------------------------
// Laws of the order
// ------------------------------------------------------------------

pub proof fn lemma_order_bytes_antisym(a: Seq<u8>, b: Seq<u8>)
    ensures
        order_bytes(a, b) == -order_bytes(b, a),
        (order_bytes(a, b) == 0) == (a == b),
        -1 <= order_bytes(a, b) <= 1,
    decreases a.len(),
{
    if a.len() > 0 && b.len() > 0 && a[0] == b[0] {
        lemma_order_bytes_antisym(a.drop_first(), b.drop_first());
        if a.drop_first() == b.drop_first() {
            assert(a == seq![a[0]] + a.drop_first());
            assert(b == seq![b[0]] + b.drop_first());
        }
    }
    if a.len() == 0 && b.len() == 0 {
        assert(a =~= b);
    }
}

/// Two texts are equal as values exactly when they hold the same characters.
pub proof fn lemma_vequal_str(a: Seq<char>, b: Seq<char>)
    ensures
        vequal(ValueV::Str(a), ValueV::Str(b)) == (a == b),
{
    lemma_order_bytes_antisym(encode_utf8(a), encode_utf8(b));
    vstd::utf8::encode_utf8_decode_utf8(a);
    vstd::utf8::encode_utf8_decode_utf8(b);
}

pub proof fn lemma_order_bytes_trans(a: Seq<u8>, b: Seq<u8>, c: Seq<u8>)
    requires
        order_bytes(a, b) < 0,
        order_bytes(b, c) < 0,
    ensures
        order_bytes(a, c) < 0,
    decreases a.len(),
{
    if a.len() > 0 && b.len() > 0 && c.len() > 0 && a[0] == b[0] && b[0] == c[0] {
        lemma_order_bytes_trans(a.drop_first(), b.drop_first(), c.drop_first());
    }
}

/// Every value is equal to itself.
pub proof fn lemma_vorder_refl(a: ValueV)
    ensures
        vorder(a, a) == 0,
    decreases a,
{
    match a {
        ValueV::Str(x) => lemma_order_bytes_antisym(encode_utf8(x), encode_utf8(x)),
        ValueV::File(_, x) => lemma_order_bytes_antisym(x, x),
        ValueV::Mapping(x) => lemma_entries_refl(x),
        _ => {},
    }
}

pub proof fn lemma_entries_refl(a: Seq<(ValueV, ValueV)>)
    ensures
        order_entries(a, a) == 0,
    decreases a,
{
    if a.len() > 0 {
        lemma_vorder_refl(a[0].0);
        lemma_vorder_refl(a[0].1);
        lemma_entries_refl(a.drop_first());
    }
}

/// Swapping the operands negates the comparison.
pub proof fn lemma_vorder_antisym(a: ValueV, b: ValueV)
    ensures
        vorder(a, b) == -vorder(b, a),
        -1 <= vorder(a, b) <= 1,
    decreases a,
{
    match a {
        ValueV::Str(x) => match b {
            ValueV::Str(y) => lemma_order_bytes_antisym(encode_utf8(x), encode_utf8(y)),
            _ => {},
        },
        ValueV::File(_, x) => match b {
            ValueV::File(_, y) => lemma_order_bytes_antisym(x, y),
            _ => {},
        },
        ValueV::Mapping(x) => match b {
            ValueV::Mapping(y) => lemma_entries_antisym(x, y),
            _ => {},
        },
        _ => {},
    }
}

pub proof fn lemma_entries_antisym(a: Seq<(ValueV, ValueV)>, b: Seq<(ValueV, ValueV)>)
    ensures
        order_entries(a, b) == -order_entries(b, a),
        -1 <= order_entries(a, b) <= 1,
    decreases a,
{
    if a.len() > 0 && b.len() > 0 {
        lemma_vorder_antisym(a[0].0, b[0].0);
        lemma_vorder_antisym(a[0].1, b[0].1);
        lemma_entries_antisym(a.drop_first(), b.drop_first());
    }
}

/// Equal values compare alike with every value.
pub proof fn lemma_vorder_eq_subst(a: ValueV, b: ValueV, c: ValueV)
    requires
        vorder(a, b) == 0,
    ensures
        vorder(a, c) == vorder(b, c),
    decreases a,
{
    match a {
        ValueV::Str(x) => match b {
            ValueV::Str(y) => lemma_order_bytes_antisym(encode_utf8(x), encode_utf8(y)),
            _ => {},
        },
        ValueV::File(_, x) => match b {
            ValueV::File(_, y) => lemma_order_bytes_antisym(x, y),
            _ => {},
        },
        ValueV::Mapping(x) => match b {
            ValueV::Mapping(y) => match c {
                ValueV::Mapping(z) => lemma_entries_eq_subst(x, y, z),
                _ => {},
            },
            _ => {},
        },
        _ => {},
    }
}

pub proof fn lemma_entries_eq_subst(
    a: Seq<(ValueV, ValueV)>,
    b: Seq<(ValueV, ValueV)>,
    c: Seq<(ValueV, ValueV)>,
)
    requires
        order_entries(a, b) == 0,
    ensures
        order_entries(a, c) == order_entries(b, c),
    decreases a,
{
    if a.len() > 0 && b.len() > 0 && c.len() > 0 {
        lemma_vorder_eq_subst(a[0].0, b[0].0, c[0].0);
        lemma_vorder_eq_subst(a[0].1, b[0].1, c[0].1);
        lemma_entries_eq_subst(a.drop_first(), b.drop_first(), c.drop_first());
    }
}

/// Equality of values is an equivalence.
pub proof fn lemma_vequal_equivalence(a: ValueV, b: ValueV, c: ValueV)
    ensures
        vequal(a, a),
        vequal(a, b) ==> vequal(b, a),
        vequal(a, b) && vequal(b, c) ==> vequal(a, c),
{
    lemma_vorder_refl(a);
    lemma_vorder_antisym(a, b);
    if vequal(a, b) {
        lemma_vorder_eq_subst(a, b, c);
    }
}

/// Strict order of values is transitive.
pub proof fn lemma_vorder_trans(a: ValueV, b: ValueV, c: ValueV)
    requires
        vorder(a, b) < 0,
        vorder(b, c) < 0,
    ensures
        vorder(a, c) < 0,
    decreases a,
{
    match a {
        ValueV::Str(x) => match b {
            ValueV::Str(y) => match c {
                ValueV::Str(z) => lemma_order_bytes_trans(encode_utf8(x), encode_utf8(y), encode_utf8(z)),
                _ => {},
            },
            _ => {},
        },
        ValueV::File(_, x) => match b {
            ValueV::File(_, y) => match c {
                ValueV::File(_, z) => lemma_order_bytes_trans(x, y, z),
                _ => {},
            },
            _ => {},
        },
        ValueV::Mapping(x) => match b {
            ValueV::Mapping(y) => match c {
                ValueV::Mapping(z) => lemma_entries_trans(x, y, z),
                _ => {},
            },
            _ => {},
        },
        _ => {},
    }
}

/// Comparing with the second operand replaced by an equal value.
proof fn lemma_vorder_eq_subst_right(a: ValueV, b: ValueV, c: ValueV)
    requires
        vorder(b, c) == 0,
    ensures
        vorder(a, b) == vorder(a, c),
{
    lemma_vorder_antisym(a, b);
    lemma_vorder_antisym(a, c);
    lemma_vorder_antisym(b, c);
    lemma_vorder_eq_subst(c, b, a);
}

pub proof fn lemma_entries_trans(
    a: Seq<(ValueV, ValueV)>,
    b: Seq<(ValueV, ValueV)>,
    c: Seq<(ValueV, ValueV)>,
)
    requires
        order_entries(a, b) < 0,
        order_entries(b, c) < 0,
    ensures
        order_entries(a, c) < 0,
    decreases a,
{
    if a.len() > 0 && b.len() > 0 && c.len() > 0 {
        let (ak, av) = a[0];
        let (bk, bv) = b[0];
        let (ck, cv) = c[0];
        lemma_vorder_antisym(ak, bk);
        lemma_vorder_antisym(bk, ck);
        lemma_vorder_antisym(av, bv);
        lemma_vorder_antisym(bv, cv);
        if vorder(ak, bk) < 0 && vorder(bk, ck) < 0 {
            lemma_vorder_trans(ak, bk, ck);
        } else if vorder(ak, bk) < 0 {
            lemma_vorder_eq_subst_right(ak, bk, ck);
        } else if vorder(bk, ck) < 0 {
            lemma_vorder_eq_subst(ak, bk, ck);
        } else {
            lemma_vorder_eq_subst(ak, bk, ck);
            if vorder(av, bv) < 0 && vorder(bv, cv) < 0 {
                lemma_vorder_trans(av, bv, cv);
            } else if vorder(av, bv) < 0 {
                lemma_vorder_eq_subst_right(av, bv, cv);
            } else if vorder(bv, cv) < 0 {
                lemma_vorder_eq_subst(av, bv, cv);
            } else {
                lemma_vorder_eq_subst(av, bv, cv);
                lemma_entries_trans(a.drop_first(), b.drop_first(), c.drop_first());
            }
        }
    }
}


// ------------------------------------------------------------------
// Facts about the model of entries
// ------------------------------------------------------------------

pub proof fn lemma_entries_view(s: Seq<(Value, Value)>)
    ensures
        entries_view(s).len() == s.len(),
        forall|i: int|
            0 <= i < s.len() ==> #[trigger] entries_view(s)[i] == (s[i].0@, s[i].1@),
    decreases s.len(),
{
    if s.len() > 0 {
        lemma_entries_view(s.drop_last());
    }
}

/// Two entry sequences whose entries have equal models have equal models.
pub proof fn lemma_entries_view_ext(s: Seq<(Value, Value)>, t: Seq<(Value, Value)>)
    requires
        s.len() == t.len(),
        forall|i: int| 0 <= i < s.len() ==> s[i].0@ == t[i].0@ && s[i].1@ == t[i].1@,
    ensures
        entries_view(s) == entries_view(t),
{
    lemma_entries_view(s);
    lemma_entries_view(t);
    assert(entries_view(s) =~= entries_view(t));
}


// ------------------------------------------------------------------
// Comparing values
// ------------------------------------------------------------------

/// Compares two byte strings lexicographically.
pub fn compare_bytes(a: &[u8], b: &[u8]) -> (r: Comparison)
    ensures
        r.as_int() == order_bytes(a@, b@),
{
    let mut i: usize = 0;
    assert(a@.skip(0) =~= a@);
    assert(b@.skip(0) =~= b@);
    while i < a.len() && i < b.len()
        invariant
            i <= a.len(),
            i <= b.len(),
            order_bytes(a@, b@) == order_bytes(a@.skip(i as int), b@.skip(i as int)),
        decreases a.len() - i,
    {
        if a[i] < b[i] {
            return Comparison::Less;
        }
        if a[i] > b[i] {
            return Comparison::Greater;
        }
        assert(a@.skip(i as int).drop_first() =~= a@.skip(i + 1));
        assert(b@.skip(i as int).drop_first() =~= b@.skip(i + 1));
        i = i + 1;
    }
    if a.len() == b.len() {
        Comparison::Equal
    } else if i == a.len() {
        Comparison::Less
    } else {
        Comparison::Greater
    }
}

fn compare_ranks(x: u8, y: u8) -> (r: Comparison)
    ensures
        r.as_int() == sign(x as int, y as int),
{
    if x < y {
        Comparison::Less
    } else if x == y {
        Comparison::Equal
    } else {
        Comparison::Greater
    }
}

fn value_rank(v: &Value) -> (r: u8)
    ensures
        r as int == rank(v@),
{
    match v {
        Value::Boolean(_) => 0,
        Value::Integer(_) => 1,
        Value::Float(_) => 2,
        Value::String(_) => 3,
        Value::File(_) => 4,
        Value::Mapping(_) => 5,
        Value::Function(_) => 6,
    }
}

fn function_rank_of(f: Function) -> (r: u8)
    ensures
        r as int == function_rank(f),
{
    match f {
        Function::LoadFile => 0,
        Function::WriteFile => 1,
    }
}

impl Value {
    /// Compares two values in the order that mappings are sorted by.
    pub fn compare(&self, other: &Value) -> (r: Comparison)
        ensures
            r.as_int() == vorder(self@, other@),
        decreases self,
    {
        match self {
            Value::Boolean(x) => match other {
                Value::Boolean(y) => {
                    let rx: u8 = if *x { 1 } else { 0 };
                    let ry: u8 = if *y { 1 } else { 0 };
                    compare_ranks(rx, ry)
                },
                _ => compare_ranks(value_rank(self), value_rank(other)),
            },
            Value::Integer(x) => match other {
                Value::Integer(y) => if *x < *y {
                    Comparison::Less
                } else if *x == *y {
                    Comparison::Equal
                } else {
                    Comparison::Greater
                },
                _ => compare_ranks(value_rank(self), value_rank(other)),
            },
            Value::Float(x) => match other {
                Value::Float(y) => if *x < *y {
                    Comparison::Less
                } else if *x == *y {
                    Comparison::Equal
                } else {
                    Comparison::Greater
                },
                _ => compare_ranks(value_rank(self), value_rank(other)),
            },
            Value::String(x) => match other {
                Value::String(y) => compare_bytes(x.as_str().as_bytes(), y.as_str().as_bytes()),
                _ => compare_ranks(value_rank(self), value_rank(other)),
            },
            Value::File(x) => match other {
                Value::File(y) => compare_bytes(x.hash.as_slice(), y.hash.as_slice()),
                _ => compare_ranks(value_rank(self), value_rank(other)),
            },
            Value::Mapping(x) => match other {
                Value::Mapping(y) => x.compare_entries(y),
                _ => compare_ranks(value_rank(self), value_rank(other)),
            },
            Value::Function(x) => match other {
                Value::Function(y) => compare_ranks(function_rank_of(*x), function_rank_of(*y)),
                _ => compare_ranks(value_rank(self), value_rank(other)),
            },
        }
    }

    /// Whether two values are equal as the language sees them: files by their
    /// hash, mappings by their entries.
    pub fn equals(&self, other: &Value) -> (r: bool)
        ensures
            r == vequal(self@, other@),
    {
        match self.compare(other) {
            Comparison::Equal => true,
            _ => false,
        }
    }
}

impl Mapping {
    fn compare_entries(&self, other: &Mapping) -> (r: Comparison)
        ensures
            r.as_int() == order_entries(self@, other@),
        decreases self,
    {
        let xs = &self.entries;
        let ys = &other.entries;
        proof {
            lemma_entries_view(xs@);
            lemma_entries_view(ys@);
            assert(self@.skip(0) =~= self@);
            assert(other@.skip(0) =~= other@);
        }
        let mut i: usize = 0;
        while i < xs.len() && i < ys.len()
            invariant
                xs == &self.entries,
                ys == &other.entries,
                i <= xs.len(),
                i <= ys.len(),
                self@.len() == xs@.len(),
                other@.len() == ys@.len(),
                forall|j: int| 0 <= j < xs@.len() ==> #[trigger] self@[j] == (xs@[j].0@, xs@[j].1@),
                forall|j: int| 0 <= j < ys@.len() ==> #[trigger] other@[j] == (ys@[j].0@, ys@[j].1@),
                order_entries(self@, other@) == order_entries(self@.skip(i as int), other@.skip(i as int)),
            decreases xs.len() - i,
        {
            assert(self@.skip(i as int)[0] == self@[i as int]);
            assert(other@.skip(i as int)[0] == other@[i as int]);
            let c = xs[i].0.compare(&ys[i].0);
            match c {
                Comparison::Equal => {},
                _ => return c,
            }
            let d = xs[i].1.compare(&ys[i].1);
            match d {
                Comparison::Equal => {},
                _ => return d,
            }
            assert(self@.skip(i as int).drop_first() =~= self@.skip(i + 1));
            assert(other@.skip(i as int).drop_first() =~= other@.skip(i + 1));
            i = i + 1;
        }
        if xs.len() == ys.len() {
            Comparison::Equal
        } else if i == xs.len() {
            Comparison::Less
        } else {
            Comparison::Greater
        }
    }
}


// ------------------------------------------------------------------
// Mappings in the model
// ------------------------------------------------------------------

/// Keys strictly increase along the entries.
pub open spec fn keys_sorted(s: Seq<(ValueV, ValueV)>) -> bool {
    forall|i: int, j: int| 0 <= i < j < s.len() ==> vorder(#[trigger] s[i].0, #[trigger] s[j].0) < 0
}

/// The value stored under the first key equal to `k`.
pub open spec fn lookup(s: Seq<(ValueV, ValueV)>, k: ValueV) -> Option<ValueV>
    decreases s.len(),
{
    if s.len() == 0 {
        None
    } else if vorder(s[0].0, k) == 0 {
        Some(s[0].1)
    } else {
        lookup(s.drop_first(), k)
    }
}

/// The number of leading entries whose keys are below `k`.
pub open spec fn insert_point(s: Seq<(ValueV, ValueV)>, k: ValueV) -> int
    decreases s.len(),
{
    if s.len() == 0 {
        0
    } else if vorder(s[0].0, k) < 0 {
        1 + insert_point(s.drop_first(), k)
    } else {
        0
    }
}

/// The entries after putting `v` under `k`: an entry with an equal key keeps
/// its key and takes the new value; otherwise a new entry goes in at its place
/// in the order.
pub open spec fn put_entry(s: Seq<(ValueV, ValueV)>, k: ValueV, v: ValueV) -> Seq<(ValueV, ValueV)> {
    let p = insert_point(s, k);
    if p < s.len() && vorder(s[p].0, k) == 0 {
        s.update(p, (s[p].0, v))
    } else {
        s.insert(p, (k, v))
    }
}

/// The entries after putting every entry of `t`, in order.
pub open spec fn put_all_entries(s: Seq<(ValueV, ValueV)>, t: Seq<(ValueV, ValueV)>) -> Seq<(ValueV, ValueV)>
    decreases t.len(),
{
    if t.len() == 0 {
        s
    } else {
        put_entry(put_all_entries(s, t.drop_last()), t.last().0, t.last().1)
    }
}

pub proof fn lemma_insert_point(s: Seq<(ValueV, ValueV)>, k: ValueV)
    ensures
        0 <= insert_point(s, k) <= s.len(),
        forall|i: int| 0 <= i < insert_point(s, k) ==> vorder(#[trigger] s[i].0, k) < 0,
        insert_point(s, k) < s.len() ==> vorder(s[insert_point(s, k)].0, k) >= 0,
    decreases s.len(),
{
    if s.len() > 0 {
        lemma_insert_point(s.drop_first(), k);
        if vorder(s[0].0, k) < 0 {
            assert forall|i: int| 0 <= i < insert_point(s, k) implies vorder(#[trigger] s[i].0, k) < 0 by {
                if i > 0 {
                    assert(s[i] == s.drop_first()[i - 1]);
                }
            }
        }
    }
}

/// The insertion point is the first index whose key is not below `k`.
pub proof fn lemma_insert_point_at(s: Seq<(ValueV, ValueV)>, k: ValueV, p: int)
    requires
        0 <= p <= s.len(),
        forall|i: int| 0 <= i < p ==> vorder(#[trigger] s[i].0, k) < 0,
        p < s.len() ==> vorder(s[p].0, k) >= 0,
    ensures
        insert_point(s, k) == p,
    decreases s.len(),
{
    if s.len() > 0 && p > 0 {
        assert(vorder(s[0].0, k) < 0);
        assert forall|i: int| 0 <= i < p - 1 implies vorder(#[trigger] s.drop_first()[i].0, k) < 0 by {
            assert(s.drop_first()[i] == s[i + 1]);
        }
        lemma_insert_point_at(s.drop_first(), k, p - 1);
    }
}

/// `lookup` finds the first entry whose key is equal to `k`.
pub proof fn lemma_lookup(s: Seq<(ValueV, ValueV)>, k: ValueV)
    ensures
        lookup(s, k) is None <==> (forall|i: int| 0 <= i < s.len() ==> vorder(#[trigger] s[i].0, k) != 0),
        lookup(s, k) is Some ==> exists|i: int|
            0 <= i < s.len() && vorder(#[trigger] s[i].0, k) == 0 && lookup(s, k) == Some(s[i].1)
                && (forall|j: int| 0 <= j < i ==> vorder(#[trigger] s[j].0, k) != 0),
    decreases s.len(),
{
    if s.len() > 0 {
        lemma_lookup(s.drop_first(), k);
        if vorder(s[0].0, k) != 0 {
            if lookup(s, k) is None {
                assert forall|i: int| 0 <= i < s.len() implies vorder(#[trigger] s[i].0, k) != 0 by {
                    if i > 0 {
                        assert(s[i] == s.drop_first()[i - 1]);
                    }
                }
            } else {
                let i = choose|i: int|
                    0 <= i < s.drop_first().len() && vorder(#[trigger] s.drop_first()[i].0, k) == 0
                        && lookup(s.drop_first(), k) == Some(s.drop_first()[i].1) && (forall|j: int|
                        0 <= j < i ==> vorder(#[trigger] s.drop_first()[j].0, k) != 0);
                assert(s[i + 1] == s.drop_first()[i]);
                assert forall|j: int| 0 <= j < i + 1 implies vorder(#[trigger] s[j].0, k) != 0 by {
                    if j > 0 {
                        assert(s[j] == s.drop_first()[j - 1]);
                    }
                }
            }
            if forall|i: int| 0 <= i < s.len() ==> vorder(#[trigger] s[i].0, k) != 0 {
                assert forall|i: int| 0 <= i < s.drop_first().len() implies vorder(#[trigger] s.drop_first()[i].0, k) != 0 by {
                    assert(s.drop_first()[i] == s[i + 1]);
                }
            }
        } else {
            assert(vorder(s[0].0, k) == 0);
        }
    }
}

/// The first entry whose key is equal to `k` is what `lookup` finds.
pub proof fn lemma_lookup_at(s: Seq<(ValueV, ValueV)>, k: ValueV, i: int)
    requires
        0 <= i < s.len(),
        vorder(s[i].0, k) == 0,
        forall|j: int| 0 <= j < i ==> vorder(#[trigger] s[j].0, k) != 0,
    ensures
        lookup(s, k) == Some(s[i].1),
{
    lemma_lookup(s, k);
    if lookup(s, k) is Some {
        let i2 = choose|i2: int|
            0 <= i2 < s.len() && vorder(#[trigger] s[i2].0, k) == 0 && lookup(s, k) == Some(s[i2].1)
                && (forall|j: int| 0 <= j < i2 ==> vorder(#[trigger] s[j].0, k) != 0);
        if i2 < i {
            assert(vorder(s[i2].0, k) != 0);
        } else if i < i2 {
            assert(vorder(s[i].0, k) != 0);
        }
    }
}

/// Putting keeps the keys sorted.
pub proof fn lemma_put_entry_sorted(s: Seq<(ValueV, ValueV)>, k: ValueV, v: ValueV)
    requires
        keys_sorted(s),
    ensures
        keys_sorted(put_entry(s, k, v)),
{
    lemma_insert_point(s, k);
    let p = insert_point(s, k);
    let r = put_entry(s, k, v);
    if p < s.len() && vorder(s[p].0, k) == 0 {
        assert forall|i: int, j: int| 0 <= i < j < r.len() implies vorder(#[trigger] r[i].0, #[trigger] r[j].0) < 0 by {
            assert(r[i].0 == s[i].0);
            assert(r[j].0 == s[j].0);
        }
    } else {
        if p < s.len() {
            lemma_vorder_antisym(s[p].0, k);
        }
        assert forall|i: int, j: int| 0 <= i < j < r.len() implies vorder(#[trigger] r[i].0, #[trigger] r[j].0) < 0 by {
            if j < p {
                assert(r[i] == s[i] && r[j] == s[j]);
            } else if j == p {
                assert(r[i] == s[i]);
            } else if i == p {
                assert(r[j] == s[j - 1]);
                if j - 1 > p {
                    assert(vorder(s[p].0, s[j - 1].0) < 0);
                    lemma_vorder_trans(k, s[p].0, s[j - 1].0);
                }
            } else if i < p {
                assert(r[i] == s[i] && r[j] == s[j - 1]);
            } else {
                assert(r[i] == s[i - 1] && r[j] == s[j - 1]);
            }
        }
    }
}


/// Looking up equal keys gives the same result.
pub proof fn lemma_lookup_equal_keys(s: Seq<(ValueV, ValueV)>, k: ValueV, k2: ValueV)
    requires
        vequal(k, k2),
    ensures
        lookup(s, k) == lookup(s, k2),
{
    lemma_lookup(s, k);
    lemma_lookup(s, k2);
    assert forall|i: int| 0 <= i < s.len() implies vorder(#[trigger] s[i].0, k) == vorder(s[i].0, k2) by {
        lemma_vorder_eq_subst_right(s[i].0, k, k2);
    }
    if lookup(s, k) is Some {
        let i = choose|i: int|
            0 <= i < s.len() && vorder(#[trigger] s[i].0, k) == 0 && lookup(s, k) == Some(s[i].1)
                && (forall|j: int| 0 <= j < i ==> vorder(#[trigger] s[j].0, k) != 0);
        lemma_lookup_at(s, k2, i);
    }
}

/// Looking up in entries extended at the end by an entry whose key differs.
proof fn lemma_lookup_push_other(s: Seq<(ValueV, ValueV)>, e: (ValueV, ValueV), k: ValueV)
    requires
        vorder(e.0, k) != 0,
    ensures
        lookup(s.push(e), k) == lookup(s, k),
{
    let t = s.push(e);
    lemma_lookup(s, k);
    lemma_lookup(t, k);
    if lookup(s, k) is Some {
        let i = choose|i: int|
            0 <= i < s.len() && vorder(#[trigger] s[i].0, k) == 0 && lookup(s, k) == Some(s[i].1)
                && (forall|j: int| 0 <= j < i ==> vorder(#[trigger] s[j].0, k) != 0);
        assert(t[i] == s[i]);
        assert forall|j: int| 0 <= j < i implies vorder(#[trigger] t[j].0, k) != 0 by {
            assert(t[j] == s[j]);
        }
        lemma_lookup_at(t, k, i);
    } else {
        assert forall|j: int| 0 <= j < t.len() implies vorder(#[trigger] t[j].0, k) != 0 by {
            if j < s.len() {
                assert(t[j] == s[j]);
            }
        }
    }
}

/// Law: after putting `v` under `k`, looking up `k` gives `v`.
pub proof fn law_lookup_put_same(s: Seq<(ValueV, ValueV)>, k: ValueV, v: ValueV)
    ensures
        lookup(put_entry(s, k, v), k) == Some(v),
{
    lemma_insert_point(s, k);
    lemma_vorder_refl(k);
    let p = insert_point(s, k);
    let r = put_entry(s, k, v);
    assert forall|j: int| 0 <= j < p implies vorder(#[trigger] r[j].0, k) != 0 by {
        assert(r[j] == s[j]);
    }
    lemma_lookup_at(r, k, p);
}

/// Law: putting under `k` leaves what every key not equal to `k` looks up.
pub proof fn law_lookup_put_other(s: Seq<(ValueV, ValueV)>, k: ValueV, v: ValueV, k2: ValueV)
    requires
        !vequal(k, k2),
    ensures
        lookup(put_entry(s, k, v), k2) == lookup(s, k2),
{
    lemma_insert_point(s, k);
    lemma_lookup(s, k2);
    let p = insert_point(s, k);
    let r = put_entry(s, k, v);
    let updated = p < s.len() && vorder(s[p].0, k) == 0;
    if updated {
        assert forall|i: int| 0 <= i < s.len() implies vorder(#[trigger] r[i].0, k2) == vorder(s[i].0, k2) by {
            assert(r[i].0 == s[i].0);
        }
        if vorder(s[p].0, k2) == 0 {
            lemma_vorder_eq_subst(s[p].0, k, k2);
        }
    }
    if lookup(s, k2) is Some {
        let i = choose|i: int|
            0 <= i < s.len() && vorder(#[trigger] s[i].0, k2) == 0 && lookup(s, k2) == Some(s[i].1)
                && (forall|j: int| 0 <= j < i ==> vorder(#[trigger] s[j].0, k2) != 0);
        if updated {
            if i == p {
                lemma_vorder_eq_subst(s[p].0, k, k2);
            }
            assert(r[i] == s[i]);
            lemma_lookup_at(r, k2, i);
        } else if i < p {
            assert(r[i] == s[i]);
            assert forall|j: int| 0 <= j < i implies vorder(#[trigger] r[j].0, k2) != 0 by {
                assert(r[j] == s[j]);
            }
            lemma_lookup_at(r, k2, i);
        } else {
            assert(r[i + 1] == s[i]);
            assert forall|j: int| 0 <= j < i + 1 implies vorder(#[trigger] r[j].0, k2) != 0 by {
                if j < p {
                    assert(r[j] == s[j]);
                } else if j > p {
                    assert(r[j] == s[j - 1]);
                }
            }
            lemma_lookup_at(r, k2, i + 1);
        }
    } else {
        lemma_lookup(r, k2);
        assert forall|j: int| 0 <= j < r.len() implies vorder(#[trigger] r[j].0, k2) != 0 by {
            if !updated {
                if j < p {
                    assert(r[j] == s[j]);
                } else if j > p {
                    assert(r[j] == s[j - 1]);
                }
            }
        }
    }
}

/// Law: after putting all entries of a mapping `t`, a key looks up its value
/// in `t` where `t` has it, and its earlier value otherwise.
pub proof fn law_lookup_put_all(s: Seq<(ValueV, ValueV)>, t: Seq<(ValueV, ValueV)>, k: ValueV)
    requires
        keys_sorted(t),
    ensures
        lookup(put_all_entries(s, t), k) == match lookup(t, k) {
            Some(v) => Some(v),
            None => lookup(s, k),
        },
    decreases t.len(),
{
    if t.len() > 0 {
        let t0 = t.drop_last();
        let e = t.last();
        let x = put_all_entries(s, t0);
        assert(keys_sorted(t0)) by {
            assert forall|i: int, j: int| 0 <= i < j < t0.len() implies vorder(#[trigger] t0[i].0, #[trigger] t0[j].0) < 0 by {
                assert(t0[i] == t[i] && t0[j] == t[j]);
            }
        }
        law_lookup_put_all(s, t0, k);
        assert(t0.push(e) =~= t);
        if vorder(e.0, k) == 0 {
            law_lookup_put_same(x, e.0, e.1);
            lemma_lookup_equal_keys(put_entry(x, e.0, e.1), e.0, k);
            assert forall|j: int| 0 <= j < t.len() - 1 implies vorder(#[trigger] t[j].0, k) != 0 by {
                assert(vorder(t[j].0, t[t.len() - 1].0) < 0);
                lemma_vorder_eq_subst_right(t[j].0, e.0, k);
            }
            lemma_lookup_at(t, k, t.len() - 1);
        } else {
            law_lookup_put_other(x, e.0, e.1, k);
            lemma_lookup_push_other(t0, e, k);
        }
    }
}


/// Whether the entries hold a key equal to `k`, at its insertion point.
pub open spec fn found_at(s: Seq<(ValueV, ValueV)>, k: ValueV) -> bool {
    insert_point(s, k) < s.len() && vorder(s[insert_point(s, k)].0, k) == 0
}

/// How many entries a put of `k` replaces: one or none.
pub open spec fn replaced(s: Seq<(ValueV, ValueV)>, k: ValueV) -> int {
    if found_at(s, k) { 1 } else { 0 }
}

/// The key that the entry put under `k` carries: the equal key already
/// there, or `k`.
pub open spec fn put_key(s: Seq<(ValueV, ValueV)>, k: ValueV) -> ValueV {
    if found_at(s, k) { s[insert_point(s, k)].0 } else { k }
}

/// Putting splits the entries at the insertion point.
proof fn lemma_put_entry_split(s: Seq<(ValueV, ValueV)>, k: ValueV, v: ValueV)
    ensures
        put_entry(s, k, v) == s.take(insert_point(s, k)) + seq![(put_key(s, k), v)] + s.skip(
            insert_point(s, k) + replaced(s, k),
        ),
{
    lemma_insert_point(s, k);
    let p = insert_point(s, k);
    assert(put_entry(s, k, v) =~= s.take(p) + seq![(put_key(s, k), v)] + s.skip(p + replaced(s, k)));
}

/// The entries after putting two keys, the smaller first: those below the
/// smaller key, its entry, those between, the larger key's entry, and those
/// above.
pub open spec fn put_pair_entries(s: Seq<(ValueV, ValueV)>, k1: ValueV, v1: ValueV, k2: ValueV, v2: ValueV) -> Seq<(ValueV, ValueV)> {
    let p1 = insert_point(s, k1);
    let p2 = insert_point(s, k2);
    s.take(p1) + seq![(put_key(s, k1), v1)] + s.subrange(p1 + replaced(s, k1), p2) + seq![(put_key(s, k2), v2)]
        + s.skip(p2 + replaced(s, k2))
}

/// Where two keys go, the smaller before the larger.
proof fn lemma_put_pair_places(s: Seq<(ValueV, ValueV)>, k1: ValueV, k2: ValueV)
    requires
        keys_sorted(s),
        vorder(k1, k2) < 0,
    ensures
        insert_point(s, k1) + replaced(s, k1) <= insert_point(s, k2),
        vorder(put_key(s, k1), k2) < 0,
        vorder(put_key(s, k2), k1) > 0,
{
    lemma_insert_point(s, k1);
    lemma_insert_point(s, k2);
    lemma_vorder_antisym(k1, k2);
    let p1 = insert_point(s, k1);
    let p2 = insert_point(s, k2);
    if p2 < p1 + replaced(s, k1) {
        if p2 < p1 {
            assert(vorder(s[p2].0, k1) < 0);
            lemma_vorder_antisym(s[p2].0, k2);
            if vorder(s[p2].0, k2) == 0 {
                lemma_vorder_eq_subst(s[p2].0, k2, k1);
            } else {
                lemma_vorder_trans(k2, s[p2].0, k1);
            }
        } else {
            lemma_vorder_eq_subst(s[p1].0, k1, k2);
        }
    }
    if found_at(s, k1) {
        lemma_vorder_eq_subst(s[p1].0, k1, k2);
    }
    if found_at(s, k2) {
        lemma_vorder_eq_subst(s[p2].0, k2, k1);
    }
}

/// Putting the smaller key first.
proof fn lemma_put_smaller_first(s: Seq<(ValueV, ValueV)>, k1: ValueV, v1: ValueV, k2: ValueV, v2: ValueV)
    requires
        keys_sorted(s),
        vorder(k1, k2) < 0,
    ensures
        put_entry(put_entry(s, k1, v1), k2, v2) == put_pair_entries(s, k1, v1, k2, v2),
{
    lemma_put_pair_places(s, k1, k2);
    lemma_insert_point(s, k1);
    lemma_insert_point(s, k2);
    lemma_put_entry_split(s, k1, v1);
    let p1 = insert_point(s, k1);
    let p2 = insert_point(s, k2);
    let f1 = replaced(s, k1);
    let t = put_entry(s, k1, v1);
    let q = p2 - f1 + 1;
    assert forall|i: int| 0 <= i < q implies vorder(#[trigger] t[i].0, k2) < 0 by {
        if i < p1 {
            assert(t[i] == s[i]);
        } else if i > p1 {
            assert(t[i] == s[i - 1 + f1]);
        }
    }
    if q < t.len() {
        assert(t[q] == s[p2]);
    }
    lemma_insert_point_at(t, k2, q);
    assert(found_at(t, k2) == found_at(s, k2));
    assert(put_key(t, k2) == put_key(s, k2));
    lemma_put_entry_split(t, k2, v2);
    assert(put_entry(t, k2, v2) =~= put_pair_entries(s, k1, v1, k2, v2));
}

/// Putting the larger key first.
proof fn lemma_put_larger_first(s: Seq<(ValueV, ValueV)>, k1: ValueV, v1: ValueV, k2: ValueV, v2: ValueV)
    requires
        keys_sorted(s),
        vorder(k1, k2) < 0,
    ensures
        put_entry(put_entry(s, k2, v2), k1, v1) == put_pair_entries(s, k1, v1, k2, v2),
{
    lemma_put_pair_places(s, k1, k2);
    lemma_insert_point(s, k1);
    lemma_insert_point(s, k2);
    lemma_put_entry_split(s, k2, v2);
    let p1 = insert_point(s, k1);
    let p2 = insert_point(s, k2);
    let u = put_entry(s, k2, v2);
    assert forall|i: int| 0 <= i < p1 implies vorder(#[trigger] u[i].0, k1) < 0 by {
        assert(u[i] == s[i]);
    }
    if p1 < u.len() {
        if p1 < p2 {
            assert(u[p1] == s[p1]);
        } else {
            assert(u[p1].0 == put_key(s, k2));
            lemma_vorder_antisym(put_key(s, k2), k1);
        }
    }
    lemma_insert_point_at(u, k1, p1);
    assert(found_at(u, k1) == found_at(s, k1));
    assert(put_key(u, k1) == put_key(s, k1));
    lemma_put_entry_split(u, k1, v1);
    assert(put_entry(u, k1, v1) =~= put_pair_entries(s, k1, v1, k2, v2));
}

/// Law: no key is found in the empty mapping.
pub proof fn law_lookup_empty(k: ValueV)
    ensures
        lookup(Seq::empty(), k) is None,
{
}

/// Law: putting the same entry a second time changes nothing.
pub proof fn law_put_twice(s: Seq<(ValueV, ValueV)>, k: ValueV, v: ValueV)
    requires
        keys_sorted(s),
    ensures
        put_entry(put_entry(s, k, v), k, v) == put_entry(s, k, v),
{
    lemma_insert_point(s, k);
    lemma_put_entry_split(s, k, v);
    let p = insert_point(s, k);
    let t = put_entry(s, k, v);
    let key = put_key(s, k);
    lemma_vorder_refl(k);
    assert(vorder(key, k) == 0);
    assert forall|i: int| 0 <= i < p implies vorder(#[trigger] t[i].0, k) < 0 by {
        assert(t[i] == s[i]);
    }
    assert(t[p] == (key, v));
    lemma_insert_point_at(t, k, p);
    assert(t.update(p, (t[p].0, v)) =~= t);
}

/// Law: putting all of an empty mapping changes nothing, and putting all of
/// a mapping into the empty one gives that mapping.
pub proof fn law_put_all_empty(s: Seq<(ValueV, ValueV)>, t: Seq<(ValueV, ValueV)>)
    requires
        keys_sorted(t),
    ensures
        put_all_entries(s, Seq::empty()) == s,
        put_all_entries(Seq::empty(), t) == t,
    decreases t.len(),
{
    if t.len() > 0 {
        let u = t.drop_last();
        let (k, v) = t.last();
        assert(keys_sorted(u)) by {
            assert forall|i: int, j: int| 0 <= i < j < u.len() implies vorder(#[trigger] u[i].0, #[trigger] u[j].0) < 0 by {
                assert(u[i] == t[i] && u[j] == t[j]);
            }
        }
        law_put_all_empty(s, u);
        assert forall|i: int| 0 <= i < u.len() implies vorder(#[trigger] u[i].0, k) < 0 by {
            assert(u[i] == t[i]);
        }
        lemma_insert_point_at(u, k, u.len() as int);
        assert(u.insert(u.len() as int, (k, v)) =~= t);
    }
}

/// Law: putting two keys that are not equal gives the same entries in
/// either order, so a mapping does not depend on the order its entries were
/// put in.
pub proof fn law_put_commutes(s: Seq<(ValueV, ValueV)>, k1: ValueV, v1: ValueV, k2: ValueV, v2: ValueV)
    requires
        keys_sorted(s),
        !vequal(k1, k2),
    ensures
        put_entry(put_entry(s, k1, v1), k2, v2) == put_entry(put_entry(s, k2, v2), k1, v1),
{
    lemma_vorder_antisym(k1, k2);
    if vorder(k1, k2) < 0 {
        lemma_put_smaller_first(s, k1, v1, k2, v2);
        lemma_put_larger_first(s, k1, v1, k2, v2);
    } else {
        lemma_put_smaller_first(s, k2, v2, k1, v1);
        lemma_put_larger_first(s, k2, v2, k1, v1);
    }
}

// ------------------------------------------------------------------
// Mappings
// ------------------------------------------------------------------

impl Mapping {
    #[verifier::type_invariant]
    pub closed spec fn entries_sorted(self) -> bool {
        keys_sorted(entries_view(self.entries@))
    }

    /// The keys of a mapping are sorted.
    pub proof fn lemma_sorted(self)
        requires
            self.entries_sorted(),
        ensures
            keys_sorted(self@),
    {
    }

    /// The empty mapping.
    pub fn new() -> (r: Mapping)
        ensures
            r@ == Seq::<(ValueV, ValueV)>::empty(),
    {
        let r = Mapping { entries: Vec::new() };
        proof {
            lemma_entries_view(r.entries@);
            assert(r@ =~= Seq::<(ValueV, ValueV)>::empty());
        }
        r
    }

    /// The number of entries.
    pub fn len(&self) -> (r: usize)
        ensures
            r == self@.len(),
    {
        proof {
            lemma_entries_view(self.entries@);
        }
        self.entries.len()
    }

    /// The entry at position `i` in key order.
    pub fn entry(&self, i: usize) -> (r: (&Value, &Value))
        requires
            i < self@.len(),
        ensures
            (r.0@, r.1@) == self@[i as int],
    {
        proof {
            lemma_entries_view(self.entries@);
        }
        (&self.entries[i].0, &self.entries[i].1)
    }

    /// The position of the first entry whose key is not below `key`.
    fn find_insert_point(&self, key: &Value) -> (r: usize)
        ensures
            r == insert_point(self@, key@),
    {
        proof {
            lemma_entries_view(self.entries@);
        }
        let mut i: usize = 0;
        while i < self.entries.len()
            invariant
                i <= self.entries.len(),
                self@.len() == self.entries@.len(),
                forall|j: int| 0 <= j < self.entries@.len() ==> #[trigger] self@[j] == (self.entries@[j].0@, self.entries@[j].1@),
                forall|j: int| 0 <= j < i ==> vorder(#[trigger] self@[j].0, key@) < 0,
            decreases self.entries.len() - i,
        {
            match self.entries[i].0.compare(key) {
                Comparison::Less => {},
                _ => {
                    proof {
                        lemma_insert_point_at(self@, key@, i as int);
                    }
                    return i;
                },
            }
            i = i + 1;
        }
        proof {
            lemma_insert_point_at(self@, key@, i as int);
        }
        i
    }

    /// Puts `val` under `key`.  An entry with an equal key keeps its key and
    /// takes the new value.
    pub fn put(self, key: Value, val: Value) -> (r: Mapping)
        ensures
            r@ == put_entry(self@, key@, val@),
    {
        proof {
            use_type_invariant(&self);
            lemma_put_entry_sorted(self@, key@, val@);
            lemma_insert_point(self@, key@);
        }
        let p = self.find_insert_point(&key);
        let ghost old_view = self@;
        let ghost old_entries = self.entries@;
        let Mapping { mut entries } = self;
        proof {
            lemma_entries_view(old_entries);
        }
        let found = if p < entries.len() {
            match entries[p].0.compare(&key) {
                Comparison::Equal => true,
                _ => false,
            }
        } else {
            false
        };
        if found {
            let (k_old, _) = entries.remove(p);
            entries.insert(p, (k_old, val));
            proof {
                lemma_entries_view(entries@);
                assert(entries_view(entries@) =~= put_entry(old_view, key@, val@));
            }
        } else {
            entries.insert(p, (key, val));
            proof {
                lemma_entries_view(entries@);
                assert(entries_view(entries@) =~= put_entry(old_view, key@, val@));
            }
        }
        Mapping { entries }
    }

    /// Puts every entry of `another`, in key order.
    pub fn put_all(self, another: &Mapping) -> (r: Mapping)
        ensures
            r@ == put_all_entries(self@, another@),
    {
        let mut m = self;
        let n = another.len();
        let ghost start = self@;
        assert(another@.take(0) =~= Seq::<(ValueV, ValueV)>::empty());
        let mut i: usize = 0;
        while i < n
            invariant
                i <= n,
                n == another@.len(),
                m@ == put_all_entries(start, another@.take(i as int)),
            decreases n - i,
        {
            let (k, v) = another.entry(i);
            let k2 = k.clone();
            let v2 = v.clone();
            m = m.put(k2, v2);
            assert(another@.take(i + 1).drop_last() =~= another@.take(i as int));
            i = i + 1;
        }
        assert(another@.take(n as int) =~= another@);
        m
    }

    /// The value stored under a key equal to `key`, if any.
    pub fn get(&self, key: &Value) -> (r: Option<&Value>)
        ensures
            match lookup(self@, key@) {
                Some(v) => r is Some && r.unwrap()@ == v,
                None => r is None,
            },
    {
        proof {
            lemma_entries_view(self.entries@);
            lemma_lookup(self@, key@);
        }
        let mut i: usize = 0;
        while i < self.entries.len()
            invariant
                i <= self.entries.len(),
                self@.len() == self.entries@.len(),
                forall|j: int| 0 <= j < self.entries@.len() ==> #[trigger] self@[j] == (self.entries@[j].0@, self.entries@[j].1@),
                forall|j: int| 0 <= j < i ==> vorder(#[trigger] self@[j].0, key@) != 0,
            decreases self.entries.len() - i,
        {
            match self.entries[i].0.compare(key) {
                Comparison::Equal => {
                    proof {
                        lemma_lookup_at(self@, key@, i as int);
                    }
                    return Some(&self.entries[i].1);
                },
                _ => {},
            }
            i = i + 1;
        }
        None
    }
}

// ------------------------------------------------------------------
// Copies
// ------------------------------------------------------------------

impl File {
    /// The path of the file.
    pub fn path(&self) -> (r: &String)
        ensures
            r@ == self@.0,
    {
        &self.path
    }

    /// The content hash of the file.
    pub fn hash_bytes(&self) -> (r: [u8; 32])
        ensures
            r@ == self@.1,
    {
        self.hash
    }

    /// The file at `path`, identified by the hash of what was found there.
    pub fn new(path: String, entry: &FsEntry) -> (r: File)
        ensures
            r@ == (path@, sha256(fs_encoding(entry@))),
    {
        let hash = content_hash(entry);
        File { path, hash }
    }
}

/// The default mapping is the empty one.
impl Default for Mapping {
    fn default() -> (r: Mapping)
        ensures
            r@ == Seq::<(ValueV, ValueV)>::empty(),
    {
        Mapping::new()
    }
}

/// Files are equal when their content hashes are, wherever they are.
impl PartialEq for File {
    fn eq(&self, other: &Self) -> (r: bool) {
        proof {
            lemma_order_bytes_antisym(self.hash@, other.hash@);
        }
        match compare_bytes(self.hash.as_slice(), other.hash.as_slice()) {
            Comparison::Equal => true,
            _ => false,
        }
    }
}

impl vstd::std_specs::cmp::PartialEqSpecImpl for File {
    open spec fn obeys_eq_spec() -> bool {
        true
    }

    open spec fn eq_spec(&self, other: &File) -> bool {
        self.spec_hash() == other.spec_hash()
    }
}

impl Eq for File {
}

impl Clone for File {
    fn clone(&self) -> (r: Self)
        ensures
            r@ == self@,
    {
        File { path: self.path.clone(), hash: self.hash }
    }
}

impl Clone for Value {
    fn clone(&self) -> (r: Self)
        ensures
            r@ == self@,
        decreases self,
    {
        match self {
            Value::Boolean(b) => Value::Boolean(*b),
            Value::Integer(i) => Value::Integer(*i),
            Value::Float(f) => Value::Float(*f),
            Value::String(s) => Value::String(s.clone()),
            Value::File(f) => Value::File(f.clone()),
            Value::Mapping(m) => Value::Mapping(m.clone()),
            Value::Function(f) => Value::Function(*f),
        }
    }
}

impl Clone for Mapping {
    fn clone(&self) -> (r: Self)
        ensures
            r@ == self@,
        decreases self,
    {
        proof {
            use_type_invariant(self);
            lemma_entries_view(self.entries@);
        }
        let mut entries: Vec<(Value, Value)> = Vec::new();
        let mut i: usize = 0;
        while i < self.entries.len()
            invariant
                i <= self.entries.len(),
                entries@.len() == i,
                forall|j: int| 0 <= j < i ==> (#[trigger] entries@[j]).0@ == self.entries@[j].0@ && entries@[j].1@ == self.entries@[j].1@,
            decreases self.entries.len() - i,
        {
            let k = self.entries[i].0.clone();
            let v = self.entries[i].1.clone();
            entries.push((k, v));
            i = i + 1;
        }
        proof {
            lemma_entries_view_ext(entries@, self.entries@);
        }
        Mapping { entries }
    }
}

// ------------------------------------------------------------------
// Shorthands for building values
// ------------------------------------------------------------------

/// An integer value.
pub fn ival(i: i64) -> (r: Value)
    ensures
        r@ == ValueV::Integer(i),
{
    Value::Integer(i)
}

/// A string value.
pub fn sval(s: String) -> (r: Value)
    ensures
        r@ == ValueV::Str(s@),
{
    Value::String(s)
}

/// The mapping that holds `v` under the key `"is"`.
pub fn maybe_is(v: Value) -> (r: Value)
    ensures
        r@ == ValueV::Mapping(seq![(ValueV::Str("is"@), v@)]),
{
    let key = sval("is".to_string());
    proof {
        reveal_strlit("is");
    }
    let ghost vv = v@;
    let ghost kv = key@;
    let m = Mapping::new().put(key, v);
    proof {
        let e = Seq::<(ValueV, ValueV)>::empty();
        assert(insert_point(e, kv) == 0);
        assert(put_entry(e, kv, vv) =~= seq![(kv, vv)]);
    }
    Value::Mapping(m)
}

/// The value holding an empty mapping.
pub fn emptym() -> (r: Value)
    ensures
        r@ == ValueV::Mapping(Seq::empty()),
{
    Value::Mapping(Mapping::new())
}

// ------------------------------------------------------------------
// The bytes that are hashed
// ------------------------------------------------------------------

/// The `k` low bytes of `n`, least significant first.
pub open spec fn le_bytes(n: nat, k: nat) -> Seq<u8>
    decreases k,
{
    if k == 0 {
        Seq::empty()
    } else {
        seq![(n % 256) as u8] + le_bytes(n / 256, (k - 1) as nat)
    }
}

/// The number of bytes of a `usize`.
pub open spec fn usize_bytes() -> nat {
    (usize::BITS / 8) as nat
}

pub open spec fn function_encoding(f: Function) -> Seq<u8> {
    match f {
        Function::LoadFile => seq![0u8],
        Function::WriteFile => seq![1u8],
    }
}

/// The bytes hashed for a value: a byte for its kind, then its content.
pub open spec fn value_encoding(v: ValueV) -> Seq<u8>
    decreases v,
{
    match v {
        ValueV::Boolean(b) => seq![0u8, if b { 1u8 } else { 0u8 }],
        ValueV::Integer(i) => seq![1u8] + le_bytes((i as u64) as nat, 8),
        ValueV::Float(f) => seq![2u8] + le_bytes(f as nat, 8),
        ValueV::Str(s) => seq![3u8] + encode_utf8(s),
        ValueV::File(_, h) => seq![4u8] + h,
        ValueV::Mapping(e) => seq![5u8] + le_bytes(e.len(), usize_bytes()) + entries_encoding(e),
        ValueV::Function(f) => seq![6u8] + function_encoding(f),
    }
}

/// The bytes hashed for the entries of a mapping, key then value, in order.
pub open spec fn entries_encoding(e: Seq<(ValueV, ValueV)>) -> Seq<u8>
    decreases e,
{
    if e.len() == 0 {
        Seq::empty()
    } else {
        entries_encoding(e.drop_last()) + value_encoding(e.last().0) + value_encoding(e.last().1)
    }
}

/// Entry sequences compare equal exactly when they agree entry by entry.
pub proof fn lemma_entries_equal(a: Seq<(ValueV, ValueV)>, b: Seq<(ValueV, ValueV)>)
    ensures
        order_entries(a, b) == 0 <==> (a.len() == b.len() && forall|i: int|
            0 <= i < a.len() ==> vequal(#[trigger] a[i].0, b[i].0) && vequal(a[i].1, b[i].1)),
    decreases a.len(),
{
    if a.len() > 0 && b.len() > 0 {
        lemma_entries_equal(a.drop_first(), b.drop_first());
        if order_entries(a, b) == 0 {
            assert forall|i: int| 0 <= i < a.len() implies vequal(#[trigger] a[i].0, b[i].0) && vequal(a[i].1, b[i].1) by {
                if i > 0 {
                    assert(a[i] == a.drop_first()[i - 1]);
                    assert(b[i] == b.drop_first()[i - 1]);
                    assert(vequal(a.drop_first()[i - 1].0, b.drop_first()[i - 1].0));
                }
            }
        }
        if a.len() == b.len() && forall|i: int|
            0 <= i < a.len() ==> vequal(#[trigger] a[i].0, b[i].0) && vequal(a[i].1, b[i].1) {
            assert(vequal(a[0].0, b[0].0) && vequal(a[0].1, b[0].1));
            assert forall|i: int| 0 <= i < a.drop_first().len() implies vequal(#[trigger] a.drop_first()[i].0, b.drop_first()[i].0) && vequal(a.drop_first()[i].1, b.drop_first()[i].1) by {
                assert(a.drop_first()[i] == a[i + 1]);
                assert(b.drop_first()[i] == b[i + 1]);
            }
        }
    }
}

/// Law: different texts are hashed from different bytes.  (Whether their
/// hashes differ rests on SHA-256, which nothing here proves.)
pub proof fn law_distinct_texts_hash_inputs(a: Seq<char>, b: Seq<char>)
    requires
        a != b,
    ensures
        value_encoding(ValueV::Str(a)) != value_encoding(ValueV::Str(b)),
{
    vstd::utf8::encode_utf8_decode_utf8(a);
    vstd::utf8::encode_utf8_decode_utf8(b);
    if value_encoding(ValueV::Str(a)) == value_encoding(ValueV::Str(b)) {
        assert(value_encoding(ValueV::Str(a)).drop_first() =~= encode_utf8(a));
        assert(value_encoding(ValueV::Str(b)).drop_first() =~= encode_utf8(b));
    }
}

/// Law: equal values are hashed from the same bytes, so they have the same hash.
pub proof fn law_equal_values_hash_alike(a: ValueV, b: ValueV)
    requires
        vequal(a, b),
    ensures
        value_encoding(a) == value_encoding(b),
    decreases a,
{
    match a {
        ValueV::Str(x) => match b {
            ValueV::Str(y) => lemma_order_bytes_antisym(encode_utf8(x), encode_utf8(y)),
            _ => {},
        },
        ValueV::File(_, x) => match b {
            ValueV::File(_, y) => lemma_order_bytes_antisym(x, y),
            _ => {},
        },
        ValueV::Mapping(x) => match b {
            ValueV::Mapping(y) => {
                lemma_entries_equal(x, y);
                lemma_entries_encoding_alike(x, y);
            },
            _ => {},
        },
        _ => {},
    }
}

proof fn lemma_entries_encoding_alike(a: Seq<(ValueV, ValueV)>, b: Seq<(ValueV, ValueV)>)
    requires
        a.len() == b.len(),
        forall|i: int| 0 <= i < a.len() ==> vequal(#[trigger] a[i].0, b[i].0) && vequal(a[i].1, b[i].1),
    ensures
        entries_encoding(a) == entries_encoding(b),
    decreases a,
{
    if a.len() > 0 {
        let n = a.len() - 1;
        assert(vequal(a[n].0, b[n].0) && vequal(a[n].1, b[n].1));
        law_equal_values_hash_alike(a[n].0, b[n].0);
        law_equal_values_hash_alike(a[n].1, b[n].1);
        assert forall|i: int| 0 <= i < a.drop_last().len() implies vequal(#[trigger] a.drop_last()[i].0, b.drop_last()[i].0) && vequal(a.drop_last()[i].1, b.drop_last()[i].1) by {
            assert(a.drop_last()[i] == a[i] && b.drop_last()[i] == b[i]);
        }
        lemma_entries_encoding_alike(a.drop_last(), b.drop_last());
    }
}

/// Appends `bytes` to `out`.
pub fn push_bytes(out: &mut Vec<u8>, bytes: &[u8])
    ensures
        final(out)@ == old(out)@ + bytes@,
{
    let mut i: usize = 0;
    while i < bytes.len()
        invariant
            i <= bytes.len(),
            out@ == old(out)@ + bytes@.take(i as int),
        decreases bytes.len() - i,
    {
        out.push(bytes[i]);
        assert(bytes@.take(i + 1) =~= bytes@.take(i as int).push(bytes[i as int]));
        i = i + 1;
    }
    assert(bytes@.take(bytes.len() as int) =~= bytes@);
}

/// Appends the `k` low bytes of `n`, least significant first.
pub fn push_le_bytes(out: &mut Vec<u8>, n: u64, k: u32)
    ensures
        final(out)@ == old(out)@ + le_bytes(n as nat, k as nat),
{
    let mut x: u64 = n;
    let mut i: u32 = 0;
    while i < k
        invariant
            i <= k,
            out@ + le_bytes(x as nat, (k - i) as nat) == old(out)@ + le_bytes(n as nat, k as nat),
        decreases k - i,
    {
        let ghost before = out@;
        out.push((x % 256) as u8);
        assert(le_bytes(x as nat, (k - i) as nat) == seq![(x % 256) as u8] + le_bytes((x / 256) as nat, (k - i - 1) as nat));
        assert(out@ + le_bytes((x / 256) as nat, (k - i - 1) as nat) =~= before + le_bytes(x as nat, (k - i) as nat));
        x = x / 256;
        i = i + 1;
    }
    assert(out@ =~= out@ + le_bytes(x as nat, 0));
}

/// Appends the bytes hashed for `v`.
pub fn encode_value(v: &Value, out: &mut Vec<u8>)
    ensures
        final(out)@ == old(out)@ + value_encoding(v@),
    decreases v,
{
    let ghost start = out@;
    match v {
        Value::Boolean(b) => {
            out.push(0u8);
            out.push(if *b { 1u8 } else { 0u8 });
            assert(out@ =~= start + value_encoding(v@));
        },
        Value::Integer(i) => {
            out.push(1u8);
            push_le_bytes(out, *i as u64, 8);
            assert(out@ =~= start + value_encoding(v@));
        },
        Value::Float(f) => {
            out.push(2u8);
            push_le_bytes(out, *f, 8);
            assert(out@ =~= start + value_encoding(v@));
        },
        Value::String(s) => {
            out.push(3u8);
            push_bytes(out, s.as_str().as_bytes());
            assert(out@ =~= start + value_encoding(v@));
        },
        Value::File(f) => {
            out.push(4u8);
            push_bytes(out, f.hash.as_slice());
            assert(out@ =~= start + value_encoding(v@));
        },
        Value::Mapping(m) => {
            out.push(5u8);
            encode_mapping(m, out);
            assert(out@ =~= start + value_encoding(v@));
        },
        Value::Function(f) => {
            out.push(6u8);
            encode_function(*f, out);
            assert(out@ =~= start + value_encoding(v@));
        },
    }
}

fn encode_function(f: Function, out: &mut Vec<u8>)
    ensures
        final(out)@ == old(out)@ + function_encoding(f),
{
    match f {
        Function::LoadFile => out.push(0u8),
        Function::WriteFile => out.push(1u8),
    }
    assert(out@ =~= old(out)@ + function_encoding(f));
}

/// Appends the bytes hashed for the content of a mapping.
fn encode_mapping(m: &Mapping, out: &mut Vec<u8>)
    ensures
        final(out)@ == old(out)@ + le_bytes(m@.len(), usize_bytes()) + entries_encoding(m@),
    decreases m,
{
    proof {
        lemma_entries_view(m.entries@);
    }
    let n = m.entries.len();
    push_le_bytes(out, n as u64, usize::BITS / 8);
    let ghost start = out@;
    assert(m@.take(0) =~= Seq::<(ValueV, ValueV)>::empty());
    let mut i: usize = 0;
    while i < n
        invariant
            i <= n,
            n == m.entries@.len(),
            m@.len() == n,
            forall|j: int| 0 <= j < n ==> #[trigger] m@[j] == (m.entries@[j].0@, m.entries@[j].1@),
            out@ == start + entries_encoding(m@.take(i as int)),
        decreases n - i,
    {
        encode_value(&m.entries[i].0, out);
        encode_value(&m.entries[i].1, out);
        assert(m@.take(i + 1).drop_last() =~= m@.take(i as int));
        assert(out@ =~= start + entries_encoding(m@.take(i + 1)));
        i = i + 1;
    }
    assert(m@.take(n as int) =~= m@);
}

impl Sha256Hash for Value {
    open spec fn hash_input(&self) -> Seq<u8> {
        value_encoding(self@)
    }

    fn sha256_hash(&self, input: &mut Vec<u8>) {
        encode_value(self, input);
    }
}

impl Sha256Hash for File {
    open spec fn hash_input(&self) -> Seq<u8> {
        self@.1
    }

    fn sha256_hash(&self, input: &mut Vec<u8>) {
        push_bytes(input, self.hash.as_slice());
    }
}

impl Sha256Hash for Mapping {
    open spec fn hash_input(&self) -> Seq<u8> {
        le_bytes(self@.len(), usize_bytes()) + entries_encoding(self@)
    }

    fn sha256_hash(&self, input: &mut Vec<u8>) {
        encode_mapping(self, input);
    }
}

impl Sha256Hash for Function {
    open spec fn hash_input(&self) -> Seq<u8> {
        function_encoding(*self)
    }

    fn sha256_hash(&self, input: &mut Vec<u8>) {
        encode_function(*self, input);
    }
}

// ------------------------------------------------------------------
// Numbers: how they compare and how they are hashed
// ------------------------------------------------------------------

/// `256` to the power `k`.
pub open spec fn byte_power(k: nat) -> nat
    decreases k,
{
    if k == 0 {
        1
    } else {
        256 * byte_power((k - 1) as nat)
    }
}

/// Eight bytes hold 64 bits.
pub proof fn lemma_byte_power_8()
    ensures
        byte_power(8) == 0x1_0000_0000_0000_0000,
{
    reveal_with_fuel(byte_power, 9);
}

/// `le_bytes` gives `k` bytes.
pub proof fn lemma_le_bytes_len(n: nat, k: nat)
    ensures
        le_bytes(n, k).len() == k,
    decreases k,
{
    if k > 0 {
        lemma_le_bytes_len(n / 256, (k - 1) as nat);
    }
}

/// The `k` low bytes of numbers below `256^k` tell the numbers apart.
pub proof fn lemma_le_bytes_injective(n: nat, m: nat, k: nat)
    requires
        n < byte_power(k),
        m < byte_power(k),
        le_bytes(n, k) == le_bytes(m, k),
    ensures
        n == m,
    decreases k,
{
    if k > 0 {
        let b = byte_power((k - 1) as nat);
        assert(le_bytes(n, k)[0] == le_bytes(m, k)[0]);
        assert(le_bytes(n / 256, (k - 1) as nat) =~= le_bytes(n, k).drop_first());
        assert(le_bytes(m / 256, (k - 1) as nat) =~= le_bytes(m, k).drop_first());
        assert(n / 256 < b && m / 256 < b) by (nonlinear_arith)
            requires
                n < 256 * b,
                m < 256 * b,
        ;
        lemma_le_bytes_injective(n / 256, m / 256, (k - 1) as nat);
        assert(le_bytes(n, k)[0] == (n % 256) as u8);
        assert(le_bytes(m, k)[0] == (m % 256) as u8);
        let (r1, r2) = (n % 256, m % 256);
        assert(r1 < 256 && r2 < 256);
        assert(r1 as u8 == r2 as u8);
        assert(r1 == r2);
        assert(n == 256 * (n / 256) + n % 256 && m == 256 * (m / 256) + m % 256) by (nonlinear_arith);
    } else {
        assert(n == 0 && m == 0);
    }
}

/// Law: two floats compare by their bit patterns, as unsigned numbers, so
/// they are equal values exactly when their bit patterns are the same.
pub proof fn law_float_order(x: u64, y: u64)
    ensures
        vequal(ValueV::Float(x), ValueV::Float(y)) <==> x == y,
        vorder(ValueV::Float(x), ValueV::Float(y)) < 0 <==> x < y,
        vorder(ValueV::Float(x), ValueV::Float(y)) > 0 <==> x > y,
{
}

/// Law: two integers are equal values exactly when they are the same
/// number, and compare as numbers.
pub proof fn law_integer_order(x: i64, y: i64)
    ensures
        vequal(ValueV::Integer(x), ValueV::Integer(y)) <==> x == y,
        vorder(ValueV::Integer(x), ValueV::Integer(y)) < 0 <==> x < y,
{
}

/// Law: different floats are hashed from different bytes: all 64 bits of the
/// pattern go in.
pub proof fn law_distinct_floats_hash_inputs(x: u64, y: u64)
    requires
        x != y,
    ensures
        value_encoding(ValueV::Float(x)) != value_encoding(ValueV::Float(y)),
        value_encoding(ValueV::Float(x)).len() == 9,
{
    lemma_byte_power_8();
    lemma_le_bytes_len(x as nat, 8);
    if value_encoding(ValueV::Float(x)) == value_encoding(ValueV::Float(y)) {
        assert(value_encoding(ValueV::Float(x)).drop_first() =~= le_bytes(x as nat, 8));
        assert(value_encoding(ValueV::Float(y)).drop_first() =~= le_bytes(y as nat, 8));
        lemma_le_bytes_injective(x as nat, y as nat, 8);
    }
}

/// Law: different integers are hashed from different bytes.
pub proof fn law_distinct_integers_hash_inputs(x: i64, y: i64)
    requires
        x != y,
    ensures
        value_encoding(ValueV::Integer(x)) != value_encoding(ValueV::Integer(y)),
{
    lemma_byte_power_8();
    if value_encoding(ValueV::Integer(x)) == value_encoding(ValueV::Integer(y)) {
        assert(value_encoding(ValueV::Integer(x)).drop_first() =~= le_bytes((x as u64) as nat, 8));
        assert(value_encoding(ValueV::Integer(y)).drop_first() =~= le_bytes((y as u64) as nat, 8));
        lemma_le_bytes_injective((x as u64) as nat, (y as u64) as nat, 8);
        assert(x as u64 == y as u64 ==> x == y) by (bit_vector);
    }
}

} // verus!
