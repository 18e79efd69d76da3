//! The directories a program is evaluated against, and where produced files go.

use vstd::prelude::*;
use base64::Engine;

verus! {

/// The character of a six-bit value in the URL-safe base64 alphabet
/// `A`-`Z`, `a`-`z`, `0`-`9`, `-`, `_`.
pub open spec fn base64_url_char(v: u8) -> char {
    if v < 26 {
        (65 + v) as char
    } else if v < 52 {
        (97 + (v - 26)) as char
    } else if v < 62 {
        (48 + (v - 52)) as char
    } else if v == 62 {
        '-'
    } else {
        '_'
    }
}

/// The URL-safe base64 text of a byte string, without padding (RFC 4648,
/// section 5): every three bytes become four characters of six bits each,
/// most significant first; two bytes left over become three characters and
/// one byte two, the bits past the end taken as zero.
pub open spec fn base64_url(data: Seq<u8>) -> Seq<char>
    decreases data.len(),
{
    if data.len() >= 3 {
        let (a, b, c) = (data[0], data[1], data[2]);
        seq![
            base64_url_char(a >> 2),
            base64_url_char(((a << 4) | (b >> 4)) & 63),
            base64_url_char(((b << 2) | (c >> 6)) & 63),
            base64_url_char(c & 63),
        ] + base64_url(data.skip(3))
    } else if data.len() == 2 {
        let (a, b) = (data[0], data[1]);
        seq![base64_url_char(a >> 2), base64_url_char(((a << 4) | (b >> 4)) & 63), base64_url_char((b << 2) & 63)]
    } else if data.len() == 1 {
        let a = data[0];
        seq![base64_url_char(a >> 2), base64_url_char((a << 4) & 63)]
    } else {
        Seq::empty()
    }
}

/// Calls `base64::engine::general_purpose::URL_SAFE_NO_PAD.encode` on a hash.
/// Trusted: the text returned is the URL-safe unpadded base64 of exactly the
/// bytes given, as `base64_url` spells it out.
#[verifier::external_body]
fn encode_base64_url(data: &[u8; 32]) -> (r: String)
    ensures
        r@ == base64_url(data@),
{
    base64::engine::general_purpose::URL_SAFE_NO_PAD.encode(data)
}

// ------------------------------------------------------------------
// Facts about base64 text
// ------------------------------------------------------------------

/// A character of the URL-safe base64 alphabet.
pub open spec fn is_base64_url_char(c: char) -> bool {
    ||| 65 <= c as u32 <= 90
    ||| 97 <= c as u32 <= 122
    ||| 48 <= c as u32 <= 57
    ||| c == '-'
    ||| c == '_'
}

proof fn lemma_base64_url_char(v: u8, w: u8)
    requires
        v < 64,
        w < 64,
    ensures
        is_base64_url_char(base64_url_char(v)),
        base64_url_char(v) == base64_url_char(w) ==> v == w,
{
}

proof fn lemma_sextets(a: u8, b: u8, c: u8)
    ensures
        a >> 2 < 64,
        ((a << 4) | (b >> 4)) & 63 < 64,
        ((b << 2) | (c >> 6)) & 63 < 64,
        c & 63 < 64,
        (b << 2) & 63 < 64,
        (a << 4) & 63 < 64,
{
    assert(a >> 2 < 64) by (bit_vector);
    assert(((a << 4) | (b >> 4)) & 63 < 64) by (bit_vector);
    assert(((b << 2) | (c >> 6)) & 63 < 64) by (bit_vector);
    assert(c & 63 < 64) by (bit_vector);
    assert((b << 2) & 63 < 64) by (bit_vector);
    assert((a << 4) & 63 < 64) by (bit_vector);
}

/// The length of the base64 text of `n` bytes: four characters for every
/// three bytes, rounded up.
proof fn lemma_base64_url_len(data: Seq<u8>)
    ensures
        base64_url(data).len() == (4 * data.len() + 2) / 3,
    decreases data.len(),
{
    if data.len() >= 3 {
        lemma_base64_url_len(data.skip(3));
    }
}

/// Every character of base64 text is in the URL-safe alphabet.
proof fn lemma_base64_url_alphabet(data: Seq<u8>)
    ensures
        forall|i: int| 0 <= i < base64_url(data).len() ==> is_base64_url_char(#[trigger] base64_url(data)[i]),
    decreases data.len(),
{
    if data.len() >= 1 {
        let a = data[0];
        let b = if data.len() >= 2 { data[1] } else { 0u8 };
        let c = if data.len() >= 3 { data[2] } else { 0u8 };
        lemma_sextets(a, b, c);
        lemma_base64_url_char(a >> 2, 0);
        lemma_base64_url_char(((a << 4) | (b >> 4)) & 63, 0);
        lemma_base64_url_char(((b << 2) | (c >> 6)) & 63, 0);
        lemma_base64_url_char(c & 63, 0);
        lemma_base64_url_char((b << 2) & 63, 0);
        lemma_base64_url_char((a << 4) & 63, 0);
    }
    if data.len() >= 3 {
        lemma_base64_url_alphabet(data.skip(3));
        let head = seq![
            base64_url_char(data[0] >> 2),
            base64_url_char(((data[0] << 4) | (data[1] >> 4)) & 63),
            base64_url_char(((data[1] << 2) | (data[2] >> 6)) & 63),
            base64_url_char(data[2] & 63),
        ];
        assert forall|i: int| 0 <= i < base64_url(data).len() implies is_base64_url_char(#[trigger] base64_url(data)[i]) by {
            if i >= 4 {
                assert(base64_url(data)[i] == base64_url(data.skip(3))[i - 4]);
            } else {
                assert(base64_url(data)[i] == head[i]);
            }
        }
    }
}

/// Byte strings of one length with the same base64 text are the same.
proof fn lemma_base64_url_injective(x: Seq<u8>, y: Seq<u8>)
    requires
        x.len() == y.len(),
        base64_url(x) == base64_url(y),
    ensures
        x == y,
    decreases x.len(),
{
    if x.len() >= 1 {
        let (a1, a2) = (x[0], y[0]);
        let b1 = if x.len() >= 2 { x[1] } else { 0u8 };
        let b2 = if y.len() >= 2 { y[1] } else { 0u8 };
        let c1 = if x.len() >= 3 { x[2] } else { 0u8 };
        let c2 = if y.len() >= 3 { y[2] } else { 0u8 };
        lemma_sextets(a1, b1, c1);
        lemma_sextets(a2, b2, c2);
        let bx = base64_url(x);
        let by = base64_url(y);
        assert(bx[0] == by[0] && bx[1] == by[1]);
        lemma_base64_url_char(a1 >> 2, a2 >> 2);
        if x.len() >= 3 {
            assert(bx[2] == by[2] && bx[3] == by[3]);
            lemma_base64_url_char(((a1 << 4) | (b1 >> 4)) & 63, ((a2 << 4) | (b2 >> 4)) & 63);
            lemma_base64_url_char(((b1 << 2) | (c1 >> 6)) & 63, ((b2 << 2) | (c2 >> 6)) & 63);
            lemma_base64_url_char(c1 & 63, c2 & 63);
            assert(a1 == a2 && b1 == b2 && c1 == c2) by (bit_vector)
                requires
                    a1 >> 2 == a2 >> 2,
                    ((a1 << 4) | (b1 >> 4)) & 63 == ((a2 << 4) | (b2 >> 4)) & 63,
                    ((b1 << 2) | (c1 >> 6)) & 63 == ((b2 << 2) | (c2 >> 6)) & 63,
                    c1 & 63 == c2 & 63,
            ;
            assert(base64_url(x.skip(3)) =~= bx.skip(4));
            assert(base64_url(y.skip(3)) =~= by.skip(4));
            lemma_base64_url_injective(x.skip(3), y.skip(3));
            assert(x =~= y) by {
                assert forall|i: int| 0 <= i < x.len() implies x[i] == y[i] by {
                    if i >= 3 {
                        assert(x[i] == x.skip(3)[i - 3] && y[i] == y.skip(3)[i - 3]);
                    }
                }
            }
        } else if x.len() == 2 {
            assert(bx[2] == by[2]);
            lemma_base64_url_char(((a1 << 4) | (b1 >> 4)) & 63, ((a2 << 4) | (b2 >> 4)) & 63);
            lemma_base64_url_char((b1 << 2) & 63, (b2 << 2) & 63);
            assert(a1 == a2 && b1 == b2) by (bit_vector)
                requires
                    a1 >> 2 == a2 >> 2,
                    ((a1 << 4) | (b1 >> 4)) & 63 == ((a2 << 4) | (b2 >> 4)) & 63,
                    (b1 << 2) & 63 == (b2 << 2) & 63,
            ;
            assert(x =~= y);
        } else {
            lemma_base64_url_char((a1 << 4) & 63, (a2 << 4) & 63);
            assert(a1 == a2) by (bit_vector)
                requires
                    a1 >> 2 == a2 >> 2,
                    (a1 << 4) & 63 == (a2 << 4) & 63,
            ;
            assert(x =~= y);
        }
    } else {
        assert(x =~= y);
    }
}

/// `dir` joined with the relative path `name`, with a `/` between them unless
/// `dir` is empty or already ends with one.
pub open spec fn join_path(dir: Seq<char>, name: Seq<char>) -> Seq<char> {
    if dir.len() > 0 && dir.last() != '/' {
        dir + seq!['/'] + name
    } else {
        dir + name
    }
}

/// The path under which the store keeps what has the given hash.
pub open spec fn store_path_of(store_dir: Seq<char>, hash: Seq<u8>) -> Seq<char> {
    join_path(store_dir, base64_url(hash))
}

/// Joins a directory and a relative path.
pub fn join(dir: &str, name: &str) -> (r: String)
    ensures
        r@ == join_path(dir@, name@),
{
    let mut r = dir.to_owned();
    let n = dir.unicode_len();
    if n > 0 && dir.get_char(n - 1) != '/' {
        r.append("/");
        proof {
            reveal_strlit("/");
        }
    }
    r.append(name);
    r
}

pub struct Runtime {
    source_dir: String,
    store_dir: String,
}

impl Runtime {
    /// A runtime for the given source directory and store directory.
    pub fn new(source_dir: String, store_dir: String) -> (r: Self)
        ensures
            r.spec_source_dir() == source_dir@,
            r.spec_store_dir() == store_dir@,
    {
        Runtime { source_dir, store_dir }
    }

    pub closed spec fn spec_source_dir(&self) -> Seq<char> {
        self.source_dir@
    }

    pub closed spec fn spec_store_dir(&self) -> Seq<char> {
        self.store_dir@
    }

    /// The directory that holds the sources.
    pub fn source_dir(&self) -> (r: &str)
        ensures
            r@ == self.spec_source_dir(),
    {
        self.source_dir.as_str()
    }

    /// The directory of the store.
    pub fn store_dir(&self) -> (r: &str)
        ensures
            r@ == self.spec_store_dir(),
    {
        self.store_dir.as_str()
    }

    /// The path in the store for content with the given hash.
    pub fn store_path(&self, hash: [u8; 32]) -> (r: String)
        ensures
            r@ == store_path_of(self.spec_store_dir(), hash@),
    {
        let name = encode_base64_url(&hash);
        join(self.store_dir.as_str(), name.as_str())
    }
}

/// Law: the store path of a hash is the store directory joined with a name
/// of 43 characters of the URL-safe base64 alphabet, and different hashes
/// have different store paths.
pub proof fn law_store_path(store_dir: Seq<char>, h1: Seq<u8>, h2: Seq<u8>)
    requires
        h1.len() == 32,
        h2.len() == 32,
    ensures
        store_path_of(store_dir, h1) == join_path(store_dir, base64_url(h1)),
        base64_url(h1).len() == 43,
        forall|i: int| 0 <= i < 43 ==> is_base64_url_char(#[trigger] base64_url(h1)[i]),
        store_path_of(store_dir, h1) == store_path_of(store_dir, h2) <==> h1 == h2,
{
    lemma_base64_url_len(h1);
    lemma_base64_url_len(h2);
    lemma_base64_url_alphabet(h1);
    let (n1, n2) = (base64_url(h1), base64_url(h2));
    if store_path_of(store_dir, h1) == store_path_of(store_dir, h2) {
        let k: int = if store_dir.len() > 0 && store_dir.last() != '/' { store_dir.len() + 1int } else { store_dir.len() as int };
        assert(join_path(store_dir, n1).skip(k) =~= n1);
        assert(join_path(store_dir, n2).skip(k) =~= n2);
        lemma_base64_url_injective(h1, h2);
    }
}

} // verus!
