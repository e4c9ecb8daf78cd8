//! Content fingerprints that decide whether the bibliography tool must run.
//!
//! A fingerprint is the lowercase hex SHA-256 digest of the bytes it covers.
//! The bibliography set is hashed as the concatenation of its files' bytes,
//! the files taken in order of name (then of contents, which only matters
//! for a listing that names a file twice), so that the order in which a
//! directory was listed cannot change the result.
use crate::text::string_of;
use sha2::Digest;
use vstd::prelude::*;
use vstd::relations::{sorted_by, total_ordering};
use vstd::seq_lib::lemma_sorted_unique;

verus! {

broadcast use vstd::seq_lib::group_to_multiset_ensures, vstd::multiset::group_multiset_axioms;

/// The SHA-256 digest of a byte string, as the sha2 crate computes it.
pub uninterp spec fn sha256_of(data: Seq<u8>) -> Seq<u8>;

/// Relies on `sha2::Sha256::digest`: the SHA-256 digest of `data`, whose
/// output size is 32 bytes.
#[verifier::external_body]
fn sha256(data: &[u8]) -> (r: Vec<u8>)
    ensures
        r@ == sha256_of(data@),
        r@.len() == 32,
{
    sha2::Sha256::digest(data).to_vec()
}

/// The lowercase hex digit for a value below sixteen.
pub open spec fn hex_digit(v: nat) -> char {
    if v < 10 {
        (v + 48) as char
    } else {
        (v + 87) as char
    }
}

/// Two lowercase hex digits per byte, high half first.
pub open spec fn lower_hex(b: Seq<u8>) -> Seq<char>
    decreases b.len(),
{
    if b.len() == 0 {
        seq![]
    } else {
        lower_hex(b.drop_last()) + seq![
            hex_digit((b.last() / 16) as nat),
            hex_digit((b.last() % 16) as nat),
        ]
    }
}

fn hex_char(v: u8) -> (c: char)
    requires
        v < 16,
    ensures
        c == hex_digit(v as nat),
{
    if v < 10 {
        (v + 48) as char
    } else {
        (v + 87) as char
    }
}

/// The lowercase hex text of a digest: the form a fingerprint takes.
pub fn hex_fingerprint(digest: &Vec<u8>) -> (r: String)
    ensures
        r@ == lower_hex(digest@),
{
    string_of(&lower_hex_exec(digest))
}

fn lower_hex_exec(b: &Vec<u8>) -> (r: Vec<char>)
    ensures
        r@ == lower_hex(b@),
{
    let mut out: Vec<char> = Vec::new();
    let mut i: usize = 0;
    while i < b.len()
        invariant
            i <= b@.len(),
            out@ == lower_hex(b@.take(i as int)),
        decreases b@.len() - i,
    {
        let v = b[i];
        proof {
            assert(b@.take(i + 1).drop_last() =~= b@.take(i as int));
        }
        out.push(hex_char(v / 16));
        out.push(hex_char(v % 16));
        i = i + 1;
    }
    assert(b@.take(b@.len() as int) =~= b@);
    out
}

/// The fingerprint of a byte string.
pub open spec fn fingerprint_of(data: Seq<u8>) -> Seq<char> {
    lower_hex(sha256_of(data))
}

/// Hex writes two digits per byte.
pub proof fn lemma_lower_hex_len(b: Seq<u8>)
    ensures
        lower_hex(b).len() == 2 * b.len(),
    decreases b.len(),
{
    if b.len() > 0 {
        lemma_lower_hex_len(b.drop_last());
    }
}

/// The fingerprint of the bibliography control file's bytes: 64 hex digits.
pub fn fingerprint_bcf(contents: &Vec<u8>) -> (r: String)
    ensures
        r@ == fingerprint_of(contents@),
        r@.len() == 64,
{
    let digest = sha256(contents.as_slice());
    proof {
        lemma_lower_hex_len(digest@);
    }
    hex_fingerprint(&digest)
}

/// A bibliography database file: its name and its bytes.
#[derive(Debug)]
pub struct BibFile {
    pub name: Vec<u8>,
    pub contents: Vec<u8>,
}

impl View for BibFile {
    type V = (Seq<u8>, Seq<u8>);

    open spec fn view(&self) -> (Seq<u8>, Seq<u8>) {
        (self.name@, self.contents@)
    }
}

/// The names and contents of a list of files.
pub open spec fn bib_views(s: Seq<BibFile>) -> Seq<(Seq<u8>, Seq<u8>)> {
    s.map_values(|f: BibFile| f@)
}

/// Lexicographic order on byte strings: `a` comes first or equals `b`.
pub open spec fn bytes_le(a: Seq<u8>, b: Seq<u8>) -> bool
    decreases a.len(),
{
    if a.len() == 0 {
        true
    } else if b.len() == 0 {
        false
    } else if a[0] != b[0] {
        a[0] < b[0]
    } else {
        bytes_le(a.drop_first(), b.drop_first())
    }
}

/// Order of files: by name, then by contents.
pub open spec fn entry_le(x: (Seq<u8>, Seq<u8>), y: (Seq<u8>, Seq<u8>)) -> bool {
    if x.0 == y.0 {
        bytes_le(x.1, y.1)
    } else {
        bytes_le(x.0, y.0)
    }
}

/// The order in which files are hashed.
pub open spec fn hash_order() -> spec_fn((Seq<u8>, Seq<u8>), (Seq<u8>, Seq<u8>)) -> bool {
    |x: (Seq<u8>, Seq<u8>), y: (Seq<u8>, Seq<u8>)| entry_le(x, y)
}

/// The contents of the files, one after another.
pub open spec fn joined_contents(files: Seq<(Seq<u8>, Seq<u8>)>) -> Seq<u8>
    decreases files.len(),
{
    if files.len() == 0 {
        seq![]
    } else {
        joined_contents(files.drop_last()) + files.last().1
    }
}

/// The bytes that the bibliography fingerprint covers.
pub open spec fn hashed_bib_bytes(files: Seq<(Seq<u8>, Seq<u8>)>) -> Seq<u8> {
    joined_contents(files.sort_by(hash_order()))
}

/// The fingerprint of a set of bibliography files.
pub open spec fn bib_set_fingerprint(files: Seq<(Seq<u8>, Seq<u8>)>) -> Seq<char> {
    fingerprint_of(hashed_bib_bytes(files))
}

proof fn lemma_bytes_le_reflexive(a: Seq<u8>)
    ensures
        bytes_le(a, a),
    decreases a.len(),
{
    if a.len() > 0 {
        lemma_bytes_le_reflexive(a.drop_first());
    }
}

proof fn lemma_bytes_le_antisymmetric(a: Seq<u8>, b: Seq<u8>)
    requires
        bytes_le(a, b),
        bytes_le(b, a),
    ensures
        a == b,
    decreases a.len(),
{
    if a.len() > 0 && b.len() > 0 {
        lemma_bytes_le_antisymmetric(a.drop_first(), b.drop_first());
        assert(a =~= seq![a[0]] + a.drop_first());
        assert(b =~= seq![b[0]] + b.drop_first());
    } else {
        assert(a =~= b);
    }
}

proof fn lemma_bytes_le_transitive(a: Seq<u8>, b: Seq<u8>, c: Seq<u8>)
    requires
        bytes_le(a, b),
        bytes_le(b, c),
    ensures
        bytes_le(a, c),
    decreases a.len(),
{
    if a.len() > 0 && b.len() > 0 && c.len() > 0 && a[0] == b[0] && b[0] == c[0] {
        lemma_bytes_le_transitive(a.drop_first(), b.drop_first(), c.drop_first());
    }
}

proof fn lemma_bytes_le_total(a: Seq<u8>, b: Seq<u8>)
    ensures
        bytes_le(a, b) || bytes_le(b, a),
    decreases a.len(),
{
    if a.len() > 0 && b.len() > 0 && a[0] == b[0] {
        lemma_bytes_le_total(a.drop_first(), b.drop_first());
    }
}

/// Files are hashed in a total order.
pub proof fn lemma_hash_order_total()
    ensures
        total_ordering(hash_order()),
{
    let r = hash_order();
    assert forall|x: (Seq<u8>, Seq<u8>)| #[trigger] r(x, x) by {
        lemma_bytes_le_reflexive(x.1);
    }
    assert forall|x: (Seq<u8>, Seq<u8>), y: (Seq<u8>, Seq<u8>)|
        #[trigger] r(x, y) && #[trigger] r(y, x) implies x == y by {
        if x.0 == y.0 {
            lemma_bytes_le_antisymmetric(x.1, y.1);
        } else {
            lemma_bytes_le_antisymmetric(x.0, y.0);
        }
    }
    assert forall|x: (Seq<u8>, Seq<u8>), y: (Seq<u8>, Seq<u8>), z: (Seq<u8>, Seq<u8>)|
        #[trigger] r(x, y) && #[trigger] r(y, z) implies r(x, z) by {
        if x.0 == y.0 && y.0 == z.0 {
            lemma_bytes_le_transitive(x.1, y.1, z.1);
        } else if x.0 != y.0 && y.0 != z.0 {
            lemma_bytes_le_transitive(x.0, y.0, z.0);
            if x.0 == z.0 {
                lemma_bytes_le_antisymmetric(x.0, y.0);
            }
        }
    }
    assert forall|x: (Seq<u8>, Seq<u8>), y: (Seq<u8>, Seq<u8>)|
        #[trigger] r(x, y) || #[trigger] r(y, x) by {
        if x.0 == y.0 {
            lemma_bytes_le_total(x.1, y.1);
        } else {
            lemma_bytes_le_total(x.0, y.0);
        }
    }
}

fn bytes_le_exec(a: &Vec<u8>, b: &Vec<u8>) -> (r: bool)
    ensures
        r == bytes_le(a@, b@),
{
    let mut i: usize = 0;
    assert(a@.skip(0) =~= a@);
    assert(b@.skip(0) =~= b@);
    while i < a.len() && i < b.len() && a[i] == b[i]
        invariant
            i <= a@.len(),
            i <= b@.len(),
            bytes_le(a@, b@) == bytes_le(a@.skip(i as int), b@.skip(i as int)),
        decreases a@.len() - i,
    {
        assert(a@.skip(i as int).drop_first() =~= a@.skip(i + 1));
        assert(b@.skip(i as int).drop_first() =~= b@.skip(i + 1));
        i = i + 1;
    }
    if i == a.len() {
        true
    } else if i == b.len() {
        false
    } else {
        a[i] < b[i]
    }
}

fn entry_le_exec(x: &BibFile, y: &BibFile) -> (r: bool)
    ensures
        r == entry_le(x@, y@),
{
    let le_xy = bytes_le_exec(&x.name, &y.name);
    let le_yx = bytes_le_exec(&y.name, &x.name);
    proof {
        lemma_bytes_le_reflexive(x.name@);
        if le_xy && le_yx {
            lemma_bytes_le_antisymmetric(x.name@, y.name@);
        }
    }
    if le_xy && le_yx {
        bytes_le_exec(&x.contents, &y.contents)
    } else {
        le_xy
    }
}

proof fn lemma_insert_keeps_sorted(
    s: Seq<(Seq<u8>, Seq<u8>)>,
    k: int,
    x: (Seq<u8>, Seq<u8>),
)
    requires
        sorted_by(s, hash_order()),
        total_ordering(hash_order()),
        0 <= k <= s.len(),
        forall|j: int| 0 <= j < k ==> entry_le(#[trigger] s[j], x),
        k < s.len() ==> entry_le(x, s[k]),
    ensures
        sorted_by(s.insert(k, x), hash_order()),
{
    let r = hash_order();
    let t = s.insert(k, x);
    assert forall|i: int, j: int| 0 <= i < j < t.len() implies #[trigger] r(t[i], t[j]) by {
        if i < k && j == k {
        } else if i < k && j > k {
            assert(r(s[i], s[j - 1]));
        } else if i == k {
            assert(r(x, s[k]));
            if j - 1 > k {
                assert(r(s[k], s[j - 1]));
            }
        } else if i > k {
            assert(r(s[i - 1], s[j - 1]));
        } else {
            assert(r(s[i], s[j]));
        }
    }
}

proof fn lemma_multiset_insert(s: Seq<(Seq<u8>, Seq<u8>)>, k: int, x: (Seq<u8>, Seq<u8>))
    requires
        0 <= k <= s.len(),
    ensures
        s.insert(k, x).to_multiset() =~= s.to_multiset().insert(x),
{
    let t = s.insert(k, x);
    assert(t.remove(k) =~= s);
    assert(t[k] == x);
    assert(t.to_multiset().count(x) > 0);
}

/// The files in hashing order.
fn sort_files(files: Vec<BibFile>) -> (r: Vec<BibFile>)
    ensures
        sorted_by(bib_views(r@), hash_order()),
        bib_views(r@).to_multiset() == bib_views(files@).to_multiset(),
{
    proof {
        lemma_hash_order_total();
    }
    let ghost all = bib_views(files@);
    let mut rest = files;
    let mut out: Vec<BibFile> = Vec::new();
    assert(bib_views(out@) =~= Seq::<(Seq<u8>, Seq<u8>)>::empty());
    while rest.len() > 0
        invariant
            total_ordering(hash_order()),
            sorted_by(bib_views(out@), hash_order()),
            all.to_multiset() == bib_views(rest@).to_multiset().add(bib_views(out@).to_multiset()),
        decreases rest@.len(),
    {
        let ghost rest_before = rest@;
        let x = rest.pop().unwrap();
        assert(bib_views(rest_before) =~= bib_views(rest@).push(x@));
        let mut k: usize = 0;
        while k < out.len() && !entry_le_exec(&x, &out[k])
            invariant
                total_ordering(hash_order()),
                k <= out@.len(),
                forall|j: int| 0 <= j < k ==> entry_le(#[trigger] bib_views(out@)[j], x@),
            decreases out@.len() - k,
        {
            assert(hash_order()(x@, out@[k as int]@) || hash_order()(out@[k as int]@, x@));
            k = k + 1;
        }
        let ghost out_before = bib_views(out@);
        proof {
            lemma_insert_keeps_sorted(out_before, k as int, x@);
            lemma_multiset_insert(out_before, k as int, x@);
        }
        out.insert(k, x);
        assert(bib_views(out@) =~= out_before.insert(k as int, x@));
    }
    assert(bib_views(rest@) =~= Seq::<(Seq<u8>, Seq<u8>)>::empty());
    out
}

/// The bytes that the bibliography fingerprint covers: the files' contents,
/// one after another, in hashing order.
pub fn bib_set_bytes(files: Vec<BibFile>) -> (r: Vec<u8>)
    ensures
        r@ == hashed_bib_bytes(bib_views(files@)),
{
    let ghost input = bib_views(files@);
    let sorted = sort_files(files);
    proof {
        lemma_hash_order_total();
        input.lemma_sort_by_ensures(hash_order());
        lemma_sorted_unique(bib_views(sorted@), input.sort_by(hash_order()), hash_order());
    }
    let mut data: Vec<u8> = Vec::new();
    let mut i: usize = 0;
    while i < sorted.len()
        invariant
            i <= sorted@.len(),
            data@ == joined_contents(bib_views(sorted@).take(i as int)),
        decreases sorted@.len() - i,
    {
        let part = &sorted[i].contents;
        let mut j: usize = 0;
        let ghost start = data@;
        while j < part.len()
            invariant
                j <= part@.len(),
                data@ == start + part@.take(j as int),
            decreases part@.len() - j,
        {
            data.push(part[j]);
            assert(data@ =~= start + part@.take(j + 1));
            j = j + 1;
        }
        assert(bib_views(sorted@).take(i + 1).drop_last() =~= bib_views(sorted@).take(i as int));
        assert(part@.take(part@.len() as int) =~= part@);
        i = i + 1;
    }
    assert(bib_views(sorted@).take(sorted@.len() as int) =~= bib_views(sorted@));
    data
}

/// The fingerprint of a set of bibliography files, whatever the order in
/// which they are listed.
pub fn fingerprint_bib_set(files: Vec<BibFile>) -> (r: String)
    ensures
        r@ == bib_set_fingerprint(bib_views(files@)),
{
    let data = bib_set_bytes(files);
    let digest = sha256(data.as_slice());
    hex_fingerprint(&digest)
}

/// The bibliography fingerprint does not depend on the order in which the
/// directory listed the files: any reordering of the same files gives the
/// same fingerprint.
pub proof fn lemma_bib_fingerprint_ignores_listing_order(a: Seq<BibFile>, b: Seq<BibFile>)
    requires
        bib_views(a).to_multiset() == bib_views(b).to_multiset(),
    ensures
        bib_set_fingerprint(bib_views(a)) == bib_set_fingerprint(bib_views(b)),
{
    let r = hash_order();
    lemma_hash_order_total();
    bib_views(a).lemma_sort_by_ensures(r);
    bib_views(b).lemma_sort_by_ensures(r);
    lemma_sorted_unique(bib_views(a).sort_by(r), bib_views(b).sort_by(r), r);
}

/// The number of content bytes in a list of files.
pub open spec fn total_len(s: Seq<(Seq<u8>, Seq<u8>)>) -> nat
    decreases s.len(),
{
    if s.len() == 0 {
        0
    } else {
        total_len(s.drop_last()) + s.last().1.len()
    }
}

proof fn lemma_joined_len(s: Seq<(Seq<u8>, Seq<u8>)>)
    ensures
        joined_contents(s).len() == total_len(s),
    decreases s.len(),
{
    if s.len() > 0 {
        lemma_joined_len(s.drop_last());
    }
}

proof fn lemma_total_len_concat(a: Seq<(Seq<u8>, Seq<u8>)>, b: Seq<(Seq<u8>, Seq<u8>)>)
    ensures
        total_len(a + b) == total_len(a) + total_len(b),
    decreases b.len(),
{
    if b.len() > 0 {
        lemma_total_len_concat(a, b.drop_last());
        assert((a + b).drop_last() =~= a + b.drop_last());
    } else {
        assert(a + b =~= a);
    }
}

proof fn lemma_total_len_split(t: Seq<(Seq<u8>, Seq<u8>)>, j: int)
    requires
        0 <= j < t.len(),
    ensures
        total_len(t) == total_len(t.remove(j)) + t[j].1.len(),
{
    let pre = t.take(j);
    let post = t.skip(j + 1);
    let one = seq![t[j]];
    assert(t =~= (pre + one) + post);
    assert(t.remove(j) =~= pre + post);
    lemma_total_len_concat(pre + one, post);
    lemma_total_len_concat(pre, one);
    lemma_total_len_concat(pre, post);
    assert(one.drop_last() =~= Seq::<(Seq<u8>, Seq<u8>)>::empty());
    assert(total_len(one.drop_last()) == 0);
    assert(one.last() == t[j]);
    assert(total_len(one) == t[j].1.len());
}

proof fn lemma_total_len_permutation(s: Seq<(Seq<u8>, Seq<u8>)>, t: Seq<(Seq<u8>, Seq<u8>)>)
    requires
        s.to_multiset() == t.to_multiset(),
    ensures
        total_len(s) == total_len(t),
    decreases s.len(),
{
    if s.len() == 0 {
        assert(t.to_multiset().len() == 0);
    } else {
        let x = s.last();
        assert(s[s.len() - 1] == x);
        assert(s.contains(x));
        assert(s.to_multiset().count(x) > 0);
        assert(t.to_multiset().count(x) > 0);
        assert(t.contains(x));
        let j = choose|j: int| 0 <= j < t.len() && t[j] == x;
        lemma_total_len_split(t, j);
        assert(s.remove(s.len() - 1) =~= s.drop_last());
        assert(s.drop_last().to_multiset() =~= s.to_multiset().remove(x));
        assert(t.remove(j).to_multiset() =~= t.to_multiset().remove(x));
        lemma_total_len_permutation(s.drop_last(), t.remove(j));
    }
}

/// Appending one byte to any one of the files makes the bytes that the
/// bibliography fingerprint covers one byte longer, so they differ from the
/// bytes covered before.
pub proof fn lemma_appended_byte_lengthens_hashed_bytes(
    files: Seq<(Seq<u8>, Seq<u8>)>,
    i: int,
    byte: u8,
)
    requires
        0 <= i < files.len(),
    ensures
        hashed_bib_bytes(files.update(i, (files[i].0, files[i].1.push(byte)))).len()
            == hashed_bib_bytes(files).len() + 1,
{
    let r = hash_order();
    let grown = files.update(i, (files[i].0, files[i].1.push(byte)));
    lemma_hash_order_total();
    files.lemma_sort_by_ensures(r);
    grown.lemma_sort_by_ensures(r);
    lemma_joined_len(files.sort_by(r));
    lemma_joined_len(grown.sort_by(r));
    lemma_total_len_permutation(files.sort_by(r), files);
    lemma_total_len_permutation(grown.sort_by(r), grown);
    lemma_total_len_split(files, i);
    lemma_total_len_split(grown, i);
    assert(files.remove(i) =~= grown.remove(i));
}

/// The bibliography tool can be skipped: both fingerprints equal the
/// previous ones, and the previous control-file fingerprint is not empty
/// (an empty one means that nothing was fingerprinted before).
pub open spec fn citations_unchanged(
    previous_bcf: Seq<char>,
    previous_bib: Seq<char>,
    bcf: Seq<char>,
    bib: Seq<char>,
) -> bool {
    bcf == previous_bcf && bib == previous_bib && previous_bcf.len() > 0
}

/// Whether the bibliography tool can be skipped, as `citations_unchanged` says.
pub fn bibliography_unchanged(
    previous_bcf: &String,
    previous_bib: &String,
    bcf: &String,
    bib: &String,
) -> (r: bool)
    ensures
        r == citations_unchanged(previous_bcf@, previous_bib@, bcf@, bib@),
{
    bcf.eq(previous_bcf) && bib.eq(previous_bib) && !previous_bcf.as_str().is_empty()
}

} // verus!
