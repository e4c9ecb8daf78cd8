use typesafe::fingerprint::{bibliography_unchanged, fingerprint_bcf, fingerprint_bib_set, BibFile};

const EMPTY_DIGEST: &str = "e3b0c44298fc1c149afbf4c8996fb92427ae41e4649b934ca495991b7852b855";
const ABC_DIGEST: &str = "ba7816bf8f01cfea414140de5dae2223b00361a396177a9cb410ff61f20015ad";

fn bib(name: &str, contents: &str) -> BibFile {
    BibFile { name: name.as_bytes().to_vec(), contents: contents.as_bytes().to_vec() }
}

#[test]
fn bcf_fingerprint_is_sha256_hex() {
    assert_eq!(fingerprint_bcf(&b"abc".to_vec()), ABC_DIGEST);
    assert_eq!(fingerprint_bcf(&Vec::new()), EMPTY_DIGEST);
}

#[test]
fn bib_set_hashes_contents_in_name_order() {
    let files = vec![bib("b.bib", "c"), bib("a.bib", "ab")];
    assert_eq!(fingerprint_bib_set(files), ABC_DIGEST);
}

#[test]
fn hash_stability_under_listing_order() {
    let one = vec![bib("refs.bib", "@book{x}"), bib("extra.bib", "@misc{y}"), bib("z.bib", "")];
    let two = vec![bib("z.bib", ""), bib("refs.bib", "@book{x}"), bib("extra.bib", "@misc{y}")];
    assert_eq!(fingerprint_bib_set(one), fingerprint_bib_set(two));
}

#[test]
fn empty_bib_set_is_digest_of_nothing() {
    assert_eq!(fingerprint_bib_set(Vec::new()), EMPTY_DIGEST);
}

#[test]
fn appending_a_byte_changes_the_bib_fingerprint() {
    let before = fingerprint_bib_set(vec![bib("a.bib", "@book{x}"), bib("b.bib", "@misc{y}")]);
    let after = fingerprint_bib_set(vec![bib("a.bib", "@book{x}"), bib("b.bib", "@misc{y}\n")]);
    assert_ne!(before, after);
}

#[test]
fn unchanged_needs_equal_and_non_empty() {
    let b = "1".repeat(64);
    let k = "2".repeat(64);
    assert!(bibliography_unchanged(&b, &k, &b.clone(), &k.clone()));
    assert!(!bibliography_unchanged(&String::new(), &String::new(), &String::new(), &String::new()));
    assert!(!bibliography_unchanged(&b, &k, &b.clone(), &"3".repeat(64)));
    assert!(!bibliography_unchanged(&b, &k, &"0".repeat(64), &k.clone()));
}

#[test]
fn bib_set_bytes_follow_name_order() {
    let files = vec![bib("b.bib", "c"), bib("a.bib", "ab"), bib("a.bib", "")];
    assert_eq!(typesafe::fingerprint::bib_set_bytes(files), b"abc".to_vec());
}

#[test]
fn hex_fingerprint_writes_two_lowercase_digits_per_byte() {
    assert_eq!(typesafe::fingerprint::hex_fingerprint(&vec![0x00, 0xab, 0x10, 0xff]), "00ab10ff");
    assert_eq!(typesafe::fingerprint::hex_fingerprint(&Vec::new()), "");
}
