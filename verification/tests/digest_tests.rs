use replicated_log::digest::{compute_digest, digest_from_hash};
use sha2::{Digest, Sha256};

const SHA256_OF_NOTHING: &str = "E3B0C44298FC1C149AFBF4C8996FB92427AE41E4649B934CA495991B7852B855";
const SHA256_OF_AB: &str = "FB8E20FC2E4C3F248C60C39BD652F3C1347298BB977B8B4D5903B85055620603";
const SHA256_OF_ABC: &str = "BA7816BF8F01CFEA414140DE5DAE2223B00361A396177A9CB410FF61F20015AD";
const SHA256_OF_X: &str = "2D711642B726B04401627CA9FBAC32F5C8530FB1903CC4DB02258717921A4881";
const SHA256_OF_Z_E_ACUTE: &str = "4F31DB152036A4618DFE36836B7974AA34BA973A6F486FD9533F52C8230A9A32";

fn strings(items: &[&str]) -> Vec<String> {
    items.iter().map(|s| s.to_string()).collect()
}

#[test]
fn empty_logs_hash_the_empty_byte_string() {
    let digest = compute_digest(&Vec::new(), &Vec::new());
    assert_eq!(digest.count, 0);
    assert_eq!(digest.hash_hex, SHA256_OF_NOTHING);
}

#[test]
fn digest_hashes_the_sorted_messages_without_separator() {
    let digest = compute_digest(&strings(&["b", "a"]), &Vec::new());
    assert_eq!(digest.count, 2);
    assert_eq!(digest.hash_hex, SHA256_OF_AB);
    let digest = compute_digest(&strings(&["c", "a"]), &strings(&["b"]));
    assert_eq!(digest.count, 3);
    assert_eq!(digest.hash_hex, SHA256_OF_ABC);
}

#[test]
fn digest_is_order_independent() {
    let forward = compute_digest(&strings(&["a", "b"]), &Vec::new());
    let backward = compute_digest(&strings(&["b", "a"]), &Vec::new());
    assert_eq!(forward.hash_hex, backward.hash_hex);
    assert_eq!(forward.count, backward.count);
    assert_eq!(forward.count, 2);
}

#[test]
fn digest_is_origin_independent() {
    let from_client = compute_digest(&strings(&["x"]), &Vec::new());
    let from_peer = compute_digest(&Vec::new(), &strings(&["x"]));
    assert_eq!(from_client.hash_hex, from_peer.hash_hex);
    assert_eq!(from_client.count, from_peer.count);
    assert_eq!(from_client.count, 1);
    assert_eq!(from_client.hash_hex, SHA256_OF_X);
}

#[test]
fn digest_counts_duplicates() {
    let digest = compute_digest(&strings(&["a", "a"]), &strings(&["a", "b"]));
    assert_eq!(digest.count, 4);
    assert_eq!(digest.hash_hex, format!("{:X}", Sha256::digest(b"aaab")));
}

#[test]
fn digest_orders_by_bytes() {
    let digest = compute_digest(&strings(&["é"]), &strings(&["z"]));
    assert_eq!(digest.count, 2);
    assert_eq!(digest.hash_hex, SHA256_OF_Z_E_ACUTE);
}

#[test]
fn digest_text_is_sixty_four_uppercase_digits() {
    let digest = compute_digest(&strings(&["some", "messages"]), &strings(&["here"]));
    assert_eq!(digest.hash_hex.len(), 64);
    assert!(digest.hash_hex.chars().all(|c| c.is_ascii_digit() || ('A'..='F').contains(&c)));
}

#[test]
fn digest_is_not_the_input() {
    let digest = compute_digest(&strings(&["abc"]), &Vec::new());
    assert_ne!(digest.hash_hex, "616263");
    assert_eq!(digest.hash_hex, SHA256_OF_ABC);
}

#[test]
fn same_bytes_in_other_pieces_differ_in_count_only() {
    let two = compute_digest(&strings(&["a", "b"]), &Vec::new());
    let one = compute_digest(&strings(&["ab"]), &Vec::new());
    assert_eq!(two.hash_hex, one.hash_hex);
    assert_eq!(two.count, 2);
    assert_eq!(one.count, 1);
}

#[test]
fn different_messages_give_different_digests() {
    let one = compute_digest(&strings(&["hello"]), &Vec::new());
    let other = compute_digest(&strings(&["hi"]), &Vec::new());
    assert_ne!(one.hash_hex, other.hash_hex);
    assert_eq!(
        one.hash_hex,
        "2CF24DBA5FB0A30E26E83B2AC5B9E29E1B161E5C1FA7425E73043362938B9824"
    );
    assert_eq!(
        other.hash_hex,
        "8F434346648F6B96DF89DDA901C5176B10A6D83961DD3C1AC88B59B2DC327AA4"
    );
}

#[test]
fn digest_agrees_with_sorting_joining_and_hashing() {
    let client = strings(&["pear", "apple", "Zebra", "é", "a b\t\n\"q\""]);
    let peer = strings(&["fig", "apple", ""]);
    let mut all: Vec<String> = client.iter().chain(peer.iter()).cloned().collect();
    all.sort();
    let expected = format!("{:X}", Sha256::digest(all.join("").as_bytes()));
    let digest = compute_digest(&client, &peer);
    assert_eq!(digest.hash_hex, expected);
    assert_eq!(digest.count, 8);
}

#[test]
fn digest_from_hash_renders_the_hash_and_keeps_the_count() {
    let digest = digest_from_hash(&[0xDE, 0xAD, 0x00, 0x01], 5);
    assert_eq!(digest.hash_hex, "DEAD0001");
    assert_eq!(digest.count, 5);
    let digest = digest_from_hash(&[], 0);
    assert_eq!(digest.hash_hex, "");
    assert_eq!(digest.count, 0);
}
