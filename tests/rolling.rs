use rolling_hash::RollingHash;

fn same_content(bytes_now: Vec<u8>, bytes: &[u8]) -> bool {
    bytes_now == bytes.to_vec()
}

fn hash_from_string(string: &str) -> u64 {
    let rh = RollingHash::from_initial_bytes(string.as_bytes());
    rh.get_current_hash()
}

#[test]
fn it_works() {
    let result = 2 + 2;
    assert_eq!(result, 4);
}

#[test]
fn create_rolling_hash() {
    let _rh = RollingHash::new();
    let _rh_from_string = RollingHash::from_initial_bytes("Eiger".as_bytes());
}

#[test]
fn push_bytes_to_rolling_hash() {
    let mut rh = RollingHash::new();
    rh.push_back(b'E');
    rh.push_back(b'i');
    rh.push_back(b'g');
    rh.push_back(b'e');
    rh.push_back(b'r');
    assert!(same_content(rh.get_current_bytes(), b"Eiger"));
}

#[test]
fn hash_changes_with_push() {
    let mut rh = RollingHash::new();
    let initial_hash = rh.get_current_hash();
    rh.push_back(b'E');
    let new_hash = rh.get_current_hash();
    assert_ne!(initial_hash, new_hash);
}

#[test]
fn content_changes_with_push() {
    let mut rh = RollingHash::new();
    rh.push_back(b'E');
    let as_vec: Vec<u8> = rh.get_current_bytes();
    assert_eq!(as_vec, b"E");
}

#[test]
fn hash_for_equal_strings_are_equal() {
    let rh1 = RollingHash::from_initial_bytes(b"Eiger");
    let rh2 = RollingHash::from_initial_bytes(b"Eiger");
    assert_eq!(rh1.get_current_hash(), rh2.get_current_hash());
}

#[test]
fn hash_for_different_strings_are_different() {
    // Complete different strings
    let rh1 = RollingHash::from_initial_bytes(b"Eiger");
    let rh2 = RollingHash::from_initial_bytes(b"Matheus");
    assert_ne!(rh1.get_current_hash(), rh2.get_current_hash());

    // Different strings with same length
    let rh1 = RollingHash::from_initial_bytes(b"Eiger");
    let rh2 = RollingHash::from_initial_bytes(b"Great");
    assert_ne!(rh1.get_current_hash(), rh2.get_current_hash());

    // Single characters
    let rh1 = RollingHash::from_initial_bytes(b"A");
    let rh2 = RollingHash::from_initial_bytes(b"B");
    assert_ne!(rh1.get_current_hash(), rh2.get_current_hash());

    // Same starting character
    let rh1 = RollingHash::from_initial_bytes(b"Amazon");
    let rh2 = RollingHash::from_initial_bytes(b"Amazing");
    assert_ne!(rh1.get_current_hash(), rh2.get_current_hash());
}

#[test]
fn hash_changes_with_pop_front() {
    let mut rh = RollingHash::from_initial_bytes(b"Eiger");
    let initial_hash = rh.get_current_hash();
    rh.pop_front();
    let new_hash = rh.get_current_hash();
    assert_ne!(initial_hash, new_hash);
}

#[test]
fn content_changes_with_pop_front() {
    let mut rh = RollingHash::from_initial_bytes(b"Eiger");
    rh.pop_front();
    let as_vec: Vec<u8> = rh.get_current_bytes();
    assert_eq!(as_vec, b"iger");
}

#[test]
fn hash_collision_example() {
    // Two distinct strings of the same length that share a hash.
    let s1 = "ryIqVm6i3M25uvTttp2Qo8mlkWmKap5PkuWHtS3AZZkRBWCAE9jGCWpkgYHaQobJDJrhdwdoNRGjqQmaTAi5ZGo6hbslnzIL2HaP";
    let s2 = "eVCblKi7jexBFHudJsTfj8ibzxgXGlol8EthCd8OBniEXI6tVR9LFkNzPtNeqR3EIVERZwtG1uxFimT3cPQAHwTTiuRnj6gHh406";
    let rh1 = RollingHash::from_initial_bytes(s1.as_bytes());
    let rh2 = RollingHash::from_initial_bytes(s2.as_bytes());
    assert_eq!(rh1.get_current_hash(), rh2.get_current_hash());
}

#[test]
fn pop_back_computes_the_correct_hash() {
    let mut rh = RollingHash::from_initial_bytes(b"Eiger");
    rh.pop_back();
    let hash_from_popped = rh.get_current_hash();
    let hash_from_string = RollingHash::from_initial_bytes(b"Eige").get_current_hash();
    assert_eq!(hash_from_popped, hash_from_string);
}

#[test]
fn pop_back_on_empty_does_nothing() {
    let mut rh = RollingHash::new();
    let initial_hash = rh.get_current_hash();
    rh.pop_back();
    let new_hash = rh.get_current_hash();
    assert_eq!(initial_hash, new_hash);
}

#[test]
fn multiple_pop_backs_compute_the_correct_hash() {
    let mut rh = RollingHash::from_initial_bytes(b"Eiger");
    rh.pop_back();
    assert_eq!(rh.get_current_hash(), hash_from_string("Eige"));
    rh.pop_back();
    assert_eq!(rh.get_current_hash(), hash_from_string("Eig"));
    rh.pop_back();
    assert_eq!(rh.get_current_hash(), hash_from_string("Ei"));
    rh.pop_back();
    assert_eq!(rh.get_current_hash(), hash_from_string("E"));
    rh.pop_back();
    assert_eq!(rh.get_current_hash(), hash_from_string(""));
}

#[test]
fn push_front_computes_the_correct_hash() {
    let mut rh = RollingHash::from_initial_bytes(b"iger");
    rh.push_front(b'E');
    let hash_from_pushed = rh.get_current_hash();
    assert_eq!(hash_from_pushed, hash_from_string("Eiger"));
}

#[test]
fn multiple_push_fronts_compute_the_correct_hash() {
    let mut rh = RollingHash::from_initial_bytes(b"");
    rh.push_front(b'r');
    assert_eq!(rh.get_current_hash(), hash_from_string("r"));
    rh.push_front(b'e');
    assert_eq!(rh.get_current_hash(), hash_from_string("er"));
    rh.push_front(b'g');
    assert_eq!(rh.get_current_hash(), hash_from_string("ger"));
    rh.push_front(b'i');
    assert_eq!(rh.get_current_hash(), hash_from_string("iger"));
    rh.push_front(b'E');
    assert_eq!(rh.get_current_hash(), hash_from_string("Eiger"));
}

#[test]
fn big_string_also_works() {
    // The powers here will surely be bigger than the modulus
    let rh =
        RollingHash::from_initial_bytes(b"a b c d e f g h i j k l m n o p q r s t u v w x y z");
    assert_eq!(rh.get_current_bytes().len(), 51);
    rh.get_current_hash();
}
