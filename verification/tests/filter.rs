use bloom_filter::{hash_word, BitArray};

fn bytes_with(len: usize, set: &[(usize, u8)]) -> Vec<u8> {
    let mut v = vec![0u8; len];
    for &(i, m) in set {
        v[i] |= m;
    }
    v
}

fn filled(size: usize, words: &[&str]) -> BitArray {
    let mut f = BitArray::new(size);
    for w in words {
        f.add_word(w);
    }
    f
}

#[test]
fn new_filter_is_zeroed() {
    let f = BitArray::new(64_000);
    assert_eq!(f.as_bytes().len(), 8000);
    assert!(f.as_bytes().iter().all(|&b| b == 0));
    assert_eq!(f.len(), 0);
}

#[test]
fn new_drops_the_bits_beyond_the_last_whole_byte() {
    assert_eq!(BitArray::new(0).as_bytes().len(), 0);
    assert_eq!(BitArray::new(7).as_bytes().len(), 0);
    assert_eq!(BitArray::new(8).as_bytes().len(), 1);
    assert_eq!(BitArray::new(15).as_bytes().len(), 1);
    assert_eq!(BitArray::new(16).as_bytes().len(), 2);
    assert_eq!(BitArray::new(64_007).as_bytes().len(), 8000);
}

#[test]
fn apple_and_banana() {
    let mut f = BitArray::new(64_000);
    f.add_word("apple");
    f.add_word("banana");
    assert!(f.check("apple"));
    assert!(f.check("banana"));
    let other = f.check("zzzzzqqqqqxxxxx");
    for _ in 0..10 {
        assert_eq!(f.check("zzzzzqqqqqxxxxx"), other);
    }
    assert_eq!(f.len(), 2);
}

#[test]
fn inserted_words_are_always_found() {
    let words = ["apple", "banana", "cherry", "", "q", "h\u{e9}llo", "to be or not to be"];
    let mut f = BitArray::new(64_000);
    for (i, w) in words.iter().enumerate() {
        f.add_word(w);
        for earlier in &words[..=i] {
            assert!(f.check(earlier));
        }
    }
    for n in 0..500 {
        f.add_word(&format!("filler-{}", n));
    }
    for w in words {
        assert!(f.check(w));
    }
}

#[test]
fn inserted_words_are_found_in_a_tiny_filter() {
    let mut f = BitArray::new(8);
    f.add_word("apple");
    assert!(f.check("apple"));
    f.add_word("banana");
    assert!(f.check("apple"));
    assert!(f.check("banana"));
}

#[test]
fn inserting_twice_changes_no_bit_but_counts_twice() {
    let once = filled(64_000, &["apple"]);
    let twice = filled(64_000, &["apple", "apple"]);
    assert_eq!(once.as_bytes(), twice.as_bytes());
    assert_eq!(once.len(), 1);
    assert_eq!(twice.len(), 2);
}

#[test]
fn len_counts_insertions_not_distinct_words() {
    let mut f = BitArray::new(64_000);
    assert_eq!(f.len(), 0);
    for n in 1..=5usize {
        f.add_word("same");
        assert_eq!(f.len(), n);
    }
    f.add_hash(0);
    assert_eq!(f.len(), 6);
}

#[test]
fn insertion_order_does_not_matter() {
    let (a, b, c) = ("apple", "banana", "cherry");
    let reference = filled(64_000, &[a, b, c]);
    for order in [[a, c, b], [b, a, c], [b, c, a], [c, a, b], [c, b, a]] {
        let f = filled(64_000, &order);
        assert_eq!(f.as_bytes(), reference.as_bytes());
        assert_eq!(f.len(), 3);
    }
    let small = filled(24, &[a, b, c]);
    assert_eq!(filled(24, &[c, b, a]).as_bytes(), small.as_bytes());
}

#[test]
fn empty_filter_reports_nothing() {
    let f = BitArray::new(64_000);
    for w in ["apple", "banana", "", "q", "zzzzzqqqqqxxxxx", "h\u{e9}llo"] {
        assert!(!f.check(w));
    }
    for h in [0u64, 1, u64::MAX, 1988685042348123509] {
        assert!(!f.check_hash(h));
    }
    assert!(!BitArray::new(8).check("apple"));
}

#[test]
fn add_hash_sets_the_four_probed_bits() {
    let mut f = BitArray::new(64_000);
    f.add_hash(1988685042348123509);
    let expected = bytes_with(8000, &[(7342, 0x04), (3561, 0x20), (1872, 0x20), (883, 0x40)]);
    assert_eq!(f.as_bytes(), &expected[..]);
    assert!(f.check_hash(1988685042348123509));
    assert!(f.check("to be or not to be"));
}

#[test]
fn add_word_sets_the_bits_of_its_hash() {
    let mut f = BitArray::new(64_000);
    f.add_word("apple");
    let expected = bytes_with(8000, &[(4915, 0x40), (5255, 0x40), (7880, 0x08), (3746, 0x01)]);
    assert_eq!(f.as_bytes(), &expected[..]);
    f.add_word("banana");
    let expected = bytes_with(
        8000,
        &[
            (4915, 0x40),
            (5255, 0x40),
            (7880, 0x08),
            (3746, 0x01),
            (2028, 0x40),
            (7525, 0x08),
            (2014, 0x04),
            (2150, 0x80),
        ],
    );
    assert_eq!(f.as_bytes(), &expected[..]);
    assert!(!f.check("zzzzzqqqqqxxxxx"));
}

#[test]
fn add_word_agrees_with_add_hash() {
    let mut by_word = BitArray::new(64_000);
    let mut by_hash = BitArray::new(64_000);
    for w in ["apple", "banana", "", "h\u{e9}llo"] {
        by_word.add_word(w);
        by_hash.add_hash(seahash::hash(w.as_bytes()));
        assert_eq!(by_word.as_bytes(), by_hash.as_bytes());
        assert!(by_word.check_hash(hash_word(w)));
        assert!(by_hash.check(w));
    }
    assert_eq!(by_word.len(), by_hash.len());
}

#[test]
fn probes_wrap_around_the_bit_count() {
    let mut f = BitArray::new(64_000);
    f.add_hash(u64::MAX);
    assert_eq!(f.as_bytes(), &bytes_with(8000, &[(191, 0x01)])[..]);
    assert!(f.check_hash(u64::MAX));
    // 1535 wraps to the same bit as 65535.
    assert!(f.check_hash(0x05FF_05FF_05FF_05FF));
    assert!(!f.check_hash(0x05FF_05FF_05FF_05FE));
}

#[test]
fn small_filter_holds_the_expected_bytes() {
    let mut f = BitArray::new(16);
    f.add_word("apple");
    // fragments 39321, 42041, 63044, 29975 modulo 16 are 9, 9, 4, 7
    assert_eq!(f.as_bytes(), &[0x09u8, 0x40][..]);
    assert_eq!(f.len(), 1);
}

#[test]
fn check_hash_needs_all_four_bits() {
    let mut f = BitArray::new(16);
    f.add_hash(0x0003_0002_0001_0000);
    assert_eq!(f.as_bytes(), &[0xF0u8, 0x00][..]);
    assert!(f.check_hash(0x0003_0002_0001_0000));
    assert!(f.check_hash(0x0000_0001_0002_0003));
    assert!(f.check_hash(0x0013_0012_0011_0010));
    assert!(!f.check_hash(0x0004_0002_0001_0000));
    assert!(!f.check_hash(0x0003_0004_0001_0000));
    assert!(!f.check_hash(0x0003_0002_0004_0000));
    assert!(!f.check_hash(0x0003_0002_0001_0004));
}

#[test]
fn a_filter_of_more_than_65535_bits_uses_fragments_unreduced() {
    let mut f = BitArray::new(1 << 20);
    assert_eq!(f.as_bytes().len(), 131_072);
    f.add_hash(u64::MAX);
    assert_eq!(f.as_bytes(), &bytes_with(131_072, &[(8191, 0x01)])[..]);
    let mut g = BitArray::new(65_536);
    g.add_hash(0xFFFF_8000_0001_0000);
    assert_eq!(
        g.as_bytes(),
        &bytes_with(8192, &[(0, 0xC0), (4096, 0x80), (8191, 0x01)])[..]
    );
}

#[test]
fn filters_of_one_size_probe_the_same_bits() {
    let mut f = BitArray::new(64_000);
    let mut g = BitArray::new(64_000);
    f.add_word("apple");
    g.add_word("apple");
    assert_eq!(f.as_bytes(), g.as_bytes());
    g.add_word("apple");
    assert_eq!(f.as_bytes(), g.as_bytes());
    assert!(f.check("apple") && g.check("apple"));
    assert_eq!(f.check("banana"), BitArray::new(64_000).check("banana"));
}

#[test]
fn add_words_inserts_each_word_in_turn() {
    let words: Vec<String> =
        ["apple", "banana", "apple", "", "cherry"].iter().map(|w| w.to_string()).collect();
    let mut all = BitArray::new(64_000);
    all.add_words(&words);
    let mut one_by_one = BitArray::new(64_000);
    for w in &words {
        one_by_one.add_word(w);
    }
    assert_eq!(all.as_bytes(), one_by_one.as_bytes());
    assert_eq!(all.len(), 5);
    for w in &words {
        assert!(all.check(w));
    }
}

#[test]
fn add_words_of_nothing_changes_nothing() {
    let mut f = BitArray::new(64_000);
    f.add_word("apple");
    let before = f.as_bytes().to_vec();
    f.add_words(&Vec::new());
    assert_eq!(f.as_bytes(), &before[..]);
    assert_eq!(f.len(), 1);
    let mut empty = BitArray::new(0);
    empty.add_words(&Vec::new());
    assert_eq!(empty.len(), 0);
}

#[test]
fn bits_are_never_cleared() {
    let mut f = BitArray::new(256);
    let mut previous = f.as_bytes().to_vec();
    for n in 0..200 {
        f.add_word(&format!("word-{}", n));
        let now = f.as_bytes().to_vec();
        assert_eq!(now.len(), previous.len());
        for (old, new) in previous.iter().zip(now.iter()) {
            assert_eq!(old & new, *old);
        }
        previous = now;
    }
}
