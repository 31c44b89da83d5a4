use anagrams::generator::PermutationGenerator;
use std::collections::HashSet;

fn fact(n: u64) -> u64 {
    let mut result = 1;
    for i in 2..n + 1 {
        result *= i;
    }
    result
}

/// Step the generator to exhaustion, returning every produced buffer in
/// order, as owned copies.
fn collect_perms(letters: Vec<u8>) -> Vec<Vec<u8>> {
    let mut generator = PermutationGenerator::new(letters);
    let mut produced = Vec::new();
    loop {
        if let Some(anagram) = generator.next() {
            produced.push(anagram.clone());
        } else {
            break;
        }
    }
    produced
}

/// Step the generator to exhaustion, checking that every produced buffer is
/// a rearrangement of `letters` and that no buffer repeats.
fn lazy_to_set(letters: Vec<u8>) -> HashSet<Vec<u8>> {
    let mut reference = letters.clone();
    reference.sort();
    let mut iterator = PermutationGenerator::new(letters);
    let mut permutations = HashSet::new();
    loop {
        if let Some(anagram) = iterator.next() {
            // Make sure that our anagrams use the right letters, with the right multiplicity.
            let mut sorted = anagram.clone();
            sorted.sort();
            assert_eq!(sorted, reference);

            // Make sure that our anagrams are distinct. Won't work if the same letter appears
            // more than once in `letters`.
            let fresh = permutations.insert(anagram.clone());
            assert!(fresh);
        } else {
            break;
        }
    }
    permutations
}

fn test_with(letters: Vec<u8>) {
    // An empty sequence yields no permutation at all; a non-empty one of
    // length n yields n! of them.
    let expected = if letters.is_empty() { 0 } else { fact(letters.len() as u64) };
    let permutations = lazy_to_set(letters);
    assert_eq!(permutations.len() as u64, expected);
}

#[test]
fn test_ranges() {
    let source = "01234567";
    for i in 0..source.len() {
        let (slice, _) = source.split_at(i);
        test_with(slice.into());
    }
}

#[test]
fn abc_yields_six_distinct() {
    let produced = collect_perms(b"abc".to_vec());
    assert_eq!(produced.len(), 6);
    assert_eq!(produced[0], b"abc".to_vec());
    let distinct: HashSet<Vec<u8>> = produced.iter().cloned().collect();
    assert_eq!(distinct.len(), 6);
}

#[test]
fn abcde_yields_all_rearrangements() {
    let produced = collect_perms(b"abcde".to_vec());
    assert_eq!(produced.len(), 120);
    let distinct: HashSet<Vec<u8>> = produced.iter().cloned().collect();
    assert_eq!(distinct.len(), 120);
    for anagram in &produced {
        let mut sorted = anagram.clone();
        sorted.sort();
        assert_eq!(sorted, b"abcde".to_vec());
    }
}

#[test]
fn empty_source_yields_nothing() {
    let mut generator = PermutationGenerator::new(Vec::<u8>::new());
    assert!(generator.next().is_none());
    assert_eq!(collect_perms(Vec::new()).len(), 0);
}

#[test]
fn single_element_yields_itself_once() {
    let produced = collect_perms(b"x".to_vec());
    assert_eq!(produced, vec![b"x".to_vec()]);
}

#[test]
fn first_buffer_is_the_identity() {
    let mut generator = PermutationGenerator::new(vec![10u8, 20, 30, 40]);
    let first = generator.next().expect("a non-empty source yields");
    assert_eq!(*first, vec![10u8, 20, 30, 40]);
}

#[test]
fn duplicates_keep_the_multiset_and_the_count() {
    // Repeated elements still give 3! positionally distinct buffers, each a
    // rearrangement of the source.
    let mut generator = PermutationGenerator::new(b"aab".to_vec());
    let mut count = 0;
    loop {
        if let Some(anagram) = generator.next() {
            count += 1;
            let mut sorted = anagram.clone();
            sorted.sort();
            assert_eq!(sorted, b"aab".to_vec());
        } else {
            break;
        }
    }
    assert_eq!(count, 6);
}

#[test]
fn exhaustion_is_idempotent() {
    let mut generator = PermutationGenerator::new(vec![1u8, 2]);
    assert!(generator.next().is_some());
    assert!(generator.next().is_some());
    assert!(generator.next().is_none());
    assert!(generator.next().is_none());
    assert!(generator.next().is_none());
}

#[test]
fn works_for_any_copy_element() {
    let produced: Vec<Vec<u32>> = {
        let mut generator = PermutationGenerator::new(vec![5u32, 6, 7]);
        let mut out = Vec::new();
        loop {
            if let Some(p) = generator.next() {
                out.push(p.clone());
            } else {
                break;
            }
        }
        out
    };
    assert_eq!(produced.len(), 6);
    assert_eq!(produced[0], vec![5u32, 6, 7]);
    let distinct: HashSet<Vec<u32>> = produced.iter().cloned().collect();
    assert_eq!(distinct.len(), 6);
}
