use concurrent_batch::partition::{domain, is_domain, partition, shuffled, split, ConfigError};

fn lengths(chunks: &Vec<Vec<usize>>) -> Vec<usize> {
    chunks.iter().map(|chunk| chunk.len()).collect()
}

fn flatten(chunks: &Vec<Vec<usize>>) -> Vec<usize> {
    chunks.iter().flat_map(|chunk| chunk.iter().copied()).collect()
}

#[test]
fn domain_is_the_ordered_range() {
    assert_eq!(domain(0), Vec::<usize>::new());
    assert_eq!(domain(5), vec![0, 1, 2, 3, 4]);
    assert!(is_domain(&domain(100)));
}

#[test]
fn is_domain_rejects_gaps_and_disorder() {
    assert!(is_domain(&Vec::new()));
    assert!(is_domain(&vec![0, 1, 2]));
    assert!(!is_domain(&vec![1, 2, 3]));
    assert!(!is_domain(&vec![0, 2, 1]));
    assert!(!is_domain(&vec![0, 1, 1]));
}

#[test]
fn split_even_division() {
    let chunks = split(&domain(12), 4);
    assert_eq!(chunks, vec![vec![0, 1, 2], vec![3, 4, 5], vec![6, 7, 8], vec![9, 10, 11]]);
}

#[test]
fn split_last_chunk_takes_the_remainder() {
    let chunks = split(&domain(10), 4);
    assert_eq!(chunks, vec![vec![0, 1], vec![2, 3], vec![4, 5], vec![6, 7, 8, 9]]);
    assert_eq!(lengths(&chunks), vec![2, 2, 2, 4]);
}

#[test]
fn split_remainder_of_one_is_balanced() {
    let chunks = split(&domain(9), 4);
    assert_eq!(lengths(&chunks), vec![2, 2, 2, 3]);
}

#[test]
fn split_single_worker_gets_everything() {
    let chunks = split(&domain(7), 1);
    assert_eq!(chunks, vec![vec![0, 1, 2, 3, 4, 5, 6]]);
}

#[test]
fn split_more_workers_than_items() {
    let chunks = split(&domain(3), 5);
    assert_eq!(lengths(&chunks), vec![0, 0, 0, 0, 3]);
    assert_eq!(flatten(&chunks), vec![0, 1, 2]);
}

#[test]
fn split_empty_domain() {
    let chunks = split(&domain(0), 3);
    assert_eq!(lengths(&chunks), vec![0, 0, 0]);
}

#[test]
fn chunk_lengths_add_up_for_many_sizes() {
    let mut n: usize = 0;
    while n <= 60 {
        let mut w: usize = 1;
        while w <= 9 {
            let chunks = split(&domain(n), w);
            assert_eq!(chunks.len(), w);
            let total: usize = lengths(&chunks).iter().sum();
            assert_eq!(total, n);
            assert_eq!(flatten(&chunks), domain(n));
            let longest: usize = *lengths(&chunks).iter().max().unwrap();
            let shortest: usize = *lengths(&chunks).iter().min().unwrap();
            if w >= 2 {
                assert_eq!(longest - shortest, n % w);
            } else {
                assert_eq!(longest - shortest, 0);
            }
            if n % w <= 1 {
                assert!(longest - shortest <= 1);
            }
            if w <= n {
                assert!(shortest >= 1);
            }
            w += 1;
        }
        n += 1;
    }
}

#[test]
fn partition_rejects_zero_workers() {
    assert_eq!(partition(&domain(10), 0, false), Err(ConfigError::ZeroWorkers));
    assert_eq!(partition(&domain(10), 0, true), Err(ConfigError::ZeroWorkers));
    assert_eq!(partition(&vec![3, 1], 0, false), Err(ConfigError::ZeroWorkers));
}

#[test]
fn partition_rejects_malformed_domain() {
    assert_eq!(partition(&vec![0, 1, 3], 2, false), Err(ConfigError::MalformedDomain));
    assert_eq!(partition(&vec![1, 0], 1, true), Err(ConfigError::MalformedDomain));
}

#[test]
fn partition_without_shuffle_keeps_order() {
    let chunks = partition(&domain(10), 3, false).unwrap();
    assert_eq!(chunks, vec![vec![0, 1, 2], vec![3, 4, 5], vec![6, 7, 8, 9]]);
}

#[test]
fn partition_with_shuffle_keeps_every_item_once() {
    let chunks = partition(&domain(1000), 8, true).unwrap();
    assert_eq!(lengths(&chunks), vec![125; 8]);
    let mut items = flatten(&chunks);
    assert_ne!(items, domain(1000));
    items.sort();
    assert_eq!(items, domain(1000));
}

#[test]
fn shuffled_is_a_permutation() {
    let ordered = domain(500);
    let arranged = shuffled(&ordered);
    assert_eq!(arranged.len(), 500);
    assert_ne!(arranged, ordered);
    let mut sorted = arranged.clone();
    sorted.sort();
    assert_eq!(sorted, ordered);
}

#[test]
fn shuffled_of_nothing_and_of_one() {
    assert_eq!(shuffled(&Vec::new()), Vec::<usize>::new());
    assert_eq!(shuffled(&vec![7]), vec![7]);
}
