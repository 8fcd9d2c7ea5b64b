use garage_door::client::{chunk_ids, flatten_responses};

fn ids(names: &[&str]) -> Vec<String> {
    names.iter().map(|s| s.to_string()).collect()
}

#[test]
fn chunk_exact_count_and_sizes() {
    let input = ids(&["a", "b", "c", "d", "e"]);
    let chunks = chunk_ids(&input, 2);
    // ceil(5 / 2) = 3 requests, each carrying at most 2 identifiers
    assert_eq!(chunks.len(), 3);
    assert_eq!(chunks[0], ids(&["a", "b"]));
    assert_eq!(chunks[1], ids(&["c", "d"]));
    assert_eq!(chunks[2], ids(&["e"]));
}

#[test]
fn chunk_multiplicity_preserved() {
    // duplicates in the input survive chunking with their multiplicity
    let input = ids(&["x", "y", "x", "x", "z", "y", "x"]);
    let chunks = chunk_ids(&input, 3);
    assert_eq!(chunks.len(), 3);
    let flat: Vec<String> = chunks.into_iter().flatten().collect();
    assert_eq!(flat, input);
}

#[test]
fn chunk_size_larger_than_list() {
    let input = ids(&["only", "two"]);
    let chunks = chunk_ids(&input, 100);
    assert_eq!(chunks.len(), 1);
    assert_eq!(chunks[0], input);
}

#[test]
fn chunk_size_one() {
    let input = ids(&["a", "b", "c"]);
    let chunks = chunk_ids(&input, 1);
    assert_eq!(chunks.len(), 3);
    for (chunk, want) in chunks.iter().zip(["a", "b", "c"]) {
        assert_eq!(chunk, &ids(&[want]));
    }
}

#[test]
fn chunk_empty_list_makes_no_requests() {
    let input: Vec<String> = Vec::new();
    let chunks = chunk_ids(&input, 7);
    assert!(chunks.is_empty());
}

#[test]
fn chunk_exact_multiple() {
    let input = ids(&["a", "b", "c", "d"]);
    let chunks = chunk_ids(&input, 2);
    assert_eq!(chunks.len(), 2);
    assert_eq!(chunks[0], ids(&["a", "b"]));
    assert_eq!(chunks[1], ids(&["c", "d"]));
}

#[test]
fn flatten_keeps_arrival_order_and_duplicates() {
    let responses = vec![ids(&["r1", "r2"]), ids(&[]), ids(&["r2", "r3"])];
    let flat = flatten_responses(responses);
    assert_eq!(flat, ids(&["r1", "r2", "r2", "r3"]));
}
