use wordcount::FrequencyMap;

#[test]
fn new_map_is_empty() {
    let freqs = FrequencyMap::new();
    assert_eq!(freqs.len(), 0);
    assert_eq!(freqs.total(), 0);
    assert_eq!(freqs.get("a"), None);
    assert!(freqs.entries().is_empty());
}

#[test]
fn add_increments_one_count_by_one() {
    let mut freqs = FrequencyMap::new();
    freqs.add("a".to_string());
    assert_eq!(freqs.get("a"), Some(1));
    assert_eq!(freqs.get("b"), None);
    freqs.add("b".to_string());
    freqs.add("a".to_string());
    assert_eq!(freqs.get("a"), Some(2));
    assert_eq!(freqs.get("b"), Some(1));
    assert_eq!(freqs.len(), 2);
    assert_eq!(freqs.total(), 3);
    let mut entries = freqs.entries();
    entries.sort();
    assert_eq!(entries, vec![("a".to_string(), 2), ("b".to_string(), 1)]);
}

#[test]
fn add_all_counts_every_token() {
    let mut freqs = FrequencyMap::new();
    freqs.add("bb".to_string());
    let tokens: Vec<String> = ["aa", "bb", "cc", "bb"].iter().map(|t| t.to_string()).collect();
    freqs.add_all(&tokens);
    assert_eq!(freqs.get("aa"), Some(1));
    assert_eq!(freqs.get("bb"), Some(3));
    assert_eq!(freqs.get("cc"), Some(1));
    assert_eq!(freqs.len(), 3);
    assert_eq!(freqs.total(), 5);
    freqs.add_all(&Vec::new());
    assert_eq!(freqs.total(), 5);
}

#[test]
fn empty_token_is_a_token() {
    let mut freqs = FrequencyMap::new();
    freqs.add(String::new());
    freqs.add(String::new());
    assert_eq!(freqs.get(""), Some(2));
    assert_eq!(freqs.len(), 1);
}
