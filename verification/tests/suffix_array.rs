use plow_logic::suffix_array::build_suffix_array;

fn assert_suffix_order(text: &[i64], sa: &[usize]) {
    assert_eq!(
        text.len(),
        sa.len(),
        "suffix array length must equal text length"
    );
    for i in 1..sa.len() {
        let suffix_a = &text[sa[i - 1]..];
        let suffix_b = &text[sa[i]..];
        assert!(
            suffix_a <= suffix_b,
            "suffix order violated at SA[{}]={} vs SA[{}]={}: {:?} > {:?}",
            i - 1,
            sa[i - 1],
            i,
            sa[i],
            suffix_a,
            suffix_b,
        );
    }
}

fn assert_is_permutation(sa: &[usize], n: usize) {
    let mut seen = vec![false; n];
    for &idx in sa {
        assert!(idx < n, "suffix array index {idx} out of bounds (n={n})");
        assert!(!seen[idx], "duplicate index {idx} in suffix array");
        seen[idx] = true;
    }
}

#[test]
fn empty_input() {
    let sa = build_suffix_array(&[]);
    assert!(sa.is_empty());
}

#[test]
fn single_element() {
    let text = [42];
    let sa = build_suffix_array(&text);
    assert_eq!(sa, vec![0]);
    assert_suffix_order(&text, &sa);
}

#[test]
fn two_elements_already_sorted() {
    let text = [1, 2];
    let sa = build_suffix_array(&text);
    assert_is_permutation(&sa, 2);
    assert_suffix_order(&text, &sa);
}

#[test]
fn two_elements_reverse_sorted() {
    let text = [2, 1];
    let sa = build_suffix_array(&text);
    assert_is_permutation(&sa, 2);
    assert_suffix_order(&text, &sa);
    assert_eq!(sa[0], 1);
    assert_eq!(sa[1], 0);
}

#[test]
fn already_sorted_input() {
    let text = [1, 2, 3, 4, 5];
    let sa = build_suffix_array(&text);
    assert_is_permutation(&sa, 5);
    assert_suffix_order(&text, &sa);
}

#[test]
fn reverse_sorted_input() {
    let text = [5, 4, 3, 2, 1];
    let sa = build_suffix_array(&text);
    assert_is_permutation(&sa, 5);
    assert_suffix_order(&text, &sa);
    assert_eq!(sa[0], 4);
}

#[test]
fn all_identical_elements() {
    let text = [7, 7, 7, 7];
    let sa = build_suffix_array(&text);
    assert_is_permutation(&sa, 4);
    assert_suffix_order(&text, &sa);
    assert_eq!(sa, vec![3, 2, 1, 0]);
}

#[test]
fn mixed_input_banana_like() {
    let text = [2, 1, 3, 1, 3, 1];
    let sa = build_suffix_array(&text);
    assert_is_permutation(&sa, 6);
    assert_suffix_order(&text, &sa);
}

#[test]
fn input_with_negative_sentinels() {
    let text = [3, 1, 2, -1, 4, 5, -2, 6];
    let sa = build_suffix_array(&text);
    assert_is_permutation(&sa, 8);
    assert_suffix_order(&text, &sa);
    assert_eq!(sa[0], 6);
}

#[test]
fn single_sentinel_only() {
    let text = [-1];
    let sa = build_suffix_array(&text);
    assert_eq!(sa, vec![0]);
    assert_suffix_order(&text, &sa);
}

#[test]
fn multiple_sentinels_decreasing() {
    let text = [-1, -2];
    let sa = build_suffix_array(&text);
    assert_is_permutation(&sa, 2);
    assert_suffix_order(&text, &sa);
    assert_eq!(sa[0], 1);
    assert_eq!(sa[1], 0);
}

#[test]
fn realistic_concatenated_files() {
    let text = [10, 20, 30, -1, 20, 30, 40];
    let sa = build_suffix_array(&text);
    assert_is_permutation(&sa, 7);
    assert_suffix_order(&text, &sa);
}

#[test]
fn repeated_pattern() {
    let text = [1, 2, 1, 2];
    let sa = build_suffix_array(&text);
    assert_is_permutation(&sa, 4);
    assert_suffix_order(&text, &sa);
}

#[test]
fn large_input_stress() {
    let text: Vec<i64> = (0..256).map(|i| i64::from(i % 17)).collect();
    let sa = build_suffix_array(&text);
    assert_is_permutation(&sa, 256);
    assert_suffix_order(&text, &sa);
}

#[test]
fn large_identical_stress() {
    let text = vec![42i64; 128];
    let sa = build_suffix_array(&text);
    assert_is_permutation(&sa, 128);
    assert_suffix_order(&text, &sa);
    for (i, &pos) in sa.iter().enumerate() {
        assert_eq!(pos, 127 - i);
    }
}

#[test]
fn alternating_sentinels_and_tokens() {
    let text = [5, -1, 5, -2];
    let sa = build_suffix_array(&text);
    assert_is_permutation(&sa, 4);
    assert_suffix_order(&text, &sa);
}

#[test]
fn all_same_with_trailing_sentinel() {
    let text = [3, 3, 3, -1];
    let sa = build_suffix_array(&text);
    assert_is_permutation(&sa, 4);
    assert_suffix_order(&text, &sa);
    assert_eq!(sa[0], 3);
}

#[test]
fn suffix_array_is_inverse_of_rank() {
    let text = [4, 2, 3, 1, 5];
    let sa = build_suffix_array(&text);
    let n = text.len();
    let mut rank = vec![0usize; n];
    for i in 0..n {
        rank[sa[i]] = i;
    }
    for i in 0..n {
        assert_eq!(
            sa[rank[i]], i,
            "rank/sa inverse property violated at position {i}"
        );
    }
}

#[test]
fn suffix_array_depends_only_on_relative_order() {
    let text: Vec<i64> = vec![3, 1, 4, 1, 5, 9, 2, 6, 5, 3, 5];
    let shifted: Vec<i64> = text.iter().map(|v| v * 10 - 1000).collect();
    assert_eq!(build_suffix_array(&text), build_suffix_array(&shifted));
}
