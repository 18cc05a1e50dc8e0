use tracseq_rc::reverse_complement;

fn assert_reverse_complement(input: &str, expected: &str) {
    let result = reverse_complement(input);
    assert_eq!(
        result, expected,
        "Reverse complement of '{}' should be '{}', but got '{}'",
        input, expected, result
    );
}

#[test]
fn main_test_reverse_complement() {
    assert_eq!(reverse_complement("ATGC"), "GCAT");
    assert_eq!(reverse_complement("ATGC-N"), "N-GCAT");
    assert_eq!(reverse_complement(""), "");
    assert_eq!(reverse_complement("N"), "N");
    assert_eq!(reverse_complement("ATGCATGC"), "GCATGCAT");
}

#[test]
fn integration_tests_test_reverse_complement() {
    assert_reverse_complement("ATGC", "GCAT");
    assert_reverse_complement("ATGC-N", "N-GCAT");
    assert_reverse_complement("", "");
    assert_reverse_complement("N", "N");
    assert_reverse_complement("ATGCATGC", "GCATGCAT");
}

#[test]
fn test_specific_index_reverse_complement() {
    let input = "GCAT";
    let expected = "ATGC";
    assert_reverse_complement(input, expected);

    let input = "Prefix-ATGC";
    let expected = "Prefix-GCAT";
    let parts = input.splitn(2, '-').collect::<Vec<_>>();
    let rc = reverse_complement(parts[1]);
    let result = format!("{}-{}", parts[0], rc);
    assert_eq!(
        result, expected,
        "Reverse complement of '{}' should be '{}', but got '{}'",
        input, expected, result
    );
}

#[test]
fn reverse_complement_twice_gives_back_the_sequence() {
    for s in ["", "A", "ATGCN", "NNGATTACA", "GGGCCCAAATTT"] {
        assert_eq!(reverse_complement(&reverse_complement(s)), s);
    }
}

#[test]
fn reverse_complement_keeps_other_characters() {
    assert_eq!(reverse_complement("ax1T"), "A1xa");
    assert_eq!(reverse_complement("é-G"), "C-é");
}
