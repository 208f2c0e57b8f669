use ihor::sequence::{complement, nucleotide, nucleotides_inv, Dna, Gene};
use ihor::utils::{sorted_and_complete, sorted_and_complete_0start};

fn dna(s: &str) -> Dna {
    Dna::from_bytes(s.as_bytes().to_vec())
}

#[test]
fn sorted_and_complete_accepts_runs() {
    assert!(sorted_and_complete(vec![]));
    assert!(sorted_and_complete(vec![7]));
    assert!(sorted_and_complete(vec![3, 4, 5]));
    assert!(sorted_and_complete(vec![-2, -1, 0, 1]));
}

#[test]
fn sorted_and_complete_rejects_gaps_and_disorder() {
    assert!(!sorted_and_complete(vec![3, 5]));
    assert!(!sorted_and_complete(vec![5, 4]));
    assert!(!sorted_and_complete(vec![1, 2, 2]));
    assert!(!sorted_and_complete(vec![i64::MAX, i64::MIN]));
}

#[test]
fn sorted_and_complete_0start_needs_zero_start() {
    assert!(sorted_and_complete_0start(vec![]));
    assert!(sorted_and_complete_0start(vec![0, 1, 2]));
    assert!(!sorted_and_complete_0start(vec![1, 2, 3]));
    assert!(!sorted_and_complete_0start(vec![0, 2]));
}

#[test]
fn nucleotide_indices_round_trip() {
    for i in 0..4 {
        assert_eq!(nucleotides_inv(nucleotide(i)), i);
    }
    assert_eq!(nucleotide(0), b'A');
    assert_eq!(nucleotide(3), b'T');
    assert_eq!(nucleotides_inv(b'G'), 2);
}

#[test]
fn complement_of_bases() {
    assert_eq!(complement(b'A'), b'T');
    assert_eq!(complement(b'C'), b'G');
    assert_eq!(complement(b'G'), b'C');
    assert_eq!(complement(b'T'), b'A');
    assert_eq!(complement(b'N'), b'N');
}

#[test]
fn reverse_complement_and_reverse() {
    assert_eq!(dna("ACGTN").reverse_complement().seq, b"NACGT".to_vec());
    assert_eq!(dna("").reverse_complement().seq, Vec::<u8>::new());
    let mut d = dna("AACG");
    d.reverse();
    assert_eq!(d.seq, b"GCAA".to_vec());
}

#[test]
fn extract_and_extend() {
    let d = dna("ACGTAC");
    assert_eq!(d.extract_subsequence(1, 4).seq, b"CGT".to_vec());
    assert_eq!(d.extract_subsequence(2, 2).seq, Vec::<u8>::new());
    let mut e = dna("AA");
    e.extend(&dna("CG"));
    assert_eq!(e.seq, b"AACG".to_vec());
    assert_eq!(e.len(), 4);
}

#[test]
fn palindromic_ends_are_reverse_complements() {
    let mut g = Gene {
        name: "TRBV1".to_string(),
        seq: dna("ACGTT"),
        seq_with_pal: None,
        functional: "F".to_string(),
        cdr3_pos: Some(2),
    };
    g.create_palindromic_ends(2, 1);
    assert_eq!(g.seq_with_pal.unwrap().seq, b"GTACGTTA".to_vec());
    assert_eq!(g.seq.seq, b"ACGTT".to_vec());
    assert_eq!(g.name, "TRBV1");
}

#[test]
fn palindromic_ends_of_length_zero_keep_sequence() {
    let mut g = Gene {
        name: String::new(),
        seq: dna("ACG"),
        seq_with_pal: None,
        functional: String::new(),
        cdr3_pos: None,
    };
    g.create_palindromic_ends(0, 0);
    assert_eq!(g.seq_with_pal.clone().unwrap().seq, b"ACG".to_vec());
    g.create_palindromic_ends(3, 3);
    let pal = g.seq_with_pal.unwrap();
    assert_eq!(pal.seq, b"CGTACGCGT".to_vec());
    assert_eq!(pal.len(), 3 + 3 + 3);
}
