use ihor::generation::{
    accept_event, add_errors, decode_pair, codon_to_amino_acid, is_productive_cdr3, translate, GenerationResult, StaticEvent,
};
use ihor::sequence::Dna;

fn dna(s: &str) -> Dna {
    Dna::from_bytes(s.as_bytes().to_vec())
}

fn event(errors: Vec<(usize, u8)>) -> StaticEvent {
    StaticEvent {
        v_index: 1,
        delv: 2,
        d_index: 0,
        deld5: 1,
        deld3: 1,
        j_index: 3,
        delj: 1,
        insvd: dna("G"),
        insdj: dna("TT"),
        errors,
    }
}

#[test]
fn codon_table() {
    assert_eq!(codon_to_amino_acid(b'A', b'T', b'G'), b'M');
    assert_eq!(codon_to_amino_acid(b'T', b'G', b'G'), b'W');
    assert_eq!(codon_to_amino_acid(b'T', b'A', b'A'), b'*');
    assert_eq!(codon_to_amino_acid(b'T', b'G', b'A'), b'*');
    assert_eq!(codon_to_amino_acid(b'G', b'G', b'C'), b'G');
    assert_eq!(codon_to_amino_acid(b'A', b'N', b'C'), b'X');
}

#[test]
fn translation_drops_partial_codon() {
    assert_eq!(translate(&dna("TGTGCCAGCAG")), b"CAS".to_vec());
    assert_eq!(translate(&dna("")), Vec::<u8>::new());
}

#[test]
fn productive_cdr3() {
    assert!(is_productive_cdr3(&dna("TGTGCCTTT")));
    assert!(!is_productive_cdr3(&dna("TGTTAGTTT")));
    assert!(!is_productive_cdr3(&dna("TGTGC")));
}

#[test]
fn errors_are_written_in_order() {
    let mut d = dna("AAAA");
    add_errors(&mut d, &vec![(1, b'C'), (3, b'G'), (1, b'T'), (9, b'G')]);
    assert_eq!(d.seq, b"ATAG".to_vec());
}

#[test]
fn cdr3_is_spliced_from_event() {
    let e = event(vec![]);
    let cdr3 = e.to_cdr3(&dna("TGTGCCA"), &dna("AGGGA"), &dna("CTTTG"));
    // TGTGC + G + GGG + TT + TTTG
    assert_eq!(cdr3.seq, b"TGTGCGGGGTTTTTG".to_vec());
}

#[test]
fn generation_round_trip() {
    let e = event(vec![(0, b'A')]);
    let (v, d, j) = (dna("TGTGCCA"), dna("AGGGA"), dna("CTTTG"));
    let g = GenerationResult::from_event(
        e.clone(),
        &v,
        &d,
        &j,
        &dna("CC"),
        &dna("AA"),
        "TRBV1".to_string(),
        "TRBJ2".to_string(),
    );
    let rebuilt = g.recombination_event.to_cdr3(&v, &d, &j);
    assert_eq!(rebuilt.seq, g.cdr3_nt.as_bytes().to_vec());
    assert_eq!(g.cdr3_nt, "AGTGCGGGGTTTTTG");
    assert_eq!(g.cdr3_aa, Some("SAGFL".to_string()));
    assert_eq!(g.full_seq, "CCAGTGCGGGGTTTTTGAA");
    assert_eq!(g.v_gene, "TRBV1");
    assert_eq!(g.j_gene, "TRBJ2");
}

#[test]
fn generation_out_of_frame_has_no_translation() {
    let mut e = event(vec![]);
    e.insdj = dna("T");
    let g = GenerationResult::from_event(
        e,
        &dna("TGTGCCA"),
        &dna("AGGGA"),
        &dna("CTTTG"),
        &dna(""),
        &dna(""),
        String::new(),
        String::new(),
    );
    assert_eq!(g.cdr3_nt, "TGTGCGGGGTTTTG");
    assert_eq!(g.cdr3_aa, None);
}

#[test]
fn decode_pair_splits_row_major_index() {
    assert_eq!(decode_pair(7, 3), (2, 1));
    assert_eq!(decode_pair(0, 5), (0, 0));
}

#[test]
fn accept_event_checks_fit_and_frame() {
    let (v, d, j) = (dna("TGTGCCA"), dna("AGGGA"), dna("CTTTG"));
    let e = event(vec![]);
    // CDR3 TGTGCGGGGTTTTTG: in frame, C A G F L
    assert!(accept_event(&e, &v, &d, &j, true));
    let mut stop = event(vec![]);
    stop.insvd = dna("TAG");
    stop.insdj = dna("");
    // TGTGC TAG GGG TTTG: 15 bases, codons TGT GCT AGG GGT TTG
    assert!(accept_event(&stop, &v, &d, &j, true));
    let mut long = event(vec![]);
    long.delv = 8;
    assert!(!accept_event(&long, &v, &d, &j, false));
    let mut off = event(vec![]);
    off.insdj = dna("T");
    assert!(accept_event(&off, &v, &d, &j, false));
    assert!(!accept_event(&off, &v, &d, &j, true));
    let mut stop2 = event(vec![]);
    stop2.insvd = dna("");
    stop2.insdj = dna("TAGT");
    // TGTGC GGG TAGT TTTG -> TGT GCG GGT AGT TTT G: 16 bases, out of frame
    assert!(!accept_event(&stop2, &v, &d, &j, true));
    let mut stop3 = event(vec![]);
    stop3.delv = 0;
    stop3.insvd = dna("TA");
    // TGTGCCA TA GGG TT TTTG -> TGT GCC ATA GGG TTT TTG: no stop
    assert!(accept_event(&stop3, &v, &d, &j, true));
    stop3.insvd = dna("GA");
    stop3.errors = vec![(6, b'T'), (7, b'A'), (8, b'A')];
    // TGTGCC TAA ... -> stop codon at the third codon
    assert!(!accept_event(&stop3, &v, &d, &j, true));
}
